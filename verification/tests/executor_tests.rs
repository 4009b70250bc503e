use kosmos_core::executor::Executor;
use kosmos_core::executor::PollOutcome;
use kosmos_core::shell::spawn_shell;

#[test]
fn spawned_tasks_are_polled_in_spawn_order() {
    let mut e = Executor::new();
    let a = e.spawn();
    let b = e.spawn();
    assert_eq!((a, b), (0, 1));
    assert_eq!(e.task_count(), 2);
    assert_eq!(e.pop_ready(), Some(0));
    e.report_poll(0, PollOutcome::Pending);
    assert_eq!(e.pop_ready(), Some(1));
    e.report_poll(1, PollOutcome::Done);
    assert_eq!(e.task_count(), 1);
    assert_eq!(e.pop_ready(), None);
}

#[test]
fn wake_before_idle_check_is_never_missed() {
    let mut e = Executor::new();
    let id = e.spawn();
    assert_eq!(e.pop_ready(), Some(id));
    // the task registered on a queue and returned pending...
    e.report_poll(id, PollOutcome::Pending);
    // ...and an interrupt woke it before the idle-halt check
    e.wake(id);
    // the disable-interrupts re-check drains the wake: no halt
    assert_eq!(e.sleep_if_idle(), false);
    assert_eq!(e.pop_ready(), Some(id));
}

#[test]
fn executor_halts_when_nothing_is_runnable() {
    let mut e = Executor::new();
    let id = e.spawn();
    assert_eq!(e.pop_ready(), Some(id));
    e.report_poll(id, PollOutcome::Pending);
    assert_eq!(e.sleep_if_idle(), true);
}

#[test]
fn wakes_for_completed_tasks_are_dropped() {
    let mut e = Executor::new();
    let id = e.spawn();
    assert_eq!(e.pop_ready(), Some(id));
    e.report_poll(id, PollOutcome::Done);
    e.wake(id);
    assert_eq!(e.sleep_if_idle(), true);
}

#[test]
fn duplicate_wakes_enqueue_a_task_once() {
    let mut e = Executor::new();
    let id = e.spawn();
    assert_eq!(e.pop_ready(), Some(id));
    e.report_poll(id, PollOutcome::Pending);
    e.wake(id);
    e.wake(id);
    assert_eq!(e.sleep_if_idle(), false);
    assert_eq!(e.pop_ready(), Some(id));
    assert_eq!(e.pop_ready(), None);
}

#[test]
fn spawn_shell_queues_the_shell_task() {
    let mut e = Executor::new();
    let id = spawn_shell(&mut e);
    assert_eq!(id, 0);
    assert_eq!(e.task_count(), 1);
    assert_eq!(e.pop_ready(), Some(id));
}
