use kosmos_core::timer::pit_divisor;
use kosmos_core::timer::tick;
use kosmos_core::timer::uptime_seconds;
use kosmos_core::timer::PIT_COMMAND;
use kosmos_core::timer::TIMER_HZ;

#[test]
fn uptime_is_ticks_over_frequency() {
    assert_eq!(uptime_seconds(0), 0);
    assert_eq!(uptime_seconds(99), 0);
    assert_eq!(uptime_seconds(100), 1);
    assert_eq!(uptime_seconds(12345), 123);
    assert_eq!(uptime_seconds(u64::MAX), u64::MAX / TIMER_HZ);
}

#[test]
fn tick_advances_the_counter_by_one() {
    let mut ticks: u64 = 0;
    tick(&mut ticks);
    assert_eq!(ticks, 1);
    for _ in 0..99 {
        tick(&mut ticks);
    }
    assert_eq!(ticks, 100);
    assert_eq!(uptime_seconds(ticks), 1);
}

#[test]
fn pit_programming_values() {
    assert_eq!(pit_divisor(), 11931); // 1193182 / 100
    assert_eq!(PIT_COMMAND, 0x36);
}
