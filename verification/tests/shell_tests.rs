use kosmos_core::heap::HeapArena;
use kosmos_core::heap::HEAP_SIZE;
use kosmos_core::shell::cpu_line;
use kosmos_core::shell::get_stats;
use kosmos_core::shell::parse_command;
use kosmos_core::shell::trim_after_ghz;
use kosmos_core::shell::uptime_line;
use kosmos_core::shell::Command;

#[test]
fn commands_parse_without_regard_to_ascii_case() {
    assert_eq!(parse_command("fetch"), Command::Fetch);
    assert_eq!(parse_command("FETCH"), Command::Fetch);
    assert_eq!(parse_command("FeTcH"), Command::Fetch);
    assert_eq!(parse_command("clear"), Command::Clear);
    assert_eq!(parse_command("Clear"), Command::Clear);
    assert_eq!(parse_command("ls"), Command::Unknown);
    assert_eq!(parse_command(""), Command::Unknown);
    assert_eq!(parse_command("fetch "), Command::Unknown);
}

#[test]
fn brand_strings_are_cut_after_the_clock_speed() {
    assert_eq!(
        trim_after_ghz("Intel(R) Core(TM) i7-8700 CPU @ 3.20GHz          "),
        "Intel(R) Core(TM) i7-8700 CPU @ 3.20GHz"
    );
    assert_eq!(trim_after_ghz("Some CPU without a speed"), "Some CPU without a speed");
    assert_eq!(trim_after_ghz(""), "");
    assert_eq!(trim_after_ghz("GHz"), "GHz");
    // only the first occurrence counts
    assert_eq!(trim_after_ghz("1GHz 2GHz"), "1GHz");
}

#[test]
fn cpu_line_uses_the_brand_or_the_fallback() {
    assert_eq!(
        cpu_line(Some("AMD Thing @ 2.00GHz extra".to_string())),
        "CPU: AMD Thing @ 2.00GHz"
    );
    assert_eq!(cpu_line(None), "CPU: Unknown CPU");
}

#[test]
fn uptime_line_pads_hours_and_minutes() {
    assert_eq!(uptime_line(0), "Uptime: 00h 00m 00s");
    assert_eq!(uptime_line(123), "Uptime: 00h 02m 123s");
    assert_eq!(uptime_line(7322), "Uptime: 02h 02m 7322s");
}

#[test]
fn stats_report_os_uptime_cpu_and_heap() {
    let arena = HeapArena::new(HEAP_SIZE);
    let stats = get_stats(12345, &arena);
    assert_eq!(stats.len(), 4);
    assert_eq!(stats[0], "OS: Kosmos v0.0.1");
    assert_eq!(stats[1], "Uptime: 00h 02m 123s");
    assert!(stats[2].starts_with("CPU: "));
    assert_eq!(stats[3], "Heap: 0 / 1000 KiB");
}
