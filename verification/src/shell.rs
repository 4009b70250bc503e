//! The shell's command handling and the stats it reports: command
//! parsing, the processor-name trim, and the four status lines.
//!
//! The decorative rendering — the banner, the colored art next to the
//! stats — is display output outside the core and lives with the rest of
//! the I/O code; what is parsed and computed is here.

use vstd::prelude::*;
use vstd::string::StrSliceExecFns;
use vstd::string::StringExecFns;
use crate::executor::Executor;
use crate::heap::HEAP_SIZE;
use crate::heap::HeapArena;
use crate::heap::heap_stat;
use crate::heap::spec_heap_stat;
use crate::text::push_u64_pad2;
use crate::text::spec_decimal_pad2;
use crate::timer::TIMER_HZ;
use crate::timer::uptime_seconds;

verus! {

/// A parsed shell command.
#[derive(Clone, Copy, Debug, PartialEq, Eq, Structural)]
pub enum Command {
    Fetch,
    Clear,
    Unknown,
}

/// An ASCII upper-case letter folded to lower case; anything else is
/// left as it is.
pub open spec fn spec_ascii_lower(c: char) -> char {
    if 'A' <= c && c <= 'Z' {
        ((c as u8) + 32) as char
    } else {
        c
    }
}

/// Equality of two character sequences up to ASCII case.
pub open spec fn spec_eq_ignore_ascii_case(a: Seq<char>, b: Seq<char>) -> bool {
    a.len() == b.len() && forall|i: int|
        0 <= i < a.len() ==> spec_ascii_lower(#[trigger] a[i]) == spec_ascii_lower(b[i])
}

/// What an input line parses to: `fetch` and `clear`, compared without
/// regard to ASCII case; everything else is unknown.
pub open spec fn spec_parse_command(input: Seq<char>) -> Command {
    if spec_eq_ignore_ascii_case(input, "fetch"@) {
        Command::Fetch
    } else if spec_eq_ignore_ascii_case(input, "clear"@) {
        Command::Clear
    } else {
        Command::Unknown
    }
}

fn ascii_lower(c: char) -> (r: char)
    ensures
        r == spec_ascii_lower(c),
{
    if 'A' <= c && c <= 'Z' {
        ((c as u8) + 32) as char
    } else {
        c
    }
}

fn eq_ignore_ascii_case(a: &str, b: &str) -> (r: bool)
    ensures
        r == spec_eq_ignore_ascii_case(a@, b@),
{
    let a_len = a.unicode_len();
    let b_len = b.unicode_len();
    if a_len != b_len {
        return false;
    }
    let mut i: usize = 0;
    while i < a_len
        invariant
            a_len == a@.len(),
            b_len == b@.len(),
            a_len == b_len,
            i <= a_len,
            forall|j: int|
                0 <= j < i ==> spec_ascii_lower(#[trigger] a@[j]) == spec_ascii_lower(b@[j]),
        decreases a_len - i,
    {
        let ca = a.get_char(i);
        let cb = b.get_char(i);
        if ascii_lower(ca) != ascii_lower(cb) {
            return false;
        }
        i = i + 1;
    }
    true
}

/// Parse one line of input into a command. Unrecognized input is
/// reported as unknown and execution continues; it is never fatal.
pub fn parse_command(input: &str) -> (c: Command)
    ensures
        c == spec_parse_command(input@),
{
    if eq_ignore_ascii_case(input, "fetch") {
        Command::Fetch
    } else if eq_ignore_ascii_case(input, "clear") {
        Command::Clear
    } else {
        Command::Unknown
    }
}

/// The first position where the text `GHz` starts, searching from `i`.
pub open spec fn spec_find_ghz_from(s: Seq<char>, i: int) -> Option<int>
    decreases s.len() - i when 0 <= i
{
    if i + 3 > s.len() {
        None
    } else if s[i] == 'G' && s[i + 1] == 'H' && s[i + 2] == 'z' {
        Some(i)
    } else {
        spec_find_ghz_from(s, i + 1)
    }
}

/// The processor name cut off just after the first `GHz`, or unchanged
/// when `GHz` does not occur.
pub open spec fn spec_trim_after_ghz(s: Seq<char>) -> Seq<char> {
    match spec_find_ghz_from(s, 0) {
        Some(p) => s.take(p + 3),
        None => s,
    }
}

/// Cut the processor brand string just after its clock speed, as the
/// stats view shows it.
pub fn trim_after_ghz(s: &str) -> (r: &str)
    ensures
        r@ == spec_trim_after_ghz(s@),
{
    let len = s.unicode_len();
    let mut i: usize = 0;
    while len - i >= 3
        invariant
            len == s@.len(),
            i <= len,
            spec_find_ghz_from(s@, 0) == spec_find_ghz_from(s@, i as int),
        decreases len - i,
    {
        let c0 = s.get_char(i);
        let c1 = s.get_char(i + 1);
        let c2 = s.get_char(i + 2);
        if c0 == 'G' && c1 == 'H' && c2 == 'z' {
            let r = s.substring_char(0, i + 3);
            proof {
                assert(s@.take(i + 3) =~= s@.subrange(0, i + 3));
            }
            return r;
        }
        i = i + 1;
    }
    s
}

/// Relies on `raw_cpuid::CpuId::get_processor_brand_string`, which runs
/// the `cpuid` instruction: the brand string the processor reports, or
/// none when the machine does not expose one. The result depends on the
/// machine, so nothing is promised of it.
#[verifier::external_body]
fn cpu_brand_string() -> (r: Option<String>) {
    match raw_cpuid::CpuId::new().get_processor_brand_string() {
        Some(brand) => Some(String::from(brand.as_str())),
        None => None,
    }
}

/// The CPU stats line for a given brand string: the brand trimmed after
/// its clock speed, or a fixed fallback when the machine reports none.
pub open spec fn spec_cpu_line(brand: Option<Seq<char>>) -> Seq<char> {
    match brand {
        Some(b) => "CPU: "@ + spec_trim_after_ghz(b),
        None => "CPU: "@ + "Unknown CPU"@,
    }
}

/// Format the CPU stats line from what the machine reported.
pub fn cpu_line(brand: Option<String>) -> (s: String)
    ensures
        brand is Some ==> s@ == spec_cpu_line(Some(brand->0@)),
        brand is None ==> s@ == spec_cpu_line(None),
{
    let mut s = String::from_str("CPU: ");
    match brand {
        Some(b) => {
            s.append(trim_after_ghz(b.as_str()));
        },
        None => {
            s.append("Unknown CPU");
        },
    }
    s
}

/// The uptime line: hours, minutes, and the total seconds, each padded
/// to two digits.
pub open spec fn spec_uptime_line(seconds: int) -> Seq<char> {
    "Uptime: "@ + spec_decimal_pad2(seconds / 3600) + "h "@ + spec_decimal_pad2(
        (seconds % 3600) / 60,
    ) + "m "@ + spec_decimal_pad2(seconds) + "s"@
}

/// Format the uptime line from whole seconds since boot.
pub fn uptime_line(seconds: u64) -> (s: String)
    ensures
        s@ == spec_uptime_line(seconds as int),
{
    let hours = seconds / 3600;
    let minutes = (seconds % 3600) / 60;
    let mut s = String::from_str("Uptime: ");
    push_u64_pad2(&mut s, hours);
    s.append("h ");
    push_u64_pad2(&mut s, minutes);
    s.append("m ");
    push_u64_pad2(&mut s, seconds);
    s.append("s");
    s
}

/// The four stats lines: the OS name, the uptime derived from the tick
/// count, the CPU line as the machine reports it, and the heap summary.
pub fn get_stats(ticks: u64, arena: &HeapArena) -> (r: Vec<String>)
    requires
        arena.wf(),
        arena.size() == HEAP_SIZE,
    ensures
        r@.len() == 4,
        r@[0]@ == "OS: Kosmos v0.0.1"@,
        r@[1]@ == spec_uptime_line((ticks / TIMER_HZ) as int),
        exists|b: Option<Seq<char>>| r@[2]@ == #[trigger] spec_cpu_line(b),
        r@[3]@ == spec_heap_stat(arena.used_bytes(), HEAP_SIZE as int),
{
    let os = String::from_str("OS: Kosmos v0.0.1");

    let seconds = uptime_seconds(ticks);
    let uptime = uptime_line(seconds);

    let brand = cpu_brand_string();
    let ghost brand_view: Option<Seq<char>> = if brand is Some {
        Some(brand->0@)
    } else {
        Option::None
    };
    let cpuinfo = cpu_line(brand);
    proof {
        assert(cpuinfo@ == spec_cpu_line(brand_view));
    }

    let heapinfo = heap_stat(arena);

    let mut r: Vec<String> = Vec::new();
    r.push(os);
    r.push(uptime);
    r.push(cpuinfo);
    r.push(heapinfo);
    r
}

/// Spawn the shell task: the returned id is what the caller binds the
/// running shell to, and what the bridge later wakes.
pub fn spawn_shell(executor: &mut Executor) -> (id: u64)
    requires
        old(executor).wf(),
        old(executor).next_id() < u64::MAX,
    ensures
        final(executor).wf(),
        id == old(executor).next_id(),
        final(executor).live() == old(executor).live().push(id),
        final(executor).ready() == old(executor).ready().push(id),
        final(executor).woken() == old(executor).woken(),
        final(executor).next_id() == old(executor).next_id() + 1,
{
    executor.spawn()
}

} // verus!
