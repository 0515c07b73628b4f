use crate::history::HistoryBuffer;
use crate::process::SortBy;
use crate::text::{decimal, push_decimal};
use vstd::arithmetic::div_mod::lemma_fundamental_div_mod;
use vstd::prelude::*;
use vstd::string::StringExecFns;

verus! {

/// Uptime as days, hours, minutes and seconds: `"{d}d {h}h {m}m {s}s"`.
pub open spec fn uptime_text(seconds: nat) -> Seq<char> {
    let days = seconds / 86400;
    let after_days = seconds % 86400;
    let hours = after_days / 3600;
    let after_hours = after_days % 3600;
    let minutes = after_hours / 60;
    let secs = after_hours % 60;
    decimal(days) + "d "@ + decimal(hours) + "h "@ + decimal(minutes) + "m "@ + decimal(secs) + "s"@
}

/// Formats an uptime given in seconds.
pub fn format_uptime(seconds: u64) -> (r: String)
    ensures
        r@ == uptime_text(seconds as nat),
{
    let days = seconds / 86400;
    let after_days = seconds % 86400;
    let hours = after_days / 3600;
    let after_hours = after_days % 3600;
    let minutes = after_hours / 60;
    let secs = after_hours % 60;
    let mut r = String::new();
    push_decimal(&mut r, days);
    r.append("d ");
    push_decimal(&mut r, hours);
    r.append("h ");
    push_decimal(&mut r, minutes);
    r.append("m ");
    push_decimal(&mut r, secs);
    r.append("s");
    r
}

/// The days, hours, minutes and seconds of an uptime add back up to it, and
/// each part below days is within its range.
pub proof fn lemma_uptime_parts(seconds: nat)
    ensures
        ({
            let after_days = seconds % 86400;
            let after_hours = after_days % 3600;
            &&& (seconds / 86400) * 86400 + (after_days / 3600) * 3600 + (after_hours / 60) * 60
                + after_hours % 60 == seconds
            &&& after_days / 3600 < 24
            &&& after_hours / 60 < 60
            &&& after_hours % 60 < 60
        }),
{
    let after_days = seconds % 86400;
    let after_hours = after_days % 3600;
    assert(after_days / 3600 < 24) by (nonlinear_arith)
        requires
            after_days < 86400,
    ;
    lemma_fundamental_div_mod(seconds as int, 86400);
    lemma_fundamental_div_mod(after_days as int, 3600);
    lemma_fundamental_div_mod(after_hours as int, 60);
    assert(after_hours / 60 < 60) by (nonlinear_arith)
        requires
            after_hours < 3600,
    ;
}

/// The sort label shown in the process table's title.
pub open spec fn sort_label_text(mode: SortBy) -> Seq<char> {
    match mode {
        SortBy::Cpu => "Sort: CPU (s)"@,
        SortBy::Memory => "Sort: Mem (s)"@,
        SortBy::Pid => "Sort: PID (s)"@,
        SortBy::Name => "Sort: Name (s)"@,
    }
}

/// The sort label shown in the process table's title.
pub fn sort_label(mode: SortBy) -> (r: &'static str)
    ensures
        r@ == sort_label_text(mode),
{
    match mode {
        SortBy::Cpu => "Sort: CPU (s)",
        SortBy::Memory => "Sort: Mem (s)",
        SortBy::Pid => "Sort: PID (s)",
        SortBy::Name => "Sort: Name (s)",
    }
}

/// The process table's title for `total` listed processes.
pub open spec fn table_title_text(total: nat, mode: SortBy) -> Seq<char> {
    " Processes [Total: "@ + decimal(total) + "] | "@ + sort_label_text(mode) + " | Arrows to navigate "@
}

/// The process table's title for `total` listed processes.
pub fn process_table_title(total: usize, mode: SortBy) -> (r: String)
    ensures
        r@ == table_title_text(total as nat, mode),
{
    let mut r = String::from_str(" Processes [Total: ");
    push_decimal(&mut r, total as u64);
    r.append("] | ");
    r.append(sort_label(mode));
    r.append(" | Arrows to navigate ");
    r
}

/// Percentages of the width given to the CPU, memory and network charts:
/// wide terminals show all three, narrow ones only the first two.
pub fn chart_split(width: u16) -> (r: (u16, u16, u16))
    ensures
        width > 100 ==> r == (33u16, 33u16, 33u16),
        width <= 100 ==> r == (50u16, 50u16, 0u16),
{
    if width > 100 {
        (33, 33, 33)
    } else {
        (50, 50, 0)
    }
}

/// A byte-count history in kibibytes (rounded down), oldest first.
pub fn kilobytes(history: &HistoryBuffer<u64>) -> (r: Vec<u64>)
    ensures
        r.len() == history@.len(),
        forall|i: int| 0 <= i < r.len() ==> #[trigger] r@[i] == history@[i] / 1024,
{
    let mut r: Vec<u64> = Vec::new();
    for x in it: history.iter()
        invariant
            it.seq() == history@.as_ref(),
            r.len() == it.index(),
            forall|i: int| 0 <= i < r.len() ==> #[trigger] r@[i] == history@[i] / 1024,
    {
        r.push(*x / 1024);
    }
    r
}

} // verus!
