use vstd::prelude::*;
use vstd::string::StringExecFns;

verus! {

/// The name of the CSV file for an export made at `stamp`.
pub open spec fn export_filename_text(stamp: Seq<char>) -> Seq<char> {
    "sysmon_export_"@ + stamp + ".csv"@
}

/// The name of the CSV file for an export made at `stamp`
/// (a `%Y%m%d_%H%M%S` local time).
pub fn export_filename(stamp: &str) -> (r: String)
    ensures
        r@ == export_filename_text(stamp@),
{
    let mut r = String::from_str("sysmon_export_");
    r.append(stamp);
    r.append(".csv");
    r
}

} // verus!
