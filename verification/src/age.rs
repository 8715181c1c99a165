//! Age-selection predicate: a file qualifies as old when every enabled
//! timestamp field lies strictly before the cutoff instant.

use vstd::prelude::*;

verus! {

/// Which timestamp checks are disabled, and the cutoff they are held against.
///
/// A disabled field is simply not evaluated; with all three disabled there
/// is no criterion left to fail, so every file is selected.
pub struct AgeRule {
    pub noatime: bool,
    pub nomtime: bool,
    pub noctime: bool,
    /// Seconds since the Unix epoch; a timestamp is old when it is `< cutoff`.
    pub cutoff: i64,
}

/// A file with the given timestamps is selected under `rule`: every enabled
/// field is strictly earlier than the cutoff.
pub open spec fn selected(rule: AgeRule, atime: i64, mtime: i64, ctime: i64) -> bool {
    &&& (!rule.noatime ==> atime < rule.cutoff)
    &&& (!rule.nomtime ==> mtime < rule.cutoff)
    &&& (!rule.noctime ==> ctime < rule.cutoff)
}

/// Decides whether a file is old enough to relocate.
pub fn is_old(rule: &AgeRule, atime: i64, mtime: i64, ctime: i64) -> (r: bool)
    ensures
        r == selected(*rule, atime, mtime, ctime),
{
    let mut old = true;
    if !rule.noatime {
        old = old && atime < rule.cutoff;
    }
    if !rule.nomtime {
        old = old && mtime < rule.cutoff;
    }
    if !rule.noctime {
        old = old && ctime < rule.cutoff;
    }
    old
}

/// With every check disabled there is no criterion to fail: every file is
/// selected, whatever its timestamps.
pub proof fn lemma_all_disabled_selects_all(rule: AgeRule, atime: i64, mtime: i64, ctime: i64)
    requires
        rule.noatime,
        rule.nomtime,
        rule.noctime,
    ensures
        selected(rule, atime, mtime, ctime),
{
}

} // verus!
