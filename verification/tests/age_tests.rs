use cleanup::age::is_old;
use cleanup::age::AgeRule;

fn rule(noatime: bool, nomtime: bool, noctime: bool, cutoff: i64) -> AgeRule {
    AgeRule { noatime, nomtime, noctime, cutoff }
}

#[test]
fn test_age_all_enabled_all_older() {
    let r = rule(false, false, false, 100);
    assert!(is_old(&r, 50, 60, 70));
}

#[test]
fn test_age_all_enabled_one_newer() {
    let r = rule(false, false, false, 100);
    assert!(!is_old(&r, 50, 150, 70));
    assert!(!is_old(&r, 150, 60, 70));
    assert!(!is_old(&r, 50, 60, 170));
}

#[test]
fn test_age_disabled_field_not_evaluated() {
    // mtime is newer than the cutoff, but the mtime check is disabled.
    let r = rule(false, true, false, 100);
    assert!(is_old(&r, 50, 150, 70));
}

#[test]
fn test_age_cutoff_is_strict() {
    let r = rule(false, false, false, 100);
    assert!(!is_old(&r, 100, 50, 50));
    assert!(is_old(&r, 99, 50, 50));
}

#[test]
fn test_age_all_disabled_selects_everything() {
    let r = rule(true, true, true, 100);
    assert!(is_old(&r, i64::MAX, i64::MAX, i64::MAX));
    assert!(is_old(&r, 0, 0, 0));
}
