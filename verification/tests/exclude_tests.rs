use cleanup::exclude::dest_rule;
use cleanup::exclude::exclude_file_rule;
use cleanup::exclude::inside;

#[test]
fn test_dest_inside_source_is_excluded() {
    // The forced rule protecting a destination nested in the source.
    let r = dest_rule(&b"/src".to_vec(), &b"/src/old".to_vec());
    assert_eq!(r, Some(b"!/old/".to_vec()));
}

#[test]
fn test_dest_outside_source_needs_no_rule() {
    let r = dest_rule(&b"/src".to_vec(), &b"/dest".to_vec());
    assert_eq!(r, None);
}

#[test]
fn test_dest_sibling_prefix_is_not_inside() {
    // "/srcx" shares the byte prefix but is not below "/src".
    let r = dest_rule(&b"/src".to_vec(), &b"/srcx".to_vec());
    assert_eq!(r, None);
}

#[test]
fn test_dest_under_root_source() {
    let r = dest_rule(&b"/".to_vec(), &b"/old".to_vec());
    assert_eq!(r, Some(b"!/old/".to_vec()));
}

#[test]
fn test_dest_deeply_nested() {
    let r = dest_rule(&b"/a/b".to_vec(), &b"/a/b/c/d".to_vec());
    assert_eq!(r, Some(b"!/c/d/".to_vec()));
}

#[test]
fn test_exclude_file_inside_source() {
    let r = exclude_file_rule(&b"/src".to_vec(), &b"/src/skip.txt".to_vec());
    assert_eq!(r, Some(b"!/skip.txt".to_vec()));
}

#[test]
fn test_exclude_file_outside_source() {
    let r = exclude_file_rule(&b"/src".to_vec(), &b"/etc/skip.txt".to_vec());
    assert_eq!(r, None);
}

#[test]
fn test_inside_equal_paths() {
    assert!(inside(&b"/src".to_vec(), &b"/src".to_vec()));
}
