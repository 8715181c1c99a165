use cleanup::ledger::Ledger;
use cleanup::num::u32_to_le;

fn unique_dir(tag: &str) -> String {
    let nanos = std::time::SystemTime::now()
        .duration_since(std::time::UNIX_EPOCH)
        .unwrap()
        .as_nanos();
    format!("/tmp/{}_{}", tag, nanos)
}

#[test]
fn test_sequence_starts_at_zero_and_is_contiguous() {
    let dir = unique_dir("ledger_fresh");
    let mut l = Ledger::open(&dir).unwrap();
    assert_eq!(l.next_seq(1000).unwrap(), 0);
    assert_eq!(l.next_seq(1000).unwrap(), 1);
    assert_eq!(l.next_seq(1000).unwrap(), 2);
}

#[test]
fn test_sequences_are_independent_per_owner() {
    let dir = unique_dir("ledger_owners");
    let mut l = Ledger::open(&dir).unwrap();
    assert_eq!(l.next_seq(1000).unwrap(), 0);
    assert_eq!(l.next_seq(2000).unwrap(), 0);
    assert_eq!(l.next_seq(1000).unwrap(), 1);
    assert_eq!(l.next_seq(2000).unwrap(), 1);
}

#[test]
fn test_resumed_run_continues_the_sequence() {
    // A second invocation against the same destination never reuses a
    // number the first one handed out.
    let dir = unique_dir("ledger_resume");
    {
        let mut l = Ledger::open(&dir).unwrap();
        assert_eq!(l.next_seq(1000).unwrap(), 0);
        assert_eq!(l.next_seq(1000).unwrap(), 1);
        l.flush().unwrap();
    }
    let mut l2 = Ledger::open(&dir).unwrap();
    assert_eq!(l2.next_seq(1000).unwrap(), 2);
}

#[test]
fn test_provenance_round_trip() {
    let dir = unique_dir("ledger_prov");
    let mut l = Ledger::open(&dir).unwrap();
    l.record(1000, &b"'/d/1000/0'".to_vec(), &b"'/s/a'".to_vec()).unwrap();
    l.record(1000, &b"'/d/1000/1'".to_vec(), &b"'/s/b'".to_vec()).unwrap();
    let pairs = l.owner_pairs(&u32_to_le(1000)).unwrap();
    assert_eq!(pairs.len(), 2);
    assert!(pairs.contains(&(b"'/d/1000/0'".to_vec(), b"'/s/a'".to_vec())));
    assert!(pairs.contains(&(b"'/d/1000/1'".to_vec(), b"'/s/b'".to_vec())));
}

#[test]
fn test_counter_keyspace_has_its_name() {
    let dir = unique_dir("ledger_counter_name");
    let mut l = Ledger::open(&dir).unwrap();
    l.next_seq(1).unwrap();
    assert!(l.owner_names().contains(&b"cleanup_uids".to_vec()));
}

#[test]
fn test_owner_pairs_come_back_sorted_by_key() {
    let dir = unique_dir("ledger_sorted");
    let mut l = Ledger::open(&dir).unwrap();
    l.record(1000, &b"b".to_vec(), &b"2".to_vec()).unwrap();
    l.record(1000, &b"a".to_vec(), &b"1".to_vec()).unwrap();
    let pairs = l.owner_pairs(&u32_to_le(1000)).unwrap();
    assert_eq!(
        pairs,
        vec![(b"a".to_vec(), b"1".to_vec()), (b"b".to_vec(), b"2".to_vec())]
    );
}

#[test]
fn test_owner_names_contains_recorded_owner() {
    let dir = unique_dir("ledger_names");
    let mut l = Ledger::open(&dir).unwrap();
    l.record(1000, &b"k".to_vec(), &b"v".to_vec()).unwrap();
    let names = l.owner_names();
    assert!(names.contains(&u32_to_le(1000)));
}
