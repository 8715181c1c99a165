use cleanup::age::AgeRule;
use cleanup::clock::format_time;
use cleanup::engine::dest_path;
use cleanup::engine::export_owner;
use cleanup::engine::process_candidate;
use cleanup::engine::FileCandidate;
use cleanup::engine::RunConfig;
use cleanup::ledger::Ledger;
use cleanup::num::u32_to_le;

fn unique_dir(tag: &str) -> String {
    let nanos = std::time::SystemTime::now()
        .duration_since(std::time::UNIX_EPOCH)
        .unwrap()
        .as_nanos();
    format!("/tmp/{}_{}", tag, nanos)
}

fn config(dry_run: bool) -> RunConfig {
    RunConfig {
        rule: AgeRule { noatime: false, nomtime: false, noctime: false, cutoff: 1000 },
        dest: b"/dest".to_vec(),
        dry_run,
    }
}

fn old_file() -> FileCandidate {
    FileCandidate { path: b"/src/a.txt".to_vec(), uid: 1000, atime: 500, mtime: 500, ctime: 500 }
}

fn fresh_file() -> FileCandidate {
    FileCandidate { path: b"/src/keep.txt".to_vec(), uid: 1000, atime: 500, mtime: 2000, ctime: 500 }
}

#[test]
fn test_dest_path_layout() {
    assert_eq!(dest_path(&b"/dest".to_vec(), 1000, 0), b"/dest/1000/0".to_vec());
    assert_eq!(dest_path(&b"/dest".to_vec(), 0, 42), b"/dest/0/42".to_vec());
}

#[test]
fn test_scenario_old_file_is_staged_fresh_file_is_not() {
    let dir = unique_dir("engine_scenario");
    let mut l = Ledger::open(&dir).unwrap();
    let cfg = config(false);

    let staged = process_candidate(&mut l, &cfg, &old_file()).unwrap();
    let st = staged.expect("an old file must be staged");
    assert_eq!(st.seq, 0);
    assert_eq!(st.dest_path, b"/dest/1000/0".to_vec());
    assert_eq!(st.prov_key, b"'/dest/1000/0'".to_vec());
    assert_eq!(st.prov_val, b"'/src/a.txt'".to_vec());
    assert!(st.audit.ends_with(",   1000, '/src/a.txt'"));

    let skipped = process_candidate(&mut l, &cfg, &fresh_file()).unwrap();
    assert!(skipped.is_none());

    // The fresh file consumed no sequence number.
    let staged2 = process_candidate(&mut l, &cfg, &old_file()).unwrap().unwrap();
    assert_eq!(staged2.seq, 1);
    assert_eq!(staged2.dest_path, b"/dest/1000/1".to_vec());
}

#[test]
fn test_scenario_export_matches_recorded_provenance() {
    let dir = unique_dir("engine_export");
    let mut l = Ledger::open(&dir).unwrap();
    let cfg = config(false);
    let st = process_candidate(&mut l, &cfg, &old_file()).unwrap().unwrap();
    l.record(1000, &st.prov_key, &st.prov_val).unwrap();
    l.flush().unwrap();

    let exported = export_owner(&mut l, &u32_to_le(1000)).unwrap();
    let (uid, json) = exported.expect("the recorded owner must be exported");
    assert_eq!(uid, 1000);
    let parsed: serde_json::Value = serde_json::from_str(&json).unwrap();
    let obj = parsed.as_object().unwrap();
    assert_eq!(obj.len(), 1);
    assert_eq!(obj.get("'/dest/1000/0'").unwrap().as_str().unwrap(), "'/src/a.txt'");
}

#[test]
fn test_export_passes_over_non_owner_keyspaces() {
    let dir = unique_dir("engine_names");
    let mut l = Ledger::open(&dir).unwrap();
    // The counter keyspace's name is not 4 bytes long.
    let r = export_owner(&mut l, &b"cleanup_uids".to_vec()).unwrap();
    assert!(r.is_none());
}

#[test]
fn test_dry_run_stages_the_same_outcome() {
    // Staging does not depend on the dry-run flag; only the binary's
    // physical actions differ.
    let dir_a = unique_dir("engine_dry_a");
    let dir_b = unique_dir("engine_dry_b");
    let mut la = Ledger::open(&dir_a).unwrap();
    let mut lb = Ledger::open(&dir_b).unwrap();
    let sa = process_candidate(&mut la, &config(false), &old_file()).unwrap().unwrap();
    let sb = process_candidate(&mut lb, &config(true), &old_file()).unwrap().unwrap();
    assert_eq!(sa.seq, sb.seq);
    assert_eq!(sa.dest_path, sb.dest_path);
    assert_eq!(sa.prov_key, sb.prov_key);
    assert_eq!(sa.prov_val, sb.prov_val);
    assert_eq!(sa.audit, sb.audit);
}

#[test]
fn test_format_time_succeeds_for_ordinary_instants() {
    let r = format_time(0).unwrap();
    assert!(!r.is_empty());
}
