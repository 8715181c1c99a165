use cleanup::jsonout::json_object_text;

#[test]
fn test_json_empty_object() {
    let pairs: Vec<(Vec<u8>, Vec<u8>)> = Vec::new();
    assert_eq!(json_object_text(&pairs), "{}");
}

#[test]
fn test_json_single_pair() {
    let pairs = vec![(b"'/dest/1000/0'".to_vec(), b"'/src/a.txt'".to_vec())];
    assert_eq!(json_object_text(&pairs), "{\"'/dest/1000/0'\":\"'/src/a.txt'\"}");
}

#[test]
fn test_json_two_pairs() {
    let pairs = vec![(b"a".to_vec(), b"1".to_vec()), (b"b".to_vec(), b"2".to_vec())];
    assert_eq!(json_object_text(&pairs), "{\"a\":\"1\",\"b\":\"2\"}");
}

#[test]
fn test_json_escapes_quote_and_backslash() {
    let pairs = vec![(b"k\"ey".to_vec(), b"v\\al".to_vec())];
    assert_eq!(json_object_text(&pairs), "{\"k\\\"ey\":\"v\\\\al\"}");
}

#[test]
fn test_json_escapes_control_and_high_bytes() {
    let pairs = vec![(vec![0x01u8], vec![0xffu8])];
    assert_eq!(json_object_text(&pairs), "{\"\\u0001\":\"\\u00ff\"}");
}

#[test]
fn test_json_parses_back() {
    // The emitted object reads back as the same mapping under a JSON parser.
    let pairs = vec![
        (b"'/dest/1000/0'".to_vec(), b"'/src/a.txt'".to_vec()),
        (b"'/dest/1000/1'".to_vec(), b"'/src/b bis'".to_vec()),
    ];
    let text = json_object_text(&pairs);
    let parsed: serde_json::Value = serde_json::from_str(&text).unwrap();
    let obj = parsed.as_object().unwrap();
    assert_eq!(obj.len(), 2);
    assert_eq!(obj.get("'/dest/1000/0'").unwrap().as_str().unwrap(), "'/src/a.txt'");
    assert_eq!(obj.get("'/dest/1000/1'").unwrap().as_str().unwrap(), "'/src/b bis'");
}
