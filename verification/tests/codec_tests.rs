use cleanup::escape_bytes;
use cleanup::escape_path;

#[test]
fn test_escape_path_invalid_utf8() {
    let source = [0x66, 0x6f, 0x80, 0x6f];
    let res = escape_path(&source);
    assert_eq!(res, "'fo'$'\\200''o'");
}

#[test]
fn test_escape_path_sparkle_heart() {
    let source = [240, 159, 146, 150];
    let res = escape_path(&source);
    assert_eq!(res, "''$'\\360\\237\\222\\226'");
}

#[test]
fn test_escape_path_limits() {
    let source = [1, 31, 32, 0x7f, 0x7e];
    let res = escape_path(&source);
    assert_eq!(res, "''$'\\001\\037'' '$'\\177''~'");
}

#[test]
fn test_escape_path_plain() {
    let res = escape_path(b"/src/a.txt");
    assert_eq!(res, "'/src/a.txt'");
}

#[test]
fn test_escape_path_single_quote() {
    let res = escape_path(b"a'b");
    assert_eq!(res, "'a'\\''b'");
}

#[test]
fn test_escape_path_quote_control_and_invalid_sequence() {
    // A quote, a control byte and a byte that cannot start a valid
    // multi-byte sequence, in one path.
    let source = [0x27, 0x01, 0xc3, b'a'];
    let res = escape_path(&source);
    assert_eq!(res, "''\\'''$'\\001\\303''a'");
}

#[test]
fn test_escape_path_empty() {
    let res = escape_path(b"");
    assert_eq!(res, "''");
}

#[test]
fn test_escape_bytes_matches_escape_path() {
    let source = [0x66, 0x6f, 0x80, 0x6f];
    let bytes = escape_bytes(&source);
    let text = escape_path(&source);
    assert_eq!(bytes, text.as_bytes().to_vec());
}
