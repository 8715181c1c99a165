use cleanup::num::u32_from_le;
use cleanup::num::u32_to_dec;
use cleanup::num::u32_to_le;
use cleanup::seqno::next_counter_cell;

#[test]
fn test_le_round_trip() {
    for n in [0u32, 1, 255, 256, 0x01020304, u32::MAX] {
        let bytes = u32_to_le(n);
        assert_eq!(bytes.len(), 4);
        assert_eq!(u32_from_le(&bytes), n);
    }
}

#[test]
fn test_le_known_value() {
    assert_eq!(u32_to_le(1000), vec![0xe8, 0x03, 0x00, 0x00]);
}

#[test]
fn test_dec_zero() {
    assert_eq!(u32_to_dec(0), b"0".to_vec());
}

#[test]
fn test_dec_values() {
    assert_eq!(u32_to_dec(7), b"7".to_vec());
    assert_eq!(u32_to_dec(10), b"10".to_vec());
    assert_eq!(u32_to_dec(1000), b"1000".to_vec());
    assert_eq!(u32_to_dec(u32::MAX), b"4294967295".to_vec());
}

#[test]
fn test_counter_cell_fresh_assigns_zero() {
    let cell = next_counter_cell(None);
    assert_eq!(u32_from_le(&cell), 0);
}

#[test]
fn test_counter_cell_advances_by_one() {
    let prev = u32_to_le(5);
    let cell = next_counter_cell(Some(&prev));
    assert_eq!(u32_from_le(&cell), 6);
}

#[test]
fn test_counter_cell_malformed_restarts() {
    let cell = next_counter_cell(Some(&[1, 2]));
    assert_eq!(u32_from_le(&cell), 0);
}

#[test]
fn test_counter_cell_saturates() {
    let prev = u32_to_le(u32::MAX);
    let cell = next_counter_cell(Some(&prev));
    assert_eq!(u32_from_le(&cell), u32::MAX);
}
