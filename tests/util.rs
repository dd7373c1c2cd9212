use aoclib::{numbers_to_hex_string, reverse_circular_vec_segment};

#[test]
fn reverse_segment_zero() {
    let mut v = vec![0, 1, 2, 3, 4, 5];
    reverse_circular_vec_segment(&mut v, 0, 0);
    assert_eq!(v, vec![0, 1, 2, 3, 4, 5]);
}

#[test]
fn reverse_segment_one() {
    let mut v = vec![0, 1, 2, 3, 4, 5];
    reverse_circular_vec_segment(&mut v, 0, 1);
    assert_eq!(v, vec![0, 1, 2, 3, 4, 5]);
}

#[test]
fn reverse_partial_segment() {
    let mut v = vec![0, 1, 2, 3, 4, 5];
    reverse_circular_vec_segment(&mut v, 1, 3);
    assert_eq!(v, vec![0, 3, 2, 1, 4, 5]);
}

#[test]
fn reverse_partial_segment_wrap() {
    let mut v = vec![0, 1, 2, 3, 4, 5];
    reverse_circular_vec_segment(&mut v, 4, 3);
    assert_eq!(v, vec![4, 1, 2, 3, 0, 5]);
}

#[test]
fn reverse_whole_segment() {
    let mut v = vec![0, 1, 2, 3, 4, 5];
    reverse_circular_vec_segment(&mut v, 0, 6);
    assert_eq!(v, vec![5, 4, 3, 2, 1, 0]);
}

#[test]
fn reverse_whole_segment_wrap() {
    let mut v = vec![0, 1, 2, 3, 4, 5];
    reverse_circular_vec_segment(&mut v, 3, 6);
    assert_eq!(v, vec![5, 4, 3, 2, 1, 0]);
}

#[test]
fn format_hex_u8() {
    assert_eq!(
        numbers_to_hex_string(&(0x0u8..0x10u8).collect::<Vec<u8>>()),
        "000102030405060708090a0b0c0d0e0f"
    );
}

#[test]
fn format_hex_u32() {
    assert_eq!(numbers_to_hex_string(&(0x0u32..0x2u32).collect::<Vec<u32>>()), "0000000000000001");
}

#[test]
fn format_hex_wide_values() {
    assert_eq!(numbers_to_hex_string(&[0xbeefu16, 0x0a0bu16]), "beef0a0b");
    assert_eq!(numbers_to_hex_string(&[u64::MAX]), "ffffffffffffffff");
    assert_eq!(numbers_to_hex_string::<u8>(&[]), "");
}
