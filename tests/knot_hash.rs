use aoclib::knot_hash::{knot_hash_as_hex, Ring};

#[test]
fn reduce_default_2() {
    let ring = Ring::new(10);
    assert_eq!(ring.reduce(2), vec![1, 1, 1, 1, 1]);
}

#[test]
fn reduce_default_3() {
    let ring = Ring::new(9);
    assert_eq!(ring.reduce(3), vec![3, 2, 9]);
}

#[test]
fn reduce_size_1() {
    let ring = Ring::new(5);
    assert_eq!(ring.reduce(1), vec![0, 1, 2, 3, 4]);
}

#[test]
fn knot_hash() {
    assert_eq!(knot_hash_as_hex(""), "a2582a3a0e66e6e86e3812dcb672a272");
    assert_eq!(knot_hash_as_hex("AoC 2017"), "33efeb34ea91902bb2f59c9920caa6cd");
    assert_eq!(knot_hash_as_hex("1,2,3"), "3efbe78a8d82f29979031a4aa0b16a9d");
    assert_eq!(knot_hash_as_hex("1,2,4"), "63960835bcdc130f0b66d7ff4f6a5a8e");
}

#[test]
fn advance_ties_knots() {
    let mut ring = Ring::new(5);
    assert_eq!(ring.advance(3), 2);
    assert_eq!(ring.advance(4), 12);
    assert_eq!(ring.advance(1), 12);
    assert_eq!(ring.advance(5), 12);
    assert_eq!(ring.reduce(5), vec![3 ^ 4 ^ 2 ^ 1 ^ 0]);
}

#[test]
fn raw_hash_is_sixteen_bytes() {
    let h = aoclib::knot_hash::knot_hash("");
    assert_eq!(h.len(), 16);
    assert_eq!(h[0], 0xa2);
}
