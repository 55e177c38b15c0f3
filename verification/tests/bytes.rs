use keryx_miner::bytes::{le_leq, read_le_u64, words4, words_to_bytes};

#[test]
fn words_are_little_endian() {
    let mut b = [0u8; 32];
    b[0] = 0x0d;
    b[1] = 0xf0;
    b[31] = 1;
    assert_eq!(words4(&b), [0xf00d, 0, 0, 1 << 56]);
    assert_eq!(read_le_u64(&[9, 8, 7, 6, 5, 4, 3, 2, 1], 1), 0x0102030405060708);
}

#[test]
fn words_go_back_to_the_bytes_they_came_from() {
    let mut b = [0u8; 32];
    for (i, x) in b.iter_mut().enumerate() {
        *x = (i * 7 + 3) as u8;
    }
    assert_eq!(words_to_bytes(&words4(&b)), b);
}

#[test]
fn bytes_go_back_to_the_words_they_came_from() {
    let w = [1, u64::MAX, 0x0123456789abcdef, 1 << 63];
    assert_eq!(words4(&words_to_bytes(&w)), w);
}

#[test]
fn the_last_byte_weighs_most() {
    let mut a = [0xffu8; 32];
    a[31] = 0;
    let mut b = [0u8; 32];
    b[31] = 1;
    assert!(le_leq(&a, &b));
    assert!(!le_leq(&b, &a));
    assert!(le_leq(&a, &a));
}
