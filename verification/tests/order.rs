use keryx_miner::order::{canonical_order, name_at_most};

#[test]
fn names_are_sorted_by_their_bytes() {
    let names = ["output.weight", "blk.10.attn", "blk.2.attn", "Blk", "é", "z", ""];
    let mut expected: Vec<String> = names.iter().map(|s| s.to_string()).collect();
    let sorted = canonical_order(expected.clone());
    expected.sort();
    assert_eq!(sorted, expected);
    assert_eq!(sorted[0], "");
    assert_eq!(sorted[2], "blk.10.attn");
}

#[test]
fn the_order_does_not_depend_on_where_it_started() {
    let a = canonical_order(vec!["c".into(), "a".into(), "b".into()]);
    let b = canonical_order(vec!["b".into(), "c".into(), "a".into()]);
    assert_eq!(a, b);
}

#[test]
fn a_prefix_comes_first() {
    assert!(name_at_most("blk", "blk.0"));
    assert!(!name_at_most("blk.0", "blk"));
    assert!(name_at_most("blk", "blk"));
}
