use doc_routes::repr::{truncated_repr, truncated_repr_, REPR_LIMIT};
use doc_routes::text::decimal_string;

#[test]
fn repr_within_limit_is_kept() {
    assert_eq!(truncated_repr_::<5>("12345".to_string()), "12345");
    assert_eq!(truncated_repr_::<5>(String::new()), "");
    assert_eq!(truncated_repr_::<0>(String::new()), "");
    assert_eq!(truncated_repr("(a: 1, b: 2)".to_string()), "(a: 1, b: 2)");
}

#[test]
fn repr_over_limit_is_replaced_by_note() {
    assert_eq!(truncated_repr_::<5>("123456".to_string()), "[truncated-repr: 6 bytes]");
    assert_eq!(truncated_repr_::<0>("x".to_string()), "[truncated-repr: 1 bytes]");
    assert_eq!(truncated_repr_::<10>("a".repeat(1234)), "[truncated-repr: 1234 bytes]");
}

#[test]
fn repr_limit_counts_bytes() {
    assert_eq!(truncated_repr_::<3>("éé".to_string()), "[truncated-repr: 4 bytes]");
    assert_eq!(truncated_repr_::<4>("éé".to_string()), "éé");
    assert_eq!(truncated_repr_::<2>("大".to_string()), "[truncated-repr: 3 bytes]");
}

#[test]
fn repr_default_limit() {
    assert_eq!(REPR_LIMIT, 100 * 1024 * 1024);
    let long = "a".repeat(REPR_LIMIT + 1);
    assert_eq!(truncated_repr(long), "[truncated-repr: 104857601 bytes]");
    let whole = "b".repeat(REPR_LIMIT);
    assert_eq!(truncated_repr(whole).len(), REPR_LIMIT);
}

#[test]
fn decimal_notation() {
    assert_eq!(decimal_string(0), "0");
    assert_eq!(decimal_string(7), "7");
    assert_eq!(decimal_string(10), "10");
    assert_eq!(decimal_string(909), "909");
    assert_eq!(decimal_string(65535), "65535");
    assert_eq!(decimal_string(u64::MAX), "18446744073709551615");
    for n in [1u64, 9, 11, 99, 100, 101, 1000, 123456789] {
        assert_eq!(decimal_string(n), n.to_string());
    }
}
