use treescan::order::bytes_before;
use treescan::order::key_before;

#[test]
fn bytes_are_ordered_as_in_a_dictionary() {
    assert!(bytes_before(b"", b""));
    assert!(bytes_before(b"", b"a"));
    assert!(!bytes_before(b"a", b""));
    assert!(bytes_before(b"a", b"a"));
    assert!(bytes_before(b"a", b"ab"));
    assert!(!bytes_before(b"ab", b"a"));
    assert!(bytes_before(b"ab", b"b"));
    assert!(!bytes_before(b"b", b"ab"));
    assert!(bytes_before(b"Z", b"a"));
    assert!(bytes_before(b"a\x7f", b"a\x80"));
}

#[test]
fn bytes_order_is_the_order_of_strings() {
    let samples = ["", "a", "A", "ab", "b", "é", "e", "z", "~", "10", "2", "日本", "a.txt"];
    for left in samples {
        for right in samples {
            assert_eq!(bytes_before(left.as_bytes(), right.as_bytes()), left <= right);
        }
    }
}

#[test]
fn keys_are_ordered_by_name_then_path() {
    let key = |name: &str, path: &str, other_name: &str, other_path: &str| {
        key_before(
            &name.to_string(),
            &path.to_string(),
            &other_name.to_string(),
            &other_path.to_string(),
        )
    };
    assert!(key("a", "z/a", "b", "y/b"));
    assert!(!key("b", "y/b", "a", "z/a"));
    assert!(key("n", "x/n", "n", "y/n"));
    assert!(!key("n", "y/n", "n", "x/n"));
    assert!(key("n", "x/n", "n", "x/n"));
}
