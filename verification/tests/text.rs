use loom::text::{
    contains_str, decimal_exec, decimal_u128, lex_le_exec, parse_u64_exec,
    replace_all_exec, sorted_insert, str_eq, string_set,
};

#[test]
fn replace_all_matches_str_replace() {
    for (s, from, to) in [
        ("a$x b $x", "$x", "<v>"),
        ("aaa", "aa", "b"),
        ("abc", "", "-"),
        ("", "x", "y"),
        ("no match", "zz", "y"),
    ] {
        assert_eq!(replace_all_exec(s, from, to), s.replace(from, to));
    }
}

#[test]
fn decimal_rendering() {
    assert_eq!(decimal_exec(0), "0");
    assert_eq!(decimal_exec(1907), "1907");
    assert_eq!(decimal_exec(u64::MAX), u64::MAX.to_string());
    assert_eq!(decimal_u128(u128::MAX), u128::MAX.to_string());
}

#[test]
fn parse_u64_follows_from_str() {
    for s in ["0", "42", "+7", "", "+", "-1", "12a", "18446744073709551615", "18446744073709551616"] {
        assert_eq!(parse_u64_exec(s), s.parse::<u64>().ok(), "input {s:?}");
    }
}

#[test]
fn lexicographic_order_is_the_str_order() {
    for (a, b) in [("a", "b"), ("b", "a"), ("ab", "a"), ("a", "ab"), ("", ""), ("Z", "a")] {
        assert_eq!(lex_le_exec(a, b), a <= b, "{a:?} <= {b:?}");
    }
}

#[test]
fn string_helpers() {
    assert!(str_eq("x", "x"));
    assert!(!str_eq("x", "y"));
    let v = vec!["b".to_string(), "a".to_string()];
    assert!(contains_str(&v, "a"));
    assert!(!contains_str(&v, "c"));
}

#[test]
fn sorted_sets_of_strings() {
    let mut v = vec!["a".to_string(), "c".to_string()];
    sorted_insert(&mut v, "b".to_string());
    sorted_insert(&mut v, "c".to_string());
    assert_eq!(v, vec!["a", "b", "c"]);
    let s = string_set(&vec!["z".to_string(), "x".to_string(), "z".to_string()]);
    assert_eq!(s, vec!["x", "z"]);
}
