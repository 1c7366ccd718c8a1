use monadeck_overlay::text::{int_text, join_strings, parse_u64, uint_text};

#[test]
fn numbers_print_and_parse_like_std() {
    assert_eq!(int_text(0).iter().collect::<String>(), "0");
    assert_eq!(int_text(-42).iter().collect::<String>(), "-42");
    assert_eq!(int_text(i64::MIN).iter().collect::<String>(), i64::MIN.to_string());
    assert_eq!(uint_text(u64::MAX).iter().collect::<String>(), u64::MAX.to_string());
    for s in ["0", "+17", "18446744073709551615", "18446744073709551616", "", "+", "-1", "12a", " 1"] {
        assert_eq!(parse_u64(s), s.parse::<u64>().ok(), "{s:?}");
    }
}

#[test]
fn strings_join_with_a_separator() {
    let v: Vec<String> = vec!["a".into(), "b".into(), "c".into()];
    assert_eq!(join_strings(&v, ", "), "a, b, c");
    assert_eq!(join_strings(&vec![], ", "), "");
}
