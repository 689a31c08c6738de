use wasmcord::text::{parse_u64, push_decimal, str_eq};

#[test]
fn decimal_numbers_are_read_like_from_str() {
    for s in ["0", "7", "+7", "0042", "18446744073709551615", "123456789"] {
        assert_eq!(parse_u64(s), s.parse::<u64>().ok(), "{s}");
    }
    for s in ["", "+", "-1", "18446744073709551616", "1 ", " 1", "1a", "٣", "99999999999999999999"] {
        assert_eq!(parse_u64(s), None, "{s}");
        assert_eq!(s.parse::<u64>().ok(), None, "{s}");
    }
}

#[test]
fn decimal_text_is_written_like_display() {
    for n in [0u64, 5, 10, 99, 100, 1234567890, u64::MAX] {
        let mut s = String::from("n=");
        push_decimal(&mut s, n);
        assert_eq!(s, format!("n={n}"));
    }
}

#[test]
fn string_equality() {
    assert!(str_eq("abc", "abc"));
    assert!(str_eq("", ""));
    assert!(!str_eq("abc", "abd"));
    assert!(!str_eq("ab", "abc"));
    assert!(str_eq("héllo", "héllo"));
    assert!(!str_eq("é", "e"));
}
