use respkv::resp::text::{parse_usize, str_eq, to_lower, usize_to_string};

#[test]
fn folds_only_ascii_upper_case() {
    assert_eq!(to_lower(b'A'), b'a');
    assert_eq!(to_lower(b'Z'), b'z');
    assert_eq!(to_lower(b'a'), b'a');
    assert_eq!(to_lower(b'@'), b'@');
    assert_eq!(to_lower(b'['), b'[');
    assert_eq!(to_lower(0xC9), 0xC9);
    for b in 0..=255u8 {
        assert_eq!(to_lower(b), b.to_ascii_lowercase());
    }
}

#[test]
fn renders_numbers_in_base_ten() {
    assert_eq!(usize_to_string(0), "0");
    assert_eq!(usize_to_string(9), "9");
    assert_eq!(usize_to_string(10), "10");
    assert_eq!(usize_to_string(88), "88");
    assert_eq!(usize_to_string(6379), "6379");
    assert_eq!(usize_to_string(usize::MAX), usize::MAX.to_string());
}

#[test]
fn reads_numerals_as_the_standard_library_does() {
    let texts = [
        "0", "1", "+1", "0042", "+", "", "-1", "1.5", " 1", "1 ", "abc", "+-1", "++1", "1_0",
        "18446744073709551615", "18446744073709551616", "99999999999999999999999",
    ];
    for text in texts {
        assert_eq!(parse_usize(text), text.parse::<usize>().ok(), "{:?}", text);
    }
}

#[test]
fn compares_text() {
    assert!(str_eq("", ""));
    assert!(str_eq("ping", "ping"));
    assert!(!str_eq("ping", "pong"));
    assert!(!str_eq("ping", "pin"));
    assert!(!str_eq("é", "e"));
    assert!(str_eq("héllo", "héllo"));
}
