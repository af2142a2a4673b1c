use crowdb::ordered;
use crowdb::scan;
use crowdb::text;

#[test]
fn numbers_are_written_and_read() {
    assert_eq!(text::decimal_text(0), "0");
    assert_eq!(text::decimal_text(u64::MAX), u64::MAX.to_string());
    assert_eq!(text::hex16_text(0x12e), "000000000000012e");
    assert_eq!(text::parse_unsigned("18446744073709551615", u64::MAX), Some(u64::MAX));
    assert_eq!(text::parse_unsigned("18446744073709551616", u64::MAX), None);
    assert_eq!(text::parse_unsigned("+7", u64::MAX), Some(7));
    for bad in ["", "+", "-1", " 1", "1a"] {
        assert_eq!(text::parse_unsigned(bad, u64::MAX), None);
        assert!(bad.parse::<u64>().is_err());
    }
    for s in ["-2147483648", "2147483647", "+5", "007", "", "-", "2147483648", "1.0"] {
        assert_eq!(text::parse_i32(s), s.parse::<i32>().ok());
    }
}

#[test]
fn texts_are_compared_and_cut() {
    assert!(text::text_eq("ab", "ab"));
    assert!(!text::text_eq("ab", "a"));
    for (a, b) in [("a", "b"), ("a", "ab"), ("", "a"), ("b", "ab"), ("é", "z"), ("a", "a")] {
        assert_eq!(text::text_less(a, b), a < b);
    }
    assert!(text::starts_with("http://x", "http"));
    assert_eq!(text::strip_prefix("http://x", "http://"), Some("x".into()));
    assert_eq!(text::strip_prefix("x", "http://"), None);
    assert_eq!(text::replace_first("a.b.b", "b", "c"), "a.c.b");
    assert_eq!(text::replace_all("aaa", "aa", "b"), "aaa".replace("aa", "b"));
    assert_eq!(text::replace_all("0.0.0.0:1", "0.0.0.0", "h"), "h:1");
    let v = text::text_chars("añb");
    assert_eq!(text::text_of(&v, 1, 3), "ñb");
    assert_eq!(text::find_last(&v, 'b'), Some(2));
    assert_eq!(text::find_last(&v, 'x'), None);
}

#[test]
fn texts_are_split_like_the_standard_library_does() {
    for s in ["", " a  b\t", "a\u{2003}b", "x"] {
        let std: Vec<&str> = s.split_whitespace().collect();
        assert_eq!(scan::split_words(s), std);
        assert_eq!(scan::trim(s), s.trim());
    }
    for s in ["", "a,b", ",", "a,,b,"] {
        let std: Vec<&str> = s.split(',').collect();
        assert_eq!(scan::split_pieces(s, ','), std);
    }
    for s in ["", "a", "a\n", "a\r\nb\n\n", "\r", "a\r"] {
        let std: Vec<&str> = s.lines().collect();
        assert_eq!(scan::split_lines(s), std);
    }
    assert_eq!(scan::join(&vec!["a".into(), "b".into()], ", "), "a, b");
    assert_eq!(scan::join(&vec![], ", "), "");
}

#[test]
fn numbers_are_sorted_and_collected() {
    assert_eq!(ordered::stable_sort(vec![3u64, 1, 2, 1]), vec![1, 1, 2, 3]);
    assert_eq!(ordered::collect_sorted(vec![3u64, 1, 2, 1]), vec![1, 2, 3]);
}
