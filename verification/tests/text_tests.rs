use ghost_nas::bytes;
use ghost_nas::table::Table;
use ghost_nas::text::{self, Margin};

#[test]
fn decimal_writes_numerals() {
    assert_eq!(text::decimal(0), "0");
    assert_eq!(text::decimal(9), "9");
    assert_eq!(text::decimal(10), "10");
    assert_eq!(text::decimal(u64::MAX), u64::MAX.to_string());
}

#[test]
fn padded_decimal_fills_with_zeros() {
    assert_eq!(text::padded_decimal(7, 3), "007");
    assert_eq!(text::padded_decimal(123, 3), "123");
    assert_eq!(text::padded_decimal(1234, 3), "1234");
    assert_eq!(text::padded_decimal(0, 2), "00");
}

#[test]
fn parse_number_reads_back_numerals() {
    for n in [0u64, 1, 9, 10, 4711, u64::MAX - 1, u64::MAX] {
        assert_eq!(text::parse_number(&text::decimal(n), u64::MAX), Some(n));
    }
}

#[test]
fn parse_number_agrees_with_std() {
    for s in ["", "+", "+5", "-5", "00", "007", " 7", "7 ", "1a", "18446744073709551616", "++1", "\u{0663}"] {
        assert_eq!(text::parse_number(s, u64::MAX), s.parse::<u64>().ok(), "{s:?}");
    }
    assert_eq!(text::parse_number("256", 255), None);
    assert_eq!(text::parse_number("255", 255), Some(255));
}

#[test]
fn trim_agrees_with_std() {
    for s in ["", " ", "a", " a ", "\t a b \n", "\u{a0}x\u{3000}", "\u{85}y\u{2028}", "\u{200b}z"] {
        assert_eq!(text::trim(s, Margin::White), s.trim(), "{s:?}");
    }
    for s in ["", "/", "//", "/a", "a/", "//a/b//", "a"] {
        assert_eq!(text::trim(s, Margin::Slash), s.trim_matches('/'), "{s:?}");
    }
}

#[test]
fn split_and_join_agree_with_std() {
    for s in ["", "/", "a", "a/b", "/a//b/", "a/b/c"] {
        let expected: Vec<&str> = s.split('/').collect();
        let parts = text::split(s, '/');
        assert_eq!(parts, expected, "{s:?}");
        assert_eq!(text::join_first(&parts, parts.len(), "/"), s);
        assert_eq!(
            text::join_first(&parts, parts.len() - 1, "/"),
            expected[..expected.len() - 1].join("/")
        );
    }
}

#[test]
fn searching_agrees_with_std() {
    let pairs = [("", ""), ("abc", "b"), ("abc", ""), ("abc", "abcd"), ("aab", "ab"), ("x", "y")];
    for (s, p) in pairs {
        assert_eq!(text::has_text(s, p), s.contains(p));
        assert_eq!(text::begins_with(s, p), s.starts_with(p));
        assert_eq!(text::finishes_with(s, p), s.ends_with(p));
    }
    assert!(text::has_char("a/b", '/'));
    assert!(!text::has_char("ab", '/'));
    for s in ["/dav/", "/dav/x", "/dav//dav/y", "/da", "x/dav/"] {
        assert_eq!(text::strip_leading(s, "/dav/"), s.trim_start_matches("/dav/"));
    }
}

#[test]
fn big_endian_reads_back() {
    for n in [0u64, 1, 255, 256, 0x0102_0304_0506_0708, u64::MAX] {
        let b = bytes::u64_to_be(n);
        assert_eq!(b, n.to_be_bytes());
        assert_eq!(bytes::u64_from_be(&b, 0), n);
        assert_eq!(bytes::u64_to_le(n), n.to_le_bytes());
    }
}

#[test]
fn table_is_a_map() {
    let mut t: Table<u32> = Table::new();
    assert_eq!(t.len(), 0);
    t.insert("a".to_string(), 1);
    t.insert("b".to_string(), 2);
    t.insert("a".to_string(), 3);
    assert_eq!(t.len(), 2);
    assert_eq!(t.get("a"), Some(&3));
    assert_eq!(t.get("b"), Some(&2));
    assert_eq!(t.get("c"), None);
    assert_eq!(t.keys(), ["a", "b"]);
    t.remove("a");
    t.remove("zzz");
    assert_eq!(t.keys(), ["b"]);
    assert_eq!(t.get("a"), None);
}
