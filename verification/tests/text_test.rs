use chbackup::text::{
    contains_char, contains_text, decimal_text, find_text, is_blank, join_texts,
    replace_first_text, same, split_once_text, split_text, starts_with, strip_prefix, text_before,
    trim_end_text, trim_text, words_of,
};
use chbackup::time::{Duration, Timestamp, MAX_UNIX_SECS, MIN_UNIX_SECS};

#[test]
fn splitting_and_joining() {
    assert_eq!(split_text("a,,b", ','), vec!["a", "", "b"]);
    assert_eq!(split_text("", ','), vec![""]);
    for s in ["", ",", "a", "a,b", ",a,,"] {
        assert_eq!(join_texts(&split_text(s, ','), ","), s);
    }
    assert_eq!(
        split_once_text("a:b:c", ':'),
        Some(("a".to_string(), "b:c".to_string()))
    );
    assert_eq!(split_once_text("abc", ':'), None);
}

#[test]
fn blanks_are_those_of_unicode() {
    for u in 0..0x11_0000u32 {
        if let Some(c) = char::from_u32(u) {
            assert_eq!(is_blank(c), c.is_whitespace(), "{:x}", u);
        }
    }
    for s in ["", "  ", " a b\t", "\u{3000}x\u{a0}", "é ü"] {
        assert_eq!(trim_text(s), s.trim());
        let words: Vec<String> = s.split_whitespace().map(|w| w.to_string()).collect();
        assert_eq!(words_of(s), words);
    }
}

#[test]
fn searching() {
    assert_eq!(find_text("abcabc", "ca"), Some(2));
    assert_eq!(find_text("abc", ""), Some(0));
    assert_eq!(find_text("ab", "abc"), None);
    assert!(contains_text("xéy", "é") && !contains_text("xy", "é"));
    assert!(contains_char("a/b", '/') && !contains_char("ab", '/'));
    assert!(starts_with("éa", "é") && !starts_with("e", "é"));
    assert_eq!(strip_prefix("--x=1", "--x="), Some("1".to_string()));
    assert_eq!(strip_prefix("--x", "--x="), None);
    assert!(same("é", "é") && !same("e", "é"));
    assert_eq!(replace_first_text("aXbX", "X", "--"), "a--bX");
    assert_eq!(trim_end_text("a//b//", '/'), "a//b");
}

#[test]
fn numbers_and_order() {
    for n in [0, 7, 10, 1009, u64::MAX] {
        assert_eq!(decimal_text(n), n.to_string());
    }
    let texts = ["", "a", "ab", "b", "é", "\u{ffff}", "\u{10000}"];
    for a in texts {
        for b in texts {
            assert_eq!(text_before(a, b), a < b, "{a:?} {b:?}");
        }
    }
}

#[test]
fn spans_of_time() {
    let a = Duration::from_millis(1500);
    let b = Duration::from_parts(2, 700_000_000);
    assert_eq!((a.as_secs(), a.subsec_nanos()), (1, 500_000_000));
    assert_eq!(a.saturating_add(b), Duration::from_parts(4, 200_000_000));
    assert_eq!(b.saturating_sub(a), Duration::from_parts(1, 200_000_000));
    assert_eq!(a.saturating_sub(b), Duration::from_secs(0));
    assert!(a.shorter_than(&b) && !b.shorter_than(&a));
    assert_eq!(a.shorter(b), a);
    assert!(Duration::from_secs(0).is_zero());
}

#[test]
fn instants() {
    assert!(Timestamp::new(MIN_UNIX_SECS, 0).is_some());
    assert!(Timestamp::new(MIN_UNIX_SECS - 1, 0).is_none());
    assert!(Timestamp::new(MAX_UNIX_SECS, 999_999_999).is_some());
    assert!(Timestamp::new(MAX_UNIX_SECS + 1, 0).is_none());
    assert!(Timestamp::new(0, 1_000_000_000).is_none());
    // The bounds are those of the calendar.
    assert!(chrono::DateTime::from_timestamp(MIN_UNIX_SECS, 0).is_some());
    assert!(chrono::DateTime::from_timestamp(MIN_UNIX_SECS - 1, 0).is_none());
    assert!(chrono::DateTime::from_timestamp(MAX_UNIX_SECS, 0).is_some());
    assert!(chrono::DateTime::from_timestamp(MAX_UNIX_SECS + 1, 0).is_none());
    let a = Timestamp::new(10, 900_000_000).unwrap();
    let b = Timestamp::new(12, 100_000_000).unwrap();
    assert_eq!(b.since(&a), Duration::from_millis(1200));
    assert_eq!(a.since(&b), Duration::from_secs(0));
    assert!(a.earlier_than(&b));
    assert_eq!(a.to_rfc3339(), "1970-01-01T00:00:10.900+00:00");
    assert!(Timestamp::now().secs() > 1_600_000_000);
}
