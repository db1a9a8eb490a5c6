use dc34_vault::bookmarks::{
    bookmark_body, bookmark_key, counter_bytes, is_bookmark_key, list_entry, next_bookmark_key,
    parse_bookmark_body, parse_counter, sort_entries, BookmarkEntry, BookmarkError,
};
use dc34_vault::storage::{const_str_eq, hex};
use dc34_vault::vault_api::{VAULT_BOOKMARKS_COUNTER_KEY, VAULT_BOOKMARKS_DICT};

#[test]
fn test_bookmark_key_format() {
    assert_eq!(bookmark_key(1u64), "0000000000000001");
    assert_eq!(bookmark_key(100u64), "0000000000000064");
    assert_eq!(bookmark_key(u64::MAX), "ffffffffffffffff");
}

#[test]
fn test_bookmark_key_sort_order() {
    let mut keys = vec![bookmark_key(3u64), bookmark_key(1u64), bookmark_key(2u64)];
    keys.sort();
    assert_eq!(keys[0], bookmark_key(1u64));
    assert_eq!(keys[1], bookmark_key(2u64));
    assert_eq!(keys[2], bookmark_key(3u64));
}

#[test]
fn test_bookmark_body_roundtrip() {
    let url = "https://example.com/path?q=1";
    let label = "Example";
    let timestamp: u64 = 1_700_000_000;
    let body = format!("{}\n{}\n{}", url, label, timestamp);
    let bm = parse_bookmark_body("0000000000000001", body.as_bytes()).unwrap();
    assert_eq!(bm.key, "0000000000000001");
    assert_eq!(bm.url, url);
    assert_eq!(bm.label, label);
    assert_eq!(bm.timestamp_unix, timestamp);
}

#[test]
fn test_bookmark_body_missing_fields() {
    let body = b"https://example.com";
    let result = parse_bookmark_body("0000000000000001", body);
    assert!(result.is_err(), "body missing label and timestamp should be rejected");
}

#[test]
fn test_counter_key_filtered() {
    let keys = vec![
        "0000000000000001".to_string(),
        "__counter__".to_string(),
        "0000000000000002".to_string(),
    ];
    let filtered: Vec<_> = keys.iter().filter(|k| is_bookmark_key(k.as_str())).collect();
    assert_eq!(filtered.len(), 2);
    assert!(!filtered.iter().any(|k| k.as_str() == "__counter__"));
}

#[test]
fn test_bookmarks_dict_is_not_dc34() {
    assert_ne!(VAULT_BOOKMARKS_DICT, "dc34", "VAULT_BOOKMARKS_DICT must never equal the gene dict");
    assert!(!const_str_eq(VAULT_BOOKMARKS_DICT, "dc34"));
}

#[test]
fn test_bookmark_body_non_utf8() {
    let bad: &[u8] = &[0xFF, 0xFE, b'\n', b'l', b'\n', b'0'];
    let result = parse_bookmark_body("key", bad);
    assert!(matches!(result, Err(BookmarkError::ParseError(_))));
}

#[test]
fn bookmark_parse_error_messages() {
    let msg = |r: Result<dc34_vault::bookmarks::Bookmark, BookmarkError>| match r {
        Err(BookmarkError::ParseError(m)) => m,
        _ => panic!("expected a parse error"),
    };
    assert_eq!(msg(parse_bookmark_body("k", &[0xFF])), "non-UTF8 body");
    assert_eq!(msg(parse_bookmark_body("k", b"u")), "missing label field");
    assert_eq!(msg(parse_bookmark_body("k", b"u\nl")), "missing timestamp field");
    assert_eq!(msg(parse_bookmark_body("k", b"u\nl\nxyz")), "bad timestamp: \"xyz\"");
    assert_eq!(msg(parse_bookmark_body("k", b"u\nl\n")), "bad timestamp: \"\"");
    assert_eq!(msg(parse_bookmark_body("k", b"u\nl\n-5")), "bad timestamp: \"-5\"");
}

#[test]
fn bookmark_timestamp_is_trimmed_and_later_lines_are_ignored() {
    let bm = parse_bookmark_body("k", b"u\nl\n  42 \n").unwrap();
    assert_eq!(bm.timestamp_unix, 42);
    let bm = parse_bookmark_body("k", b"u\n\n+7").unwrap();
    assert_eq!(bm.label, "");
    assert_eq!(bm.timestamp_unix, 7);
    let bm = parse_bookmark_body("k", b"u\nl\n1\nextra").unwrap();
    assert_eq!(bm.timestamp_unix, 1);
    let bm = parse_bookmark_body("0000000000000001", b"https://a.com\nA\n5\nextra").unwrap();
    assert_eq!(bm.url, "https://a.com");
    assert_eq!(bm.label, "A");
    assert_eq!(bm.timestamp_unix, 5);
    assert_eq!(
        match parse_bookmark_body("k", b"u\nl\nx\n9") {
            Err(BookmarkError::ParseError(m)) => m,
            _ => panic!("expected a parse error"),
        },
        "bad timestamp: \"x\""
    );
    assert!(parse_bookmark_body("k", b"u\nl\n18446744073709551616").is_err());
}

#[test]
fn bookmark_body_is_written_as_three_lines() {
    let b = bookmark_body("https://a.b/c", "lbl", 123);
    assert_eq!(b, b"https://a.b/c\nlbl\n123".to_vec());
    let bm = parse_bookmark_body("0000000000000002", &b).unwrap();
    assert_eq!(bm.url, "https://a.b/c");
    assert_eq!(bm.label, "lbl");
    assert_eq!(bm.timestamp_unix, 123);
}

#[test]
fn counter_reads_back_and_rejects_garbage() {
    for n in [0u64, 1, 15, 16, 255, 0xdead_beef, u64::MAX] {
        assert_eq!(parse_counter(&counter_bytes(n)).unwrap(), n);
    }
    assert_eq!(counter_bytes(255), b"ff".to_vec());
    assert_eq!(parse_counter(b" 1F\n").unwrap(), 0x1f);
    assert!(matches!(parse_counter(b"zz"), Err(BookmarkError::CounterCorrupt)));
    assert!(matches!(parse_counter(&[0xC0]), Err(BookmarkError::CounterCorrupt)));
    assert!(matches!(parse_counter(b""), Err(BookmarkError::CounterCorrupt)));
    assert!(matches!(parse_counter(b"10000000000000000"), Err(BookmarkError::CounterCorrupt)));
}

#[test]
fn next_key_follows_the_counter() {
    let (key, stored) = next_bookmark_key(0);
    assert_eq!(key, "0000000000000001");
    assert_eq!(stored, b"1".to_vec());
    let (key, stored) = next_bookmark_key(0xf);
    assert_eq!(key, "0000000000000010");
    assert_eq!(parse_counter(&stored).unwrap(), 0x10);
}

#[test]
fn bookmark_keys_sort_in_counter_order() {
    let pairs = [(0u64, 1u64), (9, 10), (15, 16), (255, 256), (0xffff, 0x1_0000), (u64::MAX - 1, u64::MAX)];
    for (a, b) in pairs {
        assert!(bookmark_key(a) < bookmark_key(b));
    }
    assert!(is_bookmark_key(&bookmark_key(12345)));
    assert!(!is_bookmark_key(VAULT_BOOKMARKS_COUNTER_KEY));
    assert!(!is_bookmark_key("000000000000000F"));
    assert!(!is_bookmark_key("000000000000001"));
}

#[test]
fn listed_rows_take_url_and_label_and_sort_by_key() {
    let e = list_entry(&"0000000000000002".to_string(), b"https://x\nname\n5").unwrap();
    assert_eq!(e.url, "https://x");
    assert_eq!(e.label, "name");
    let e = list_entry(&"k".to_string(), b"only-url").unwrap();
    assert_eq!(e.url, "only-url");
    assert_eq!(e.label, "");
    assert!(list_entry(&"k".to_string(), &[0xFF]).is_none());
    let mk = |k: u64| BookmarkEntry { key: bookmark_key(k), url: format!("u{}", k), label: String::new() };
    let sorted = sort_entries(vec![mk(3), mk(1), mk(20), mk(2)]);
    let urls: Vec<_> = sorted.iter().map(|e| e.url.clone()).collect();
    assert_eq!(urls, vec!["u1", "u2", "u3", "u20"]);
}

#[test]
fn hex_is_upper_case_two_digits_a_byte() {
    assert_eq!(hex(vec![0x00, 0x0f, 0xa5, 0xff]), "000FA5FF");
    assert_eq!(hex(vec![]), "");
}
