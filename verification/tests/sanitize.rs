use dc34_vault::sanitize::{BookmarkRefusal, SanitizeError, SanitizedUrl, CAP_BOOKMARK_URL, CAP_URL_DISPLAY, HID_ACCEPTED};

#[test]
fn rejects_newline() {
    let result = SanitizedUrl::new("http://a.com/\n", CAP_URL_DISPLAY);
    assert!(result.is_err(), "newline should be rejected");
}

#[test]
fn rejects_bel() {
    let result = SanitizedUrl::new("http://a.com/\u{7}", CAP_URL_DISPLAY);
    assert!(result.is_err(), "BEL (U+0007) should be rejected");
}

#[test]
fn rejects_emoji() {
    let result = SanitizedUrl::new("http://a.com/\u{1F980}", CAP_URL_DISPLAY);
    assert!(result.is_err(), "emoji should be rejected");
}

#[test]
fn rejects_overlength() {
    let s = "A".repeat(CAP_URL_DISPLAY + 1);
    let result = SanitizedUrl::new(&s, CAP_URL_DISPLAY);
    assert!(result.is_err(), "string of CAP_URL_DISPLAY+1 chars should be rejected");
}

#[test]
fn accepts_valid_url() {
    let result = SanitizedUrl::new("https://example.com/x?a=b&c=d#frag", CAP_URL_DISPLAY);
    assert!(result.is_ok(), "valid URL should be accepted: {:?}", result);
}

#[test]
fn rejection_is_err_not_truncated() {
    let s = "B".repeat(CAP_URL_DISPLAY + 1);
    match SanitizedUrl::new(&s, CAP_URL_DISPLAY) {
        Err(_) => {}
        Ok(url) => panic!("Expected Err, got Ok with len={}", url.as_str().len()),
    }
}

#[test]
fn hid_accepted_is_full_printable_ascii() {
    assert_eq!(HID_ACCEPTED.len(), 95, "HID_ACCEPTED should have 95 printable ASCII chars");
    for c in 0x20u8..=0x7Eu8 {
        let ch = c as char;
        assert!(
            HID_ACCEPTED.contains(ch),
            "HID_ACCEPTED missing printable ASCII char 0x{:02X} ({})",
            c,
            ch
        );
    }
    for ch in HID_ACCEPTED.chars() {
        let v = ch as u32;
        assert!(v >= 0x20 && v <= 0x7E, "HID_ACCEPTED contains out-of-range char U+{:04X}", v);
    }
}

#[test]
fn rejects_tab() {
    assert!(SanitizedUrl::new("http://a.com/\t", CAP_URL_DISPLAY).is_err());
}

#[test]
fn rejects_carriage_return() {
    assert!(SanitizedUrl::new("http://a.com/\r", CAP_URL_DISPLAY).is_err());
}

#[test]
fn rejects_del() {
    assert!(SanitizedUrl::new("http://a.com/\x7f", CAP_URL_DISPLAY).is_err());
}

#[test]
fn accepts_at_exact_cap() {
    let s = "A".repeat(CAP_URL_DISPLAY);
    assert!(SanitizedUrl::new(&s, CAP_URL_DISPLAY).is_ok());
}

#[test]
fn control_char_is_reported_with_the_char() {
    assert_eq!(SanitizedUrl::new("ab\ncd", 100).unwrap_err(), SanitizeError::ControlChar('\n'));
}

#[test]
fn unmapped_char_is_reported_with_the_char() {
    assert_eq!(SanitizedUrl::new("ab\u{e9}cd", 100).unwrap_err(), SanitizeError::UnmappedChar('\u{e9}'));
    assert_eq!(SanitizedUrl::new("x\x7f", 100).unwrap_err(), SanitizeError::UnmappedChar('\x7f'));
}

#[test]
fn too_long_reports_length_and_cap() {
    let s = "a".repeat(CAP_BOOKMARK_URL + 3);
    assert_eq!(
        SanitizedUrl::new(&s, CAP_BOOKMARK_URL).unwrap_err(),
        SanitizeError::TooLong { len: CAP_BOOKMARK_URL + 3, cap: CAP_BOOKMARK_URL }
    );
}

#[test]
fn character_checks_come_before_the_length_check() {
    let mut s = "a".repeat(CAP_BOOKMARK_URL + 3);
    s.push('\t');
    assert_eq!(SanitizedUrl::new(&s, CAP_BOOKMARK_URL).unwrap_err(), SanitizeError::ControlChar('\t'));
    let mut s = "a".repeat(CAP_BOOKMARK_URL + 3);
    s.push('\u{1F980}');
    assert_eq!(SanitizedUrl::new(&s, CAP_BOOKMARK_URL).unwrap_err(), SanitizeError::UnmappedChar('\u{1F980}'));
}

#[test]
fn accepted_url_reads_back_unchanged() {
    let u = SanitizedUrl::new("https://example.com/x?a=b&c=d#frag", CAP_URL_DISPLAY).unwrap();
    assert_eq!(u.as_str(), "https://example.com/x?a=b&c=d#frag");
    let empty = SanitizedUrl::new("", 0).unwrap();
    assert_eq!(empty.as_str(), "");
}

#[test]
fn bookmark_saves_stop_at_the_limit() {
    assert!(SanitizedUrl::new_bookmark("https://a.com", 99).is_ok());
    assert_eq!(SanitizedUrl::new_bookmark("https://a.com", 100).err(), Some(BookmarkRefusal::Full));
    assert_eq!(SanitizedUrl::new_bookmark("bad\nurl", 100).err(), Some(BookmarkRefusal::Full));
    assert_eq!(
        SanitizedUrl::new_bookmark("bad\nurl", 0).err(),
        Some(BookmarkRefusal::Url(SanitizeError::ControlChar('\n')))
    );
    let long = "a".repeat(107);
    assert!(matches!(SanitizedUrl::new_bookmark(&long, 0), Err(BookmarkRefusal::Url(SanitizeError::TooLong { .. }))));
}
