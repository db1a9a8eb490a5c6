use dc34_vault::storage::autotype_use;
use dc34_vault::bookmarks::bookmark_entries;
use dc34_vault::otpauth::{parse_query, url_decode};
use dc34_vault::passkeys::passkey_entries;
use dc34_vault::photos::{photo_to_bmp, sort_photo_keys};
use dc34_vault::qr::url_qr;
use dc34_vault::sanitize::{SanitizeError, SanitizedUrl};
use dc34_vault::scan::{
    delete_target, mode_after_scan_abort, route_scan, DeleteTarget, KnownScheme, ScanRoute,
};
use dc34_vault::screens::{clock_is_set, qr_screen_step};
use dc34_vault::storage::{PasswordRecord, StorageContent};
use dc34_vault::ui::VaultMode;
use dc34_vault::vault_api::{serialize_app_info, AppInfo};

#[test]
fn web_urls_are_recognised_first_in_any_case() {
    match route_scan(VaultMode::Idle, "https://example.com/a") {
        ScanRoute::ShowUrl(u) => assert_eq!(u.as_str(), "https://example.com/a"),
        other => panic!("unexpected {:?}", other),
    }
    match route_scan(VaultMode::Idle, "HTTPS://EXAMPLE.COM/PATH") {
        ScanRoute::ShowUrl(u) => assert_eq!(u.as_str(), "HTTPS://EXAMPLE.COM/PATH"),
        other => panic!("unexpected {:?}", other),
    }
    assert!(matches!(route_scan(VaultMode::Password, "Http://x"), ScanRoute::ShowUrl(_)));
    assert!(matches!(
        route_scan(VaultMode::Idle, "http://a\nb"),
        ScanRoute::UrlRefused(SanitizeError::ControlChar('\n'))
    ));
    let long = format!("http://{}", "a".repeat(200));
    assert!(matches!(
        route_scan(VaultMode::Idle, &long),
        ScanRoute::UrlRefused(SanitizeError::TooLong { len: 207, cap: 189 })
    ));
}

#[test]
fn other_scans_go_to_their_scheme_or_nowhere() {
    assert!(matches!(route_scan(VaultMode::Idle, "test://x"), ScanRoute::Scheme(KnownScheme::Test)));
    assert!(matches!(
        route_scan(VaultMode::Idle, "otpauth://totp/a?secret=b"),
        ScanRoute::Scheme(KnownScheme::Otpauth)
    ));
    assert!(matches!(route_scan(VaultMode::Idle, "TEST://x"), ScanRoute::Unrecognized));
    assert!(matches!(route_scan(VaultMode::Idle, "test:/x"), ScanRoute::Unrecognized));
    assert!(matches!(route_scan(VaultMode::Idle, "ftp://x"), ScanRoute::Unrecognized));
    assert!(matches!(route_scan(VaultMode::Idle, "ABC123"), ScanRoute::Unrecognized));
    assert!(matches!(route_scan(VaultMode::GeneScan, "https://example.com"), ScanRoute::Gene));
    assert!(matches!(route_scan(VaultMode::ShowKey { quantum: 3 }, "test://x"), ScanRoute::Gene));
}

#[test]
fn delete_and_scan_abort_decisions() {
    assert_eq!(delete_target(VaultMode::PhotoList), DeleteTarget::Photo);
    assert_eq!(delete_target(VaultMode::PhotoView), DeleteTarget::Photo);
    assert_eq!(delete_target(VaultMode::BookmarkList), DeleteTarget::Bookmark);
    assert_eq!(delete_target(VaultMode::Password), DeleteTarget::Nothing);
    assert_eq!(mode_after_scan_abort(true, VaultMode::Password), VaultMode::Idle);
    assert_eq!(mode_after_scan_abort(false, VaultMode::Password), VaultMode::Password);
}

#[test]
fn qr_screen_ticks() {
    assert_eq!(qr_screen_step(VaultMode::AboutQr { quantum: 0 }, true), (true, true, VaultMode::AboutQr { quantum: 1 }));
    assert_eq!(
        qr_screen_step(VaultMode::ShowBookmarkQr { quantum: 2 }, true),
        (false, true, VaultMode::ShowBookmarkQr { quantum: 3 })
    );
    assert_eq!(qr_screen_step(VaultMode::AboutQr { quantum: 5 }, false), (false, false, VaultMode::Idle));
    assert_eq!(qr_screen_step(VaultMode::Password, true), (false, false, VaultMode::Password));
}

#[test]
fn bookmark_entries_skip_other_keys_and_sort() {
    let items = vec![
        ("0000000000000002".to_string(), b"https://b.com\nB\n2".to_vec()),
        ("__counter__".to_string(), b"2".to_vec()),
        ("0000000000000001".to_string(), b"https://a.com\nA\n1\nextra".to_vec()),
        ("0000000000000003".to_string(), vec![0xFF]),
        ("000000000000000G".to_string(), b"https://g.com\nG\n1".to_vec()),
    ];
    let rows = bookmark_entries(&items);
    assert_eq!(rows.len(), 2);
    assert_eq!((rows[0].key.as_str(), rows[0].url.as_str(), rows[0].label.as_str()), ("0000000000000001", "https://a.com", "A"));
    assert_eq!((rows[1].key.as_str(), rows[1].url.as_str(), rows[1].label.as_str()), ("0000000000000002", "https://b.com", "B"));
}

#[test]
fn passkey_entries_label_and_sort() {
    let info = |name: &str| {
        serialize_app_info(&AppInfo { name: name.to_string(), id: [7u8; 32], notes: String::new(), ctime: 1, atime: 2, count: 3 })
    };
    let rows = passkey_entries(vec![
        ("ccccccccccccc".to_string(), Some(info("zeta.org"))),
        ("bbbbbbbbbbbbb".to_string(), None),
        ("aaaaaaaaaaaaa".to_string(), Some(info("Alpha.com"))),
        ("ddddddddddddd".to_string(), Some(info("   "))),
    ]);
    let names: Vec<&str> = rows.iter().map(|p| p.name.as_str()).collect();
    assert_eq!(names, vec!["(bbbbbbbb\u{2026})", "(dddddddd\u{2026})", "Alpha.com", "zeta.org"]);
    assert_eq!(rows[2].key, "aaaaaaaaaaaaa");
}

#[test]
fn bmp_pixel_bits_follow_the_mask() {
    let mut bits = [0u32; 512];
    let (x, y) = (13usize, 5usize);
    let i = x + 128 * y;
    bits[i >> 5] |= 1 << (i & 31);
    let bmp = photo_to_bmp(&bits);
    assert_eq!(bmp.len(), 2110);
    assert_eq!(&bmp[0..2], b"BM");
    let byte = bmp[62 + 16 * y + x / 8];
    assert_eq!(byte, 0x80 >> (x % 8));
    assert_eq!(bmp[62 + 16 * y + x / 8 + 1], 0);
}

#[test]
fn decoding_without_percent_only_turns_plus_into_space() {
    assert_eq!(url_decode("a+b+c").unwrap(), "a b c");
    assert_eq!(url_decode("plain").unwrap(), "plain");
    assert!(url_decode("%2").is_err());
    assert!(url_decode("%zz").is_err());
}

#[test]
fn query_last_value_wins_and_bare_pieces_are_ignored() {
    let q = parse_query("a=1&b&a=2&c=x%20y").unwrap();
    assert_eq!(q.get("a").map(|s| s.as_str()), Some("2"));
    assert_eq!(q.get("b"), None);
    assert_eq!(q.get("c").map(|s| s.as_str()), Some("x y"));
    assert!(parse_query("a=1&b=%G0").is_err());
}

#[test]
fn password_from_vec_matches_try_from_but_for_version() {
    let data = b"description:site\nusername:me\ncount:3\n".to_vec();
    let t = PasswordRecord::try_from(data.clone()).unwrap();
    let mut f = PasswordRecord::try_from(b"description:old\nnotes:gone".to_vec()).unwrap();
    f.from_vec(data).unwrap();
    assert_eq!((t.version, f.version), (1, 0));
    assert_eq!((f.description.as_str(), f.username.as_str(), f.notes.as_str(), f.count), ("site", "me", "", 3));
    assert_eq!((t.description.as_str(), t.username.as_str(), t.count), ("site", "me", 3));
    let bad = b"count:x".to_vec();
    assert!(PasswordRecord::try_from(bad.clone()).is_err());
    assert!(f.from_vec(bad).is_err());
}

#[test]
fn sanitize_accepts_printable_ascii_within_cap_whole() {
    let s: String = (0x20u8..=0x7E).map(|b| b as char).collect();
    assert_eq!(SanitizedUrl::new(&s, 95).unwrap().as_str(), s);
    assert!(SanitizedUrl::new(&s, 94).is_err());
    assert!(SanitizedUrl::new("caf\u{e9}", 100).is_err());
    assert!(SanitizedUrl::new("a\u{7f}", 100).is_err());
}

#[test]
fn passkeys_with_equal_names_keep_their_order() {
    let info = |name: &str| {
        serialize_app_info(&AppInfo { name: name.to_string(), id: [9u8; 32], notes: String::new(), ctime: 1, atime: 2, count: 3 })
    };
    let rows = passkey_entries(vec![
        ("k1".to_string(), Some(info("Same"))),
        ("k2".to_string(), Some(info("same"))),
        ("k3".to_string(), Some(info("SAME"))),
        ("k0".to_string(), Some(info("abc"))),
    ]);
    let keys: Vec<&str> = rows.iter().map(|p| p.key.as_str()).collect();
    assert_eq!(keys, vec!["k0", "k1", "k2", "k3"]);
}

#[test]
fn passkeys_with_bad_ids_fall_back_to_the_key() {
    let rows = passkey_entries(vec![("abcdefghij".to_string(), Some(b"name:site\nid:00ff\n".to_vec()))]);
    assert_eq!(rows[0].name, "(abcdefgh\u{2026})");
}

#[test]
fn autotype_use_types_and_counts() {
    let data = b"version:1\ndescription:site\nusername:me\npassword:pw\ncount:4\natime:1\n".to_vec();
    let (text, bytes) = autotype_use(data.clone(), true, 99).unwrap();
    assert_eq!(text, "me");
    let back = PasswordRecord::try_from(bytes).unwrap();
    assert_eq!((back.count, back.atime, back.password.as_str()), (5, 99, "pw"));
    let (text, _) = autotype_use(data, false, 99).unwrap();
    assert_eq!(text, "pw");
    assert!(autotype_use(b"count:x".to_vec(), true, 1).is_err());
}

#[test]
fn url_qr_codes_come_from_the_url_bytes() {
    let url = SanitizedUrl::new("https://a.com", 106).unwrap();
    let (w, modules) = url_qr(&url).unwrap();
    assert_eq!(w, 21);
    assert_eq!(modules.len(), 21 * 21);
    assert!(modules.iter().any(|m| *m) && modules.iter().any(|m| !*m));
    let other = SanitizedUrl::new("https://b.com", 106).unwrap();
    assert_ne!(url_qr(&other).unwrap().1, modules);
    let long = SanitizedUrl::new(&"a".repeat(3000), 4000).unwrap();
    assert!(url_qr(&long).is_none());
}

#[test]
fn clock_set_and_photo_key_order() {
    assert!(!clock_is_set(2025));
    assert!(clock_is_set(2026));
    assert!(clock_is_set(2031));
    let keys = sort_photo_keys(vec!["photo_0002".to_string(), "photo_0000".to_string(), "photo_0001".to_string()]);
    assert_eq!(keys, vec!["photo_0000", "photo_0001", "photo_0002"]);
}

#[test]
fn passkey_rows_sort_by_their_lower_cased_names() {
    let info = |name: &str| {
        serialize_app_info(&AppInfo { name: name.to_string(), id: [5u8; 32], notes: String::new(), ctime: 1, atime: 2, count: 3 })
    };
    let rows = passkey_entries(vec![("b".to_string(), Some(info("Beta"))), ("a".to_string(), Some(info("alpha")))]);
    assert_eq!(rows[0].folded, "alpha");
    assert_eq!(rows[1].folded, "beta");
}
