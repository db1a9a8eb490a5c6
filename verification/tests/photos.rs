use dc34_vault::passkeys::{fallback_label, passkey_name, sort_passkeys, Passkey};
use dc34_vault::photos::{
    compose_grid, grid_focus_origin, grid_page_first, ascii_art, base64, chunk_end, next_photo_key, photo_export_text, photo_key, photo_number,
    photo_to_bmp, typed_notice,
};
use dc34_vault::vault_api::AppInfo;

fn frame_with(pixels: &[usize]) -> [u32; 512] {
    let mut f = [0u32; 512];
    for &i in pixels {
        f[i / 32] |= 1 << (i % 32);
    }
    f
}

#[test]
fn base64_standard_vectors() {
    assert_eq!(base64(b""), "");
    assert_eq!(base64(b"f"), "Zg==");
    assert_eq!(base64(b"fo"), "Zm8=");
    assert_eq!(base64(b"foo"), "Zm9v");
    assert_eq!(base64(b"foob"), "Zm9vYg==");
    assert_eq!(base64(b"fooba"), "Zm9vYmE=");
    assert_eq!(base64(b"foobar"), "Zm9vYmFy");
    assert_eq!(base64(&[0xfb, 0xff]), "+/8=");
}

#[test]
fn bmp_layout() {
    let f = frame_with(&[0, 9, 128 * 127 + 127]);
    let b = photo_to_bmp(&f);
    assert_eq!(b.len(), 62 + 2048);
    assert_eq!(&b[0..2], b"BM");
    assert_eq!(u32::from_le_bytes([b[2], b[3], b[4], b[5]]), 2110);
    assert_eq!(u32::from_le_bytes([b[10], b[11], b[12], b[13]]), 62);
    assert_eq!(i32::from_le_bytes([b[22], b[23], b[24], b[25]]), -128);
    assert_eq!(b[62], 0x80);
    assert_eq!(b[63], 0x40);
    assert_eq!(b[62 + 2047], 0x01);
    assert_eq!(b[64], 0);
}

#[test]
fn ascii_art_marks_pairs_of_rows() {
    let f = frame_with(&[0, 128, 1, 128 + 2]);
    let art = ascii_art(&f);
    assert_eq!(art.len(), 64 * 129);
    assert_eq!(&art[0..4], "#\". ");
    assert_eq!(art.as_bytes()[128], b'\n');
    assert!(art.lines().all(|l| l.len() == 128));
}

#[test]
fn export_text_forms() {
    let f = frame_with(&[]);
    let uri = photo_export_text(&f, false);
    assert!(uri.starts_with("data:image/bmp;base64,Qk0+CAAAAAAAAD4AAAAoAAAAgAAAAID///8BAAEA"));
    assert!(uri.ends_with('\n'));
    assert_eq!(photo_export_text(&f, true), ascii_art(&f));
}

#[test]
fn photo_keys() {
    assert_eq!(photo_key(0), "photo_0000");
    assert_eq!(photo_key(42), "photo_0042");
    assert_eq!(photo_key(123456), "photo_123456");
    assert_eq!(photo_number("photo_0042"), Some(42));
    assert_eq!(photo_number("photo_x"), None);
    assert_eq!(photo_number("snap_0001"), None);
    let keys = vec!["photo_0003".to_string(), "junk".to_string(), "photo_0010".to_string()];
    assert_eq!(next_photo_key(&keys, 20).unwrap(), "photo_0011");
    assert_eq!(next_photo_key(&vec![], 20).unwrap(), "photo_0000");
    assert!(next_photo_key(&keys, 3).is_none());
}

#[test]
fn sending_in_chunks() {
    assert_eq!(chunk_end(0, 100, 64), 64);
    assert_eq!(chunk_end(64, 100, 64), 100);
    assert_eq!(typed_notice(10, 10), "TYPED TO HOST");
    assert_eq!(typed_notice(3, 10), "TYPED 3 OF 10");
}

#[test]
fn passkey_rows() {
    assert_eq!(fallback_label("0123456789abcdef"), "(01234567\u{2026})");
    assert_eq!(fallback_label("ab"), "(ab\u{2026})");
    let info = |name: &str| Some(AppInfo { name: name.to_string(), id: [1; 32], notes: String::new(), ctime: 0, atime: 0, count: 0 });
    assert_eq!(passkey_name(info("site")), Some("site".to_string()));
    assert_eq!(passkey_name(info("  \t")), None);
    assert_eq!(passkey_name(None), None);
    let rows = vec![
        Passkey::new("k1".to_string(), "beta".to_string()),
        Passkey::new("k2".to_string(), "Alpha".to_string()),
        Passkey::new("k3".to_string(), "gamma".to_string()),
    ];
    let sorted = sort_passkeys(rows);
    let names: Vec<_> = sorted.iter().map(|p| p.name.clone()).collect();
    assert_eq!(names, vec!["Alpha", "beta", "gamma"]);
}

#[test]
fn grid_thumbnails_scale_into_their_cells() {
    let bit = |f: &[u32; 512], i: usize| (f[i / 32] >> (i % 32)) & 1 == 1;
    let blank = [0u32; 512];
    let full = [u32::MAX; 512];
    let dot = frame_with(&[128 * 125 + 125]);
    let g = compose_grid(&[Some(blank), None, Some(full), Some(dot)]);
    assert!(bit(&g, 0));
    assert!(!bit(&g, 8 + 1 * 128));
    assert!(!bit(&g, 61 + 54 * 128));
    assert!(bit(&g, 66 + 1 * 128));
    assert!(bit(&g, 62 + 1 * 128));
    assert!(bit(&g, 8 + 59 * 128));
    assert!(bit(&g, (66 + 53) + (59 + 53) * 128));
    assert!(!bit(&g, 66 + 59 * 128));
    assert_eq!(grid_page_first(6), 4);
    assert_eq!(grid_focus_origin(6), (8, 59));
    assert_eq!(grid_focus_origin(1), (66, 1));
}
