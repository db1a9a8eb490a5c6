use dc34_vault::vault_api::{
    deserialize_app_info, serialize_app_info, AppInfo, VaultOp,
};

fn sample() -> AppInfo {
    let mut id = [0u8; 32];
    for (i, b) in id.iter_mut().enumerate() {
        *b = i as u8 * 7 + 1;
    }
    AppInfo { name: "example.com".to_string(), id, notes: "n".to_string(), ctime: 5, atime: 6, count: 7 }
}

#[test]
fn app_info_roundtrips_without_notes() {
    let a = sample();
    let bytes = serialize_app_info(&a);
    let text = String::from_utf8(bytes.clone()).unwrap();
    assert!(text.starts_with("name:example.com\nid:01080f16"));
    assert!(text.ends_with("\nctime:5\natime:6\ncount:7\n"));
    let b = deserialize_app_info(bytes).unwrap();
    assert_eq!(b.name, a.name);
    assert_eq!(b.id, a.id);
    assert_eq!(b.notes, "");
    assert_eq!((b.ctime, b.atime, b.count), (5, 6, 7));
}

#[test]
fn app_info_rejections() {
    let id = "AB".repeat(32);
    let ok = format!("name:x\nid:{}", id);
    assert!(deserialize_app_info(ok.clone().into_bytes()).is_some());
    assert!(deserialize_app_info(format!("{}\nbogus:1", ok).into_bytes()).is_none());
    assert!(deserialize_app_info(format!("{}\nctime:x", ok).into_bytes()).is_none());
    assert!(deserialize_app_info(format!("{}\ncount:x", ok).into_bytes()).is_some());
    assert!(deserialize_app_info(format!("id:{}", id).into_bytes()).is_none());
    assert!(deserialize_app_info(b"name:x".to_vec()).is_none());
    assert!(deserialize_app_info(format!("name:x\nid:{}", "00".repeat(32)).into_bytes()).is_none());
    assert!(deserialize_app_info(b"name:x\nid:zz".to_vec()).is_none());
    assert!(deserialize_app_info(vec![0xFF]).is_none());
}

#[test]
fn ids_of_the_wrong_length_read_as_nothing() {
    assert!(deserialize_app_info(b"name:x\nid:abcd".to_vec()).is_none());
    assert!(deserialize_app_info(b"name:site\nid:00ff\n".to_vec()).is_none());
    assert!(deserialize_app_info(format!("name:x\nid:{}", "ab".repeat(33)).into_bytes()).is_none());
    assert!(deserialize_app_info(b"name:x\nid:abc".to_vec()).is_none());
}

#[test]
fn vault_op_numbers_are_pinned() {
    assert_eq!(VaultOp::Redraw.to_usize(), 0);
    assert_eq!(VaultOp::KeyPress.to_usize(), 2);
    assert_eq!(VaultOp::ListBookmarks.to_usize(), 29);
    assert_eq!(VaultOp::ImageLoad.to_usize(), 1024);
    assert_eq!(VaultOp::SkipKey.to_usize(), 1026);
    assert_eq!(VaultOp::ScanUrl.to_usize(), 1028);
    assert_eq!(VaultOp::MenuClosed.to_usize(), 1040);
    assert_eq!(VaultOp::from_usize(1036), Some(VaultOp::ShowAbout));
    assert_eq!(VaultOp::from_usize(1035), None);
    assert_eq!(VaultOp::from_usize(30), None);
    for n in 0..2000usize {
        if let Some(op) = VaultOp::from_usize(n) {
            assert_eq!(op.to_usize(), n);
        }
    }
}
