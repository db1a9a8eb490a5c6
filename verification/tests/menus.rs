use dc34_vault::menus::{login_menu, menu_for, root_menu, route_passed_key, settings_menu, MenuId, PassedKey};
use dc34_vault::theme::{gutter_width, numbered_cut, row_marked, row_painted, ListStyle, Repaint, RowCut};
use dc34_vault::ui::VaultMode;
use dc34_vault::vault_api::{auth_age, AuthAge, VaultOp};

#[test]
fn menu_tree() {
    let r = root_menu();
    assert_eq!(r.title, "S-CAM");
    let labels: Vec<_> = r.entries.iter().map(|e| e.0).collect();
    assert_eq!(labels, vec!["login deets", "qr collection", "photos", "settings", "about", "back"]);
    assert_eq!(r.entries[5].1, VaultOp::MenuDone);
    let l = login_menu();
    assert_eq!(l.entries[1], ("passkeys", VaultOp::ListPasskeys));
    assert_eq!(l.entries[3].1, VaultOp::MenuRoot);
    let s = settings_menu();
    assert_eq!(s.title, "SETTINGS");
    assert_eq!(s.entries[2], ("screen off", VaultOp::ScreenOff));
}

#[test]
fn passed_keys_raise_the_screens_menu_or_the_camera() {
    assert_eq!(menu_for(VaultMode::Idle), MenuId::Idle);
    assert_eq!(menu_for(VaultMode::Password), MenuId::Records);
    assert_eq!(route_passed_key(Some('∴'), VaultMode::Tour), PassedKey::RaiseMenu(MenuId::Tour));
    assert_eq!(route_passed_key(Some('🔥'), VaultMode::Totp), PassedKey::Camera { reload: true });
    assert_eq!(route_passed_key(Some('🔥'), VaultMode::Idle), PassedKey::Camera { reload: false });
    assert_eq!(route_passed_key(Some('←'), VaultMode::Idle), PassedKey::Ignore);
    assert_eq!(route_passed_key(None, VaultMode::Idle), PassedKey::Ignore);
}

#[test]
fn list_rows_paint_and_mark() {
    assert_eq!(gutter_width(ListStyle::Select { marked: None }), 10);
    assert_eq!(gutter_width(ListStyle::Numbered), 0);
    assert!(row_painted(Repaint::All, 3, 1));
    assert!(!row_painted(Repaint::FocusedRow, 3, 1));
    assert!(row_marked(ListStyle::Select { marked: Some(2) }, 2));
    assert!(!row_marked(ListStyle::Select { marked: Some(2) }, 1));
    assert!(!row_marked(ListStyle::Plain, 0));
    assert_eq!(numbered_cut(Some(5), 1, 1), RowCut::Scroll(5));
    assert_eq!(numbered_cut(Some(5), 2, 1), RowCut::Clip);
    assert_eq!(numbered_cut(None, 1, 1), RowCut::Fit);
}

#[test]
fn last_use_in_the_largest_unit_that_reads_well() {
    assert_eq!(auth_age(0, 999_999), AuthAge::Never);
    assert_eq!(auth_age(5, 3 * 86400), AuthAge::Days(3));
    assert_eq!(auth_age(5, 2 * 86400 - 1), AuthAge::Hours(47));
    assert_eq!(auth_age(5, 7200), AuthAge::Hours(2));
    assert_eq!(auth_age(5, 7199), AuthAge::Minutes(119));
    assert_eq!(auth_age(5, 120), AuthAge::Minutes(2));
    assert_eq!(auth_age(5, 119), AuthAge::Seconds(119));
    assert_eq!(auth_age(5, -400_000), AuthAge::Seconds(-400_000));
    assert_eq!(auth_age(5, i64::MIN), AuthAge::Seconds(i64::MIN));
}
