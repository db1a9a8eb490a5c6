//! The S-CAM menu tree, and how the main loop routes a key between the menus and the screen.
//!
//! The tree is two levels deep: the credential screens sit under "login deets" and the device
//! settings under "settings". Every entry closes its menu when chosen and sends its event to
//! the vault app; "back" in a submenu reopens the top level, and "back" at the top leaves the
//! menus.
use vstd::prelude::*;
use crate::theme::BADGE_NAME;
use crate::ui::{VaultMode, KEY_JOG, KEY_MIDDLE};
use crate::vault_api::VaultOp;

verus! {

/// A menu: its title and its entries, each a label and the event it sends.
pub struct MenuSpec {
    pub title: &'static str,
    pub entries: Vec<(&'static str, VaultOp)>,
}

/// The events a menu's entries send, in order.
pub open spec fn menu_ops(m: MenuSpec) -> Seq<VaultOp> {
    Seq::new(m.entries@.len(), |i: int| m.entries@[i].1)
}

/// A menu with entries `e`, in order.
fn menu(title: &'static str, e: Vec<(&'static str, VaultOp)>) -> (r: MenuSpec)
    ensures
        r.title == title,
        r.entries@ == e@,
{
    MenuSpec { title, entries: e }
}

/// The top level: the credential submenu, the saved QR codes, the photos, the settings
/// submenu, the About code, and "back", which leaves the menus for standby.
pub fn root_menu() -> (r: MenuSpec)
    ensures
        r.title == BADGE_NAME,
        menu_ops(r) == seq![
            VaultOp::MenuLogin,
            VaultOp::ListBookmarks,
            VaultOp::ListPhotos,
            VaultOp::MenuSettings,
            VaultOp::ShowAbout,
            VaultOp::MenuDone,
        ],
        r.entries@.len() == 6 && r.entries@[5].0 == "back",
{
    let e = vec![
        ("login deets", VaultOp::MenuLogin),
        ("qr collection", VaultOp::ListBookmarks),
        ("photos", VaultOp::ListPhotos),
        ("settings", VaultOp::MenuSettings),
        ("about", VaultOp::ShowAbout),
        ("back", VaultOp::MenuDone),
    ];
    let r = menu(BADGE_NAME, e);
    assert(menu_ops(r) =~= seq![
        VaultOp::MenuLogin,
        VaultOp::ListBookmarks,
        VaultOp::ListPhotos,
        VaultOp::MenuSettings,
        VaultOp::ShowAbout,
        VaultOp::MenuDone,
    ]);
    r
}

/// The three credential stores, each its own screen, and "back" to the top level.
pub fn login_menu() -> (r: MenuSpec)
    ensures
        r.title == "LOGIN DEETS",
        menu_ops(r) == seq![
            VaultOp::List2faDigits,
            VaultOp::ListPasskeys,
            VaultOp::ListPasswords,
            VaultOp::MenuRoot,
        ],
        r.entries@.len() == 4 && r.entries@[3].0 == "back",
{
    let e = vec![
        ("2fa digits", VaultOp::List2faDigits),
        ("passkeys", VaultOp::ListPasskeys),
        ("passwords", VaultOp::ListPasswords),
        ("back", VaultOp::MenuRoot),
    ];
    let r = menu("LOGIN DEETS", e);
    assert(menu_ops(r) =~= seq![
        VaultOp::List2faDigits,
        VaultOp::ListPasskeys,
        VaultOp::ListPasswords,
        VaultOp::MenuRoot,
    ]);
    r
}

/// The device settings: the standby image, the LED pattern, the screen, and "back" to the top
/// level.
pub fn settings_menu() -> (r: MenuSpec)
    ensures
        r.title == "SETTINGS",
        menu_ops(r) == seq![
            VaultOp::SettingsBling,
            VaultOp::SettingsBlinky,
            VaultOp::ScreenOff,
            VaultOp::MenuRoot,
        ],
        r.entries@.len() == 4 && r.entries@[3].0 == "back",
{
    let e = vec![
        ("bling", VaultOp::SettingsBling),
        ("blinky", VaultOp::SettingsBlinky),
        ("screen off", VaultOp::ScreenOff),
        ("back", VaultOp::MenuRoot),
    ];
    let r = menu("SETTINGS", e);
    assert(menu_ops(r) =~= seq![
        VaultOp::SettingsBling,
        VaultOp::SettingsBlinky,
        VaultOp::ScreenOff,
        VaultOp::MenuRoot,
    ]);
    r
}

// ---------------------------------------------------------------------------------------
// Key routing in the main loop
// ---------------------------------------------------------------------------------------

/// The menus the main loop can raise.
#[derive(Copy, Clone, PartialEq, Eq, Debug, Structural)]
pub enum MenuId {
    /// the tour's menu
    Tour,
    /// the menu that confirms a new gene
    Gene,
    /// the S-CAM menu tree, raised from standby
    Idle,
    /// the record actions menu
    Records,
}

/// The menu that belongs to screen `mode`.
pub open spec fn menu_of(mode: VaultMode) -> MenuId {
    match mode {
        VaultMode::Tour => MenuId::Tour,
        VaultMode::ConfirmGene => MenuId::Gene,
        VaultMode::Idle => MenuId::Idle,
        _ => MenuId::Records,
    }
}

/// The menu that belongs to screen `mode`; see `menu_of`.
pub fn menu_for(mode: VaultMode) -> (r: MenuId)
    ensures
        r == menu_of(mode),
{
    match mode {
        VaultMode::Tour => MenuId::Tour,
        VaultMode::ConfirmGene => MenuId::Gene,
        VaultMode::Idle => MenuId::Idle,
        _ => MenuId::Records,
    }
}

/// What the main loop does with the key a screen passed on.
#[derive(Copy, Clone, PartialEq, Eq, Debug, Structural)]
pub enum PassedKey {
    /// raise this menu; keys go to it until it closes
    RaiseMenu(MenuId),
    /// open the camera; `reload` says to reload the records after, as a scan may have added
    /// one to the list on screen
    Camera { reload: bool },
    /// nothing
    Ignore,
}

/// What the main loop does with the key `reply` that the screen `mode` (as it was when the
/// key arrived) passed on: the jog key raises that screen's menu, the middle button opens the
/// camera, anything else is dropped.
pub open spec fn passed_key_action(reply: Option<char>, mode: VaultMode) -> PassedKey {
    if reply == Some(KEY_JOG) {
        PassedKey::RaiseMenu(menu_of(mode))
    } else if reply == Some(KEY_MIDDLE) {
        PassedKey::Camera { reload: mode == VaultMode::Totp || mode == VaultMode::Password }
    } else {
        PassedKey::Ignore
    }
}

/// What the main loop does with a passed-on key; see `passed_key_action`.
pub fn route_passed_key(reply: Option<char>, mode: VaultMode) -> (r: PassedKey)
    ensures
        r == passed_key_action(reply, mode),
{
    match reply {
        Some(k) => {
            if k == KEY_JOG {
                PassedKey::RaiseMenu(menu_for(mode))
            } else if k == KEY_MIDDLE {
                PassedKey::Camera {
                    reload: mode == VaultMode::Totp || mode == VaultMode::Password,
                }
            } else {
                PassedKey::Ignore
            }
        },
        None => PassedKey::Ignore,
    }
}

} // verus!
