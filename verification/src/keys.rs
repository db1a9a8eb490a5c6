//! What a key press does on each screen, as a function from the screen state and the key to
//! the next state, the actions the app then performs in order, and the key it passes on to
//! the main loop. LEFT is back on every screen; the middle button opens a screen's actions.
use vstd::prelude::*;
use crate::ui::{
    cursor_step, lemma_cursor_step_in_range, step_cursor, VaultMode, BUILTIN_IMAGE_COUNT,
    KEY_DOWN, KEY_JOG, KEY_LEFT, KEY_MIDDLE, KEY_RIGHT, KEY_UP, PAGE_INCREMENT,
};

verus! {

/// Turns the display the right way up.
pub const KEY_ROTATE_NORMAL: char = '🔼';
/// Turns the display upside down.
pub const KEY_ROTATE_FLIPPED: char = '🔽';
/// The LED patterns that the standby screen cycles through, besides the gene's own.
pub const LED_PATTERN_COUNT: usize = 9;
/// The blinky choices: the gene's own pattern and the nine others.
pub const BLINKY_CHOICE_COUNT: usize = 10;

/// Which way up the display is.
#[derive(Copy, Clone, PartialEq, Eq, Debug, Structural)]
pub enum DisplayOrientation {
    Normal,
    UpsideDown,
}

/// The part of the UI state that key presses read and change.
#[derive(Copy, Clone, PartialEq, Eq, Debug, Structural)]
pub struct KeyState {
    pub mode: VaultMode,
    pub orientation: DisplayOrientation,
    pub passkey_cursor: usize,
    pub passkey_count: usize,
    pub photo_cursor: usize,
    pub photo_count: usize,
    pub bookmark_cursor: usize,
    pub bookmark_count: usize,
    pub bling_cursor: usize,
    pub blinky_cursor: usize,
    pub led_pattern: usize,
}

/// Something the app does after a key press, in the order given.
#[derive(Copy, Clone, PartialEq, Eq, Debug, Structural)]
pub enum UiAction {
    /// repaint the screen
    Redraw,
    /// move the password or TOTP list, `steps` rows
    ScrollList { up: bool, steps: usize },
    /// open the actions menu of the record under the cursor
    OpenRecordActions,
    /// open the actions menu of the photo under the cursor
    OpenPhotoActions,
    /// open the actions menu of the saved QR code under the cursor
    OpenBookmarkActions,
    /// type the selected password to the host
    AutotypeSelected,
    /// type the selected TOTP code to the host
    SendTotpCode,
    /// forget the TOTP code shown
    ClearTotpCode,
    /// load the photo under the cursor and show it full screen
    ShowSelectedPhoto,
    /// forget the photo held on screen
    DropPendingPhoto,
    /// hand the camera back: forget the held photo, go to standby and ask for a scan
    ReopenCamera,
    /// store the photo held on screen; the app then calls `photo_kept`
    KeepPendingPhoto,
    /// store this standby image choice
    PersistStandby(usize),
    /// show this standby image choice
    ApplyStandby(usize),
    /// switch the LED ring to this pattern
    SetLedPattern(usize),
    /// store this LED pattern choice
    PersistBlinky(usize),
    /// restart the focused row's scrolling
    ResetListFocus,
    /// ask for the QR code of the saved URL at this index of the list
    SelectBookmark(usize),
    /// drop the QR code and its caption
    ClearQr,
    /// forget the scanned URL
    ClearShownUrl,
    /// ask the main loop for a camera scan
    RequestScan,
    /// save the scanned URL
    SaveShownUrl,
    /// reload the saved URLs
    LoadBookmarks,
    /// tell the main loop whether the new screen animates
    UpdateAnimate,
    /// say that the photo store is full
    NotifyStoreFull,
}

/// What a key press did: the state after it, the actions to perform, and the key passed on.
pub struct KeyOutcome {
    pub state: KeyState,
    pub actions: Vec<UiAction>,
    pub reply: Option<char>,
}

/// `KeyOutcome` as a value.
pub struct KeyOutcomeModel {
    pub state: KeyState,
    pub actions: Seq<UiAction>,
    pub reply: Option<char>,
}

impl View for KeyOutcome {
    type V = KeyOutcomeModel;

    open spec fn view(&self) -> KeyOutcomeModel {
        KeyOutcomeModel { state: self.state, actions: self.actions@, reply: self.reply }
    }
}

/// The key handler ran to its end: the app updates the animation flag and, unless the key
/// was the jog press that raises the menu, repaints.
pub open spec fn finished(s: KeyState, acts: Seq<UiAction>, k: char, reply: Option<char>) -> KeyOutcomeModel {
    let tail = if k != KEY_JOG {
        seq![UiAction::UpdateAnimate, UiAction::Redraw]
    } else {
        seq![UiAction::UpdateAnimate]
    };
    KeyOutcomeModel { state: s, actions: acts + tail, reply }
}

/// Leaving for the menu: standby underneath, and the jog key passed on so the main loop
/// raises the menu. Nothing more happens on the way.
pub open spec fn to_menu(s: KeyState, acts: Seq<UiAction>) -> KeyOutcomeModel {
    KeyOutcomeModel { state: KeyState { mode: VaultMode::Idle, ..s }, actions: acts, reply: Some(KEY_JOG) }
}

/// Stepping an up or down key on a list of `len` rows.
pub open spec fn step_for(cursor: usize, len: usize, k: char) -> usize {
    cursor_step(cursor as nat, len as nat, k == KEY_UP) as usize
}

/// What key `k` does on the screen `s.mode`. `longpress` says the key has been held; it
/// pages the password list.
pub open spec fn key_outcome(s: KeyState, k: char, longpress: bool) -> KeyOutcomeModel {
    let vert = k == KEY_UP || k == KEY_DOWN;
    let mid = k == KEY_MIDDLE || k == KEY_JOG;
    if k == KEY_ROTATE_NORMAL {
        KeyOutcomeModel {
            state: KeyState { orientation: DisplayOrientation::Normal, ..s },
            actions: seq![UiAction::Redraw],
            reply: Some(k),
        }
    } else if k == KEY_ROTATE_FLIPPED {
        KeyOutcomeModel {
            state: KeyState { orientation: DisplayOrientation::UpsideDown, ..s },
            actions: seq![UiAction::Redraw],
            reply: Some(k),
        }
    } else {
        match s.mode {
            VaultMode::Password => {
                let steps = if longpress {
                    PAGE_INCREMENT
                } else {
                    1
                };
                if vert {
                    finished(s, seq![UiAction::ScrollList { up: k == KEY_UP, steps }], k, Some(k))
                } else if k == KEY_LEFT {
                    to_menu(s, seq![])
                } else if mid {
                    KeyOutcomeModel { state: s, actions: seq![UiAction::OpenRecordActions], reply: None }
                } else if k == KEY_RIGHT {
                    finished(s, seq![UiAction::AutotypeSelected], k, Some(k))
                } else {
                    finished(s, seq![], k, Some(k))
                }
            },
            VaultMode::Totp => {
                if vert {
                    finished(
                        s,
                        seq![UiAction::ScrollList { up: k == KEY_UP, steps: 1 }, UiAction::ClearTotpCode],
                        k,
                        Some(k),
                    )
                } else if k == KEY_LEFT {
                    to_menu(s, seq![])
                } else if mid {
                    KeyOutcomeModel { state: s, actions: seq![UiAction::OpenRecordActions], reply: None }
                } else if k == KEY_RIGHT {
                    finished(s, seq![UiAction::SendTotpCode, UiAction::ClearTotpCode], k, Some(k))
                } else {
                    finished(s, seq![UiAction::ClearTotpCode], k, Some(k))
                }
            },
            VaultMode::Passkeys => {
                if vert {
                    finished(
                        KeyState {
                            passkey_cursor: step_for(s.passkey_cursor, s.passkey_count, k),
                            ..s
                        },
                        seq![UiAction::Redraw],
                        k,
                        None,
                    )
                } else if k == KEY_LEFT {
                    to_menu(s, seq![])
                } else if mid && s.passkey_count > 0 {
                    finished(s, seq![UiAction::OpenRecordActions, UiAction::Redraw], k, None)
                } else {
                    finished(s, seq![UiAction::Redraw], k, None)
                }
            },
            VaultMode::PhotoList => {
                if vert {
                    finished(
                        KeyState { photo_cursor: step_for(s.photo_cursor, s.photo_count, k), ..s },
                        seq![UiAction::Redraw],
                        k,
                        None,
                    )
                } else if k == KEY_LEFT {
                    to_menu(s, seq![])
                } else if mid && s.photo_count > 0 {
                    finished(s, seq![UiAction::OpenPhotoActions, UiAction::Redraw], k, None)
                } else if k == KEY_RIGHT && s.photo_count > 0 {
                    finished(s, seq![UiAction::ShowSelectedPhoto, UiAction::Redraw], k, None)
                } else {
                    finished(s, seq![UiAction::Redraw], k, None)
                }
            },
            VaultMode::PhotoPreview => {
                if k == KEY_LEFT {
                    finished(
                        KeyState { mode: VaultMode::Idle, ..s },
                        seq![UiAction::DropPendingPhoto, UiAction::Redraw],
                        k,
                        None,
                    )
                } else if k == KEY_MIDDLE {
                    KeyOutcomeModel {
                        state: KeyState { mode: VaultMode::Idle, ..s },
                        actions: seq![UiAction::ReopenCamera],
                        reply: None,
                    }
                } else if k == KEY_RIGHT {
                    KeyOutcomeModel { state: s, actions: seq![UiAction::KeepPendingPhoto], reply: None }
                } else {
                    finished(s, seq![UiAction::Redraw], k, None)
                }
            },
            VaultMode::PhotoView => {
                if k == KEY_LEFT {
                    finished(
                        KeyState { mode: VaultMode::PhotoList, ..s },
                        seq![UiAction::DropPendingPhoto, UiAction::Redraw],
                        k,
                        None,
                    )
                } else if vert {
                    finished(
                        KeyState { photo_cursor: step_for(s.photo_cursor, s.photo_count, k), ..s },
                        seq![UiAction::ShowSelectedPhoto, UiAction::Redraw],
                        k,
                        None,
                    )
                } else if mid {
                    finished(s, seq![UiAction::OpenPhotoActions, UiAction::Redraw], k, None)
                } else {
                    finished(s, seq![UiAction::Redraw], k, None)
                }
            },
            VaultMode::SettingsBling => {
                if vert {
                    finished(
                        KeyState {
                            bling_cursor: step_for(s.bling_cursor, BUILTIN_IMAGE_COUNT, k),
                            ..s
                        },
                        seq![UiAction::Redraw],
                        k,
                        None,
                    )
                } else if k == KEY_LEFT {
                    to_menu(s, seq![])
                } else if k == KEY_RIGHT {
                    finished(
                        s,
                        seq![
                            UiAction::PersistStandby(s.bling_cursor),
                            UiAction::ApplyStandby(s.bling_cursor),
                            UiAction::Redraw,
                        ],
                        k,
                        None,
                    )
                } else {
                    finished(s, seq![UiAction::Redraw], k, None)
                }
            },
            VaultMode::SettingsBlinky => {
                if vert {
                    finished(
                        KeyState {
                            blinky_cursor: step_for(s.blinky_cursor, BLINKY_CHOICE_COUNT, k),
                            ..s
                        },
                        seq![UiAction::Redraw],
                        k,
                        None,
                    )
                } else if k == KEY_LEFT {
                    to_menu(s, seq![])
                } else if k == KEY_RIGHT {
                    finished(
                        KeyState { led_pattern: s.blinky_cursor, ..s },
                        seq![
                            UiAction::SetLedPattern(s.blinky_cursor),
                            UiAction::PersistBlinky(s.blinky_cursor),
                            UiAction::Redraw,
                        ],
                        k,
                        None,
                    )
                } else {
                    finished(s, seq![UiAction::Redraw], k, None)
                }
            },
            VaultMode::Idle => {
                if k == KEY_RIGHT {
                    let led = ((s.led_pattern as int + 1) % (LED_PATTERN_COUNT as int + 1)) as usize;
                    finished(
                        KeyState { led_pattern: led, blinky_cursor: led, ..s },
                        seq![UiAction::SetLedPattern(led), UiAction::PersistBlinky(led)],
                        k,
                        None,
                    )
                } else {
                    finished(s, seq![], k, Some(k))
                }
            },
            VaultMode::BookmarkList => {
                if vert {
                    finished(
                        KeyState {
                            bookmark_cursor: step_for(s.bookmark_cursor, s.bookmark_count, k),
                            ..s
                        },
                        seq![UiAction::ResetListFocus],
                        k,
                        Some(k),
                    )
                } else if k == KEY_LEFT {
                    to_menu(s, seq![])
                } else if mid {
                    KeyOutcomeModel {
                        state: s,
                        actions: if s.bookmark_count > 0 {
                            seq![UiAction::OpenBookmarkActions]
                        } else {
                            seq![]
                        },
                        reply: None,
                    }
                } else if k == KEY_RIGHT && s.bookmark_cursor < s.bookmark_count {
                    finished(s, seq![UiAction::SelectBookmark(s.bookmark_cursor)], k, Some(k))
                } else {
                    finished(s, seq![], k, Some(k))
                }
            },
            VaultMode::AboutQr { .. } => to_menu(s, seq![UiAction::ClearQr]),
            VaultMode::ShowBookmarkQr { .. } => {
                if vert {
                    finished(
                        KeyState {
                            bookmark_cursor: step_for(s.bookmark_cursor, s.bookmark_count, k),
                            ..s
                        },
                        if step_for(s.bookmark_cursor, s.bookmark_count, k) < s.bookmark_count {
                            seq![UiAction::SelectBookmark(step_for(s.bookmark_cursor, s.bookmark_count, k))]
                        } else {
                            seq![]
                        },
                        k,
                        None,
                    )
                } else if k == KEY_LEFT {
                    finished(
                        KeyState { mode: VaultMode::BookmarkList, ..s },
                        seq![UiAction::ClearQr, UiAction::ResetListFocus, UiAction::Redraw],
                        k,
                        None,
                    )
                } else {
                    finished(s, seq![], k, None)
                }
            },
            VaultMode::ShowUrl => {
                if k == KEY_LEFT {
                    to_menu(s, seq![UiAction::ClearShownUrl])
                } else if k == KEY_MIDDLE {
                    KeyOutcomeModel {
                        state: KeyState { mode: VaultMode::Idle, ..s },
                        actions: seq![UiAction::ClearShownUrl, UiAction::RequestScan],
                        reply: None,
                    }
                } else if k == KEY_RIGHT {
                    finished(
                        KeyState { mode: VaultMode::BookmarkList, ..s },
                        seq![
                            UiAction::SaveShownUrl,
                            UiAction::ClearShownUrl,
                            UiAction::ResetListFocus,
                            UiAction::LoadBookmarks,
                            UiAction::Redraw,
                        ],
                        k,
                        None,
                    )
                } else {
                    finished(s, seq![UiAction::Redraw], k, None)
                }
            },
            _ => finished(s, seq![], k, Some(k)),
        }
    }
}

/// What follows an attempt to store the held photo: with it stored, the camera again; with
/// the store full, the photo dropped, a notice, and the preview screen repainted.
pub open spec fn photo_kept_outcome(s: KeyState, kept: bool) -> KeyOutcomeModel {
    if kept {
        KeyOutcomeModel {
            state: KeyState { mode: VaultMode::Idle, ..s },
            actions: seq![UiAction::ReopenCamera],
            reply: None,
        }
    } else {
        finished(s, seq![UiAction::DropPendingPhoto, UiAction::NotifyStoreFull, UiAction::Redraw], KEY_RIGHT, None)
    }
}

/// The actions `acts`, then the end-of-handler ones; see `finished`.
fn finish(s: KeyState, acts: Vec<UiAction>, k: char, reply: Option<char>) -> (r: KeyOutcome)
    ensures
        r@ == finished(s, acts@, k, reply),
{
    let mut acts = acts;
    let ghost a0 = acts@;
    acts.push(UiAction::UpdateAnimate);
    if k != KEY_JOG {
        acts.push(UiAction::Redraw);
    }
    let r = KeyOutcome { state: s, actions: acts, reply };
    assert(r@.actions =~= finished(s, a0, k, reply).actions);
    r
}

/// Leaving for the menu after `acts`; see `to_menu`.
fn leave_to_menu(s: KeyState, acts: Vec<UiAction>) -> (r: KeyOutcome)
    ensures
        r@ == to_menu(s, acts@),
{
    KeyOutcome { state: KeyState { mode: VaultMode::Idle, ..s }, actions: acts, reply: Some(KEY_JOG) }
}

/// The cursor after an up or down key; see `step_for`.
fn step_key(cursor: usize, len: usize, k: char) -> (r: usize)
    ensures
        r == step_for(cursor, len, k),
{
    step_cursor(cursor, len, k == KEY_UP)
}

/// No actions.
fn none() -> (v: Vec<UiAction>)
    ensures
        v@ == Seq::<UiAction>::empty(),
{
    Vec::new()
}

/// One action.
fn one(a: UiAction) -> (v: Vec<UiAction>)
    ensures
        v@ == seq![a],
{
    let mut v = Vec::new();
    v.push(a);
    assert(v@ =~= seq![a]);
    v
}

/// Two actions.
fn two(a: UiAction, b: UiAction) -> (v: Vec<UiAction>)
    ensures
        v@ == seq![a, b],
{
    let mut v = Vec::new();
    v.push(a);
    v.push(b);
    assert(v@ =~= seq![a, b]);
    v
}

/// Three actions.
fn three(a: UiAction, b: UiAction, c: UiAction) -> (v: Vec<UiAction>)
    ensures
        v@ == seq![a, b, c],
{
    let mut v = Vec::new();
    v.push(a);
    v.push(b);
    v.push(c);
    assert(v@ =~= seq![a, b, c]);
    v
}

/// The outcome of key `k` on a list screen that only moves a cursor, leaves, or opens its
/// actions (the passkeys).
fn passkeys_key(s: KeyState, k: char) -> (r: KeyOutcome)
    requires
        s.mode == VaultMode::Passkeys,
        k != KEY_ROTATE_NORMAL && k != KEY_ROTATE_FLIPPED,
    ensures
        r@ == key_outcome(s, k, false),
{
    if k == KEY_UP || k == KEY_DOWN {
        finish(KeyState { passkey_cursor: step_key(s.passkey_cursor, s.passkey_count, k), ..s }, one(UiAction::Redraw), k, None)
    } else if k == KEY_LEFT {
        leave_to_menu(s, none())
    } else if (k == KEY_MIDDLE || k == KEY_JOG) && s.passkey_count > 0 {
        finish(s, two(UiAction::OpenRecordActions, UiAction::Redraw), k, None)
    } else {
        finish(s, one(UiAction::Redraw), k, None)
    }
}

/// What key `k` does; see `key_outcome`. `longpress` matters on the password screen only.
pub fn handle_key(s: KeyState, k: char, longpress: bool) -> (r: KeyOutcome)
    ensures
        r@ == key_outcome(s, k, longpress),
{
    let vert = k == KEY_UP || k == KEY_DOWN;
    let mid = k == KEY_MIDDLE || k == KEY_JOG;
    if k == KEY_ROTATE_NORMAL {
        return KeyOutcome {
            state: KeyState { orientation: DisplayOrientation::Normal, ..s },
            actions: one(UiAction::Redraw),
            reply: Some(k),
        };
    } else if k == KEY_ROTATE_FLIPPED {
        return KeyOutcome {
            state: KeyState { orientation: DisplayOrientation::UpsideDown, ..s },
            actions: one(UiAction::Redraw),
            reply: Some(k),
        };
    }
    match s.mode {
        VaultMode::Password => {
            let steps = if longpress {
                PAGE_INCREMENT
            } else {
                1
            };
            if vert {
                finish(s, one(UiAction::ScrollList { up: k == KEY_UP, steps }), k, Some(k))
            } else if k == KEY_LEFT {
                leave_to_menu(s, none())
            } else if mid {
                KeyOutcome { state: s, actions: one(UiAction::OpenRecordActions), reply: None }
            } else if k == KEY_RIGHT {
                finish(s, one(UiAction::AutotypeSelected), k, Some(k))
            } else {
                finish(s, none(), k, Some(k))
            }
        },
        VaultMode::Totp => {
            if vert {
                finish(
                    s,
                    two(UiAction::ScrollList { up: k == KEY_UP, steps: 1 }, UiAction::ClearTotpCode),
                    k,
                    Some(k),
                )
            } else if k == KEY_LEFT {
                leave_to_menu(s, none())
            } else if mid {
                KeyOutcome { state: s, actions: one(UiAction::OpenRecordActions), reply: None }
            } else if k == KEY_RIGHT {
                finish(s, two(UiAction::SendTotpCode, UiAction::ClearTotpCode), k, Some(k))
            } else {
                finish(s, one(UiAction::ClearTotpCode), k, Some(k))
            }
        },
        VaultMode::Passkeys => passkeys_key(s, k),
        VaultMode::PhotoList => {
            if vert {
                finish(
                    KeyState { photo_cursor: step_key(s.photo_cursor, s.photo_count, k), ..s },
                    one(UiAction::Redraw),
                    k,
                    None,
                )
            } else if k == KEY_LEFT {
                leave_to_menu(s, none())
            } else if mid && s.photo_count > 0 {
                finish(s, two(UiAction::OpenPhotoActions, UiAction::Redraw), k, None)
            } else if k == KEY_RIGHT && s.photo_count > 0 {
                finish(s, two(UiAction::ShowSelectedPhoto, UiAction::Redraw), k, None)
            } else {
                finish(s, one(UiAction::Redraw), k, None)
            }
        },
        VaultMode::PhotoPreview => {
            if k == KEY_LEFT {
                finish(
                    KeyState { mode: VaultMode::Idle, ..s },
                    two(UiAction::DropPendingPhoto, UiAction::Redraw),
                    k,
                    None,
                )
            } else if k == KEY_MIDDLE {
                KeyOutcome {
                    state: KeyState { mode: VaultMode::Idle, ..s },
                    actions: one(UiAction::ReopenCamera),
                    reply: None,
                }
            } else if k == KEY_RIGHT {
                KeyOutcome { state: s, actions: one(UiAction::KeepPendingPhoto), reply: None }
            } else {
                finish(s, one(UiAction::Redraw), k, None)
            }
        },
        VaultMode::PhotoView => {
            if k == KEY_LEFT {
                finish(
                    KeyState { mode: VaultMode::PhotoList, ..s },
                    two(UiAction::DropPendingPhoto, UiAction::Redraw),
                    k,
                    None,
                )
            } else if vert {
                finish(
                    KeyState { photo_cursor: step_key(s.photo_cursor, s.photo_count, k), ..s },
                    two(UiAction::ShowSelectedPhoto, UiAction::Redraw),
                    k,
                    None,
                )
            } else if mid {
                finish(s, two(UiAction::OpenPhotoActions, UiAction::Redraw), k, None)
            } else {
                finish(s, one(UiAction::Redraw), k, None)
            }
        },
        VaultMode::SettingsBling => {
            if vert {
                finish(
                    KeyState { bling_cursor: step_key(s.bling_cursor, BUILTIN_IMAGE_COUNT, k), ..s },
                    one(UiAction::Redraw),
                    k,
                    None,
                )
            } else if k == KEY_LEFT {
                leave_to_menu(s, none())
            } else if k == KEY_RIGHT {
                finish(
                    s,
                    three(
                        UiAction::PersistStandby(s.bling_cursor),
                        UiAction::ApplyStandby(s.bling_cursor),
                        UiAction::Redraw,
                    ),
                    k,
                    None,
                )
            } else {
                finish(s, one(UiAction::Redraw), k, None)
            }
        },
        VaultMode::SettingsBlinky => {
            if vert {
                finish(
                    KeyState {
                        blinky_cursor: step_key(s.blinky_cursor, BLINKY_CHOICE_COUNT, k),
                        ..s
                    },
                    one(UiAction::Redraw),
                    k,
                    None,
                )
            } else if k == KEY_LEFT {
                leave_to_menu(s, none())
            } else if k == KEY_RIGHT {
                finish(
                    KeyState { led_pattern: s.blinky_cursor, ..s },
                    three(
                        UiAction::SetLedPattern(s.blinky_cursor),
                        UiAction::PersistBlinky(s.blinky_cursor),
                        UiAction::Redraw,
                    ),
                    k,
                    None,
                )
            } else {
                finish(s, one(UiAction::Redraw), k, None)
            }
        },
        VaultMode::Idle => {
            if k == KEY_RIGHT {
                let led = if s.led_pattern >= LED_PATTERN_COUNT {
                    (s.led_pattern - LED_PATTERN_COUNT) % (LED_PATTERN_COUNT + 1)
                } else {
                    s.led_pattern + 1
                };
                proof {
                    let q = LED_PATTERN_COUNT as int + 1;
                    if s.led_pattern >= LED_PATTERN_COUNT {
                        vstd::arithmetic::div_mod::lemma_mod_add_multiples_vanish(
                            s.led_pattern - LED_PATTERN_COUNT,
                            q,
                        );
                    } else {
                        vstd::arithmetic::div_mod::lemma_small_mod(
                            (s.led_pattern + 1) as nat,
                            q as nat,
                        );
                    }
                }
                finish(
                    KeyState { led_pattern: led, blinky_cursor: led, ..s },
                    two(UiAction::SetLedPattern(led), UiAction::PersistBlinky(led)),
                    k,
                    None,
                )
            } else {
                finish(s, none(), k, Some(k))
            }
        },
        VaultMode::BookmarkList => {
            if vert {
                finish(
                    KeyState {
                        bookmark_cursor: step_key(s.bookmark_cursor, s.bookmark_count, k),
                        ..s
                    },
                    one(UiAction::ResetListFocus),
                    k,
                    Some(k),
                )
            } else if k == KEY_LEFT {
                leave_to_menu(s, none())
            } else if mid {
                KeyOutcome {
                    state: s,
                    actions: if s.bookmark_count > 0 {
                        one(UiAction::OpenBookmarkActions)
                    } else {
                        none()
                    },
                    reply: None,
                }
            } else if k == KEY_RIGHT && s.bookmark_cursor < s.bookmark_count {
                finish(s, one(UiAction::SelectBookmark(s.bookmark_cursor)), k, Some(k))
            } else {
                finish(s, none(), k, Some(k))
            }
        },
        VaultMode::AboutQr { .. } => leave_to_menu(s, one(UiAction::ClearQr)),
        VaultMode::ShowBookmarkQr { .. } => {
            if vert {
                let c = step_key(s.bookmark_cursor, s.bookmark_count, k);
                finish(
                    KeyState { bookmark_cursor: c, ..s },
                    if c < s.bookmark_count {
                        one(UiAction::SelectBookmark(c))
                    } else {
                        none()
                    },
                    k,
                    None,
                )
            } else if k == KEY_LEFT {
                finish(
                    KeyState { mode: VaultMode::BookmarkList, ..s },
                    three(UiAction::ClearQr, UiAction::ResetListFocus, UiAction::Redraw),
                    k,
                    None,
                )
            } else {
                finish(s, none(), k, None)
            }
        },
        VaultMode::ShowUrl => {
            if k == KEY_LEFT {
                leave_to_menu(s, one(UiAction::ClearShownUrl))
            } else if k == KEY_MIDDLE {
                KeyOutcome {
                    state: KeyState { mode: VaultMode::Idle, ..s },
                    actions: two(UiAction::ClearShownUrl, UiAction::RequestScan),
                    reply: None,
                }
            } else if k == KEY_RIGHT {
                let mut acts = three(
                    UiAction::SaveShownUrl,
                    UiAction::ClearShownUrl,
                    UiAction::ResetListFocus,
                );
                acts.push(UiAction::LoadBookmarks);
                acts.push(UiAction::Redraw);
                assert(acts@ =~= seq![
                    UiAction::SaveShownUrl,
                    UiAction::ClearShownUrl,
                    UiAction::ResetListFocus,
                    UiAction::LoadBookmarks,
                    UiAction::Redraw,
                ]);
                finish(KeyState { mode: VaultMode::BookmarkList, ..s }, acts, k, None)
            } else {
                finish(s, one(UiAction::Redraw), k, None)
            }
        },
        _ => finish(s, none(), k, Some(k)),
    }
}

/// What follows an attempt to store the held photo; see `photo_kept_outcome`.
pub fn photo_kept(s: KeyState, kept: bool) -> (r: KeyOutcome)
    ensures
        r@ == photo_kept_outcome(s, kept),
{
    if kept {
        KeyOutcome {
            state: KeyState { mode: VaultMode::Idle, ..s },
            actions: one(UiAction::ReopenCamera),
            reply: None,
        }
    } else {
        finish(
            s,
            three(UiAction::DropPendingPhoto, UiAction::NotifyStoreFull, UiAction::Redraw),
            KEY_RIGHT,
            None,
        )
    }
}

/// A cursor is on a row of its list, or at 0 when the list is empty.
pub open spec fn on_row(cursor: usize, len: usize) -> bool {
    cursor < len || (len == 0 && cursor == 0)
}

/// Every list cursor is on a row, and the LED pattern is one of the choices.
pub open spec fn cursors_on_rows(s: KeyState) -> bool {
    &&& on_row(s.passkey_cursor, s.passkey_count)
    &&& on_row(s.photo_cursor, s.photo_count)
    &&& on_row(s.bookmark_cursor, s.bookmark_count)
    &&& s.bling_cursor < BUILTIN_IMAGE_COUNT
    &&& s.blinky_cursor < BLINKY_CHOICE_COUNT
    &&& s.led_pattern < BLINKY_CHOICE_COUNT
}

proof fn lemma_step_on_row(cursor: usize, len: usize, k: char)
    requires
        on_row(cursor, len),
    ensures
        on_row(step_for(cursor, len, k), len),
{
    lemma_cursor_step_in_range(cursor as nat, len as nat, k == KEY_UP);
}

/// No key moves a cursor off its list: with every cursor on a row before a key, every cursor
/// is on a row after it, and the lists' lengths are as they were.
pub proof fn lemma_keys_keep_cursors_on_rows(s: KeyState, k: char, longpress: bool)
    requires
        cursors_on_rows(s),
    ensures
        cursors_on_rows(key_outcome(s, k, longpress).state),
        key_outcome(s, k, longpress).state.passkey_count == s.passkey_count,
        key_outcome(s, k, longpress).state.photo_count == s.photo_count,
        key_outcome(s, k, longpress).state.bookmark_count == s.bookmark_count,
{
    lemma_step_on_row(s.passkey_cursor, s.passkey_count, k);
    lemma_step_on_row(s.photo_cursor, s.photo_count, k);
    lemma_step_on_row(s.bookmark_cursor, s.bookmark_count, k);
    lemma_step_on_row(s.bling_cursor, BUILTIN_IMAGE_COUNT, k);
    lemma_step_on_row(s.blinky_cursor, BLINKY_CHOICE_COUNT, k);
}

/// LEFT is back on every screen: a list, a settings screen or the scanned URL goes to the
/// menu (standby underneath, the menu key passed on); a photo full screen goes back to the
/// photo list; a saved URL's QR code back to the saved URLs; a fresh capture is dropped for
/// standby; and on standby itself LEFT is passed on, to open the menu at its top.
pub proof fn lemma_left_goes_back(s: KeyState, longpress: bool)
    ensures
        ({
            let o = key_outcome(s, KEY_LEFT, longpress);
            &&& (s.mode == VaultMode::Password || s.mode == VaultMode::Totp || s.mode
                == VaultMode::Passkeys || s.mode == VaultMode::PhotoList || s.mode
                == VaultMode::SettingsBling || s.mode == VaultMode::SettingsBlinky || s.mode
                == VaultMode::BookmarkList || s.mode == VaultMode::ShowUrl) ==> o.state.mode
                == VaultMode::Idle && o.reply == Some(KEY_JOG)
            &&& s.mode == VaultMode::PhotoView ==> o.state.mode == VaultMode::PhotoList
            &&& (s.mode matches VaultMode::ShowBookmarkQr { .. }) ==> o.state.mode
                == VaultMode::BookmarkList
            &&& s.mode == VaultMode::PhotoPreview ==> o.state.mode == VaultMode::Idle
                && o.actions[0] == UiAction::DropPendingPhoto
            &&& s.mode == VaultMode::Idle ==> o.state.mode == VaultMode::Idle && o.reply == Some(
                KEY_LEFT,
            )
        }),
{
}

/// Any key leaves the About code, for the menu, and drops the code on the way out.
pub proof fn lemma_any_key_leaves_about(s: KeyState, k: char, longpress: bool)
    requires
        s.mode matches VaultMode::AboutQr { .. },
        k != KEY_ROTATE_NORMAL,
        k != KEY_ROTATE_FLIPPED,
    ensures
        key_outcome(s, k, longpress).state.mode == VaultMode::Idle,
        key_outcome(s, k, longpress).actions == seq![UiAction::ClearQr],
        key_outcome(s, k, longpress).reply == Some(KEY_JOG),
{
}

/// The middle button and the jog press are consumed by the screens that act on them: they
/// are never passed on to the main loop (which would read them as "open the camera" or "open
/// the record actions") from the password, TOTP, saved-URL, passkey and photo screens.
pub proof fn lemma_middle_is_consumed(s: KeyState, k: char, longpress: bool)
    requires
        k == KEY_MIDDLE || k == KEY_JOG,
        s.mode == VaultMode::Password || s.mode == VaultMode::Totp || s.mode
            == VaultMode::BookmarkList || s.mode == VaultMode::Passkeys || s.mode
            == VaultMode::PhotoList || s.mode == VaultMode::PhotoView,
    ensures
        key_outcome(s, k, longpress).reply is None,
{
}

/// RIGHT on standby steps the LED ring to the next pattern, wrapping after the last, and
/// moves the blinky choice with it, so the two controls always agree.
pub proof fn lemma_standby_right_cycles(s: KeyState, longpress: bool)
    requires
        s.mode == VaultMode::Idle,
        s.led_pattern < BLINKY_CHOICE_COUNT,
    ensures
        key_outcome(s, KEY_RIGHT, longpress).state.led_pattern == if s.led_pattern
            == LED_PATTERN_COUNT {
            0
        } else {
            s.led_pattern + 1
        },
        key_outcome(s, KEY_RIGHT, longpress).state.blinky_cursor == key_outcome(
            s,
            KEY_RIGHT,
            longpress,
        ).state.led_pattern,
        key_outcome(s, KEY_RIGHT, longpress).actions.contains(
            UiAction::PersistBlinky(key_outcome(s, KEY_RIGHT, longpress).state.led_pattern),
        ),
{
    let o = key_outcome(s, KEY_RIGHT, longpress);
    assert(o.actions[1] == UiAction::PersistBlinky(o.state.led_pattern));
}

/// RIGHT on the 2FA screen types the selected code to the host: the first thing it does is
/// send the TOTP code, the code on screen is then cleared, and the screen stays as it was
/// with the key passed on.
pub proof fn lemma_right_on_totp_sends_the_code(s: KeyState, longpress: bool)
    requires
        s.mode == VaultMode::Totp,
    ensures
        key_outcome(s, KEY_RIGHT, longpress).actions.len() >= 2,
        key_outcome(s, KEY_RIGHT, longpress).actions[0] == UiAction::SendTotpCode,
        key_outcome(s, KEY_RIGHT, longpress).actions[1] == UiAction::ClearTotpCode,
        key_outcome(s, KEY_RIGHT, longpress).actions.contains(UiAction::SendTotpCode),
        key_outcome(s, KEY_RIGHT, longpress).state == s,
        key_outcome(s, KEY_RIGHT, longpress).reply == Some(KEY_RIGHT),
{
    let o = key_outcome(s, KEY_RIGHT, longpress);
    assert(o.actions[0] == UiAction::SendTotpCode);
}

/// No other key on the 2FA screen sends a code.
pub proof fn lemma_only_right_sends_on_totp(s: KeyState, k: char, longpress: bool)
    requires
        s.mode == VaultMode::Totp,
        k != KEY_RIGHT,
    ensures
        !key_outcome(s, k, longpress).actions.contains(UiAction::SendTotpCode),
{
    let o = key_outcome(s, k, longpress);
    if o.actions.contains(UiAction::SendTotpCode) {
        let i = choose|i: int| 0 <= i < o.actions.len() && o.actions[i] == UiAction::SendTotpCode;
        assert(o.actions[i] == UiAction::SendTotpCode);
    }
}

} // verus!
