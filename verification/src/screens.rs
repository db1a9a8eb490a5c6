//! What each screen puts around its content when it is repainted: the heading and the three
//! button labels, and the timing decisions of the screens that animate.
use vstd::prelude::*;
use crate::ui::{VaultMode, KEY_MIDDLE, KEY_RIGHT};
use crate::keys::{key_outcome, KeyState, UiAction};

verus! {

broadcast use vstd::string::group_string_axioms;

/// The heading and button labels of a screen. A label left out says the button does nothing
/// there.
#[derive(Copy, Clone, Debug)]
pub struct Chrome {
    pub heading: Option<&'static str>,
    pub left: Option<&'static str>,
    pub middle: Option<&'static str>,
    pub right: Option<&'static str>,
}

/// What the chrome of a screen depends on besides the screen itself.
#[derive(Copy, Clone, PartialEq, Eq, Debug, Structural)]
pub struct ChromeInputs {
    pub passkey_count: usize,
    pub photo_count: usize,
    pub bookmark_count: usize,
    /// passwords that pass the filter
    pub password_count: usize,
    /// a photo is held to be shown
    pub has_photo: bool,
    /// the clock has been set, so TOTP codes mean something
    pub clock_set: bool,
    /// the whole screen is being repainted, not one scrolling row
    pub full_repaint: bool,
}

/// A label shown only when `cond` holds.
pub open spec fn label_if(cond: bool, l: &'static str) -> Option<&'static str> {
    if cond {
        Some(l)
    } else {
        None
    }
}

/// A label shown only when `cond` holds.
fn label_when(cond: bool, l: &'static str) -> (r: Option<&'static str>)
    ensures
        r == label_if(cond, l),
{
    if cond {
        Some(l)
    } else {
        None
    }
}

/// The heading and labels of screen `mode`: the lists offer "more" only when they hold
/// something to act on, the photo grid has no heading (its rows fill the panel), a fresh
/// capture offers redo and save, the TOTP screen shows nothing but a warning until the clock
/// is set, and the saved URLs repaint their furniture only on a full repaint.
pub fn screen_chrome(mode: VaultMode, c: ChromeInputs) -> (r: Chrome)
    ensures
        r == chrome_of(mode, c),
{
    match mode {
        VaultMode::Passkeys => Chrome {
            heading: Some("PASSKEYS"),
            left: Some("back"),
            middle: label_when(c.passkey_count > 0, "more"),
            right: None,
        },
        VaultMode::PhotoList => if c.photo_count == 0 {
            Chrome { heading: Some("PHOTOS"), left: Some("back"), middle: None, right: None }
        } else {
            Chrome { heading: None, left: Some("back"), middle: Some("more"), right: Some("view") }
        },
        VaultMode::PhotoPreview => Chrome {
            heading: label_when(!c.has_photo, "NO PHOTO"),
            left: Some("back"),
            middle: Some("redo"),
            right: Some("save"),
        },
        VaultMode::PhotoView => Chrome {
            heading: label_when(!c.has_photo, "NO PHOTO"),
            left: Some("back"),
            middle: Some("more"),
            right: None,
        },
        VaultMode::SettingsBling => Chrome {
            heading: Some("BLING"),
            left: Some("back"),
            middle: None,
            right: Some("pick"),
        },
        VaultMode::SettingsBlinky => Chrome {
            heading: Some("BLINKY"),
            left: Some("back"),
            middle: None,
            right: Some("pick"),
        },
        VaultMode::Totp => if c.clock_set {
            Chrome {
                heading: Some("2FA DIGITS"),
                left: Some("back"),
                middle: Some("more"),
                right: Some("send"),
            }
        } else {
            Chrome { heading: Some("2FA DIGITS"), left: None, middle: None, right: None }
        },
        VaultMode::Password => Chrome {
            heading: Some("PASSWORDS"),
            left: Some("back"),
            middle: Some("more"),
            right: label_when(c.password_count > 0, "type"),
        },
        VaultMode::BookmarkList => if c.full_repaint {
            Chrome {
                heading: Some("QR COLLECTION"),
                left: Some("back"),
                middle: label_when(c.bookmark_count > 0, "more"),
                right: label_when(c.bookmark_count > 0, "show"),
            }
        } else {
            Chrome { heading: None, left: None, middle: None, right: None }
        },
        VaultMode::ShowUrl => Chrome {
            heading: Some("URL"),
            left: Some("back"),
            middle: Some("redo"),
            right: Some("save"),
        },
        _ => Chrome { heading: None, left: None, middle: None, right: None },
    }
}

/// The chrome of screen `mode`; see `screen_chrome`.
pub open spec fn chrome_of(mode: VaultMode, c: ChromeInputs) -> Chrome {
    match mode {
        VaultMode::Passkeys => Chrome {
            heading: Some("PASSKEYS"),
            left: Some("back"),
            middle: label_if(c.passkey_count > 0, "more"),
            right: None,
        },
        VaultMode::PhotoList => if c.photo_count == 0 {
            Chrome { heading: Some("PHOTOS"), left: Some("back"), middle: None, right: None }
        } else {
            Chrome { heading: None, left: Some("back"), middle: Some("more"), right: Some("view") }
        },
        VaultMode::PhotoPreview => Chrome {
            heading: label_if(!c.has_photo, "NO PHOTO"),
            left: Some("back"),
            middle: Some("redo"),
            right: Some("save"),
        },
        VaultMode::PhotoView => Chrome {
            heading: label_if(!c.has_photo, "NO PHOTO"),
            left: Some("back"),
            middle: Some("more"),
            right: None,
        },
        VaultMode::SettingsBling => Chrome {
            heading: Some("BLING"),
            left: Some("back"),
            middle: None,
            right: Some("pick"),
        },
        VaultMode::SettingsBlinky => Chrome {
            heading: Some("BLINKY"),
            left: Some("back"),
            middle: None,
            right: Some("pick"),
        },
        VaultMode::Totp => if c.clock_set {
            Chrome {
                heading: Some("2FA DIGITS"),
                left: Some("back"),
                middle: Some("more"),
                right: Some("send"),
            }
        } else {
            Chrome { heading: Some("2FA DIGITS"), left: None, middle: None, right: None }
        },
        VaultMode::Password => Chrome {
            heading: Some("PASSWORDS"),
            left: Some("back"),
            middle: Some("more"),
            right: label_if(c.password_count > 0, "type"),
        },
        VaultMode::BookmarkList => if c.full_repaint {
            Chrome {
                heading: Some("QR COLLECTION"),
                left: Some("back"),
                middle: label_if(c.bookmark_count > 0, "more"),
                right: label_if(c.bookmark_count > 0, "show"),
            }
        } else {
            Chrome { heading: None, left: None, middle: None, right: None }
        },
        VaultMode::ShowUrl => Chrome {
            heading: Some("URL"),
            left: Some("back"),
            middle: Some("redo"),
            right: Some("save"),
        },
        _ => Chrome { heading: None, left: None, middle: None, right: None },
    }
}

/// The labels tell the truth on the list screens: the middle button is labelled exactly when
/// pressing it opens an actions menu, and on the photo and saved-URL lists the right button
/// is labelled exactly when pressing it shows the entry under the cursor.
pub proof fn lemma_labels_match_keys(s: KeyState, c: ChromeInputs, longpress: bool)
    requires
        c.passkey_count == s.passkey_count,
        c.photo_count == s.photo_count,
        c.bookmark_count == s.bookmark_count,
        c.full_repaint,
        s.photo_cursor < s.photo_count || s.photo_count == 0,
        s.bookmark_cursor < s.bookmark_count || s.bookmark_count == 0,
    ensures
        s.mode == VaultMode::Passkeys ==> (chrome_of(s.mode, c).middle is Some <==> key_outcome(
            s,
            KEY_MIDDLE,
            longpress,
        ).actions.contains(UiAction::OpenRecordActions)),
        s.mode == VaultMode::PhotoList ==> (chrome_of(s.mode, c).middle is Some <==> key_outcome(
            s,
            KEY_MIDDLE,
            longpress,
        ).actions.contains(UiAction::OpenPhotoActions)),
        s.mode == VaultMode::PhotoList ==> (chrome_of(s.mode, c).right is Some <==> key_outcome(
            s,
            KEY_RIGHT,
            longpress,
        ).actions.contains(UiAction::ShowSelectedPhoto)),
        s.mode == VaultMode::BookmarkList ==> (chrome_of(s.mode, c).middle is Some <==> key_outcome(
            s,
            KEY_MIDDLE,
            longpress,
        ).actions.contains(UiAction::OpenBookmarkActions)),
        s.mode == VaultMode::BookmarkList ==> (chrome_of(s.mode, c).right is Some <==> key_outcome(
            s,
            KEY_RIGHT,
            longpress,
        ).actions.contains(UiAction::SelectBookmark(s.bookmark_cursor))),
{
    let m = key_outcome(s, KEY_MIDDLE, longpress);
    let r = key_outcome(s, KEY_RIGHT, longpress);
    if s.mode == VaultMode::Passkeys && s.passkey_count > 0 {
        assert(m.actions[0] == UiAction::OpenRecordActions);
    }
    if s.mode == VaultMode::PhotoList && s.photo_count > 0 {
        assert(m.actions[0] == UiAction::OpenPhotoActions);
        assert(r.actions[0] == UiAction::ShowSelectedPhoto);
    }
    if s.mode == VaultMode::BookmarkList && s.bookmark_count > 0 {
        assert(m.actions[0] == UiAction::OpenBookmarkActions);
        assert(r.actions[0] == UiAction::SelectBookmark(s.bookmark_cursor));
    }
}

// ---------------------------------------------------------------------------------------
// Timing of the animated screens
// ---------------------------------------------------------------------------------------

/// One tick of a QR screen at tick `quantum`: whether to paint the code (every eighth tick),
/// whether to repaint the caption (every other tick), and the tick that follows.
pub open spec fn qr_tick_of(quantum: u32) -> (bool, bool, u32) {
    (quantum % 8 == 0, quantum % 2 == 0, (quantum + 1) as u32)
}

/// One tick of a QR screen; see `qr_tick_of`.
pub fn qr_tick(quantum: u32) -> (r: (bool, bool, u32))
    requires
        quantum < u32::MAX,
    ensures
        r == qr_tick_of(quantum),
{
    let code = quantum & 7 == 0;
    let caption = quantum & 1 == 0;
    assert(quantum & 7 == quantum % 8) by (bit_vector);
    assert(quantum & 1 == quantum % 2) by (bit_vector);
    (code, caption, quantum + 1)
}

/// What a QR screen (the About code or a saved URL's) does at one tick: with no code to
/// show it returns to standby and paints nothing; else it paints as `qr_tick_of` says and
/// stays on the same screen, one tick on. Any other screen is left as it is.
pub open spec fn qr_screen_step_of(mode: VaultMode, has_code: bool) -> (bool, bool, VaultMode) {
    match mode {
        VaultMode::AboutQr { quantum } => if !has_code {
            (false, false, VaultMode::Idle)
        } else {
            let (c, t, n) = qr_tick_of(quantum);
            (c, t, VaultMode::AboutQr { quantum: n })
        },
        VaultMode::ShowBookmarkQr { quantum } => if !has_code {
            (false, false, VaultMode::Idle)
        } else {
            let (c, t, n) = qr_tick_of(quantum);
            (c, t, VaultMode::ShowBookmarkQr { quantum: n })
        },
        _ => (false, false, mode),
    }
}

/// Whether a QR screen's tick count can still advance.
pub open spec fn qr_tick_room(mode: VaultMode) -> bool {
    match mode {
        VaultMode::AboutQr { quantum } => quantum < u32::MAX,
        VaultMode::ShowBookmarkQr { quantum } => quantum < u32::MAX,
        _ => true,
    }
}

/// One tick of a QR screen: whether to paint the code and the caption, and the screen that
/// follows; see `qr_screen_step_of`.
pub fn qr_screen_step(mode: VaultMode, has_code: bool) -> (r: (bool, bool, VaultMode))
    requires
        qr_tick_room(mode),
    ensures
        r == qr_screen_step_of(mode, has_code),
{
    match mode {
        VaultMode::AboutQr { quantum } => if !has_code {
            (false, false, VaultMode::Idle)
        } else {
            let (c, t, n) = qr_tick(quantum);
            (c, t, VaultMode::AboutQr { quantum: n })
        },
        VaultMode::ShowBookmarkQr { quantum } => if !has_code {
            (false, false, VaultMode::Idle)
        } else {
            let (c, t, n) = qr_tick(quantum);
            (c, t, VaultMode::ShowBookmarkQr { quantum: n })
        },
        _ => (false, false, mode),
    }
}

/// How long, in ms, a QR screen's caption has been scrolling at tick `quantum`: an eighth of
/// a second a tick.
pub fn caption_held_ms(quantum: u32) -> (r: u64)
    ensures
        r == quantum as u64 * 125,
{
    quantum as u64 * 125
}

/// The standby screen repaints its image only when something changed: the screen was just
/// entered, the image chosen changed, or the three-second self-heal edge flipped.
pub open spec fn idle_repaint_needed(
    entered: bool,
    drawn: Option<(usize, bool)>,
    now: (usize, bool),
    edge_was: bool,
    now_ms: u64,
) -> bool {
    entered || drawn != Some(now) || edge_was != ((now_ms / 3000) % 2 == 0)
}

/// Whether the standby screen repaints its image; see `idle_repaint_needed`. Also gives the
/// edge at `now_ms`.
pub fn idle_repaint(
    entered: bool,
    drawn: Option<(usize, bool)>,
    now: (usize, bool),
    edge_was: bool,
    now_ms: u64,
) -> (r: (bool, bool))
    ensures
        r.0 == idle_repaint_needed(entered, drawn, now, edge_was, now_ms),
        r.1 == ((now_ms / 3000) % 2 == 0),
{
    let edge = (now_ms / 3000) % 2 == 0;
    let same = match drawn {
        Some(d) => d.0 == now.0 && d.1 == now.1,
        None => false,
    };
    (entered || !same || edge_was != edge, edge)
}

/// The "BIO ACTIVE" flag shows on even seconds while BIO programs are loaded.
pub fn bio_flag_shown(bio_loaded: bool, now_ms: u64) -> (r: bool)
    ensures
        r == (bio_loaded && (now_ms / 1000) % 2 == 0),
{
    bio_loaded && (now_ms / 1000) % 2 == 0
}

/// The battery is read once on each fourth second, unless it was just read or the badge is
/// plugged in.
pub fn battery_poll_due(polled: bool, now_ms: u64, plugged_in: bool) -> (r: bool)
    ensures
        r == (!polled && (now_ms / 1000) % 4 == 0 && !plugged_in),
{
    !polled && (now_ms / 1000) % 4 == 0 && !plugged_in
}

/// The first year the badge can be in: a clock reading an earlier year was never set, and
/// TOTP codes computed from it would be wrong.
pub const CLOCK_SET_YEAR: i32 = 2026;

/// Whether a clock reading the year `year` has been set.
pub fn clock_is_set(year: i32) -> (r: bool)
    ensures
        r == (year >= CLOCK_SET_YEAR),
{
    year >= CLOCK_SET_YEAR
}

/// The TOTP period, in ms.
pub const TOTP_PERIOD_MS: u64 = 30_000;

/// The TOTP period that `now_ms` (ms since the epoch) falls in.
pub fn totp_epoch(now_ms: u64) -> (r: u64)
    ensures
        r == now_ms / TOTP_PERIOD_MS,
{
    now_ms / TOTP_PERIOD_MS
}

/// How much of the TOTP timer bar, `width` pixels at full, has run down `elapsed` ms into the
/// period: in proportion, rounded down.
pub fn timer_run_down(elapsed: u64, width: u64) -> (r: u64)
    requires
        elapsed < TOTP_PERIOD_MS,
        elapsed * width * 128 <= u64::MAX,
    ensures
        r == (elapsed * width * 128) / (TOTP_PERIOD_MS * 128),
        r <= width,
{
    assert(elapsed * width <= elapsed * width * 128) by (nonlinear_arith);
    assert((elapsed * width * 128) / (30_000int * 128) <= width) by (nonlinear_arith)
        requires
            elapsed < 30_000,
    ;
    (elapsed * width * 128) / (TOTP_PERIOD_MS * 128)
}

} // verus!
