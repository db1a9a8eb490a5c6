//! The vault app's screens as state: which screen is up, where each list's cursor sits, the
//! factory test's progress, the long-press timer, the standby image choice, and the screen
//! the badge boots into. The key handling that moves between them is in `keys`.
use vstd::prelude::*;
use crate::storage::const_str_eq;

verus! {

broadcast use vstd::string::group_string_axioms;

/// The screen the vault app shows.
#[derive(Copy, Clone, PartialEq, Eq, Debug, Structural)]
pub enum VaultMode {
    Idle,
    ShowKey { quantum: u32 },
    ResponseGene { quantum: u32 },
    /// confirming the current pattern
    ConfirmGene,
    GeneScan,
    FactoryTest,
    Tour,
    TokenTour,
    DefconHelp,
    About,
    Totp,
    Password,
    /// the About screen's QR code
    AboutQr { quantum: u32 },
    BookmarkList,
    Passkeys,
    PhotoList,
    /// a fresh capture, not yet stored
    PhotoPreview,
    /// a stored photo, full screen
    PhotoView,
    SettingsBling,
    SettingsBlinky,
    /// a saved URL as a QR code
    ShowBookmarkQr { quantum: u32 },
    /// a scanned URL, before it is saved
    ShowUrl,
}

// ---------------------------------------------------------------------------------------
// List cursors
// ---------------------------------------------------------------------------------------

/// The cursor of a list of `len` rows after one step up or down, wrapping at both ends. An
/// empty list keeps its cursor at 0.
pub open spec fn cursor_step(cursor: nat, len: nat, up: bool) -> nat {
    if len == 0 {
        0
    } else if up {
        if cursor == 0 {
            (len - 1) as nat
        } else {
            (cursor - 1) as nat
        }
    } else if cursor + 1 >= len {
        0
    } else {
        cursor + 1
    }
}

/// Moves a list cursor one step, wrapping at both ends; see `cursor_step`.
pub fn step_cursor(cursor: usize, len: usize, up: bool) -> (r: usize)
    ensures
        r == cursor_step(cursor as nat, len as nat, up),
{
    if len == 0 {
        return 0;
    }
    if up {
        if cursor == 0 {
            len - 1
        } else {
            cursor - 1
        }
    } else if cursor >= len - 1 {
        0
    } else {
        cursor + 1
    }
}

/// A step keeps the cursor on a row: below the length of a list that has rows, at 0 in one
/// that has none. A step down from the last row lands on the first, and a step up from the
/// first lands on the last; a step down then up comes back.
pub proof fn lemma_cursor_step_in_range(cursor: nat, len: nat, up: bool)
    ensures
        len > 0 && (cursor < len || !up) ==> cursor_step(cursor, len, up) < len,
        len == 0 ==> cursor_step(cursor, len, up) == 0,
        len > 0 ==> cursor_step((len - 1) as nat, len, false) == 0,
        len > 0 ==> cursor_step(0, len, true) == len - 1,
        cursor < len ==> cursor_step(cursor_step(cursor, len, false), len, true) == cursor,
{
}

// ---------------------------------------------------------------------------------------
// The factory test
// ---------------------------------------------------------------------------------------

/// Seconds after which the factory test starts without a word from the jig.
pub const JIG_TIMEOUT: u64 = 35;
/// The QR code the factory test scans for.
pub const FACTORY_QR_STRING: &'static str = "test://factory-test-data-lorem-ipsum-data-data";

/// The jog press.
pub const KEY_JOG: char = '∴';
/// The middle button.
pub const KEY_MIDDLE: char = '🔥';
pub const KEY_UP: char = '↑';
pub const KEY_DOWN: char = '↓';
pub const KEY_LEFT: char = '←';
pub const KEY_RIGHT: char = '→';

/// The factory test's progress: each button in turn, then the middle button together with a
/// scan of the test code. Left and right are swapped, as the board is upside down on the jig.
pub enum FactoryTestState {
    /// waiting for the jig, since `start_ms` on the tick timer
    InitWait { start_ms: u64 },
    JogPress { seen_press: bool },
    Up { seen_up: bool },
    Down { seen_down: bool },
    Left { seen_left: bool },
    Right { seen_right: bool },
    MiddleScan { seen_middle: bool, got_scan: bool },
    Finish,
    Error(String),
}

/// The factory test's progress, as a value.
pub enum FactoryTestModel {
    InitWait { start_ms: u64 },
    JogPress { seen_press: bool },
    Up { seen_up: bool },
    Down { seen_down: bool },
    Left { seen_left: bool },
    Right { seen_right: bool },
    MiddleScan { seen_middle: bool, got_scan: bool },
    Finish,
    Error(Seq<char>),
}

impl View for FactoryTestState {
    type V = FactoryTestModel;

    open spec fn view(&self) -> FactoryTestModel {
        match self {
            FactoryTestState::InitWait { start_ms } => FactoryTestModel::InitWait {
                start_ms: *start_ms,
            },
            FactoryTestState::JogPress { seen_press } => FactoryTestModel::JogPress {
                seen_press: *seen_press,
            },
            FactoryTestState::Up { seen_up } => FactoryTestModel::Up { seen_up: *seen_up },
            FactoryTestState::Down { seen_down } => FactoryTestModel::Down { seen_down: *seen_down },
            FactoryTestState::Left { seen_left } => FactoryTestModel::Left { seen_left: *seen_left },
            FactoryTestState::Right { seen_right } => FactoryTestModel::Right {
                seen_right: *seen_right,
            },
            FactoryTestState::MiddleScan { seen_middle, got_scan } => FactoryTestModel::MiddleScan {
                seen_middle: *seen_middle,
                got_scan: *got_scan,
            },
            FactoryTestState::Finish => FactoryTestModel::Finish,
            FactoryTestState::Error(e) => FactoryTestModel::Error(e@),
        }
    }
}

/// Whole seconds from `start_ms` to `now_ms`; none when the clock reads earlier.
pub open spec fn secs_since(start_ms: u64, now_ms: u64) -> int {
    if now_ms >= start_ms {
        (now_ms - start_ms) / 1000
    } else {
        0
    }
}

/// The key pressed is `c`.
pub open spec fn key_is(k: Option<char>, c: char) -> bool {
    k == Some(c)
}

/// The factory test's next state, given the key pressed, the code scanned, an error report
/// and whether the jig said it is ready, at time `now_ms`. An error ends the test whatever
/// the state; otherwise a step completes once its button was seen, keeping what it has seen
/// so far.
pub open spec fn factory_next(
    s: FactoryTestModel,
    k: Option<char>,
    qr: Option<Seq<char>>,
    err: Option<Seq<char>>,
    jig_ready: bool,
    now_ms: u64,
) -> FactoryTestModel {
    match err {
        Some(e) => FactoryTestModel::Error(e),
        None => match s {
            FactoryTestModel::InitWait { start_ms } => if jig_ready || secs_since(start_ms, now_ms)
                > JIG_TIMEOUT {
                FactoryTestModel::JogPress { seen_press: false }
            } else {
                FactoryTestModel::InitWait { start_ms }
            },
            FactoryTestModel::JogPress { seen_press } => if seen_press || key_is(k, KEY_JOG) {
                FactoryTestModel::Up { seen_up: false }
            } else {
                FactoryTestModel::JogPress { seen_press: false }
            },
            FactoryTestModel::Up { seen_up } => if seen_up || key_is(k, KEY_UP) {
                FactoryTestModel::Down { seen_down: false }
            } else {
                FactoryTestModel::Up { seen_up: false }
            },
            FactoryTestModel::Down { seen_down } => if seen_down || key_is(k, KEY_DOWN) {
                FactoryTestModel::Left { seen_left: false }
            } else {
                FactoryTestModel::Down { seen_down: false }
            },
            FactoryTestModel::Left { seen_left } => if seen_left || key_is(k, KEY_RIGHT) {
                FactoryTestModel::Right { seen_right: false }
            } else {
                FactoryTestModel::Left { seen_left: false }
            },
            FactoryTestModel::Right { seen_right } => if seen_right || key_is(k, KEY_LEFT) {
                FactoryTestModel::MiddleScan { seen_middle: false, got_scan: false }
            } else {
                FactoryTestModel::Right { seen_right: false }
            },
            FactoryTestModel::MiddleScan { seen_middle, got_scan } => {
                let m = seen_middle || key_is(k, KEY_MIDDLE);
                let g = got_scan || qr == Some(FACTORY_QR_STRING@);
                if m && g {
                    FactoryTestModel::Finish
                } else {
                    FactoryTestModel::MiddleScan { seen_middle: m, got_scan: g }
                }
            },
            other => other,
        },
    }
}

/// Whether `k` is the key `c`.
fn key_matches(k: Option<char>, c: char) -> (r: bool)
    ensures
        r == key_is(k, c),
{
    match k {
        Some(x) => x == c,
        None => false,
    }
}

impl FactoryTestState {
    /// The next state; see `factory_next`.
    pub fn handle_input(
        self,
        k: Option<char>,
        qr_result: Option<String>,
        err: Option<String>,
        jig_ready: bool,
        now_ms: u64,
    ) -> (r: Self)
        ensures
            r@ == factory_next(
                self@,
                k,
                match qr_result {
                    Some(q) => Some(q@),
                    None => None,
                },
                match err {
                    Some(e) => Some(e@),
                    None => None,
                },
                jig_ready,
                now_ms,
            ),
    {
        match err {
            Some(e) => {
                return FactoryTestState::Error(e);
            },
            None => {},
        }
        match self {
            FactoryTestState::InitWait { start_ms } => {
                let secs = if now_ms >= start_ms {
                    (now_ms - start_ms) / 1000
                } else {
                    0
                };
                if jig_ready || secs > JIG_TIMEOUT {
                    FactoryTestState::JogPress { seen_press: false }
                } else {
                    FactoryTestState::InitWait { start_ms }
                }
            },
            FactoryTestState::JogPress { seen_press } => {
                if seen_press || key_matches(k, KEY_JOG) {
                    FactoryTestState::Up { seen_up: false }
                } else {
                    FactoryTestState::JogPress { seen_press: false }
                }
            },
            FactoryTestState::Up { seen_up } => {
                if seen_up || key_matches(k, KEY_UP) {
                    FactoryTestState::Down { seen_down: false }
                } else {
                    FactoryTestState::Up { seen_up: false }
                }
            },
            FactoryTestState::Down { seen_down } => {
                if seen_down || key_matches(k, KEY_DOWN) {
                    FactoryTestState::Left { seen_left: false }
                } else {
                    FactoryTestState::Down { seen_down: false }
                }
            },
            FactoryTestState::Left { seen_left } => {
                if seen_left || key_matches(k, KEY_RIGHT) {
                    FactoryTestState::Right { seen_right: false }
                } else {
                    FactoryTestState::Left { seen_left: false }
                }
            },
            FactoryTestState::Right { seen_right } => {
                if seen_right || key_matches(k, KEY_LEFT) {
                    FactoryTestState::MiddleScan { seen_middle: false, got_scan: false }
                } else {
                    FactoryTestState::Right { seen_right: false }
                }
            },
            FactoryTestState::MiddleScan { seen_middle, got_scan } => {
                let m = seen_middle || key_matches(k, KEY_MIDDLE);
                let g = got_scan || match qr_result {
                    Some(q) => const_str_eq(q.as_str(), FACTORY_QR_STRING),
                    None => false,
                };
                if m && g {
                    FactoryTestState::Finish
                } else {
                    FactoryTestState::MiddleScan { seen_middle: m, got_scan: g }
                }
            },
            FactoryTestState::Finish => FactoryTestState::Finish,
            FactoryTestState::Error(e) => FactoryTestState::Error(e),
        }
    }
}

/// The test never goes backwards: from any state before the end, with no error, the next
/// state is the same step or the one after it; once finished, it stays finished.
pub proof fn lemma_factory_test_advances(
    s: FactoryTestModel,
    k: Option<char>,
    qr: Option<Seq<char>>,
    jig_ready: bool,
    now_ms: u64,
)
    ensures
        s == FactoryTestModel::Finish ==> factory_next(s, k, qr, None, jig_ready, now_ms)
            == FactoryTestModel::Finish,
        factory_step_index(factory_next(s, k, qr, None, jig_ready, now_ms)) >= factory_step_index(
            s,
        ),
        factory_step_index(factory_next(s, k, qr, None, jig_ready, now_ms)) <= factory_step_index(
            s,
        ) + 1,
{
}

/// Where a state stands in the test, from 0 (waiting) to 7 (finished); an error stands apart,
/// at 8.
pub open spec fn factory_step_index(s: FactoryTestModel) -> int {
    match s {
        FactoryTestModel::InitWait { .. } => 0,
        FactoryTestModel::JogPress { .. } => 1,
        FactoryTestModel::Up { .. } => 2,
        FactoryTestModel::Down { .. } => 3,
        FactoryTestModel::Left { .. } => 4,
        FactoryTestModel::Right { .. } => 5,
        FactoryTestModel::MiddleScan { .. } => 6,
        FactoryTestModel::Finish => 7,
        FactoryTestModel::Error(_) => 8,
    }
}

// ---------------------------------------------------------------------------------------
// Long presses
// ---------------------------------------------------------------------------------------

/// A gap between key events longer than this (ms) ends a hold.
pub const KEYUP_DELAY_MS: u64 = 100;
/// A hold longer than this (ms) pages the list instead of stepping it.
pub const FAST_SCROLL_DELAY_MS: u64 = 1300;
/// Rows a list moves per key event during a long press.
pub const PAGE_INCREMENT: usize = 6;

/// The hold timer after a key event at `now`: `(last key time, hold start, long press)`. A
/// gap longer than `KEYUP_DELAY_MS` since the last key starts a new hold; the press is long
/// once the hold has lasted over `FAST_SCROLL_DELAY_MS`.
pub open spec fn longpress_next(now: u64, last_key: u64, hold_start: u64) -> (u64, u64, bool) {
    let start = if now - last_key > KEYUP_DELAY_MS {
        now
    } else {
        hold_start
    };
    (now, start, now - start > FAST_SCROLL_DELAY_MS)
}

/// Updates the hold timer for a key event at `now`; see `longpress_next`.
pub fn manage_longpress(now: u64, last_key: u64, hold_start: u64) -> (r: (u64, u64, bool))
    requires
        last_key <= now,
        hold_start <= now,
    ensures
        r == longpress_next(now, last_key, hold_start),
{
    let start = if now - last_key > KEYUP_DELAY_MS {
        now
    } else {
        hold_start
    };
    (now, start, now - start > FAST_SCROLL_DELAY_MS)
}

// ---------------------------------------------------------------------------------------
// The standby image
// ---------------------------------------------------------------------------------------

/// The standby images that ship with the firmware.
pub const BUILTIN_IMAGE_COUNT: usize = 2;
/// The standby choice of the DEFCON logo.
pub const DEFCON_IMAGE: usize = 1;

/// Where a standby choice's picture comes from.
#[derive(Copy, Clone, PartialEq, Eq, Debug, Structural)]
pub enum StandbySource {
    /// one of the built-in images, drawn from flash
    Builtin,
    /// the stored photo at this index of the photo list
    Photo(usize),
}

/// Where the picture of standby choice `choice` comes from: choices 0 and 1 are the
/// built-ins, and choice `2 + n` is photo `n`.
pub fn standby_source(choice: usize) -> (r: StandbySource)
    ensures
        choice < BUILTIN_IMAGE_COUNT ==> r == StandbySource::Builtin,
        choice >= BUILTIN_IMAGE_COUNT ==> r == StandbySource::Photo(
            (choice - BUILTIN_IMAGE_COUNT) as usize,
        ),
{
    if choice < BUILTIN_IMAGE_COUNT {
        StandbySource::Builtin
    } else {
        StandbySource::Photo(choice - BUILTIN_IMAGE_COUNT)
    }
}

/// The standby choice that shows photo `index`.
pub fn photo_choice(index: usize) -> (r: usize)
    requires
        index <= usize::MAX - BUILTIN_IMAGE_COUNT,
    ensures
        r == index + BUILTIN_IMAGE_COUNT,
{
    index + BUILTIN_IMAGE_COUNT
}

/// Setting a photo as the standby image shows that photo: the choice made for photo `n` is
/// read back as photo `n`, never as a built-in image.
pub proof fn lemma_photo_choice_shows_photo(index: usize)
    requires
        index <= usize::MAX - BUILTIN_IMAGE_COUNT,
    ensures
        index + BUILTIN_IMAGE_COUNT >= BUILTIN_IMAGE_COUNT,
        ((index + BUILTIN_IMAGE_COUNT) - BUILTIN_IMAGE_COUNT) as usize == index,
{
}

// ---------------------------------------------------------------------------------------
// Booting
// ---------------------------------------------------------------------------------------

/// What the badge boots into, from what was stored and what the carrier pins read.
pub struct BootState {
    /// the badge type in force, as its code
    pub badge_type: u8,
    /// the stored type is the one the pins read
    pub attachment_match: bool,
    /// the pins read a carrier
    pub badge_attached: bool,
    pub initial_mode: VaultMode,
}

/// The boot decision. `stored_len` is how many bytes the stored badge code held (none on a
/// first boot), `stored` the stored type and `measured` what the pins read, as codes where
/// `none` is the code of no carrier. A stored type other than none is kept, so re-mating the
/// badge does not overwrite the type the factory set; otherwise the pins decide. With no
/// type the badge runs the factory test; on a carrier it goes to standby, or to the tour on
/// a cold boot until the tour is skipped; off a carrier it shows the passwords, or the token
/// tour until that is skipped.
pub open spec fn boot_decision(
    stored_len: usize,
    stored: u8,
    measured: u8,
    none: u8,
    skip_tour: bool,
    skip_token_tour: bool,
    was_cold_boot: bool,
) -> (u8, bool, bool, VaultMode) {
    let badge_type = if stored_len == 0 || stored == none {
        measured
    } else {
        stored
    };
    let attached = measured != none;
    let mode = if badge_type == none {
        VaultMode::FactoryTest
    } else if attached {
        if skip_tour || !was_cold_boot {
            VaultMode::Idle
        } else {
            VaultMode::Tour
        }
    } else if skip_token_tour {
        VaultMode::Password
    } else {
        VaultMode::TokenTour
    };
    (badge_type, stored == measured, attached, mode)
}

/// Decides what the badge boots into; see `boot_decision`.
pub fn boot_state(
    stored_len: usize,
    stored: u8,
    measured: u8,
    none: u8,
    skip_tour: bool,
    skip_token_tour: bool,
    was_cold_boot: bool,
) -> (r: BootState)
    ensures
        (r.badge_type, r.attachment_match, r.badge_attached, r.initial_mode) == boot_decision(
            stored_len,
            stored,
            measured,
            none,
            skip_tour,
            skip_token_tour,
            was_cold_boot,
        ),
{
    let badge_type = if stored_len == 0 || stored == none {
        measured
    } else {
        stored
    };
    let badge_attached = measured != none;
    let initial_mode = if badge_type == none {
        VaultMode::FactoryTest
    } else if badge_attached {
        if skip_tour || !was_cold_boot {
            VaultMode::Idle
        } else {
            VaultMode::Tour
        }
    } else if skip_token_tour {
        VaultMode::Password
    } else {
        VaultMode::TokenTour
    };
    BootState { badge_type, attachment_match: stored == measured, badge_attached, initial_mode }
}

/// The badge type code the three carrier pins spell: pin `i` reading high sets bit `i`.
pub fn pins_to_code(high: [bool; 3]) -> (r: u8)
    ensures
        r == (if high[0] { 1u8 } else { 0u8 }) + (if high[1] { 2u8 } else { 0u8 }) + (if high[2] {
            4u8
        } else {
            0u8
        }),
{
    let mut bits: u8 = 0;
    if high[0] {
        bits = bits + 1;
    }
    if high[1] {
        bits = bits + 2;
    }
    if high[2] {
        bits = bits + 4;
    }
    bits
}

/// The screen after the tour is skipped or finished: standby on a carrier, else the
/// passwords.
pub fn mode_after_tour(badge_attached: bool) -> (r: VaultMode)
    ensures
        r == if badge_attached {
            VaultMode::Idle
        } else {
            VaultMode::Password
        },
{
    if badge_attached {
        VaultMode::Idle
    } else {
        VaultMode::Password
    }
}

// ---------------------------------------------------------------------------------------
// Notifications
// ---------------------------------------------------------------------------------------

/// The height of a notification's band: one row per line the message wraps to, plus one row
/// of slack, where a line holds as many cells of `cell` pixels as fit in the screen less four.
pub open spec fn notify_band_height(screen_x: int, cell: int, msg_len: nat, item_height: int) -> int {
    let cols = if (screen_x - 4) / cell < 1 {
        1
    } else {
        (screen_x - 4) / cell
    };
    let n = if msg_len < 1 {
        1
    } else {
        msg_len as int
    };
    let lines = (n + cols - 1) / cols;
    item_height * (lines + 1)
}

/// The height of a notification's band; see `notify_band_height`.
pub fn notify_band(screen_x: isize, cell: isize, msg_len: usize, item_height: isize) -> (r: isize)
    requires
        cell > 0,
        screen_x >= isize::MIN + 4,
        0 <= item_height,
        msg_len < isize::MAX,
        (item_height as int) * (msg_len as int + 2) <= isize::MAX,
    ensures
        r as int == notify_band_height(screen_x as int, cell as int, msg_len as nat, item_height as int),
{
    let span = screen_x - 4;
    let cols: usize = if span < cell {
        assert((span as int) / (cell as int) < 1) by (nonlinear_arith)
            requires
                span < cell,
                cell > 0,
        ;
        1
    } else {
        assert((span as int) / (cell as int) >= 1) by (nonlinear_arith)
            requires
                span >= cell,
                cell > 0,
        ;
        (span / cell) as usize
    };
    let n: usize = if msg_len < 1 {
        1
    } else {
        msg_len
    };
    let lines = (n + cols - 1) / cols;
    let ghost gl = lines as int;
    let ghost gn = n as int;
    let ghost gc = cols as int;
    assert(gl <= gn) by (nonlinear_arith)
        requires
            gc >= 1,
            gn >= 1,
            gl == (gn + gc - 1) / gc,
    ;
    assert((item_height as int) * (gl + 1) <= (item_height as int) * (msg_len as int + 2)) by (nonlinear_arith)
        requires
            item_height >= 0,
            gl + 1 <= msg_len + 2,
    ;
    item_height * (lines as isize + 1)
}

} // verus!
