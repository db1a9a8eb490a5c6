use dc34_vault::keys::{handle_key, photo_kept, DisplayOrientation, KeyState, UiAction};
use dc34_vault::screens::{
    battery_poll_due, bio_flag_shown, caption_held_ms, idle_repaint, qr_tick, screen_chrome,
    timer_run_down, totp_epoch, ChromeInputs,
};
use dc34_vault::ui::{
    boot_state, manage_longpress, mode_after_tour, notify_band, photo_choice, pins_to_code,
    standby_source, step_cursor, FactoryTestState, StandbySource, VaultMode,
};

fn state(mode: VaultMode) -> KeyState {
    KeyState {
        mode,
        orientation: DisplayOrientation::Normal,
        passkey_cursor: 0,
        passkey_count: 3,
        photo_cursor: 0,
        photo_count: 5,
        bookmark_cursor: 1,
        bookmark_count: 2,
        bling_cursor: 0,
        blinky_cursor: 0,
        led_pattern: 9,
    }
}

#[test]
fn cursor_wraps_both_ways() {
    assert_eq!(step_cursor(0, 5, true), 4);
    assert_eq!(step_cursor(4, 5, false), 0);
    assert_eq!(step_cursor(2, 5, false), 3);
    assert_eq!(step_cursor(2, 5, true), 1);
    assert_eq!(step_cursor(7, 0, true), 0);
}

#[test]
fn left_is_back_and_middle_is_consumed() {
    let o = handle_key(state(VaultMode::Passkeys), '←', false);
    assert_eq!(o.state.mode, VaultMode::Idle);
    assert_eq!(o.reply, Some('∴'));
    assert!(o.actions.is_empty());
    let o = handle_key(state(VaultMode::PhotoView), '←', false);
    assert_eq!(o.state.mode, VaultMode::PhotoList);
    assert_eq!(o.actions[0], UiAction::DropPendingPhoto);
    for m in [VaultMode::Password, VaultMode::Totp, VaultMode::BookmarkList] {
        assert_eq!(handle_key(state(m), '🔥', false).reply, None);
        assert_eq!(handle_key(state(m), '∴', false).reply, None);
    }
    let o = handle_key(state(VaultMode::Idle), '←', false);
    assert_eq!(o.reply, Some('←'));
}

#[test]
fn password_list_pages_on_long_press() {
    let o = handle_key(state(VaultMode::Password), '↓', true);
    assert_eq!(o.actions, vec![UiAction::ScrollList { up: false, steps: 6 }, UiAction::UpdateAnimate, UiAction::Redraw]);
    let o = handle_key(state(VaultMode::Password), '↑', false);
    assert_eq!(o.actions[0], UiAction::ScrollList { up: true, steps: 1 });
    assert_eq!(o.reply, Some('↑'));
}

#[test]
fn standby_right_cycles_led_and_blinky_together() {
    let o = handle_key(state(VaultMode::Idle), '→', false);
    assert_eq!(o.state.led_pattern, 0);
    assert_eq!(o.state.blinky_cursor, 0);
    assert_eq!(o.actions[..2], [UiAction::SetLedPattern(0), UiAction::PersistBlinky(0)]);
    assert_eq!(o.reply, None);
}

#[test]
fn about_leaves_on_any_key_and_rotation_keys_turn_the_display() {
    let o = handle_key(state(VaultMode::AboutQr { quantum: 3 }), 'x', false);
    assert_eq!(o.state.mode, VaultMode::Idle);
    assert_eq!(o.actions, vec![UiAction::ClearQr]);
    let o = handle_key(state(VaultMode::Totp), '🔽', false);
    assert_eq!(o.state.orientation, DisplayOrientation::UpsideDown);
    assert_eq!(o.reply, Some('🔽'));
}

#[test]
fn photo_preview_keep_outcomes() {
    let o = handle_key(state(VaultMode::PhotoPreview), '→', false);
    assert_eq!(o.actions, vec![UiAction::KeepPendingPhoto]);
    let kept = photo_kept(o.state, true);
    assert_eq!(kept.state.mode, VaultMode::Idle);
    assert_eq!(kept.actions, vec![UiAction::ReopenCamera]);
    let full = photo_kept(state(VaultMode::PhotoPreview), false);
    assert_eq!(full.actions[..3], [UiAction::DropPendingPhoto, UiAction::NotifyStoreFull, UiAction::Redraw]);
}

#[test]
fn saved_url_screens() {
    let o = handle_key(state(VaultMode::BookmarkList), '→', false);
    assert_eq!(o.actions[0], UiAction::SelectBookmark(1));
    let o = handle_key(state(VaultMode::ShowBookmarkQr { quantum: 0 }), '↓', false);
    assert_eq!(o.state.bookmark_cursor, 0);
    assert_eq!(o.actions[0], UiAction::SelectBookmark(0));
    let o = handle_key(state(VaultMode::ShowUrl), '→', false);
    assert_eq!(o.state.mode, VaultMode::BookmarkList);
    assert_eq!(o.actions[0], UiAction::SaveShownUrl);
}

#[test]
fn chrome_labels() {
    let c = ChromeInputs {
        passkey_count: 0,
        photo_count: 0,
        bookmark_count: 2,
        password_count: 0,
        has_photo: false,
        clock_set: true,
        full_repaint: true,
    };
    let p = screen_chrome(VaultMode::Passkeys, c);
    assert_eq!((p.heading, p.left, p.middle, p.right), (Some("PASSKEYS"), Some("back"), None, None));
    let b = screen_chrome(VaultMode::BookmarkList, c);
    assert_eq!((b.middle, b.right), (Some("more"), Some("show")));
    let pw = screen_chrome(VaultMode::Password, c);
    assert_eq!(pw.right, None);
    let ph = screen_chrome(VaultMode::PhotoList, ChromeInputs { photo_count: 2, ..c });
    assert_eq!((ph.heading, ph.right), (None, Some("view")));
}

#[test]
fn animation_timing() {
    assert_eq!(qr_tick(8), (true, true, 9));
    assert_eq!(qr_tick(3), (false, false, 4));
    assert_eq!(qr_tick(2), (false, true, 3));
    assert_eq!(caption_held_ms(4), 500);
    assert_eq!(idle_repaint(false, Some((1, false)), (1, false), true, 1000), (false, true));
    assert_eq!(idle_repaint(false, Some((1, false)), (1, false), true, 3000), (true, false));
    assert_eq!(idle_repaint(false, None, (0, false), true, 0), (true, true));
    assert!(bio_flag_shown(true, 2500));
    assert!(!bio_flag_shown(true, 3500));
    assert!(battery_poll_due(false, 8000, false));
    assert!(!battery_poll_due(false, 8000, true));
    assert_eq!(totp_epoch(61_000), 2);
    assert_eq!(timer_run_down(15_000, 100), 50);
}

#[test]
fn factory_test_runs_in_order() {
    let s = FactoryTestState::InitWait { start_ms: 1000 };
    let s = s.handle_input(None, None, None, false, 36_000);
    assert!(matches!(s, FactoryTestState::InitWait { .. }));
    let s = s.handle_input(None, None, None, false, 37_000);
    assert!(matches!(s, FactoryTestState::JogPress { seen_press: false }));
    let s = s.handle_input(Some('∴'), None, None, false, 0);
    let s = s.handle_input(Some('↑'), None, None, false, 0);
    let s = s.handle_input(Some('↓'), None, None, false, 0);
    let s = s.handle_input(Some('←'), None, None, false, 0);
    assert!(matches!(s, FactoryTestState::Left { seen_left: false }));
    let s = s.handle_input(Some('→'), None, None, false, 0);
    let s = s.handle_input(Some('←'), None, None, false, 0);
    assert!(matches!(s, FactoryTestState::MiddleScan { seen_middle: false, got_scan: false }));
    let s = s.handle_input(Some('🔥'), Some("wrong".to_string()), None, false, 0);
    assert!(matches!(s, FactoryTestState::MiddleScan { seen_middle: true, got_scan: false }));
    let s = s.handle_input(None, Some("test://factory-test-data-lorem-ipsum-data-data".to_string()), None, false, 0);
    assert!(matches!(s, FactoryTestState::Finish));
    let e = FactoryTestState::Finish.handle_input(None, None, Some("boom".to_string()), false, 0);
    assert!(matches!(e, FactoryTestState::Error(ref m) if m == "boom"));
    let j = FactoryTestState::InitWait { start_ms: 0 }.handle_input(None, None, None, true, 0);
    assert!(matches!(j, FactoryTestState::JogPress { .. }));
}

#[test]
fn long_press_timer() {
    assert_eq!(manage_longpress(1000, 800, 0), (1000, 1000, false));
    assert_eq!(manage_longpress(2400, 2350, 1000), (2400, 1000, true));
    assert_eq!(manage_longpress(2300, 2250, 1000), (2300, 1000, false));
}

#[test]
fn standby_choices() {
    assert_eq!(standby_source(0), StandbySource::Builtin);
    assert_eq!(standby_source(1), StandbySource::Builtin);
    assert_eq!(standby_source(5), StandbySource::Photo(3));
    assert_eq!(standby_source(photo_choice(7)), StandbySource::Photo(7));
}

#[test]
fn boot_decisions() {
    let none = 0u8;
    let b = boot_state(0, 0, 3, none, false, false, true);
    assert_eq!((b.badge_type, b.badge_attached, b.initial_mode), (3, true, VaultMode::Tour));
    let b = boot_state(1, 2, 3, none, false, false, true);
    assert_eq!((b.badge_type, b.attachment_match), (2, false));
    let b = boot_state(1, 2, none, none, false, false, false);
    assert_eq!(b.initial_mode, VaultMode::TokenTour);
    let b = boot_state(1, 2, none, none, false, true, false);
    assert_eq!(b.initial_mode, VaultMode::Password);
    let b = boot_state(0, none, none, none, true, true, false);
    assert_eq!(b.initial_mode, VaultMode::FactoryTest);
    let b = boot_state(1, 2, 2, none, true, false, true);
    assert_eq!((b.initial_mode, b.attachment_match), (VaultMode::Idle, true));
    assert_eq!(pins_to_code([true, false, true]), 5);
    assert_eq!(mode_after_tour(true), VaultMode::Idle);
    assert_eq!(mode_after_tour(false), VaultMode::Password);
}

#[test]
fn notification_band() {
    assert_eq!(notify_band(128, 8, 17, 14), 14 * 3);
    assert_eq!(notify_band(128, 8, 0, 14), 14 * 2);
    assert_eq!(notify_band(128, 8, 15, 14), 14 * 2);
    assert_eq!(notify_band(2, 8, 3, 14), 14 * 4);
    assert_eq!(notify_band(-50, 8, 1, 14), 14 * 2);
}
