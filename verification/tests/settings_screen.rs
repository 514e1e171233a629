use puyo_sim::localization::Lang;
use puyo_sim::settings::{parse_count, Settings, SettingsEvent, SettingsInput};

fn defaults() -> Settings {
    Settings::from_stored(None, None, None, None)
}

fn press() -> SettingsInput {
    SettingsInput::default()
}

fn focus(s: &mut Settings, index: usize) {
    while s.focused_index != index {
        let next = SettingsInput { navigate_next: true, ..press() };
        assert_eq!(s.handle_input(next), None);
    }
}

#[test]
fn stored_values_and_defaults() {
    let s = defaults();
    assert_eq!(s.puyo_colors, 4);
    assert_eq!(s.bgm_volume, 500);
    assert_eq!(s.se_volume, 500);
    assert_eq!(s.lang, Lang::En);
    assert!(!s.showing_credits && !s.test_bgm_active && !s.showing_language_picker);
    assert_eq!(s.focused_index, 0);
    let t = Settings::from_stored(Some(3), Some(250), Some(1000), Some(Lang::Ja));
    assert_eq!((t.puyo_colors, t.bgm_volume, t.se_volume, t.lang), (3, 250, 1000, Lang::Ja));
}

#[test]
fn focus_wraps_around_six_widgets() {
    let mut s = defaults();
    s.handle_input(SettingsInput { navigate_prev: true, ..press() });
    assert_eq!(s.focused_index, 5);
    s.handle_input(SettingsInput { navigate_next: true, ..press() });
    assert_eq!(s.focused_index, 0);
    for _ in 0..7 {
        s.handle_input(SettingsInput { navigate_next: true, ..press() });
    }
    assert_eq!(s.focused_index, 1);
}

#[test]
fn colour_count_stays_between_three_and_five() {
    let mut s = defaults();
    let right = SettingsInput { right_pressed: true, ..press() };
    let left = SettingsInput { left_pressed: true, ..press() };
    s.handle_input(right);
    assert_eq!(s.puyo_colors, 5);
    s.handle_input(right);
    assert_eq!(s.puyo_colors, 5);
    for _ in 0..5 {
        s.handle_input(left);
    }
    assert_eq!(s.puyo_colors, 3);
}

#[test]
fn volumes_step_and_clamp() {
    let mut s = defaults();
    focus(&mut s, 1);
    s.handle_input(SettingsInput { right_held: true, ..press() });
    assert_eq!(s.bgm_volume, 505);
    for _ in 0..200 {
        s.handle_input(SettingsInput { right_held: true, ..press() });
    }
    assert_eq!(s.bgm_volume, 1000);
    focus(&mut s, 2);
    s.se_volume = 3;
    s.handle_input(SettingsInput { left_held: true, ..press() });
    assert_eq!(s.se_volume, 0);
    s.handle_input(SettingsInput { left_held: true, right_held: true, ..press() });
    assert_eq!(s.se_volume, 0);
    assert_eq!(s.bgm_volume, 1000);
}

#[test]
fn music_test_toggles_and_stops_on_leaving() {
    let mut s = defaults();
    focus(&mut s, 1);
    let activate = SettingsInput { activate: true, ..press() };
    assert_eq!(s.handle_input(activate), None);
    assert!(s.test_bgm_active);
    s.handle_input(activate);
    assert!(!s.test_bgm_active);
    s.handle_input(activate);
    assert!(s.test_bgm_active);
    s.handle_input(SettingsInput { navigate_next: true, ..press() });
    assert!(!s.test_bgm_active);
}

#[test]
fn sound_test_and_back_are_events() {
    let mut s = defaults();
    focus(&mut s, 2);
    let activate = SettingsInput { activate: true, ..press() };
    assert_eq!(s.handle_input(activate), Some(SettingsEvent::TestSe));
    focus(&mut s, 5);
    assert_eq!(s.handle_input(activate), Some(SettingsEvent::Close));
}

#[test]
fn language_picker_opens_on_current_language() {
    let mut s = Settings::from_stored(None, None, None, Some(Lang::Ja));
    focus(&mut s, 3);
    s.handle_input(SettingsInput { activate: true, ..press() });
    assert!(s.showing_language_picker);
    assert_eq!(s.lang_picker_index, 1);
    s.handle_input(SettingsInput { left_pressed: true, ..press() });
    assert_eq!(s.lang_picker_index, 0);
    s.handle_input(SettingsInput { navigate_prev: true, ..press() });
    assert_eq!(s.lang_picker_index, 1);
    s.handle_input(SettingsInput { right_pressed: true, ..press() });
    assert_eq!(s.lang_picker_index, 0);
    assert_eq!(s.lang, Lang::Ja);
    assert_eq!(s.handle_input(SettingsInput { activate: true, ..press() }), None);
    assert!(!s.showing_language_picker);
    assert_eq!(s.lang, Lang::En);
    assert_eq!(s.focused_index, 3);
}

#[test]
fn credits_page_closes_on_activate_only() {
    let mut s = defaults();
    focus(&mut s, 4);
    s.handle_input(SettingsInput { activate: true, ..press() });
    assert!(s.showing_credits);
    assert_eq!(s.focused_index, 0);
    s.handle_input(SettingsInput { navigate_next: true, right_pressed: true, ..press() });
    assert!(s.showing_credits);
    assert_eq!(s.focused_index, 0);
    assert_eq!(s.puyo_colors, 4);
    s.handle_input(SettingsInput { activate: true, ..press() });
    assert!(!s.showing_credits);
}

#[test]
fn reset_clears_screen_state_only() {
    let mut s = Settings::from_stored(Some(5), Some(10), Some(20), Some(Lang::Ja));
    s.showing_credits = true;
    s.test_bgm_active = true;
    s.showing_language_picker = true;
    s.focused_index = 4;
    s.reset_ui_state();
    assert!(!s.showing_credits && !s.test_bgm_active && !s.showing_language_picker);
    assert_eq!(s.focused_index, 0);
    assert_eq!((s.puyo_colors, s.bgm_volume, s.se_volume, s.lang), (5, 10, 20, Lang::Ja));
}

#[test]
fn stored_counts_parse_as_usize_does() {
    assert_eq!(parse_count("4"), Some(4));
    assert_eq!(parse_count("+5"), Some(5));
    assert_eq!(parse_count("007"), Some(7));
    assert_eq!(parse_count(""), None);
    assert_eq!(parse_count("+"), None);
    assert_eq!(parse_count("-3"), None);
    assert_eq!(parse_count(" 4"), None);
    assert_eq!(parse_count("4a"), None);
    let samples = [
        "0", "3", "+0", "++1", "1+", "12345", "4.0", "٣", "18446744073709551615",
        "18446744073709551616", "99999999999999999999", "4294967296", "-0",
    ];
    for t in samples {
        assert_eq!(parse_count(t), t.parse::<usize>().ok(), "{t}");
    }
}
