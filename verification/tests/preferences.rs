use lintel::config::{Config, HotkeyChord, Preferences, Theme};
use lintel::menu::Modifiers;
use lintel::settings::{
    appearance, carbon_mods, frame_fields, hotkey_display, hz_label, keycode_name, ms_label,
    system_is_dark, theme_from_index, theme_index, theme_label, themes, Appearance, KeyPress,
    SettingsController,
};

/// The frame that an autosaved frame string gives to the window: `x y w h`.
fn parse_frame(s: &str) -> Option<(f64, f64, f64, f64)> {
    let fields = frame_fields(s)?;
    let number = |i: usize| fields[i].parse::<f64>().ok();
    Some((number(0)?, number(1)?, number(2)?, number(3)?))
}

fn mods(shift: bool, option: bool, control: bool, command: bool) -> Modifiers {
    Modifiers {
        shift,
        option,
        control,
        command,
    }
}

fn chord(mods: u32, keycode: u32) -> HotkeyChord {
    HotkeyChord { mods, keycode }
}

fn opened() -> SettingsController {
    SettingsController::new(Preferences::new(Config::default()))
}

#[test]
fn parses_negative_origin_frame() {
    // A window last placed on a monitor left of the primary: negative x. The trailing screen
    // descriptor is ignored; the negative origin must be preserved verbatim (not remapped).
    let r = parse_frame("-996 200 460 332 -3360 0 2560 1440").unwrap();
    assert_eq!(r.0, -996.0);
    assert_eq!(r.1, 200.0);
    assert_eq!(r.2, 460.0);
    assert_eq!(r.3, 332.0);
}

#[test]
fn rejects_junk_or_short() {
    assert!(parse_frame("").is_none());
    assert!(parse_frame("1 2 3").is_none()); // fewer than 4 fields
    assert!(parse_frame("a b c d").is_none()); // non-numeric
}

#[test]
fn frame_fields_are_the_leading_words() {
    let fields = frame_fields(" \t-1  2\u{a0}3\n4 5").unwrap();
    assert_eq!(fields, vec!["-1", "2", "3", "4"]);
    assert!(frame_fields("   ").is_none());
    assert_eq!(frame_fields("1 2 3 4").unwrap().len(), 4);
}

#[test]
fn themes_are_chosen_by_their_index() {
    let all = themes();
    assert_eq!(
        all,
        vec![Theme::System, Theme::Dark, Theme::Light, Theme::OppositeSystem]
    );
    for (i, theme) in all.iter().enumerate() {
        assert_eq!(theme_index(*theme), i);
        assert_eq!(theme_from_index(i), *theme);
    }
    assert_eq!(theme_from_index(4), Theme::System);
    assert_eq!(theme_label(Theme::System), "System");
    assert_eq!(theme_label(Theme::Dark), "Dark");
    assert_eq!(theme_label(Theme::Light), "Light");
    assert_eq!(theme_label(Theme::OppositeSystem), "Opposite System");
}

#[test]
fn opposite_theme_inverts_the_system() {
    assert_eq!(appearance(Theme::OppositeSystem, true), Appearance::Light);
    assert_eq!(appearance(Theme::OppositeSystem, false), Appearance::Dark);
    assert_eq!(appearance(Theme::System, true), Appearance::Inherited);
    assert_eq!(appearance(Theme::Dark, false), Appearance::Dark);
    assert_eq!(appearance(Theme::Light, true), Appearance::Light);
}

#[test]
fn system_is_dark_when_its_style_says_so() {
    let style = |s: &str| system_is_dark(&Some(s.to_string()));
    assert!(style("Dark"));
    assert!(style("dark"));
    assert!(style("DARK"));
    assert!(!style("Darker"));
    assert!(!style("Light"));
    assert!(!style(""));
    assert!(!system_is_dark(&None));
}

#[test]
fn hotkeys_show_signs_then_the_key() {
    assert_eq!(hotkey_display(chord(0x0300, 0x2e)), "⌘⇧M");
    assert_eq!(hotkey_display(chord(0x1900, 0x31)), "⌘⌥⌃Space");
    assert_eq!(hotkey_display(chord(0, 0x7a)), "?");
    assert_eq!(hotkey_display(chord(0x1000, 0x00)), "⌃A");
}

#[test]
fn keys_have_names() {
    assert_eq!(keycode_name(0x06), "Z");
    assert_eq!(keycode_name(0x24), "Return");
    assert_eq!(keycode_name(0x30), "Tab");
    assert_eq!(keycode_name(0x35), "Esc");
    assert_eq!(keycode_name(0x1f), "O");
    assert_eq!(keycode_name(u32::MAX), "?");
}

#[test]
fn carbon_masks_hold_their_keys() {
    assert_eq!(carbon_mods(mods(false, false, false, false)), 0);
    assert_eq!(carbon_mods(mods(true, false, false, true)), 0x0300);
    assert_eq!(carbon_mods(mods(false, true, false, false)), 0x0800);
    assert_eq!(carbon_mods(mods(true, true, true, true)), 0x1b00);
}

#[test]
fn labels_have_units() {
    assert_eq!(ms_label(0), "0 ms");
    assert_eq!(ms_label(2000), "2000 ms");
    assert_eq!(hz_label(60), "60 Hz");
}

#[test]
fn controls_change_the_working_copy_alone() {
    let mut s = opened();
    assert_eq!(s.fade_changed(350), "350 ms");
    assert_eq!(s.settle_changed(10), "10 ms");
    assert_eq!(s.poll_changed(90), "90 Hz");
    s.launch_toggled(true);
    s.theme_selected(3);
    s.palette_toggled(false);
    let out = s.emit();
    assert_eq!(
        out.config,
        Config {
            fade_ms: 350,
            settle_ms: 10,
            poll_hz: 90,
            launch_at_login: true
        }
    );
    assert_eq!(out.theme, Theme::OppositeSystem);
    assert!(!out.palette_enabled);
    assert_eq!(out.palette_hotkey, chord(0x0300, 0x2e));
    s.theme_selected(-1);
    assert_eq!(s.emit().theme, Theme::System);
}

#[test]
fn recording_takes_the_next_hotkey() {
    let mut s = opened();
    assert!(s.start_recording());
    assert!(!s.start_recording());
    // Neither a bare key nor Shift alone makes a hotkey.
    assert_eq!(s.key_pressed(0x0b, mods(false, false, false, false)), KeyPress::Ignored);
    assert_eq!(s.key_pressed(0x0b, mods(true, false, false, false)), KeyPress::Ignored);
    assert!(!s.start_recording());
    let pressed = s.key_pressed(0x0b, mods(true, true, false, false));
    assert_eq!(pressed, KeyPress::Recorded(chord(0x0a00, 0x0b)));
    assert_eq!(s.emit().palette_hotkey, chord(0x0a00, 0x0b));
    assert_eq!(hotkey_display(s.emit().palette_hotkey), "⇧⌥B");
    assert!(s.start_recording());
}

#[test]
fn escape_cancels_recording() {
    let mut s = opened();
    s.start_recording();
    assert_eq!(s.key_pressed(53, mods(false, false, false, true)), KeyPress::Cancelled);
    assert_eq!(s.emit().palette_hotkey, chord(0x0300, 0x2e));
    assert!(s.start_recording());
    assert_eq!(s.finish_recording(None), "⌘⇧M");
    assert_eq!(s.finish_recording(Some(chord(0x0100, 0x00))), "⌘A");
}
