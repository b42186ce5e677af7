use lintel::config::{
    from_entries, load, load_from, load_preferences, parse, parse_preferences,
    preferences_from_entries, preferences_text, to_text, Config, ConfigError, FileRead, HotkeyChord,
    Preferences, Theme,
};
use lintel::document::Field;

#[test]
fn roundtrip_preserves_all_fields() {
    let cfg = Config {
        fade_ms: 321,
        settle_ms: 90,
        poll_hz: 45,
        launch_at_login: true,
    };
    let text = to_text(&cfg);
    let back = parse(&text).unwrap();
    assert_eq!(cfg, back);
}

#[test]
fn missing_file_yields_default() {
    assert_eq!(load_from(&FileRead::Missing), Config::default());
}

#[test]
fn corrupt_file_falls_back_to_default() {
    let read = FileRead::Text("not = = valid toml".to_string());
    assert_eq!(load_from(&read), Config::default());
}

#[test]
fn partial_toml_fills_defaults() {
    let cfg = parse("fade_ms = 50\n").unwrap();
    assert_eq!(cfg.fade_ms, 50);
    assert_eq!(cfg.settle_ms, Config::default().settle_ms);
    assert_eq!(cfg.poll_hz, Config::default().poll_hz);
}

#[test]
fn sanitize_clamps_out_of_range() {
    let cfg = Config {
        fade_ms: 99999,
        settle_ms: 99999,
        poll_hz: 0,
        launch_at_login: false,
    }
    .sanitized();
    assert_eq!(cfg.fade_ms, 2000);
    assert_eq!(cfg.settle_ms, 2000);
    assert_eq!(cfg.poll_hz, 15);
}

#[test]
fn unreadable_file_yields_default() {
    assert_eq!(load_from(&FileRead::Failed), Config::default());
}

#[test]
fn defaults_are_the_compiled_ones() {
    let cfg = Config::default();
    assert_eq!(cfg.fade_ms, 200);
    assert_eq!(cfg.settle_ms, 180);
    assert_eq!(cfg.poll_hz, 60);
    assert!(!cfg.launch_at_login);
}

#[test]
fn configuration_is_written_line_by_line() {
    let cfg = Config {
        fade_ms: 0,
        settle_ms: 90,
        poll_hz: 4294967295,
        launch_at_login: true,
    };
    assert_eq!(
        to_text(&cfg),
        "fade_ms = 0\nsettle_ms = 90\npoll_hz = 4294967295\nlaunch_at_login = true\n"
    );
}

#[test]
fn every_written_configuration_reads_back() {
    for n in [0u32, 7, 10, 1999, 65536, 4294967295] {
        for on in [false, true] {
            let cfg = Config {
                fade_ms: n,
                settle_ms: n / 2,
                poll_hz: n / 3,
                launch_at_login: on,
            };
            assert_eq!(parse(&to_text(&cfg)), Ok(cfg));
        }
    }
}

#[test]
fn text_that_is_no_document_is_a_syntax_error() {
    assert_eq!(parse("not = = valid toml"), Err(ConfigError::Syntax));
    assert_eq!(parse("fade_ms = 1\nfade_ms = 2\n"), Err(ConfigError::Syntax));
}

#[test]
fn unfit_values_are_value_errors() {
    assert_eq!(parse("fade_ms = \"slow\""), Err(ConfigError::Value));
    assert_eq!(parse("fade_ms = 1.5"), Err(ConfigError::Value));
    assert_eq!(parse("settle_ms = -1"), Err(ConfigError::Value));
    assert_eq!(parse("poll_hz = 4294967296"), Err(ConfigError::Value));
    assert_eq!(parse("launch_at_login = 1"), Err(ConfigError::Value));
    assert_eq!(parse("fade_ms = true"), Err(ConfigError::Value));
    assert_eq!(parse("[fade_ms]\n"), Err(ConfigError::Value));
    assert_eq!(parse("fade_ms = [1]"), Err(ConfigError::Value));
    assert_eq!(parse("fade_ms = 1979-05-27"), Err(ConfigError::Value));
}

#[test]
fn other_keys_and_the_empty_document_are_fine() {
    assert_eq!(parse(""), Ok(Config::default()));
    let cfg = parse("color = \"blue\"\npoll_hz = 30\n[more]\nx = 1\n").unwrap();
    assert_eq!(cfg.poll_hz, 30);
    assert_eq!(cfg.fade_ms, 200);
}

#[test]
fn unknown_numbers_of_any_decodable_size_are_ignored() {
    for n in ["9223372036854775808", "-9223372036854775809", "18446744073709551616"] {
        let cfg = parse(&format!("poll_hz = 30\nother = {n}\n[more]\nx = [{n}]\n")).unwrap();
        assert_eq!(cfg.poll_hz, 30);
        assert_eq!(cfg.fade_ms, 200);
        assert_eq!(parse(&format!("poll_hz = {n}")), Err(ConfigError::Value));
    }
}

#[test]
fn numbers_that_cannot_be_decoded_are_value_errors() {
    let huge = "9".repeat(40);
    assert_eq!(parse(&format!("poll_hz = 30\nother = {huge}\n")), Err(ConfigError::Value));
    assert_eq!(parse("poll_hz = 30\nother = [1e400]\n"), Err(ConfigError::Value));
    let read = Some(FileRead::Text(format!("poll_hz = 30\nother = {huge}\n")));
    assert_eq!(load(&read), Config::default());
}

#[test]
fn integers_are_read_in_every_base() {
    let cfg = parse("fade_ms = 0x1_0\nsettle_ms = 0b101\npoll_hz = +3_0\n").unwrap();
    assert_eq!((cfg.fade_ms, cfg.settle_ms, cfg.poll_hz), (16, 5, 30));
}

#[test]
fn entries_of_a_document_hold_the_settings() {
    let items = vec![
        ("poll_hz".to_string(), Field::Integer(Some(30))),
        ("other".to_string(), Field::Integer(None)),
        ("launch_at_login".to_string(), Field::Boolean(true)),
    ];
    let cfg = from_entries(&items).unwrap();
    assert_eq!(cfg.poll_hz, 30);
    assert!(cfg.launch_at_login);
    assert_eq!(from_entries(&[("fade_ms".to_string(), Field::Integer(None))]), None);
    assert_eq!(from_entries(&[]), Some(Config::default()));
}

#[test]
fn loading_always_sanitizes() {
    let read = Some(FileRead::Text("poll_hz = 1\nfade_ms = 5000\n".to_string()));
    let cfg = load(&read);
    assert_eq!(cfg.poll_hz, 15);
    assert_eq!(cfg.fade_ms, 2000);
    assert_eq!(cfg.settle_ms, 180);
    assert_eq!(load(&None), Config::default());
    assert_eq!(load(&Some(FileRead::Missing)), Config::default());
    assert_eq!(load(&Some(FileRead::Failed)), Config::default());
}

#[test]
fn explicit_reads_are_not_sanitized() {
    let read = FileRead::Text("poll_hz = 1\n".to_string());
    assert_eq!(load_from(&read).poll_hz, 1);
}

#[test]
fn clamping_is_idempotent_and_keeps_sane_values() {
    let wild = Config {
        fade_ms: 2001,
        settle_ms: 1,
        poll_hz: 121,
        launch_at_login: true,
    };
    let once = wild.sanitized();
    assert_eq!(once.sanitized(), once);
    assert_eq!(once.poll_hz, 120);
    assert_eq!(once.fade_ms, 2000);
    assert_eq!(once.settle_ms, 1);
    assert!(once.launch_at_login);
    assert_eq!(Config::default().sanitized(), Config::default());
}

#[test]
fn there_is_always_a_tick() {
    let mut cfg = Config::default();
    assert_eq!(cfg.ticks_per_second(), 60);
    cfg.poll_hz = 0;
    assert_eq!(cfg.ticks_per_second(), 1);
}

#[test]
fn preferences_start_with_the_palette_on() {
    let prefs = Preferences::new(Config::default());
    assert_eq!(prefs.theme, Theme::System);
    assert!(prefs.palette_enabled);
    assert_eq!(
        prefs.palette_hotkey,
        HotkeyChord {
            mods: 0x0300,
            keycode: 0x2e
        }
    );
    let mut wild = prefs;
    wild.config.poll_hz = 0;
    assert_eq!(wild.sanitized().config.poll_hz, 15);
    assert_eq!(wild.sanitized().palette_hotkey, prefs.palette_hotkey);
}

fn edited(theme: Theme) -> Preferences {
    Preferences {
        config: Config {
            fade_ms: 321,
            settle_ms: 90,
            poll_hz: 45,
            launch_at_login: true,
        },
        theme,
        palette_enabled: false,
        palette_hotkey: HotkeyChord {
            mods: 0x1100,
            keycode: 0x23,
        },
    }
}

#[test]
fn preferences_are_written_with_a_section_for_the_hotkey() {
    assert_eq!(
        preferences_text(&edited(Theme::OppositeSystem)),
        "fade_ms = 321\nsettle_ms = 90\npoll_hz = 45\nlaunch_at_login = true\n\
         theme = \"OppositeSystem\"\npalette_enabled = false\n\
         \n[palette_hotkey]\nmods = 4352\nkeycode = 35\n"
    );
}

#[test]
fn saved_preferences_are_loaded_whole() {
    for theme in [Theme::System, Theme::Dark, Theme::Light, Theme::OppositeSystem] {
        let prefs = edited(theme);
        let text = preferences_text(&prefs);
        assert_eq!(parse_preferences(&text), Ok(prefs));
        assert_eq!(load_preferences(&Some(FileRead::Text(text))), prefs);
    }
    let mut wild = edited(Theme::Dark);
    wild.config.poll_hz = 4294967295;
    wild.palette_hotkey.mods = 4294967295;
    let text = preferences_text(&wild);
    assert_eq!(parse_preferences(&text), Ok(wild));
    assert_eq!(load_preferences(&Some(FileRead::Text(text))), wild.sanitized());
}

#[test]
fn missing_preferences_are_the_defaults() {
    let defaults = Preferences::new(Config::default());
    assert_eq!(parse_preferences(""), Ok(defaults));
    assert_eq!(load_preferences(&None), defaults);
    assert_eq!(load_preferences(&Some(FileRead::Missing)), defaults);
    assert_eq!(load_preferences(&Some(FileRead::Failed)), defaults);
    let prefs = parse_preferences("poll_hz = 30\ntheme = \"Dark\"\nmore = 1\n").unwrap();
    assert_eq!(prefs.theme, Theme::Dark);
    assert_eq!(prefs.config.poll_hz, 30);
    assert!(prefs.palette_enabled);
    assert_eq!(prefs.palette_hotkey, defaults.palette_hotkey);
    let read = Some(FileRead::Text(to_text(&Config {
        poll_hz: 30,
        ..Config::default()
    })));
    assert_eq!(load_preferences(&read).config.poll_hz, 30);
    assert_eq!(load_preferences(&read).theme, Theme::System);
}

#[test]
fn the_hotkey_can_be_edited_by_hand() {
    let chord = HotkeyChord {
        mods: 256,
        keycode: 49,
    };
    let section = parse_preferences("[palette_hotkey]\nkeycode = 0x31\nmods = 256\nx = \"y\"\n");
    assert_eq!(section.unwrap().palette_hotkey, chord);
    let inline = parse_preferences("palette_hotkey = { mods = 256, keycode = 49 }\n");
    assert_eq!(inline.unwrap().palette_hotkey, chord);
}

#[test]
fn unfit_preferences_are_value_errors() {
    for text in [
        "theme = \"dark\"",
        "theme = \"\"",
        "theme = 1",
        "palette_enabled = \"yes\"",
        "palette_hotkey = 1",
        "[palette_hotkey]\n",
        "[palette_hotkey]\nmods = 256\n",
        "[palette_hotkey]\nkeycode = 49\n",
        "[palette_hotkey]\nmods = -1\nkeycode = 49\n",
        "[palette_hotkey]\nmods = 256\nkeycode = 4294967296\n",
        "[palette_hotkey]\nmods = true\nkeycode = 49\n",
        "[palette_hotkey]\nmods = \"cmd\"\nkeycode = 49\n",
        "fade_ms = true",
    ] {
        assert_eq!(parse_preferences(text), Err(ConfigError::Value), "{}", text);
        let read = Some(FileRead::Text(format!("{text}\n")));
        assert_eq!(load_preferences(&read), Preferences::new(Config::default()));
    }
    let huge = "9".repeat(40);
    assert_eq!(parse_preferences(&format!("other = {huge}")), Err(ConfigError::Value));
    assert_eq!(parse_preferences("theme = = x"), Err(ConfigError::Syntax));
}

#[test]
fn a_file_of_preferences_holds_the_configuration() {
    let prefs = edited(Theme::Light);
    assert_eq!(parse(&preferences_text(&prefs)), Ok(prefs.config));
}

#[test]
fn entries_of_a_document_hold_the_preferences() {
    let items = vec![
        ("theme".to_string(), Field::Text("Light".to_string())),
        ("palette_enabled".to_string(), Field::Boolean(false)),
        (
            "palette_hotkey".to_string(),
            Field::Table(vec![
                ("mods".to_string(), Some(256)),
                ("other".to_string(), None),
                ("keycode".to_string(), Some(49)),
            ]),
        ),
    ];
    let prefs = preferences_from_entries(&items).unwrap();
    assert_eq!(prefs.theme, Theme::Light);
    assert!(!prefs.palette_enabled);
    assert_eq!(prefs.palette_hotkey.mods, 256);
    assert_eq!(prefs.palette_hotkey.keycode, 49);
    assert_eq!(prefs.config, Config::default());
    assert_eq!(preferences_from_entries(&[("theme".to_string(), Field::Integer(None))]), None);
}
