//! User settings: their defaults, their sane ranges, and how they are read and written.
//!
//! Every setting has a compiled default. A document without a key falls back to the default of
//! that key, a missing, unreadable or malformed file to the default of all of them.

use vstd::prelude::*;

use crate::document::{
    decodable, decodes, document_text, entries, entries_in, inner_entries, insert, is_bare, lookup,
    lookup_number, new_table, numbers_in, parse_document, parsed, value_of, write_table, Content,
    Entry, Field, NewValue, NumberEntry,
};
use crate::text::same_text;

verus! {

/// The longest fade (ms).
pub const FADE_MS_MAX: u32 = 2000;

/// The longest settle delay (ms).
pub const SETTLE_MS_MAX: u32 = 2000;

/// The slowest poll rate (Hz).
pub const POLL_HZ_MIN: u32 = 15;

/// The fastest poll rate (Hz).
pub const POLL_HZ_MAX: u32 = 120;

/// User-configurable settings. Timings are milliseconds unless the name says otherwise.
#[derive(Debug, Clone, Copy, PartialEq, Eq, Structural)]
pub struct Config {
    /// Show/hide fade duration (ms). 0 = instant.
    pub fade_ms: u32,
    /// How long a window must be still after a move before the bar is pinned again (ms).
    pub settle_ms: u32,
    /// How often the bar is reconciled with the window it follows (Hz).
    pub poll_hz: u32,
    /// Launch automatically at login.
    pub launch_at_login: bool,
}

fn default_fade_ms() -> (ms: u32)
    ensures
        ms == 200,
{
    200
}

fn default_settle_ms() -> (ms: u32)
    ensures
        ms == 180,
{
    180
}

fn default_poll_hz() -> (hz: u32)
    ensures
        hz == 60,
{
    60
}

/// The compiled defaults.
pub open spec fn default_config() -> Config {
    Config { fade_ms: 200, settle_ms: 180, poll_hz: 60, launch_at_login: false }
}

impl Default for Config {
    fn default() -> (config: Self)
        ensures
            config == default_config(),
    {
        Config {
            fade_ms: default_fade_ms(),
            settle_ms: default_settle_ms(),
            poll_hz: default_poll_hz(),
            launch_at_login: false,
        }
    }
}

impl Config {
    /// Whether every setting is in its sane range.
    pub open spec fn is_sane(self) -> bool {
        &&& self.fade_ms <= FADE_MS_MAX
        &&& self.settle_ms <= SETTLE_MS_MAX
        &&& POLL_HZ_MIN <= self.poll_hz <= POLL_HZ_MAX
    }

    /// The settings with each one moved to the nearest end of its sane range.
    pub open spec fn clamped(self) -> Config {
        Config {
            fade_ms: if self.fade_ms > FADE_MS_MAX {
                FADE_MS_MAX
            } else {
                self.fade_ms
            },
            settle_ms: if self.settle_ms > SETTLE_MS_MAX {
                SETTLE_MS_MAX
            } else {
                self.settle_ms
            },
            poll_hz: if self.poll_hz < POLL_HZ_MIN {
                POLL_HZ_MIN
            } else if self.poll_hz > POLL_HZ_MAX {
                POLL_HZ_MAX
            } else {
                self.poll_hz
            },
            launch_at_login: self.launch_at_login,
        }
    }

    /// Clamp fields to sane ranges so a hand-edited or corrupt file can't wedge the app (e.g. a
    /// 0 Hz poll rate that never ticks). The settings sliders use the same bounds.
    pub fn sanitized(self) -> (config: Self)
        ensures
            config == self.clamped(),
            config.is_sane(),
            self.is_sane() ==> config == self,
    {
        Config {
            fade_ms: if self.fade_ms > FADE_MS_MAX {
                FADE_MS_MAX
            } else {
                self.fade_ms
            },
            settle_ms: if self.settle_ms > SETTLE_MS_MAX {
                SETTLE_MS_MAX
            } else {
                self.settle_ms
            },
            poll_hz: if self.poll_hz < POLL_HZ_MIN {
                POLL_HZ_MIN
            } else if self.poll_hz > POLL_HZ_MAX {
                POLL_HZ_MAX
            } else {
                self.poll_hz
            },
            launch_at_login: self.launch_at_login,
        }
    }

    /// How many reconciliation ticks there are in a second: at least one, whatever the settings.
    pub fn ticks_per_second(&self) -> (hz: u32)
        ensures
            hz == (if self.poll_hz == 0 {
                1
            } else {
                self.poll_hz
            }),
    {
        if self.poll_hz == 0 {
            1
        } else {
            self.poll_hz
        }
    }
}

/// Clamping is idempotent, and what is in range already stays as it is.
pub proof fn lemma_clamped_once(config: Config)
    ensures
        config.clamped().is_sane(),
        config.clamped().clamped() == config.clamped(),
        config.is_sane() ==> config.clamped() == config,
        default_config().is_sane(),
{
}

/// The appearance that the user has chosen.
#[derive(Debug, Clone, Copy, PartialEq, Eq, Structural)]
pub enum Theme {
    /// That of the system.
    System,
    Dark,
    Light,
    /// Light where the system is dark, dark where it is light.
    OppositeSystem,
}

/// A global hotkey: a Carbon modifier mask and a virtual keycode.
#[derive(Debug, Clone, Copy, PartialEq, Eq, Structural)]
pub struct HotkeyChord {
    pub mods: u32,
    pub keycode: u32,
}

/// All that the settings window edits and that is persisted: the configuration, the appearance and
/// the command palette.
#[derive(Debug, Clone, Copy, PartialEq, Eq, Structural)]
pub struct Preferences {
    pub config: Config,
    pub theme: Theme,
    pub palette_enabled: bool,
    pub palette_hotkey: HotkeyChord,
}

/// The hotkey that opens the command palette unless another was recorded: Command-Shift-M.
pub open spec fn default_chord() -> HotkeyChord {
    HotkeyChord { mods: 0x0300, keycode: 0x2e }
}

impl Preferences {
    /// The preferences with a configuration and all else at its default.
    pub open spec fn initial(config: Config) -> Preferences {
        Preferences {
            config,
            theme: Theme::System,
            palette_enabled: true,
            palette_hotkey: default_chord(),
        }
    }

    /// The preferences with a configuration and all else at its default.
    pub fn new(config: Config) -> (preferences: Self)
        ensures
            preferences == Preferences::initial(config),
    {
        Preferences {
            config,
            theme: Theme::System,
            palette_enabled: true,
            palette_hotkey: HotkeyChord { mods: 0x0300, keycode: 0x2e },
        }
    }

    /// The preferences with the configuration clamped to its sane ranges.
    pub open spec fn clamped(self) -> Preferences {
        Preferences { config: self.config.clamped(), ..self }
    }

    /// The preferences with the configuration clamped to its sane ranges.
    pub fn sanitized(self) -> (preferences: Self)
        ensures
            preferences == self.clamped(),
            preferences.config.is_sane(),
    {
        Preferences { config: self.config.sanitized(), ..self }
    }
}

/// Why a text is no configuration.
#[derive(Debug, Clone, Copy, PartialEq, Eq, Structural)]
pub enum ConfigError {
    /// The text is no TOML document.
    Syntax,
    /// A setting has a value of the wrong type, or a value is out of the range of its type.
    Value,
}

/// A number under `key`, or `default` where the key is missing; nothing where the value is no
/// integer that fits.
pub open spec fn number_in(doc: Seq<Entry>, key: Seq<char>, default: u32) -> Option<u32> {
    match value_of(doc, key) {
        None => Some(default),
        Some(Content::Integer(Some(n))) => if 0 <= n <= u32::MAX {
            Some(n as u32)
        } else {
            None
        },
        _ => None,
    }
}

/// A flag under `key`, or `default` where the key is missing; nothing where the value is no
/// boolean.
pub open spec fn flag_in(doc: Seq<Entry>, key: Seq<char>, default: bool) -> Option<bool> {
    match value_of(doc, key) {
        None => Some(default),
        Some(Content::Boolean(b)) => Some(b),
        _ => None,
    }
}

/// The configuration that a document holds: each setting from its own key, or its default. Other
/// keys are ignored.
pub open spec fn config_in(doc: Seq<Entry>) -> Option<Config> {
    let fade = number_in(doc, "fade_ms"@, default_config().fade_ms);
    let settle = number_in(doc, "settle_ms"@, default_config().settle_ms);
    let poll = number_in(doc, "poll_hz"@, default_config().poll_hz);
    let launch = flag_in(doc, "launch_at_login"@, default_config().launch_at_login);
    if fade is Some && settle is Some && poll is Some && launch is Some {
        Some(
            Config {
                fade_ms: fade->0,
                settle_ms: settle->0,
                poll_hz: poll->0,
                launch_at_login: launch->0,
            },
        )
    } else {
        None
    }
}

fn number(items: &[(String, Field)], key: &str, default: u32) -> (res: Option<u32>)
    ensures
        res == number_in(entries_in(items@), key@, default),
{
    match lookup(items, key) {
        None => Some(default),
        Some(Field::Integer(Some(n))) => if 0 <= *n && *n <= u32::MAX as i64 {
            Some(*n as u32)
        } else {
            None
        },
        Some(_) => None,
    }
}

fn flag(items: &[(String, Field)], key: &str, default: bool) -> (res: Option<bool>)
    ensures
        res == flag_in(entries_in(items@), key@, default),
{
    match lookup(items, key) {
        None => Some(default),
        Some(Field::Boolean(b)) => Some(*b),
        Some(_) => None,
    }
}

/// The configuration that the entries of a document hold, or `None` where one of the settings has an
/// unfit value.
pub fn from_entries(items: &[(String, Field)]) -> (res: Option<Config>)
    ensures
        res == config_in(entries_in(items@)),
{
    let fade_ms = match number(items, "fade_ms", default_fade_ms()) {
        Some(n) => n,
        None => return None,
    };
    let settle_ms = match number(items, "settle_ms", default_settle_ms()) {
        Some(n) => n,
        None => return None,
    };
    let poll_hz = match number(items, "poll_hz", default_poll_hz()) {
        Some(n) => n,
        None => return None,
    };
    let launch_at_login = match flag(items, "launch_at_login", false) {
        Some(b) => b,
        None => return None,
    };
    Some(Config { fade_ms, settle_ms, poll_hz, launch_at_login })
}

/// The name by which a theme is written.
pub open spec fn theme_name(theme: Theme) -> Seq<char> {
    match theme {
        Theme::System => "System"@,
        Theme::Dark => "Dark"@,
        Theme::Light => "Light"@,
        Theme::OppositeSystem => "OppositeSystem"@,
    }
}

/// The theme that is written by the given name, if there is one.
pub open spec fn theme_named(name: Seq<char>) -> Option<Theme> {
    if name == "System"@ {
        Some(Theme::System)
    } else if name == "Dark"@ {
        Some(Theme::Dark)
    } else if name == "Light"@ {
        Some(Theme::Light)
    } else if name == "OppositeSystem"@ {
        Some(Theme::OppositeSystem)
    } else {
        None
    }
}

/// The theme in a document, or the default where there is none; nothing where its value is no name
/// of a theme.
pub open spec fn theme_in(doc: Seq<Entry>) -> Option<Theme> {
    match value_of(doc, "theme"@) {
        None => Some(Theme::System),
        Some(Content::Text(name)) => theme_named(name),
        _ => None,
    }
}

/// A number under `key`; nothing where it is missing or no integer that fits.
pub open spec fn half_in(items: Seq<NumberEntry>, key: Seq<char>) -> Option<u32> {
    match value_of(items, key) {
        Some(Some(n)) => if 0 <= n <= u32::MAX {
            Some(n as u32)
        } else {
            None
        },
        _ => None,
    }
}

/// The palette hotkey in a document, or the default where there is none; nothing where its value is
/// no table with both of its halves.
pub open spec fn chord_in(doc: Seq<Entry>) -> Option<HotkeyChord> {
    match value_of(doc, "palette_hotkey"@) {
        None => Some(default_chord()),
        Some(Content::Table(items)) => match (half_in(items, "mods"@), half_in(items, "keycode"@)) {
            (Some(mods), Some(keycode)) => Some(HotkeyChord { mods, keycode }),
            _ => None,
        },
        _ => None,
    }
}

/// The preferences that a document holds: each setting from its own key, or its default. Other keys
/// are ignored.
pub open spec fn preferences_in(doc: Seq<Entry>) -> Option<Preferences> {
    let config = config_in(doc);
    let theme = theme_in(doc);
    let enabled = flag_in(doc, "palette_enabled"@, true);
    let hotkey = chord_in(doc);
    if config is Some && theme is Some && enabled is Some && hotkey is Some {
        Some(
            Preferences {
                config: config->0,
                theme: theme->0,
                palette_enabled: enabled->0,
                palette_hotkey: hotkey->0,
            },
        )
    } else {
        None
    }
}

fn theme(items: &[(String, Field)]) -> (res: Option<Theme>)
    ensures
        res == theme_in(entries_in(items@)),
{
    match lookup(items, "theme") {
        None => Some(Theme::System),
        Some(Field::Text(name)) => {
            let name = name.as_str();
            if same_text(name, "System") {
                Some(Theme::System)
            } else if same_text(name, "Dark") {
                Some(Theme::Dark)
            } else if same_text(name, "Light") {
                Some(Theme::Light)
            } else if same_text(name, "OppositeSystem") {
                Some(Theme::OppositeSystem)
            } else {
                None
            }
        },
        Some(_) => None,
    }
}

fn half(items: &[(String, Option<i64>)], key: &str) -> (res: Option<u32>)
    ensures
        res == half_in(numbers_in(items@), key@),
{
    match lookup_number(items, key) {
        Some(Some(n)) => if 0 <= n && n <= u32::MAX as i64 {
            Some(n as u32)
        } else {
            None
        },
        _ => None,
    }
}

fn chord(items: &[(String, Field)]) -> (res: Option<HotkeyChord>)
    ensures
        res == chord_in(entries_in(items@)),
{
    match lookup(items, "palette_hotkey") {
        None => Some(HotkeyChord { mods: 0x0300, keycode: 0x2e }),
        Some(Field::Table(halves)) => {
            let halves = halves.as_slice();
            match (half(halves, "mods"), half(halves, "keycode")) {
                (Some(mods), Some(keycode)) => Some(HotkeyChord { mods, keycode }),
                _ => None,
            }
        },
        Some(_) => None,
    }
}

/// The preferences that the entries of a document hold, or `None` where one of the settings has an
/// unfit value.
pub fn preferences_from_entries(items: &[(String, Field)]) -> (res: Option<Preferences>)
    ensures
        res == preferences_in(entries_in(items@)),
{
    let config = match from_entries(items) {
        Some(config) => config,
        None => return None,
    };
    let theme = match theme(items) {
        Some(theme) => theme,
        None => return None,
    };
    let palette_enabled = match flag(items, "palette_enabled", true) {
        Some(b) => b,
        None => return None,
    };
    let palette_hotkey = match chord(items) {
        Some(chord) => chord,
        None => return None,
    };
    Some(Preferences { config, theme, palette_enabled, palette_hotkey })
}

/// The configuration that a text holds, or why it holds none. Values that are no setting are
/// ignored, as long as they can be decoded at all.
pub open spec fn config_of(text: Seq<char>) -> Result<Config, ConfigError> {
    match parsed(text) {
        None => Err(ConfigError::Syntax),
        Some(doc) => if !decodable(text) {
            Err(ConfigError::Value)
        } else {
            match config_in(doc) {
                None => Err(ConfigError::Value),
                Some(config) => Ok(config),
            }
        },
    }
}

/// The configuration that a text holds, or why it holds none.
pub fn parse(text: &str) -> (res: Result<Config, ConfigError>)
    ensures
        res == config_of(text@),
{
    let items = match parse_document(text) {
        Err(_) => return Err(ConfigError::Syntax),
        Ok(items) => items,
    };
    if !decodes(text) {
        return Err(ConfigError::Value);
    }
    match from_entries(items.as_slice()) {
        None => Err(ConfigError::Value),
        Some(config) => Ok(config),
    }
}

/// The preferences that a text holds, or why it holds none. Values that are no setting are ignored,
/// as long as they can be decoded at all.
pub open spec fn preferences_of(text: Seq<char>) -> Result<Preferences, ConfigError> {
    match parsed(text) {
        None => Err(ConfigError::Syntax),
        Some(doc) => if !decodable(text) {
            Err(ConfigError::Value)
        } else {
            match preferences_in(doc) {
                None => Err(ConfigError::Value),
                Some(preferences) => Ok(preferences),
            }
        },
    }
}

/// The preferences that a text holds, or why it holds none.
pub fn parse_preferences(text: &str) -> (res: Result<Preferences, ConfigError>)
    ensures
        res == preferences_of(text@),
{
    let items = match parse_document(text) {
        Err(_) => return Err(ConfigError::Syntax),
        Ok(items) => items,
    };
    if !decodes(text) {
        return Err(ConfigError::Value);
    }
    match preferences_from_entries(items.as_slice()) {
        None => Err(ConfigError::Value),
        Some(preferences) => Ok(preferences),
    }
}

/// The entries by which a configuration is written.
pub open spec fn config_entries(config: Config) -> Seq<Entry> {
    seq![
        ("fade_ms"@, Content::Integer(Some(config.fade_ms as i64))),
        ("settle_ms"@, Content::Integer(Some(config.settle_ms as i64))),
        ("poll_hz"@, Content::Integer(Some(config.poll_hz as i64))),
        ("launch_at_login"@, Content::Boolean(config.launch_at_login)),
    ]
}

/// The entries by which a hotkey is written.
pub open spec fn chord_entries(chord: HotkeyChord) -> Seq<NumberEntry> {
    seq![
        ("mods"@, Some(chord.mods as i64)),
        ("keycode"@, Some(chord.keycode as i64)),
    ]
}

/// The entries by which preferences are written: those of the configuration first.
pub open spec fn preferences_entries(preferences: Preferences) -> Seq<Entry> {
    config_entries(preferences.config).push(
        ("theme"@, Content::Text(theme_name(preferences.theme))),
    ).push(("palette_enabled"@, Content::Boolean(preferences.palette_enabled))).push(
        ("palette_hotkey"@, Content::Table(chord_entries(preferences.palette_hotkey))),
    )
}

/// The keys of a configuration differ, and each can stand without quotes.
proof fn lemma_keys()
    ensures
        "fade_ms"@ != "settle_ms"@,
        "fade_ms"@ != "poll_hz"@,
        "fade_ms"@ != "launch_at_login"@,
        "settle_ms"@ != "poll_hz"@,
        "settle_ms"@ != "launch_at_login"@,
        "poll_hz"@ != "launch_at_login"@,
        is_bare("fade_ms"@),
        is_bare("settle_ms"@),
        is_bare("poll_hz"@),
        is_bare("launch_at_login"@),
        "fade_ms"@.len() == 7,
        "settle_ms"@.len() == 9,
        "poll_hz"@.len() == 7,
        "launch_at_login"@.len() == 15,
        "launch_at_login"@[0] == 'l',
{
    reveal_strlit("fade_ms");
    reveal_strlit("settle_ms");
    reveal_strlit("poll_hz");
    reveal_strlit("launch_at_login");
    assert("fade_ms"@[0] == 'f' && "poll_hz"@[0] == 'p');
    assert("settle_ms"@.len() == 9 && "launch_at_login"@.len() == 15);
}

/// What tells the other keys of preferences apart, and that each can stand without quotes.
proof fn lemma_more_keys()
    ensures
        "theme"@.len() == 5,
        "palette_enabled"@.len() == 15,
        "palette_enabled"@[0] == 'p',
        "palette_hotkey"@.len() == 14,
        "mods"@.len() == 4,
        "keycode"@.len() == 7,
        is_bare("theme"@),
        is_bare("palette_enabled"@),
        is_bare("palette_hotkey"@),
        is_bare("mods"@),
        is_bare("keycode"@),
{
    reveal_strlit("theme");
    reveal_strlit("palette_enabled");
    reveal_strlit("palette_hotkey");
    reveal_strlit("mods");
    reveal_strlit("keycode");
}

/// A theme is read back by the name by which it is written.
pub proof fn lemma_theme_is_read_by_its_name(theme: Theme)
    ensures
        theme_named(theme_name(theme)) == Some(theme),
        is_bare(theme_name(theme)),
{
    reveal_strlit("System");
    reveal_strlit("Dark");
    reveal_strlit("Light");
    reveal_strlit("OppositeSystem");
    assert("System"@.len() == 6 && "Dark"@.len() == 4 && "Light"@.len() == 5
        && "OppositeSystem"@.len() == 14);
}

/// What a document says of a key once an entry was added at its end.
proof fn lemma_value_after_push<T>(doc: Seq<(Seq<char>, T)>, entry: (Seq<char>, T), key: Seq<char>)
    ensures
        value_of(doc.push(entry), key) == (if entry.0 == key {
            Some(entry.1)
        } else {
            value_of(doc, key)
        }),
{
    assert(doc.push(entry).drop_last() =~= doc);
}

/// What the entries of a configuration say of a key.
proof fn lemma_config_values(config: Config, key: Seq<char>)
    ensures
        value_of(config_entries(config), key) == (if key == "fade_ms"@ {
            Some(Content::Integer(Some(config.fade_ms as i64)))
        } else if key == "settle_ms"@ {
            Some(Content::Integer(Some(config.settle_ms as i64)))
        } else if key == "poll_hz"@ {
            Some(Content::Integer(Some(config.poll_hz as i64)))
        } else if key == "launch_at_login"@ {
            Some(Content::Boolean(config.launch_at_login))
        } else {
            None
        }),
{
    lemma_keys();
    let doc = config_entries(config);
    assert(doc.drop_last().drop_last().drop_last().drop_last() =~= Seq::<Entry>::empty());
    reveal_with_fuel(value_of, 5);
}

/// What the entries of preferences say of a key.
proof fn lemma_preferences_values(preferences: Preferences, key: Seq<char>)
    ensures
        value_of(preferences_entries(preferences), key) == (if key == "theme"@ {
            Some(Content::Text(theme_name(preferences.theme)))
        } else if key == "palette_enabled"@ {
            Some(Content::Boolean(preferences.palette_enabled))
        } else if key == "palette_hotkey"@ {
            Some(Content::Table(chord_entries(preferences.palette_hotkey)))
        } else {
            value_of(config_entries(preferences.config), key)
        }),
{
    lemma_more_keys();
    let four = config_entries(preferences.config);
    let theme = ("theme"@, Content::Text(theme_name(preferences.theme)));
    let enabled = ("palette_enabled"@, Content::Boolean(preferences.palette_enabled));
    let hotkey = ("palette_hotkey"@, Content::Table(chord_entries(preferences.palette_hotkey)));
    lemma_value_after_push(four.push(theme).push(enabled), hotkey, key);
    lemma_value_after_push(four.push(theme), enabled, key);
    lemma_value_after_push(four, theme, key);
}

/// Reading what was written gives the configuration back: nothing of it is lost, whatever its
/// values.
pub proof fn lemma_config_round_trip(config: Config)
    ensures
        config_in(config_entries(config)) == Some(config),
{
    lemma_keys();
    lemma_config_values(config, "fade_ms"@);
    lemma_config_values(config, "settle_ms"@);
    lemma_config_values(config, "poll_hz"@);
    lemma_config_values(config, "launch_at_login"@);
}

/// Reading what was written gives the preferences back: none of the seven settings is lost, whatever
/// their values.
pub proof fn lemma_preferences_round_trip(preferences: Preferences)
    ensures
        preferences_in(preferences_entries(preferences)) == Some(preferences),
{
    lemma_keys();
    lemma_more_keys();
    lemma_config_round_trip(preferences.config);
    lemma_theme_is_read_by_its_name(preferences.theme);
    lemma_preferences_values(preferences, "fade_ms"@);
    lemma_preferences_values(preferences, "settle_ms"@);
    lemma_preferences_values(preferences, "poll_hz"@);
    lemma_preferences_values(preferences, "launch_at_login"@);
    lemma_preferences_values(preferences, "theme"@);
    lemma_preferences_values(preferences, "palette_enabled"@);
    lemma_preferences_values(preferences, "palette_hotkey"@);
    let halves = chord_entries(preferences.palette_hotkey);
    assert(halves.drop_last().drop_last() =~= Seq::<NumberEntry>::empty());
    reveal_with_fuel(value_of, 3);
    assert(value_of(halves, "mods"@) == Some(
        Some(preferences.palette_hotkey.mods as i64),
    ));
}

/// A file of preferences is a file of a configuration too: that of the preferences.
pub proof fn lemma_preferences_hold_the_configuration(text: Seq<char>)
    ensures
        preferences_of(text) matches Ok(preferences) ==> config_of(text) == Ok::<
            Config,
            ConfigError,
        >(preferences.config),
{
}

fn config_table(config: &Config) -> (table: toml::Table)
    ensures
        entries(table) == config_entries(*config),
{
    proof {
        lemma_keys();
        reveal_with_fuel(value_of, 5);
    }
    let mut table = new_table();
    insert(&mut table, "fade_ms", NewValue::Integer(config.fade_ms as i64));
    insert(&mut table, "settle_ms", NewValue::Integer(config.settle_ms as i64));
    insert(&mut table, "poll_hz", NewValue::Integer(config.poll_hz as i64));
    insert(&mut table, "launch_at_login", NewValue::Boolean(config.launch_at_login));
    assert(entries(table) =~= config_entries(*config));
    table
}

/// The text by which a configuration is persisted, one line for each setting.
pub fn to_text(config: &Config) -> (text: String)
    ensures
        text@ == document_text(config_entries(*config)),
        config_of(text@) == Ok::<Config, ConfigError>(*config),
{
    proof {
        lemma_keys();
        lemma_config_round_trip(*config);
    }
    let table = config_table(config);
    match write_table(&table) {
        Ok(text) => text,
        Err(_) => String::new(),
    }
}

fn theme_text(theme: Theme) -> (name: String)
    ensures
        name@ == theme_name(theme),
{
    match theme {
        Theme::System => "System".to_owned(),
        Theme::Dark => "Dark".to_owned(),
        Theme::Light => "Light".to_owned(),
        Theme::OppositeSystem => "OppositeSystem".to_owned(),
    }
}

fn chord_table(chord: HotkeyChord) -> (table: toml::Table)
    ensures
        inner_entries(entries(table)) == chord_entries(chord),
{
    proof {
        lemma_more_keys();
        reveal_with_fuel(value_of, 3);
    }
    let mut table = new_table();
    insert(&mut table, "mods", NewValue::Integer(chord.mods as i64));
    insert(&mut table, "keycode", NewValue::Integer(chord.keycode as i64));
    assert(inner_entries(entries(table)) =~= chord_entries(chord));
    table
}

/// The text by which preferences are persisted: one line for each setting of the configuration, the
/// theme and the palette switch, and a section for the palette hotkey.
pub fn preferences_text(preferences: &Preferences) -> (text: String)
    ensures
        text@ == document_text(preferences_entries(*preferences)),
        preferences_of(text@) == Ok::<Preferences, ConfigError>(*preferences),
        preferences_or_default(text@).clamped() == preferences.clamped(),
{
    proof {
        lemma_keys();
        lemma_more_keys();
        lemma_preferences_round_trip(*preferences);
        lemma_theme_is_read_by_its_name(preferences.theme);
        let four = config_entries(preferences.config);
        let theme = ("theme"@, Content::Text(theme_name(preferences.theme)));
        let enabled = ("palette_enabled"@, Content::Boolean(preferences.palette_enabled));
        lemma_config_values(preferences.config, "theme"@);
        lemma_config_values(preferences.config, "palette_enabled"@);
        lemma_config_values(preferences.config, "palette_hotkey"@);
        lemma_value_after_push(four, theme, "palette_enabled"@);
        lemma_value_after_push(four, theme, "palette_hotkey"@);
        lemma_value_after_push(four.push(theme), enabled, "palette_hotkey"@);
    }
    let mut table = config_table(&preferences.config);
    insert(&mut table, "theme", NewValue::Text(theme_text(preferences.theme)));
    insert(&mut table, "palette_enabled", NewValue::Boolean(preferences.palette_enabled));
    let chord = chord_table(preferences.palette_hotkey);
    insert(&mut table, "palette_hotkey", NewValue::Table(chord));
    assert(entries(table) =~= preferences_entries(*preferences));
    match write_table(&table) {
        Ok(text) => text,
        Err(_) => String::new(),
    }
}

/// What came of reading the configuration file.
#[derive(Debug)]
pub enum FileRead {
    /// Its text.
    Text(String),
    /// There is no such file.
    Missing,
    /// It could not be read.
    Failed,
}

/// The configuration that a text holds, or the default where it holds none.
pub open spec fn config_or_default(text: Seq<char>) -> Config {
    match config_of(text) {
        Ok(config) => config,
        Err(_) => default_config(),
    }
}

/// The configuration in a file that was read: the default where the file is missing, could not be
/// read, or holds no configuration.
pub fn load_from(read: &FileRead) -> (config: Config)
    ensures
        config == (match *read {
            FileRead::Text(text) => config_or_default(text@),
            FileRead::Missing => default_config(),
            FileRead::Failed => default_config(),
        }),
{
    match read {
        FileRead::Text(text) => match parse(text.as_str()) {
            Ok(config) => config,
            Err(_) => Config::default(),
        },
        FileRead::Missing => Config::default(),
        FileRead::Failed => Config::default(),
    }
}

/// The configuration to run with: that in the file at the default path, if there is a default
/// path, else the default; always in its sane ranges.
pub fn load(read: &Option<FileRead>) -> (config: Config)
    ensures
        config == (match *read {
            None => default_config(),
            Some(FileRead::Text(text)) => config_or_default(text@).clamped(),
            Some(_) => default_config(),
        }),
        config.is_sane(),
{
    let config = match read {
        Some(file) => load_from(file),
        None => Config::default(),
    };
    config.sanitized()
}

/// The preferences that a text holds, or the defaults where it holds none.
pub open spec fn preferences_or_default(text: Seq<char>) -> Preferences {
    match preferences_of(text) {
        Ok(preferences) => preferences,
        Err(_) => Preferences::initial(default_config()),
    }
}

/// The preferences to run with: those in the file at the default path, if there is a default path
/// and the file holds preferences, else the defaults; always in their sane ranges.
pub fn load_preferences(read: &Option<FileRead>) -> (preferences: Preferences)
    ensures
        preferences == (match *read {
            Some(FileRead::Text(text)) => preferences_or_default(text@).clamped(),
            _ => Preferences::initial(default_config()),
        }),
        preferences.config.is_sane(),
{
    let preferences = match read {
        Some(FileRead::Text(text)) => match parse_preferences(text.as_str()) {
            Ok(preferences) => preferences,
            Err(_) => Preferences::new(Config::default()),
        },
        _ => Preferences::new(Config::default()),
    };
    preferences.sanitized()
}

/// What was saved is loaded: the text by which preferences were saved gives all seven settings back,
/// in their sane ranges, and those that are in their ranges, as all that are in effect are, without
/// any change.
pub proof fn lemma_saved_preferences_are_loaded(preferences: Preferences, text: Seq<char>)
    requires
        preferences_of(text) == Ok::<Preferences, ConfigError>(preferences),
    ensures
        preferences_or_default(text).clamped() == preferences.clamped(),
        preferences.config.is_sane() ==> preferences_or_default(text).clamped() == preferences,
{
}

// ---- what is read and kept of the settings ----------------------------------------------------

/// How far apart two numbers are.
pub open spec fn distance(a: u32, b: u32) -> int {
    if a < b {
        b - a
    } else {
        a - b
    }
}

/// Clamping moves a setting no further than it has to: no sane value of it is nearer to what it was
/// than the one that it gets. Whether to launch at login has no range and stays as it is.
pub proof fn lemma_clamping_goes_to_the_nearest(config: Config, sane: Config)
    requires
        sane.is_sane(),
    ensures
        distance(config.clamped().fade_ms, config.fade_ms) <= distance(sane.fade_ms, config.fade_ms),
        distance(config.clamped().settle_ms, config.settle_ms) <= distance(
            sane.settle_ms,
            config.settle_ms,
        ),
        distance(config.clamped().poll_hz, config.poll_hz) <= distance(sane.poll_hz, config.poll_hz),
        config.clamped().launch_at_login == config.launch_at_login,
{
}

/// The sane ranges: a fade and a settle delay of up to two seconds, and 15 to 120 looks a second.
pub proof fn lemma_sane_ranges(config: Config)
    ensures
        config.is_sane() <==> config.fade_ms <= 2000 && config.settle_ms <= 2000 && 15
            <= config.poll_hz && config.poll_hz <= 120,
{
}

/// Clamping preferences clamps their configuration and leaves the other settings alone.
pub proof fn lemma_clamping_keeps_the_other_settings(preferences: Preferences)
    ensures
        preferences.clamped().config.is_sane(),
        preferences.config.is_sane() ==> preferences.clamped() == preferences,
        preferences.clamped().theme == preferences.theme,
        preferences.clamped().palette_enabled == preferences.palette_enabled,
        preferences.clamped().palette_hotkey == preferences.palette_hotkey,
        preferences.clamped().config.launch_at_login == preferences.config.launch_at_login,
{
}

/// Each setting is read from its own key, whatever else the document holds: a number that fits is
/// taken as it is, any other value is unfit, and the other settings are not touched.
pub proof fn lemma_each_setting_has_its_key(doc: Seq<Entry>, value: Content)
    requires
        config_in(doc) is Some,
    ensures
        ({
            let held = config_in(doc)->0;
            let fit = value matches Content::Integer(Some(n)) && 0 <= n <= u32::MAX;
            let number = value->Integer_0->0 as u32;
            let fade = config_in(doc.push(("fade_ms"@, value)));
            let settle = config_in(doc.push(("settle_ms"@, value)));
            let poll = config_in(doc.push(("poll_hz"@, value)));
            let launch = config_in(doc.push(("launch_at_login"@, value)));
            &&& fade == if fit {
                Some(Config { fade_ms: number, ..held })
            } else {
                None
            }
            &&& settle == if fit {
                Some(Config { settle_ms: number, ..held })
            } else {
                None
            }
            &&& poll == if fit {
                Some(Config { poll_hz: number, ..held })
            } else {
                None
            }
            &&& launch == if value is Boolean {
                Some(Config { launch_at_login: value->Boolean_0, ..held })
            } else {
                None
            }
        }),
{
    lemma_keys();
    assert forall|key: Seq<char>, other: Seq<char>| #[trigger]
        value_of(doc.push((key, value)), other) == (if key == other {
        Some(value)
    } else {
        value_of(doc, other)
    }) by {
        lemma_value_after_push(doc, (key, value), other);
    }
}

/// A key that is no setting changes nothing, and a document without settings holds the defaults: a
/// fade of 200 ms, a settle delay of 180 ms, 60 looks a second, and no launch at login.
pub proof fn lemma_other_keys_are_ignored(doc: Seq<Entry>, key: Seq<char>, value: Content)
    requires
        key != "fade_ms"@,
        key != "settle_ms"@,
        key != "poll_hz"@,
        key != "launch_at_login"@,
    ensures
        config_in(doc.push((key, value))) == config_in(doc),
        config_in(Seq::empty()) == Some(
            Config { fade_ms: 200, settle_ms: 180, poll_hz: 60, launch_at_login: false },
        ),
{
    assert forall|other: Seq<char>| #[trigger] value_of(doc.push((key, value)), other) == (if key
        == other {
        Some(value)
    } else {
        value_of(doc, other)
    }) by {
        lemma_value_after_push(doc, (key, value), other);
    }
}

/// Preferences are read setting by setting too: the configuration from its keys, the theme by its
/// name, the switch as a boolean and the hotkey as a table of two numbers that fit; any other value
/// of one of them is unfit.
pub proof fn lemma_each_preference_has_its_key(
    doc: Seq<Entry>,
    value: Content,
    theme: Theme,
    chord: HotkeyChord,
)
    requires
        preferences_in(doc) is Some,
    ensures
        ({
            let held = preferences_in(doc)->0;
            &&& config_in(doc) == Some(held.config)
            &&& preferences_in(doc.push(("theme"@, Content::Text(theme_name(theme))))) == Some(
                Preferences { theme, ..held },
            )
            &&& !(value is Text) ==> preferences_in(doc.push(("theme"@, value))) is None
            &&& preferences_in(doc.push(("palette_enabled"@, value))) == if value is Boolean {
                Some(Preferences { palette_enabled: value->Boolean_0, ..held })
            } else {
                None
            }
            &&& preferences_in(
                doc.push(("palette_hotkey"@, Content::Table(chord_entries(chord)))),
            ) == Some(Preferences { palette_hotkey: chord, ..held })
            &&& !(value is Table) ==> preferences_in(doc.push(("palette_hotkey"@, value))) is None
        }),
{
    lemma_keys();
    lemma_more_keys();
    lemma_theme_is_read_by_its_name(theme);
    assert forall|key: Seq<char>, some: Content, other: Seq<char>| #[trigger]
        value_of(doc.push((key, some)), other) == (if key == other {
        Some(some)
    } else {
        value_of(doc, other)
    }) by {
        lemma_value_after_push(doc, (key, some), other);
    }
    let halves = chord_entries(chord);
    assert(halves.drop_last().drop_last() =~= Seq::<NumberEntry>::empty());
    reveal_with_fuel(value_of, 3);
    assert(value_of(halves, "mods"@) == Some(Some(chord.mods as i64)));
    assert(value_of(halves, "keycode"@) == Some(Some(chord.keycode as i64)));
}

/// A theme is read just by the names by which themes are written.
pub proof fn lemma_only_names_of_themes_are_read(name: Seq<char>)
    ensures
        theme_named(name) matches Some(theme) ==> name == theme_name(theme),
        theme_named(name) is None ==> name != theme_name(Theme::System) && name != theme_name(
            Theme::Dark,
        ) && name != theme_name(Theme::Light) && name != theme_name(Theme::OppositeSystem),
{
}

/// A file that holds no preferences, or one with an unfit value, gives the defaults of all seven
/// settings: following the system, with the command palette on Command-Shift-M.
pub proof fn lemma_unfit_file_gives_the_defaults(text: Seq<char>)
    ensures
        parsed(text) is None ==> preferences_of(text) == Err::<Preferences, ConfigError>(
            ConfigError::Syntax,
        ),
        parsed(text) is Some && (!decodable(text) || preferences_in(parsed(text)->0) is None)
            ==> preferences_of(text) == Err::<Preferences, ConfigError>(ConfigError::Value),
        preferences_of(text) is Err ==> preferences_or_default(text).clamped() == (Preferences {
            config: Config { fade_ms: 200, settle_ms: 180, poll_hz: 60, launch_at_login: false },
            theme: Theme::System,
            palette_enabled: true,
            palette_hotkey: HotkeyChord { mods: 0x0300, keycode: 0x2e },
        }),
        config_of(text) is Err ==> config_or_default(text) == (Config {
            fade_ms: 200,
            settle_ms: 180,
            poll_hz: 60,
            launch_at_login: false,
        }),
{
}

/// A key that is no preference changes nothing, and a document without preferences holds the
/// defaults.
pub proof fn lemma_document_without_preferences_holds_the_defaults(
    doc: Seq<Entry>,
    key: Seq<char>,
    value: Content,
)
    requires
        key != "fade_ms"@,
        key != "settle_ms"@,
        key != "poll_hz"@,
        key != "launch_at_login"@,
        key != "theme"@,
        key != "palette_enabled"@,
        key != "palette_hotkey"@,
    ensures
        preferences_in(doc.push((key, value))) == preferences_in(doc),
        preferences_in(Seq::empty()) == Some(
            Preferences {
                config: Config { fade_ms: 200, settle_ms: 180, poll_hz: 60, launch_at_login: false },
                theme: Theme::System,
                palette_enabled: true,
                palette_hotkey: HotkeyChord { mods: 0x0300, keycode: 0x2e },
            },
        ),
{
    lemma_other_keys_are_ignored(doc, key, value);
    assert forall|other: Seq<char>| #[trigger] value_of(doc.push((key, value)), other) == (if key
        == other {
        Some(value)
    } else {
        value_of(doc, other)
    }) by {
        lemma_value_after_push(doc, (key, value), other);
    }
}

/// A hotkey in a document has both of its halves: a table without one of them, or with one that is no
/// number that fits, is unfit, and any other gives just the two numbers.
pub proof fn lemma_hotkey_has_both_halves(doc: Seq<Entry>, items: Seq<NumberEntry>)
    requires
        preferences_in(doc) is Some,
    ensures
        ({
            let read = preferences_in(doc.push(("palette_hotkey"@, Content::Table(items))));
            let mods = value_of(items, "mods"@);
            let keycode = value_of(items, "keycode"@);
            let fit = (mods matches Some(Some(m)) && 0 <= m <= 0xffff_ffff) && (
            keycode matches Some(Some(k)) && 0 <= k <= 0xffff_ffff);
            &&& read is Some <==> fit
            &&& read matches Some(preferences) ==> preferences.palette_hotkey.mods == mods->0->0
                && preferences.palette_hotkey.keycode == keycode->0->0
        }),
{
    lemma_keys();
    lemma_more_keys();
    let value = Content::Table(items);
    assert forall|other: Seq<char>| #[trigger]
        value_of(doc.push(("palette_hotkey"@, value)), other) == (if "palette_hotkey"@ == other {
        Some(value)
    } else {
        value_of(doc, other)
    }) by {
        lemma_value_after_push(doc, ("palette_hotkey"@, value), other);
    }
}

/// The names by which themes are written.
pub proof fn lemma_names_of_themes()
    ensures
        theme_name(Theme::System) == seq!['S', 'y', 's', 't', 'e', 'm'],
        theme_name(Theme::Dark) == seq!['D', 'a', 'r', 'k'],
        theme_name(Theme::Light) == seq!['L', 'i', 'g', 'h', 't'],
        theme_name(Theme::OppositeSystem) == seq![
            'O', 'p', 'p', 'o', 's', 'i', 't', 'e', 'S', 'y', 's', 't', 'e', 'm',
        ],
{
    reveal_strlit("System");
    reveal_strlit("Dark");
    reveal_strlit("Light");
    reveal_strlit("OppositeSystem");
    assert(theme_name(Theme::System) =~= seq!['S', 'y', 's', 't', 'e', 'm']);
    assert(theme_name(Theme::Dark) =~= seq!['D', 'a', 'r', 'k']);
    assert(theme_name(Theme::Light) =~= seq!['L', 'i', 'g', 'h', 't']);
    assert(theme_name(Theme::OppositeSystem) =~= seq![
        'O', 'p', 'p', 'o', 's', 'i', 't', 'e', 'S', 'y', 's', 't', 'e', 'm',
    ]);
}

} // verus!
