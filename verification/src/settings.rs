//! The settings window: what its controls do to the settings, and how the settings are shown.
//!
//! The window works on a copy of the preferences. Every control changes that copy and hands it on
//! to whoever opened the window, who persists it and puts it into effect.

use vstd::prelude::*;

use crate::config::{Config, HotkeyChord, Preferences, Theme};
use crate::menu::{
    lemma_signs_are_those_held, mod_signs, mod_signs_text, opt_text, Modifiers,
};
use crate::text::{
    decimal, decimal_text, eq_ignore_ascii_case, lemma_decimal_is_read_back, numeral_value,
    same_but_ascii_case, split_whitespace, texts, words,
};

verus! {

// ---- appearance -------------------------------------------------------------------------------

/// The theme choices, in the order in which they are offered.
pub open spec fn theme_order() -> Seq<Theme> {
    seq![Theme::System, Theme::Dark, Theme::Light, Theme::OppositeSystem]
}

/// The theme choices, in the order in which they are offered.
pub fn themes() -> (themes: Vec<Theme>)
    ensures
        themes@ == theme_order(),
{
    let mut themes: Vec<Theme> = Vec::new();
    themes.push(Theme::System);
    themes.push(Theme::Dark);
    themes.push(Theme::Light);
    themes.push(Theme::OppositeSystem);
    assert(themes@ =~= theme_order());
    themes
}

/// Where a theme stands among the choices.
pub open spec fn index_of(theme: Theme) -> int {
    match theme {
        Theme::System => 0,
        Theme::Dark => 1,
        Theme::Light => 2,
        Theme::OppositeSystem => 3,
    }
}

/// The choice with the given index; that of the system where there is no such choice.
pub open spec fn theme_at(index: int) -> Theme {
    if 0 <= index < theme_order().len() {
        theme_order()[index]
    } else {
        Theme::System
    }
}

/// Where a theme stands among the choices.
pub fn theme_index(theme: Theme) -> (index: usize)
    ensures
        index == index_of(theme),
{
    match theme {
        Theme::System => 0,
        Theme::Dark => 1,
        Theme::Light => 2,
        Theme::OppositeSystem => 3,
    }
}

/// The choice with the given index; that of the system where there is no such choice.
pub fn theme_from_index(index: usize) -> (theme: Theme)
    ensures
        theme == theme_at(index as int),
{
    if index == 1 {
        Theme::Dark
    } else if index == 2 {
        Theme::Light
    } else if index == 3 {
        Theme::OppositeSystem
    } else {
        Theme::System
    }
}

/// Every theme is among the choices, and choosing what stands where it stands chooses it.
pub proof fn lemma_theme_is_chosen_by_its_index(theme: Theme)
    ensures
        0 <= index_of(theme) < theme_order().len(),
        theme_at(index_of(theme)) == theme,
        forall|i: int| 0 <= i < theme_order().len() ==> index_of(theme_at(i)) == i,
{
}

/// The name under which a theme is offered.
pub fn theme_label(theme: Theme) -> (label: &'static str)
    ensures
        label@ == (match theme {
            Theme::System => "System"@,
            Theme::Dark => "Dark"@,
            Theme::Light => "Light"@,
            Theme::OppositeSystem => "Opposite System"@,
        }),
{
    match theme {
        Theme::System => "System",
        Theme::Dark => "Dark",
        Theme::Light => "Light",
        Theme::OppositeSystem => "Opposite System",
    }
}

/// How the windows are to look.
#[derive(Debug, Clone, Copy, PartialEq, Eq, Structural)]
pub enum Appearance {
    /// As the system does.
    Inherited,
    Dark,
    Light,
}

/// How the windows are to look for a theme, depending on whether the system is dark.
pub open spec fn appearance_of(theme: Theme, system_dark: bool) -> Appearance {
    match theme {
        Theme::System => Appearance::Inherited,
        Theme::Dark => Appearance::Dark,
        Theme::Light => Appearance::Light,
        Theme::OppositeSystem => if system_dark {
            Appearance::Light
        } else {
            Appearance::Dark
        },
    }
}

/// How the windows are to look for a theme, depending on whether the system is dark.
pub fn appearance(theme: Theme, system_dark: bool) -> (look: Appearance)
    ensures
        look == appearance_of(theme, system_dark),
{
    match theme {
        Theme::System => Appearance::Inherited,
        Theme::Dark => Appearance::Dark,
        Theme::Light => Appearance::Light,
        Theme::OppositeSystem => if system_dark {
            Appearance::Light
        } else {
            Appearance::Dark
        },
    }
}

/// Whether windows of the given look are dark.
pub open spec fn looks_dark(look: Appearance, system_dark: bool) -> bool {
    match look {
        Appearance::Inherited => system_dark,
        Appearance::Dark => true,
        Appearance::Light => false,
    }
}

/// Following the system looks as it does, the opposite never does.
pub proof fn lemma_opposite_inverts_the_system(system_dark: bool)
    ensures
        looks_dark(appearance_of(Theme::System, system_dark), system_dark) == system_dark,
        looks_dark(appearance_of(Theme::OppositeSystem, system_dark), system_dark) == !system_dark,
{
}

/// Whether the system is dark, from its interface style: that is `Dark` in dark mode, and there is
/// none in light mode.
pub fn system_is_dark(style: &Option<String>) -> (dark: bool)
    ensures
        dark == (match opt_text(*style) {
            Some(s) => same_but_ascii_case(s, "dark"@),
            None => false,
        }),
{
    match style {
        Some(s) => eq_ignore_ascii_case(s.as_str(), "dark"),
        None => false,
    }
}

// ---- the palette hotkey -----------------------------------------------------------------------

/// The Carbon mask of a set of modifier keys: Command 0x0100, Shift 0x0200, Option 0x0800,
/// Control 0x1000.
pub open spec fn carbon_mask(mods: Modifiers) -> u32 {
    (if mods.command {
        0x0100u32
    } else {
        0
    }) | (if mods.shift {
        0x0200u32
    } else {
        0
    }) | (if mods.option {
        0x0800u32
    } else {
        0
    }) | (if mods.control {
        0x1000u32
    } else {
        0
    })
}

/// The modifier keys in a Carbon mask.
pub open spec fn modifiers_in_carbon(mask: u32) -> Modifiers {
    Modifiers {
        shift: mask & 0x0200 != 0,
        option: mask & 0x0800 != 0,
        control: mask & 0x1000 != 0,
        command: mask & 0x0100 != 0,
    }
}

/// The Carbon mask of a set of modifier keys.
pub fn carbon_mods(mods: Modifiers) -> (mask: u32)
    ensures
        mask == carbon_mask(mods),
{
    let command: u32 = if mods.command {
        0x0100
    } else {
        0
    };
    let shift: u32 = if mods.shift {
        0x0200
    } else {
        0
    };
    let option: u32 = if mods.option {
        0x0800
    } else {
        0
    };
    let control: u32 = if mods.control {
        0x1000
    } else {
        0
    };
    command | shift | option | control
}

/// A mask holds just the modifier keys that it was made of, and different sets of keys have
/// different masks.
pub proof fn lemma_carbon_mask_holds_its_keys(mods: Modifiers)
    ensures
        modifiers_in_carbon(carbon_mask(mods)) == mods,
{
    let command: bool = mods.command;
    let shift: bool = mods.shift;
    let option: bool = mods.option;
    let control: bool = mods.control;
    let c: u32 = if command {
        0x0100
    } else {
        0
    };
    let s: u32 = if shift {
        0x0200
    } else {
        0
    };
    let o: u32 = if option {
        0x0800
    } else {
        0
    };
    let k: u32 = if control {
        0x1000
    } else {
        0
    };
    let mask = c | s | o | k;
    assert((mask & 0x0100 != 0) == (c == 0x0100) && (mask & 0x0200 != 0) == (s == 0x0200) && (mask
        & 0x0800 != 0) == (o == 0x0800) && (mask & 0x1000 != 0) == (k == 0x1000)) by (bit_vector)
        requires
            mask == c | s | o | k,
            c == 0 || c == 0x0100,
            s == 0 || s == 0x0200,
            o == 0 || o == 0x0800,
            k == 0 || k == 0x1000,
    ;
}

/// The name of a key: letters and a few common keys have one.
pub open spec fn key_name(keycode: u32) -> &'static str {
    match keycode {
        0x00 => "A",
        0x0b => "B",
        0x08 => "C",
        0x02 => "D",
        0x0e => "E",
        0x03 => "F",
        0x05 => "G",
        0x04 => "H",
        0x22 => "I",
        0x26 => "J",
        0x28 => "K",
        0x25 => "L",
        0x2e => "M",
        0x2d => "N",
        0x1f => "O",
        0x23 => "P",
        0x0c => "Q",
        0x0f => "R",
        0x01 => "S",
        0x11 => "T",
        0x20 => "U",
        0x09 => "V",
        0x0d => "W",
        0x07 => "X",
        0x10 => "Y",
        0x06 => "Z",
        0x31 => "Space",
        0x24 => "Return",
        0x30 => "Tab",
        0x35 => "Esc",
        _ => "?",
    }
}

/// The name of a key.
pub fn keycode_name(keycode: u32) -> (name: &'static str)
    ensures
        name == key_name(keycode),
{
    match keycode {
        0x00 => "A",
        0x0b => "B",
        0x08 => "C",
        0x02 => "D",
        0x0e => "E",
        0x03 => "F",
        0x05 => "G",
        0x04 => "H",
        0x22 => "I",
        0x26 => "J",
        0x28 => "K",
        0x25 => "L",
        0x2e => "M",
        0x2d => "N",
        0x1f => "O",
        0x23 => "P",
        0x0c => "Q",
        0x0f => "R",
        0x01 => "S",
        0x11 => "T",
        0x20 => "U",
        0x09 => "V",
        0x0d => "W",
        0x07 => "X",
        0x10 => "Y",
        0x06 => "Z",
        0x31 => "Space",
        0x24 => "Return",
        0x30 => "Tab",
        0x35 => "Esc",
        _ => "?",
    }
}

/// A hotkey for display, such as `⌘⇧M`: the signs of its modifiers, then the name of its key.
pub open spec fn chord_text(chord: HotkeyChord) -> Seq<char> {
    mod_signs(modifiers_in_carbon(chord.mods)) + key_name(chord.keycode)@
}

/// A hotkey for display.
pub fn hotkey_display(chord: HotkeyChord) -> (text: String)
    ensures
        text@ == chord_text(chord),
{
    let mods = Modifiers {
        shift: chord.mods & 0x0200 != 0,
        option: chord.mods & 0x0800 != 0,
        control: chord.mods & 0x1000 != 0,
        command: chord.mods & 0x0100 != 0,
    };
    let mut text = mod_signs_text(mods);
    text.append(keycode_name(chord.keycode));
    text
}

// ---- the controls -----------------------------------------------------------------------------

/// A number and its unit.
pub open spec fn quantity(n: u32, unit: Seq<char>) -> Seq<char> {
    decimal(n as nat) + seq![' '] + unit
}

fn quantity_text(n: u32, unit: &str) -> (text: String)
    ensures
        text@ == quantity(n, unit@),
{
    let mut text = decimal_text(n as u64);
    text.push(' ');
    text.append(unit);
    assert(text@ =~= quantity(n, unit@));
    text
}

/// A duration for display, such as `200 ms`.
pub fn ms_label(ms: u32) -> (text: String)
    ensures
        text@ == quantity(ms, "ms"@),
{
    quantity_text(ms, "ms")
}

/// A rate for display, such as `60 Hz`.
pub fn hz_label(hz: u32) -> (text: String)
    ensures
        text@ == quantity(hz, "Hz"@),
{
    quantity_text(hz, "Hz")
}

/// The virtual keycode of the Escape key.
pub const ESCAPE: u16 = 53;

/// What a key press does while a hotkey is recorded.
#[derive(Debug, Clone, Copy, PartialEq, Eq, Structural)]
pub enum KeyPress {
    /// Nothing: it has no modifier that makes a hotkey.
    Ignored,
    /// Ends the recording and keeps the hotkey there was.
    Cancelled,
    /// Ends the recording with this hotkey.
    Recorded(HotkeyChord),
}

/// What a key press does while a hotkey is recorded: Escape cancels, and a hotkey needs Command,
/// Control or Option, for one with Shift alone or no modifier would take a plain key from every
/// application.
pub open spec fn recorded_by(keycode: u16, mods: Modifiers) -> KeyPress {
    if keycode == ESCAPE {
        KeyPress::Cancelled
    } else if mods.command || mods.control || mods.option {
        KeyPress::Recorded(HotkeyChord { mods: carbon_mask(mods), keycode: keycode as u32 })
    } else {
        KeyPress::Ignored
    }
}

/// A hotkey that was recorded is shown with just the modifier keys that were held, of which one is
/// Command, Option or Control.
pub proof fn lemma_recorded_hotkey_is_shown(keycode: u16, mods: Modifiers)
    requires
        recorded_by(keycode, mods) is Recorded,
    ensures
        chord_text(recorded_by(keycode, mods)->0) == mod_signs(mods) + key_name(keycode as u32)@,
        mods.command || mods.option || mods.control,
{
    lemma_carbon_mask_holds_its_keys(mods);
}

/// The model of the settings window.
#[derive(Debug, Clone, Copy, PartialEq, Eq, Structural)]
pub struct SettingsView {
    /// The working copy of the preferences.
    pub preferences: Preferences,
    /// Whether the next key press is recorded as the hotkey.
    pub recording: bool,
}

impl SettingsView {
    /// The working copy with another configuration.
    pub open spec fn configured(self, config: Config) -> SettingsView {
        SettingsView { preferences: Preferences { config, ..self.preferences }, ..self }
    }

    /// After the fade control.
    pub open spec fn faded(self, ms: u32) -> SettingsView {
        self.configured(Config { fade_ms: ms, ..self.preferences.config })
    }

    /// After the settle control.
    pub open spec fn settled(self, ms: u32) -> SettingsView {
        self.configured(Config { settle_ms: ms, ..self.preferences.config })
    }

    /// After the poll control.
    pub open spec fn polled(self, hz: u32) -> SettingsView {
        self.configured(Config { poll_hz: hz, ..self.preferences.config })
    }

    /// After the launch switch.
    pub open spec fn launched(self, on: bool) -> SettingsView {
        self.configured(Config { launch_at_login: on, ..self.preferences.config })
    }

    /// After the theme choice.
    pub open spec fn themed(self, index: int) -> SettingsView {
        SettingsView {
            preferences: Preferences {
                theme: if index < 0 {
                    theme_at(0)
                } else {
                    theme_at(index)
                },
                ..self.preferences
            },
            ..self
        }
    }

    /// After the palette switch.
    pub open spec fn switched(self, on: bool) -> SettingsView {
        SettingsView { preferences: Preferences { palette_enabled: on, ..self.preferences }, ..self }
    }

    /// After a key press while a hotkey is recorded.
    pub open spec fn pressed(self, keycode: u16, mods: Modifiers) -> SettingsView {
        match recorded_by(keycode, mods) {
            KeyPress::Ignored => self,
            KeyPress::Cancelled => self.recorded(None),
            KeyPress::Recorded(chord) => self.recorded(Some(chord)),
        }
    }

    /// After a recording has ended.
    pub open spec fn recorded(self, chord: Option<HotkeyChord>) -> SettingsView {
        SettingsView {
            recording: false,
            preferences: match chord {
                Some(chord) => Preferences { palette_hotkey: chord, ..self.preferences },
                None => self.preferences,
            },
        }
    }
}

/// The state behind the settings window.
#[derive(Debug)]
pub struct SettingsController {
    state: SettingsView,
}

impl View for SettingsController {
    type V = SettingsView;

    closed spec fn view(&self) -> SettingsView {
        self.state
    }
}

impl SettingsController {
    /// A settings window that starts from the given preferences.
    pub fn new(preferences: Preferences) -> (settings: SettingsController)
        ensures
            settings@ == (SettingsView { preferences, recording: false }),
    {
        SettingsController { state: SettingsView { preferences, recording: false } }
    }

    /// The working copy as it is handed on after a change.
    pub fn emit(&self) -> (preferences: Preferences)
        ensures
            preferences == self@.preferences,
    {
        self.state.preferences
    }

    /// Takes the fade duration, and returns its label.
    pub fn fade_changed(&mut self, ms: u32) -> (label: String)
        ensures
            label@ == quantity(ms, "ms"@),
            final(self)@.recording == old(self)@.recording,
            final(self)@.preferences == (Preferences {
                config: Config { fade_ms: ms, ..old(self)@.preferences.config },
                ..old(self)@.preferences
            }),
            final(self)@ == old(self)@.faded(ms),
    {
        self.state.preferences.config.fade_ms = ms;
        ms_label(ms)
    }

    /// Takes the settle delay, and returns its label.
    pub fn settle_changed(&mut self, ms: u32) -> (label: String)
        ensures
            label@ == quantity(ms, "ms"@),
            final(self)@.recording == old(self)@.recording,
            final(self)@.preferences == (Preferences {
                config: Config { settle_ms: ms, ..old(self)@.preferences.config },
                ..old(self)@.preferences
            }),
            final(self)@ == old(self)@.settled(ms),
    {
        self.state.preferences.config.settle_ms = ms;
        ms_label(ms)
    }

    /// Takes the poll rate, and returns its label.
    pub fn poll_changed(&mut self, hz: u32) -> (label: String)
        ensures
            label@ == quantity(hz, "Hz"@),
            final(self)@.recording == old(self)@.recording,
            final(self)@.preferences == (Preferences {
                config: Config { poll_hz: hz, ..old(self)@.preferences.config },
                ..old(self)@.preferences
            }),
            final(self)@ == old(self)@.polled(hz),
    {
        self.state.preferences.config.poll_hz = hz;
        hz_label(hz)
    }

    /// Takes whether to launch at login.
    pub fn launch_toggled(&mut self, on: bool)
        ensures
            final(self)@.recording == old(self)@.recording,
            final(self)@.preferences == (Preferences {
                config: Config {
                    launch_at_login: on,
                    ..old(self)@.preferences.config
                },
                ..old(self)@.preferences
            }),
            final(self)@ == old(self)@.launched(on),
    {
        self.state.preferences.config.launch_at_login = on;
    }

    /// Takes the index of the chosen theme; a negative one counts as the first.
    pub fn theme_selected(&mut self, index: isize)
        ensures
            final(self)@.recording == old(self)@.recording,
            final(self)@.preferences == (Preferences {
                theme: theme_at(
                    if index < 0 {
                        0
                    } else {
                        index as int
                    },
                ),
                ..old(self)@.preferences
            }),
            final(self)@ == old(self)@.themed(index as int),
    {
        let index: usize = if index < 0 {
            0
        } else {
            index as usize
        };
        self.state.preferences.theme = theme_from_index(index);
    }

    /// Takes whether there is a command palette.
    pub fn palette_toggled(&mut self, on: bool)
        ensures
            final(self)@.recording == old(self)@.recording,
            final(self)@.preferences == (Preferences {
                palette_enabled: on,
                ..old(self)@.preferences
            }),
            final(self)@ == old(self)@.switched(on),
    {
        self.state.preferences.palette_enabled = on;
    }

    /// Begins to record the hotkey; `false` where that had begun already.
    pub fn start_recording(&mut self) -> (begun: bool)
        ensures
            begun == !old(self)@.recording,
            final(self)@ == (SettingsView { recording: true, ..old(self)@ }),
    {
        if self.state.recording {
            return false;
        }
        self.state.recording = true;
        true
    }

    /// Takes a key press while a hotkey is recorded.
    pub fn key_pressed(&mut self, keycode: u16, mods: Modifiers) -> (press: KeyPress)
        ensures
            press == recorded_by(keycode, mods),
            final(self)@ == (match press {
                KeyPress::Ignored => old(self)@,
                KeyPress::Cancelled => SettingsView { recording: false, ..old(self)@ },
                KeyPress::Recorded(chord) => SettingsView {
                    recording: false,
                    preferences: Preferences { palette_hotkey: chord, ..old(self)@.preferences },
                },
            }),
            final(self)@ == old(self)@.pressed(keycode, mods),
    {
        if keycode == ESCAPE {
            self.finish_recording(None);
            return KeyPress::Cancelled;
        }
        if mods.command || mods.control || mods.option {
            let chord = HotkeyChord { mods: carbon_mods(mods), keycode: keycode as u32 };
            self.finish_recording(Some(chord));
            return KeyPress::Recorded(chord);
        }
        KeyPress::Ignored
    }

    /// Ends the recording, and adopts the hotkey if there is one. Returns the label of the hotkey
    /// that is set then.
    pub fn finish_recording(&mut self, chord: Option<HotkeyChord>) -> (label: String)
        ensures
            final(self)@ == (SettingsView {
                recording: false,
                preferences: match chord {
                    Some(chord) => Preferences {
                        palette_hotkey: chord,
                        ..old(self)@.preferences
                    },
                    None => old(self)@.preferences,
                },
            }),
            label@ == chord_text(final(self)@.preferences.palette_hotkey),
            final(self)@ == old(self)@.recorded(chord),
    {
        self.state.recording = false;
        match chord {
            Some(chord) => {
                self.state.preferences.palette_hotkey = chord;
            },
            None => {},
        }
        hotkey_display(self.state.preferences.palette_hotkey)
    }
}

// ---- the saved frame of the window ------------------------------------------------------------

/// The numerals of the window's own frame in an autosaved frame, which reads `x y w h screenX
/// screenY screenW screenH`: the leading four words. `None` where there are fewer.
pub fn frame_fields(saved: &str) -> (fields: Option<Vec<String>>)
    ensures
        fields is Some == (words(saved@).len() >= 4),
        fields matches Some(f) ==> texts(f@) == words(saved@).take(4),
{
    let found = split_whitespace(saved);
    assert(texts(found@).len() == found@.len());
    if found.len() < 4 {
        return None;
    }
    let mut fields: Vec<String> = Vec::new();
    let mut i: usize = 0;
    while i < 4
        invariant
            i <= 4,
            found@.len() >= 4,
            fields@ == found@.take(i as int),
        decreases 4 - i,
    {
        fields.push(found[i].clone());
        assert(fields@ =~= found@.take(i + 1));
        i += 1;
    }
    assert(texts(fields@) =~= words(saved@).take(4));
    Some(fields)
}

// ---- what the controls can be relied upon for -------------------------------------------------

/// A chosen look is kept whatever the system does, and only following the system follows it.
pub proof fn lemma_chosen_look_is_kept(system_dark: bool)
    ensures
        looks_dark(appearance_of(Theme::Dark, system_dark), system_dark),
        !looks_dark(appearance_of(Theme::Light, system_dark), system_dark),
        appearance_of(Theme::System, system_dark) is Inherited,
        !(appearance_of(Theme::OppositeSystem, system_dark) is Inherited),
        appearance_of(Theme::OppositeSystem, system_dark) != appearance_of(
            Theme::OppositeSystem,
            !system_dark,
        ),
{
}

/// An index beyond the choices chooses to follow the system, and the choices stand in this order:
/// the system, dark, light, the opposite of the system.
pub proof fn lemma_choices_stand_in_order(index: int)
    ensures
        index < 0 || index >= 4 ==> theme_at(index) == Theme::System,
        theme_at(0) == Theme::System,
        theme_at(1) == Theme::Dark,
        theme_at(2) == Theme::Light,
        theme_at(3) == Theme::OppositeSystem,
{
}

/// A Carbon mask is a sum: 256 for Command, 512 for Shift, 2048 for Option, 4096 for Control.
pub proof fn lemma_carbon_mask_is_a_sum(mods: Modifiers)
    ensures
        carbon_mask(mods) == (if mods.command {
            256int
        } else {
            0
        }) + (if mods.shift {
            512int
        } else {
            0
        }) + (if mods.option {
            2048int
        } else {
            0
        }) + (if mods.control {
            4096int
        } else {
            0
        }),
{
    let c: u32 = if mods.command {
        0x0100
    } else {
        0
    };
    let s: u32 = if mods.shift {
        0x0200
    } else {
        0
    };
    let o: u32 = if mods.option {
        0x0800
    } else {
        0
    };
    let k: u32 = if mods.control {
        0x1000
    } else {
        0
    };
    assert((c | s | o | k) == c + s + o + k) by (bit_vector)
        requires
            c == 0 || c == 0x0100,
            s == 0 || s == 0x0200,
            o == 0 || o == 0x0800,
            k == 0 || k == 0x1000,
    ;
}

/// What a key press does while a hotkey is recorded: Escape always cancels; any other key is recorded
/// just where Command, Option or Control is held, with its own code and all the modifiers that are
/// held; with Shift alone or no modifier it is ignored.
pub proof fn lemma_key_press_is_recorded(keycode: u16, mods: Modifiers)
    ensures
        recorded_by(keycode, mods) is Cancelled <==> keycode == 53,
        recorded_by(keycode, mods) is Recorded <==> keycode != 53 && (mods.command || mods.option
            || mods.control),
        recorded_by(keycode, mods) is Ignored <==> keycode != 53 && !mods.command && !mods.option
            && !mods.control,
        recorded_by(keycode, mods) matches KeyPress::Recorded(chord) ==> chord.keycode == keycode
            && modifiers_in_carbon(chord.mods) == mods,
{
    lemma_carbon_mask_holds_its_keys(mods);
}

/// A hotkey is displayed as the signs of the modifiers in its mask, and then the name of its key.
pub proof fn lemma_hotkey_is_displayed(chord: HotkeyChord)
    ensures
        ({
            let name = key_name(chord.keycode)@.len();
            let text = chord_text(chord);
            &&& text.len() >= name
            &&& text.skip(text.len() - name) == key_name(chord.keycode)@
            &&& text.take(text.len() - name).contains('⌘') <==> chord.mods & 0x0100 != 0
            &&& text.take(text.len() - name).contains('⇧') <==> chord.mods & 0x0200 != 0
            &&& text.take(text.len() - name).contains('⌥') <==> chord.mods & 0x0800 != 0
            &&& text.take(text.len() - name).contains('⌃') <==> chord.mods & 0x1000 != 0
        }),
{
    let name = key_name(chord.keycode)@.len();
    let text = chord_text(chord);
    let mods = modifiers_in_carbon(chord.mods);
    assert(text.skip(text.len() - name) =~= key_name(chord.keycode)@);
    assert(text.take(text.len() - name) =~= mod_signs(mods));
    lemma_signs_are_those_held(mods);
}

/// A number and its unit, one space apart; the number is read back from its digits.
pub proof fn lemma_quantity_is_read_back(n: u32, unit: Seq<char>)
    ensures
        ({
            let text = quantity(n, unit);
            let digits = text.len() - unit.len() - 1;
            &&& digits > 0
            &&& numeral_value(text.take(digits)) == n
            &&& text[digits] == ' '
            &&& text.skip(digits + 1) == unit
        }),
{
    let text = quantity(n, unit);
    lemma_decimal_is_read_back(n as nat);
    let digits = text.len() - unit.len() - 1;
    assert(text.take(digits) =~= decimal(n as nat));
    assert(text.skip(digits + 1) =~= unit);
}

/// Each control changes its own setting and nothing else: after all of them were used, in this order,
/// every setting is what its control was set to.
pub proof fn lemma_controls_do_not_interfere(
    settings: SettingsView,
    fade: u32,
    settle: u32,
    poll: u32,
    launch: bool,
    theme: int,
    palette: bool,
    chord: HotkeyChord,
)
    ensures
        ({
            let after = settings.faded(fade).settled(settle).polled(poll).launched(launch).themed(
                theme,
            ).switched(palette).recorded(Some(chord)).preferences;
            let before = settings.recorded(Some(chord)).switched(palette).themed(theme).launched(
                launch,
            ).polled(poll).settled(settle).faded(fade).preferences;
            &&& after == before
            &&& after.config.fade_ms == fade
            &&& after.config.settle_ms == settle
            &&& after.config.poll_hz == poll
            &&& after.config.launch_at_login == launch
            &&& 0 <= theme < 4 ==> index_of(after.theme) == theme
            &&& theme < 0 || theme >= 4 ==> after.theme == Theme::System
            &&& after.palette_enabled == palette
            &&& after.palette_hotkey.mods == chord.mods
            &&& after.palette_hotkey.keycode == chord.keycode
        }),
{
}

/// One control alone leaves all the other settings, and a recording that is going on, as they were.
pub proof fn lemma_each_control_has_its_setting(settings: SettingsView, n: u32, on: bool, index: int)
    ensures
        ({
            let held = settings.preferences;
            &&& settings.faded(n).preferences.config.fade_ms == n
            &&& settings.faded(n).faded(held.config.fade_ms) == settings
            &&& settings.settled(n).preferences.config.settle_ms == n
            &&& settings.settled(n).settled(held.config.settle_ms) == settings
            &&& settings.polled(n).preferences.config.poll_hz == n
            &&& settings.polled(n).polled(held.config.poll_hz) == settings
            &&& settings.launched(on).preferences.config.launch_at_login == on
            &&& settings.launched(on).launched(held.config.launch_at_login) == settings
            &&& settings.switched(on).preferences.palette_enabled == on
            &&& settings.switched(on).switched(held.palette_enabled) == settings
            &&& settings.themed(index).themed(index_of(held.theme)) == settings
        }),
{
}

/// Recording a hotkey ends with a key that makes one or with Escape, and with nothing else; only the
/// former changes the hotkey, to that key and the modifiers that are held, and nothing else changes.
pub proof fn lemma_recording_ends_with_a_hotkey(
    settings: SettingsView,
    keycode: u16,
    mods: Modifiers,
)
    requires
        settings.recording,
    ensures
        ({
            let after = settings.pressed(keycode, mods);
            let held = mods.command || mods.option || mods.control;
            &&& after.recording <==> keycode != 53 && !held
            &&& after.preferences == (Preferences {
                palette_hotkey: after.preferences.palette_hotkey,
                ..settings.preferences
            })
            &&& keycode != 53 && held ==> after.preferences.palette_hotkey.keycode == keycode
                && modifiers_in_carbon(after.preferences.palette_hotkey.mods) == mods
            &&& keycode == 53 || !held ==> after.preferences.palette_hotkey
                == settings.preferences.palette_hotkey
        }),
{
    lemma_carbon_mask_holds_its_keys(mods);
}

/// Each named key is told by its name: no two keys share one, and all other keys are shown as a
/// question mark.
pub proof fn lemma_keys_are_told_by_their_names(keycode: u32)
    ensures
        key_name(keycode)@ == "A"@ <==> keycode == 0x00,
        key_name(keycode)@ == "B"@ <==> keycode == 0x0b,
        key_name(keycode)@ == "C"@ <==> keycode == 0x08,
        key_name(keycode)@ == "D"@ <==> keycode == 0x02,
        key_name(keycode)@ == "E"@ <==> keycode == 0x0e,
        key_name(keycode)@ == "F"@ <==> keycode == 0x03,
        key_name(keycode)@ == "G"@ <==> keycode == 0x05,
        key_name(keycode)@ == "H"@ <==> keycode == 0x04,
        key_name(keycode)@ == "I"@ <==> keycode == 0x22,
        key_name(keycode)@ == "J"@ <==> keycode == 0x26,
        key_name(keycode)@ == "K"@ <==> keycode == 0x28,
        key_name(keycode)@ == "L"@ <==> keycode == 0x25,
        key_name(keycode)@ == "M"@ <==> keycode == 0x2e,
        key_name(keycode)@ == "N"@ <==> keycode == 0x2d,
        key_name(keycode)@ == "O"@ <==> keycode == 0x1f,
        key_name(keycode)@ == "P"@ <==> keycode == 0x23,
        key_name(keycode)@ == "Q"@ <==> keycode == 0x0c,
        key_name(keycode)@ == "R"@ <==> keycode == 0x0f,
        key_name(keycode)@ == "S"@ <==> keycode == 0x01,
        key_name(keycode)@ == "T"@ <==> keycode == 0x11,
        key_name(keycode)@ == "U"@ <==> keycode == 0x20,
        key_name(keycode)@ == "V"@ <==> keycode == 0x09,
        key_name(keycode)@ == "W"@ <==> keycode == 0x0d,
        key_name(keycode)@ == "X"@ <==> keycode == 0x07,
        key_name(keycode)@ == "Y"@ <==> keycode == 0x10,
        key_name(keycode)@ == "Z"@ <==> keycode == 0x06,
        key_name(keycode)@ == "Esc"@ <==> keycode == 0x35,
        key_name(keycode)@ == "Return"@ <==> keycode == 0x24,
        key_name(keycode)@ == "Space"@ <==> keycode == 0x31,
        key_name(keycode)@ == "Tab"@ <==> keycode == 0x30,
{
    reveal_strlit("A");
    reveal_strlit("B");
    reveal_strlit("C");
    reveal_strlit("D");
    reveal_strlit("E");
    reveal_strlit("F");
    reveal_strlit("G");
    reveal_strlit("H");
    reveal_strlit("I");
    reveal_strlit("J");
    reveal_strlit("K");
    reveal_strlit("L");
    reveal_strlit("M");
    reveal_strlit("N");
    reveal_strlit("O");
    reveal_strlit("P");
    reveal_strlit("Q");
    reveal_strlit("R");
    reveal_strlit("S");
    reveal_strlit("T");
    reveal_strlit("U");
    reveal_strlit("V");
    reveal_strlit("W");
    reveal_strlit("X");
    reveal_strlit("Y");
    reveal_strlit("Z");
    reveal_strlit("Esc");
    reveal_strlit("Return");
    reveal_strlit("Space");
    reveal_strlit("Tab");
    reveal_strlit("?");
    assert("A"@.len() == 1 && "A"@[0] == 'A');
    assert("B"@.len() == 1 && "B"@[0] == 'B');
    assert("C"@.len() == 1 && "C"@[0] == 'C');
    assert("D"@.len() == 1 && "D"@[0] == 'D');
    assert("E"@.len() == 1 && "E"@[0] == 'E');
    assert("F"@.len() == 1 && "F"@[0] == 'F');
    assert("G"@.len() == 1 && "G"@[0] == 'G');
    assert("H"@.len() == 1 && "H"@[0] == 'H');
    assert("I"@.len() == 1 && "I"@[0] == 'I');
    assert("J"@.len() == 1 && "J"@[0] == 'J');
    assert("K"@.len() == 1 && "K"@[0] == 'K');
    assert("L"@.len() == 1 && "L"@[0] == 'L');
    assert("M"@.len() == 1 && "M"@[0] == 'M');
    assert("N"@.len() == 1 && "N"@[0] == 'N');
    assert("O"@.len() == 1 && "O"@[0] == 'O');
    assert("P"@.len() == 1 && "P"@[0] == 'P');
    assert("Q"@.len() == 1 && "Q"@[0] == 'Q');
    assert("R"@.len() == 1 && "R"@[0] == 'R');
    assert("S"@.len() == 1 && "S"@[0] == 'S');
    assert("T"@.len() == 1 && "T"@[0] == 'T');
    assert("U"@.len() == 1 && "U"@[0] == 'U');
    assert("V"@.len() == 1 && "V"@[0] == 'V');
    assert("W"@.len() == 1 && "W"@[0] == 'W');
    assert("X"@.len() == 1 && "X"@[0] == 'X');
    assert("Y"@.len() == 1 && "Y"@[0] == 'Y');
    assert("Z"@.len() == 1 && "Z"@[0] == 'Z');
    assert("Esc"@.len() == 3 && "Esc"@[0] == 'E');
    assert("Return"@.len() == 6 && "Return"@[0] == 'R');
    assert("Space"@.len() == 5 && "Space"@[0] == 'S');
    assert("Tab"@.len() == 3 && "Tab"@[0] == 'T');
    assert("?"@.len() == 1 && "?"@[0] == '?');
}

} // verus!
