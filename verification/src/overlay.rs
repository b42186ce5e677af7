//! The controller of the bar: what it does at every tick, when the window moves, when a menu opens
//! and when the settings change.
//!
//! The caller reads the screen, the windows and the menus, hands what it read to the controller,
//! and carries out the command that it gets back. Between the two nothing else may touch the bar,
//! so the controller always knows whether the bar is on screen.

use vstd::prelude::*;

use crate::config::{
    lemma_saved_preferences_are_loaded, preferences_of, preferences_or_default, ConfigError,
    HotkeyChord, Preferences, Theme,
};
use crate::geometry::{
    bar_height, bar_origin, covers_top, first_holding, fit_titles, fits, fits_bar, in_the_way,
    notch_at, notch_x_span, obstructs, place, should_hide, title_under, BarFit, MenuSpan, Point,
    Rect, ScreenExtents, ScreenTop, Size, BAR_V_MARGIN, LIMIT, POINT, WINDOW_GAP,
};
use crate::menu::{opt_text, unpacked, EntryView};
use crate::mirror::{
    build_model, extent_fits, extents_of, kept_titles, lemma_titles_of_model, menu_of, menu_span,
    menu_views, model_of, model_titles, overflow_menus, path_of_key, row_of, row_views, span_of,
    titles_changed, top_views, MenuRow, OverflowMenu, TopItem, TopMenu, TopMenuView, TopView,
};
use crate::settings::{SettingsController, SettingsView};
use crate::text::{same_text, texts};

verus! {

/// The height of the bar before it is first laid out.
pub const BAR_H: i64 = 24 * POINT;

/// How often the menus of the current application are read again, in nanoseconds.
pub const MENU_RECHECK: u64 = 500_000_000;

/// Nanoseconds in a millisecond.
pub const MILLISECOND: u64 = 1_000_000;

/// What is to be done with the bar.
#[derive(Debug, Clone, Copy, PartialEq, Eq, Structural)]
pub enum BarCommand {
    Nothing,
    /// Move the bar's lower left corner here, and fade it in.
    Show(Point),
    /// Take the bar off the screen at once.
    HideFast,
    /// Fade the bar out, and take it off the screen if [`Controller::fade_is_current`] of this
    /// generation holds when the fade is over.
    FadeOut(u64),
}

/// The window whose moves are observed, and the process that owns it.
#[derive(Debug, Clone, Copy, PartialEq, Eq, Structural)]
pub struct Observed {
    pub pid: i32,
    pub window: u64,
}

/// What the controller knows besides the menus. Windows are told apart by a number that the caller
/// gives to each; times are nanoseconds since some fixed moment.
#[derive(Debug, Clone, Copy)]
pub struct Bar {
    pub preferences: Preferences,
    /// The process whose menus are mirrored.
    pub current_pid: i32,
    pub bar_size: Size,
    /// Which menu of the bar the open menu belongs to.
    pub open_top: Option<usize>,
    /// The frame that the focused window had last.
    pub last_frame: Option<Rect>,
    pub observed: Option<Observed>,
    /// Whether the window is moving or changing its size.
    pub moving: bool,
    /// When the bar may come back once the window keeps still.
    pub settle_at: Option<u128>,
    /// Whether the bar is on screen.
    pub shown: bool,
    /// Which titles the bar has.
    pub fit: BarFit,
    /// The width of the focused window.
    pub win_width: i64,
    /// The width into which the titles were fitted; `None` if any would have done.
    pub laid_out_width: Option<i64>,
    /// Whether a menu is open.
    pub menu_open: bool,
    /// The menu to open once the open one is closed.
    pub pending_switch: Option<usize>,
    /// The extent of the real menus.
    pub menu_span: Option<MenuSpan>,
    /// Counts the commands, so that the end of an outdated fade can be told.
    pub fade_gen: u64,
    /// The focused window.
    pub window: Option<u64>,
    /// When the menus were last read again.
    pub last_menu_check: Option<u64>,
    /// Whether the system was dark when that was last looked at.
    pub system_dark: Option<bool>,
}

/// The generation after `gen`.
pub open spec fn next_gen(gen: u64) -> u64 {
    if gen == u64::MAX {
        0
    } else {
        (gen + 1) as u64
    }
}

impl Bar {
    /// What holds of the bar at all times: its lengths are within what is handled; while the window
    /// moves it is not on screen and there is a moment when it may come back; and no menu is ever
    /// followed by itself.
    pub open spec fn wf(self) -> bool {
        &&& self.bar_size.fits()
        &&& (self.menu_span matches Some(s) ==> -2 * LIMIT <= s.left <= 2 * LIMIT && -2 * LIMIT
            <= s.right <= 2 * LIMIT)
        &&& (self.moving ==> !self.shown && self.settle_at is Some)
        &&& (self.pending_switch is Some ==> self.pending_switch != self.open_top)
    }

    /// The bar goes at once, if it is there.
    pub open spec fn dropped(self) -> (Bar, BarCommand) {
        if self.shown {
            (
                Bar { shown: false, fade_gen: next_gen(self.fade_gen), ..self },
                BarCommand::HideFast,
            )
        } else {
            (self, BarCommand::Nothing)
        }
    }

    /// There is no place for the bar: it fades out, if it is there, and comes back as soon as there
    /// is a place again.
    pub open spec fn hidden(self) -> (Bar, BarCommand) {
        let bar = Bar { last_frame: None, moving: false, shown: false, ..self };
        if self.shown {
            let gen = next_gen(self.fade_gen);
            (Bar { fade_gen: gen, ..bar }, BarCommand::FadeOut(gen))
        } else {
            (bar, BarCommand::Nothing)
        }
    }

    /// The bar comes, at the given place.
    pub open spec fn raised(self, origin: Point) -> (Bar, BarCommand) {
        (
            Bar { moving: false, shown: true, fade_gen: next_gen(self.fade_gen), ..self },
            BarCommand::Show(origin),
        )
    }

    /// The window has moved or changed its size: the bar goes at once, and may come back once the
    /// settle delay is over.
    pub open spec fn unsettled(self, now: u64) -> (Bar, BarCommand) {
        Bar {
            moving: true,
            settle_at: Some(
                (now + self.preferences.config.settle_ms * MILLISECOND) as u128,
            ),
            ..self
        }.dropped()
    }

    /// The window has the given frame, above which the bar has its place at `origin`: the bar comes
    /// at once above a window seen for the first time, goes while the window moves, and comes back
    /// when it has kept still for the settle delay.
    pub open spec fn pinned(self, frame: Rect, origin: Point, now: u64) -> (Bar, BarCommand) {
        let seen = Bar { last_frame: Some(frame), ..self };
        if self.last_frame is None {
            seen.raised(origin)
        } else if self.last_frame != Some(frame) {
            seen.unsettled(now)
        } else if self.moving && self.settle_at is Some && now < self.settle_at->0 {
            (self, BarCommand::Nothing)
        } else if self.moving || !self.shown {
            self.raised(origin)
        } else {
            (self, BarCommand::Nothing)
        }
    }
}

impl Bar {
    /// A look at the clock: whether the menus are due to be read again, and what is noted then.
    pub open spec fn checked(self, now: u64) -> (Bar, bool) {
        let since = self.last_menu_check;
        if self.open_top is None && (since is None || now - since->0 >= MENU_RECHECK) {
            (Bar { last_menu_check: Some(now), ..self }, true)
        } else {
            (self, false)
        }
    }

    /// The bar once the menus of the application `pid` were mirrored, which extend over `span`.
    pub open spec fn rebuilt(self, pid: i32, span: Option<MenuSpan>) -> Bar {
        Bar {
            current_pid: pid,
            open_top: None,
            last_frame: None,
            menu_span: span,
            fit: BarFit { visible: 0, overflow_from: None },
            ..self
        }
    }

    /// The width into which the titles are to be fitted before the window is looked at again.
    pub open spec fn room(self) -> Option<i64> {
        if self.win_width > POINT {
            Some(self.win_width)
        } else {
            None
        }
    }

    /// The bar once its titles were fitted into a width.
    pub open spec fn laid_out(self, fit: BarFit, avail: Option<i64>) -> Bar {
        Bar { fit, laid_out_width: avail, ..self }
    }

    /// The bar once an attempt to observe a window was made.
    pub open spec fn observing(self, pid: i32, window: u64, armed: bool) -> Bar {
        if armed {
            Bar { observed: Some(Observed { pid, window }), ..self }
        } else {
            Bar { observed: None, ..self }
        }
    }

    /// Whether a window of a process is being observed.
    pub open spec fn observes(self, pid: i32, window: u64) -> bool {
        self.observed matches Some(o) && o.pid == pid && o.window == window
    }

    /// The bar while the menu of the title with this index is open.
    pub open spec fn opened(self, index: usize) -> Bar {
        Bar { open_top: Some(index), menu_open: true, pending_switch: None, ..self }
    }

    /// The bar once the open menu is closed, and the title whose menu is to be opened next.
    pub open spec fn closed(self) -> (Bar, Option<usize>) {
        let still = Bar { menu_open: false, pending_switch: None, ..self };
        if self.pending_switch is Some {
            (still, self.pending_switch)
        } else {
            (Bar { open_top: None, ..still }, None)
        }
    }

    /// The bar while the mouse is over the title with this index, or over none, and whether the
    /// open menu is to be closed.
    pub open spec fn hovered(self, title: Option<usize>) -> (Bar, bool) {
        if self.menu_open && title is Some && self.open_top != title {
            (Bar { pending_switch: title, ..self }, true)
        } else {
            (self, false)
        }
    }

    /// A look at the system's appearance: what is noted, and the theme that is to be put into effect
    /// anew.
    pub open spec fn dark_seen(self, dark: bool) -> (Bar, Option<Theme>) {
        let flipped = self.system_dark is Some && self.system_dark->0 != dark;
        (
            Bar { system_dark: Some(dark), ..self },
            if flipped && self.preferences.theme is OppositeSystem {
                Some(self.preferences.theme)
            } else {
                None
            },
        )
    }
}

/// Whether a bar that mirrors menus with the titles `shown` is outdated by the titles that were read.
pub open spec fn outdated(shown: Seq<Seq<char>>, read: Seq<Seq<char>>) -> bool {
    read.len() > 0 && shown != read
}

/// The hotkey that preferences ask for, if they ask for one.
pub open spec fn wanted_chord(preferences: Preferences) -> Option<HotkeyChord> {
    if preferences.palette_enabled {
        Some(preferences.palette_hotkey)
    } else {
        None
    }
}

/// The application whose commands are listed where `frontmost` is in front.
pub open spec fn listed_application(frontmost: Option<i32>, own_pid: i32) -> Option<i32> {
    match frontmost {
        Some(pid) => if pid == own_pid {
            None
        } else {
            Some(pid)
        },
        None => None,
    }
}

/// Whether a command leaves the screen as the controller takes it to be afterwards: a bar that is
/// shown or hidden is known to be, one that is hidden was there, and each command that shows or
/// hides has a generation of its own.
pub open spec fn carried_out(before: Bar, command: BarCommand, after: Bar) -> bool {
    match command {
        BarCommand::Nothing => after.shown == before.shown && after.fade_gen == before.fade_gen,
        BarCommand::Show(_) => after.shown && after.fade_gen == next_gen(before.fade_gen),
        BarCommand::HideFast => before.shown && !after.shown && after.fade_gen == next_gen(
            before.fade_gen,
        ),
        BarCommand::FadeOut(gen) => before.shown && !after.shown && after.fade_gen == gen && gen
            == next_gen(before.fade_gen),
    }
}

/// The focused window, as the Accessibility API reports it.
#[derive(Debug)]
pub struct FocusedWindow {
    /// The same for the same window, another for another one.
    pub id: u64,
    pub subrole: Option<String>,
}

/// The subrole of real windows, in contrast to popovers, sheets, dialogs and floating panels.
pub open spec fn is_standard(subrole: Option<Seq<char>>) -> bool {
    subrole == Some("AXStandardWindow"@)
}

/// What to do after the first look at a tick.
#[derive(Debug, Clone, Copy, PartialEq, Eq, Structural)]
pub enum TickStart {
    /// Carry this out; the tick is over.
    Stop(BarCommand),
    /// Carry this out, [`Controller::rebuild`] the bar for the frontmost application, and look at
    /// its focused window.
    Refocus(BarCommand),
    /// Look at the focused window.
    Focus,
}

/// What to do after a look at the focused window.
#[derive(Debug, Clone, Copy, PartialEq, Eq, Structural)]
pub enum TickFocus {
    /// Carry this out; the tick is over.
    Stop(BarCommand),
    /// Carry this out, [`Controller::rebuild`] the bar, and go on.
    Refocus(BarCommand),
    /// Go on: recheck the menus, observe the window, and reconcile the bar with it.
    Proceed,
}

/// What to do after a look at the frame of the focused window.
#[derive(Debug, Clone, Copy, PartialEq, Eq, Structural)]
pub enum Reconcile {
    /// Carry this out; the tick is over.
    Stop(BarCommand),
    /// [`Controller::layout_bar`] for this width, and then place the bar.
    Relayout(i64),
    /// Place the bar.
    Place,
}

/// The first look at a tick. Without permission or a frontmost application there is no place for
/// the bar; our own windows leave it as it is; for another application than that whose menus are
/// mirrored it goes and is built anew.
pub open spec fn tick_started(
    bar: Bar,
    trusted: bool,
    frontmost: Option<i32>,
    own_pid: i32,
) -> (Bar, TickStart) {
    if !trusted || frontmost is None {
        (bar.hidden().0, TickStart::Stop(bar.hidden().1))
    } else if frontmost == Some(own_pid) {
        (bar, TickStart::Stop(BarCommand::Nothing))
    } else if frontmost != Some(bar.current_pid) {
        let unfocused = Bar { window: None, ..bar }.dropped();
        (unfocused.0, TickStart::Refocus(unfocused.1))
    } else {
        (bar, TickStart::Focus)
    }
}

/// The look at the focused window of the frontmost application. Without one there is no place for
/// the bar. One that is no real window leaves the bar above its parent, if it is that
/// application's. For another window than before the bar goes and is built anew.
pub open spec fn tick_focused(
    bar: Bar,
    pid: i32,
    window: Option<(u64, Option<Seq<char>>)>,
) -> (Bar, TickFocus) {
    match window {
        None => (bar.hidden().0, TickFocus::Stop(bar.hidden().1)),
        Some((id, subrole)) => if !is_standard(subrole) {
            if bar.shown && bar.current_pid == pid {
                (bar, TickFocus::Stop(BarCommand::Nothing))
            } else {
                (bar.hidden().0, TickFocus::Stop(bar.hidden().1))
            }
        } else if bar.window is Some && bar.window != Some(id) {
            let refocused = Bar { window: Some(id), ..bar }.dropped();
            (refocused.0, TickFocus::Refocus(refocused.1))
        } else {
            (Bar { window: Some(id), ..bar }, TickFocus::Proceed)
        },
    }
}

/// The look at the frame of the focused window. There is no place for the bar where the frame is
/// unknown, the window covers the top of the screen, or there are no menus. The titles are fitted
/// anew where the window's width differs by more than a point from that into which they were
/// fitted, unless a menu is open.
pub open spec fn reconciled(
    bar: Bar,
    has_menus: bool,
    frame: Option<Rect>,
    menu_bar_height: i64,
    screen: Option<ScreenExtents>,
) -> (Bar, Reconcile) {
    match frame {
        None => (bar.hidden().0, Reconcile::Stop(bar.hidden().1)),
        Some(frame) => {
            let covering = screen matches Some(s) && covers_top(
                frame.origin,
                frame.size,
                menu_bar_height,
                s,
            );
            if covering || !has_menus {
                (bar.hidden().0, Reconcile::Stop(bar.hidden().1))
            } else {
                let width = frame.size.width;
                let off = match bar.laid_out_width {
                    Some(w) => width - w > POINT || w - width > POINT,
                    None => true,
                };
                (
                    Bar { win_width: width, ..bar },
                    if off && bar.open_top is None {
                        Reconcile::Relayout(width)
                    } else {
                        Reconcile::Place
                    },
                )
            }
        },
    }
}

/// The corner of the bar above a window at `pos`, in coordinates that go upwards from the bottom
/// of the primary screen.
pub open spec fn origin_above(pos: Point, primary_height: i64) -> Point {
    Point { x: pos.x, y: (primary_height - pos.y + WINDOW_GAP) as i64 }
}

/// The bar's place above the focused window: none where it would be in the way of the system, else
/// right above the window.
pub open spec fn placed(
    bar: Bar,
    frame: Rect,
    menu_bar_height: i64,
    screens: Seq<ScreenTop>,
    primary_height: i64,
    now: u64,
) -> (Bar, BarCommand) {
    let notch = notch_at(screens, frame.origin.x as int, frame.size.width as int);
    if obstructs(frame.origin, bar.bar_size, menu_bar_height, bar.menu_span, notch) {
        bar.hidden()
    } else {
        bar.pinned(frame, origin_above(frame.origin, primary_height), now)
    }
}

/// What is to be done so that edited preferences take effect.
#[derive(Debug, Clone, Copy, PartialEq, Eq, Structural)]
pub struct Changes {
    /// Start the reconciliation timer anew, at the poll rate.
    pub restart_timer: bool,
    /// Add ourselves to the login items, or remove ourselves.
    pub login_item: Option<bool>,
    /// Put this theme into effect.
    pub theme: Option<Theme>,
    /// Give up the hotkey that is registered, and register that of [`Controller::palette_chord`].
    pub register_hotkey: bool,
    /// Write this to the configuration file.
    pub save: Preferences,
}

/// What is to be done where the preferences `edited` replace those that were `held`: what they
/// differ in, and to save them.
pub open spec fn changes_between(held: Preferences, edited: Preferences) -> Changes {
    Changes {
        restart_timer: held.config.poll_hz != edited.config.poll_hz,
        login_item: if held.config.launch_at_login != edited.config.launch_at_login {
            Some(edited.config.launch_at_login)
        } else {
            None
        },
        theme: if held.theme != edited.theme {
            Some(edited.theme)
        } else {
            None
        },
        register_hotkey: held.palette_enabled != edited.palette_enabled || held.palette_hotkey
            != edited.palette_hotkey,
        save: edited,
    }
}

/// The controller of the bar.
#[derive(Debug)]
pub struct Controller {
    menus: Vec<TopMenu>,
    bar: Bar,
}

impl Controller {
    /// The mirrored menus.
    pub closed spec fn menus(self) -> Seq<TopMenuView> {
        menu_views(self.menus@)
    }

    /// The state of the bar.
    pub closed spec fn bar(self) -> Bar {
        self.bar
    }

    /// What holds at all times: the bar is well-formed, and it has no more titles than there are
    /// menus.
    pub open spec fn wf(self) -> bool {
        &&& self.bar().wf()
        &&& self.bar().fit.visible <= self.menus().len()
        &&& (self.bar().fit.overflow_from matches Some(k) ==> k <= self.menus().len())
    }

    /// A controller without menus, for preferences that were loaded.
    pub fn new(preferences: Preferences) -> (controller: Controller)
        ensures
            controller.wf(),
            controller.menus().len() == 0,
            controller.bar() == (Bar {
                preferences,
                current_pid: 0,
                bar_size: Size { width: 0, height: BAR_H },
                open_top: None,
                last_frame: None,
                observed: None,
                moving: false,
                settle_at: None,
                shown: false,
                fit: BarFit { visible: 0, overflow_from: None },
                win_width: 0,
                laid_out_width: Some(0),
                menu_open: false,
                pending_switch: None,
                menu_span: None,
                fade_gen: 0,
                window: None,
                last_menu_check: None,
                system_dark: None,
            }),
    {
        Controller {
            menus: Vec::new(),
            bar: Bar {
                preferences,
                current_pid: 0,
                bar_size: Size { width: 0, height: BAR_H },
                open_top: None,
                last_frame: None,
                observed: None,
                moving: false,
                settle_at: None,
                shown: false,
                fit: BarFit { visible: 0, overflow_from: None },
                win_width: 0,
                laid_out_width: Some(0),
                menu_open: false,
                pending_switch: None,
                menu_span: None,
                fade_gen: 0,
                window: None,
                last_menu_check: None,
                system_dark: None,
            },
        }
    }

    fn bump(&mut self)
        ensures
            final(self).menus@ == old(self).menus@,
            final(self).bar == (Bar { fade_gen: next_gen(old(self).bar.fade_gen), ..old(self).bar }),
    {
        self.bar.fade_gen = if self.bar.fade_gen == u64::MAX {
            0
        } else {
            self.bar.fade_gen + 1
        };
    }

    fn drop_bar(&mut self) -> (command: BarCommand)
        ensures
            final(self).menus@ == old(self).menus@,
            (final(self).bar, command) == old(self).bar.dropped(),
    {
        if self.bar.shown {
            self.bar.shown = false;
            self.bump();
            BarCommand::HideFast
        } else {
            BarCommand::Nothing
        }
    }

    fn hide_all(&mut self) -> (command: BarCommand)
        ensures
            final(self).menus@ == old(self).menus@,
            (final(self).bar, command) == old(self).bar.hidden(),
    {
        let was_shown = self.bar.shown;
        self.bar.last_frame = None;
        self.bar.moving = false;
        self.bar.shown = false;
        if was_shown {
            self.bump();
            BarCommand::FadeOut(self.bar.fade_gen)
        } else {
            BarCommand::Nothing
        }
    }

    fn raise(&mut self, origin: Point) -> (command: BarCommand)
        ensures
            final(self).menus@ == old(self).menus@,
            (final(self).bar, command) == old(self).bar.raised(origin),
    {
        self.bar.moving = false;
        self.bar.shown = true;
        self.bump();
        BarCommand::Show(origin)
    }

    /// The focused window has just started to move or to change its size.
    pub fn begin_move(&mut self, now: u64) -> (command: BarCommand)
        requires
            old(self).wf(),
        ensures
            final(self).wf(),
            final(self).menus() == old(self).menus(),
            (final(self).bar(), command) == old(self).bar().unsettled(now),
            carried_out(old(self).bar(), command, final(self).bar()),
    {
        let delay: u64 = self.bar.preferences.config.settle_ms as u64 * MILLISECOND;
        self.bar.moving = true;
        self.bar.settle_at = Some(now as u128 + delay as u128);
        self.drop_bar()
    }

    /// The first look at a tick: whether the process may use the Accessibility API, which
    /// application is frontmost, and which process is our own.
    pub fn on_tick(&mut self, trusted: bool, frontmost: Option<i32>, own_pid: i32) -> (start:
        TickStart)
        requires
            old(self).wf(),
        ensures
            final(self).wf(),
            final(self).menus() == old(self).menus(),
            (final(self).bar(), start) == tick_started(
                old(self).bar(),
                trusted,
                frontmost,
                own_pid,
            ),
    {
        let pid = match frontmost {
            Some(pid) => pid,
            None => return TickStart::Stop(self.hide_all()),
        };
        if !trusted {
            return TickStart::Stop(self.hide_all());
        }
        if pid == own_pid {
            return TickStart::Stop(BarCommand::Nothing);
        }
        if self.bar.current_pid != pid {
            self.bar.window = None;
            return TickStart::Refocus(self.drop_bar());
        }
        TickStart::Focus
    }

    /// The look at the focused window of the frontmost application `pid`.
    pub fn on_focus(&mut self, pid: i32, window: &Option<FocusedWindow>) -> (focus: TickFocus)
        requires
            old(self).wf(),
        ensures
            final(self).wf(),
            final(self).menus() == old(self).menus(),
            (final(self).bar(), focus) == tick_focused(
                old(self).bar(),
                pid,
                match *window {
                    Some(w) => Some((w.id, opt_text(w.subrole))),
                    None => None,
                },
            ),
    {
        let win = match window {
            Some(win) => win,
            None => return TickFocus::Stop(self.hide_all()),
        };
        let standard = match &win.subrole {
            Some(subrole) => same_text(subrole.as_str(), "AXStandardWindow"),
            None => false,
        };
        if !standard {
            return if self.bar.shown && self.bar.current_pid == pid {
                TickFocus::Stop(BarCommand::Nothing)
            } else {
                TickFocus::Stop(self.hide_all())
            };
        }
        let changed = match self.bar.window {
            Some(id) => id != win.id,
            None => false,
        };
        self.bar.window = Some(win.id);
        if changed {
            TickFocus::Refocus(self.drop_bar())
        } else {
            TickFocus::Proceed
        }
    }

    /// Whether the menus are due to be read again; where they are, notes that they are read now.
    /// They are read at intervals, and never while a menu is open.
    pub fn menus_due(&mut self, now: u64) -> (due: bool)
        requires
            old(self).wf(),
        ensures
            final(self).wf(),
            final(self).menus() == old(self).menus(),
            due == (old(self).bar().open_top is None && match old(self).bar().last_menu_check {
                Some(t) => now >= t + MENU_RECHECK,
                None => true,
            }),
            final(self).bar() == (if due {
                Bar { last_menu_check: Some(now), ..old(self).bar() }
            } else {
                old(self).bar()
            }),
            (final(self).bar(), due) == old(self).bar().checked(now),
    {
        let due = self.bar.open_top.is_none() && match self.bar.last_menu_check {
            Some(t) => now as u128 >= t as u128 + MENU_RECHECK as u128,
            None => true,
        };
        if due {
            self.bar.last_menu_check = Some(now);
        }
        due
    }

    /// Whether the bar is to be built anew for the titles that were just read: they differ from
    /// those it mirrors. No titles at all are taken for a failure to read them, so that they never
    /// blank a bar.
    pub fn recheck_menus(&self, titles: &[String]) -> (rebuild: bool)
        ensures
            rebuild == (titles@.len() > 0 && texts(titles@) != model_titles(self.menus())),
            rebuild == outdated(model_titles(self.menus()), texts(titles@)),
    {
        titles.len() > 0 && titles_changed(titles, self.menus.as_slice())
    }

    /// Mirrors the menu bar of the application `pid`, as it was just read. The bar has no titles
    /// until [`Controller::layout_bar`] has fitted them into the width that is returned; `None` is
    /// no limit, for as long as no width of a window is known.
    pub fn rebuild(&mut self, pid: i32, tops: &[TopItem]) -> (avail: Option<i64>)
        requires
            old(self).wf(),
            forall|k: int| 0 <= k < tops@.len() ==> extent_fits((#[trigger] tops@[k]).extent),
        ensures
            final(self).wf(),
            final(self).menus() == model_of(top_views(tops@)),
            final(self).bar() == (Bar {
                current_pid: pid,
                open_top: None,
                last_frame: None,
                menu_span: span_of(extents_of(tops@)),
                fit: BarFit { visible: 0, overflow_from: None },
                ..old(self).bar()
            }),
            avail == (if old(self).bar().win_width > POINT {
                Some(old(self).bar().win_width)
            } else {
                None
            }),
            final(self).bar() == old(self).bar().rebuilt(pid, span_of(extents_of(tops@))),
            avail == old(self).bar().room(),
    {
        self.menus = build_model(tops);
        self.bar.current_pid = pid;
        self.bar.open_top = None;
        self.bar.last_frame = None;
        self.bar.menu_span = menu_span(tops);
        self.bar.fit = BarFit { visible: 0, overflow_from: None };
        if self.bar.win_width > POINT {
            Some(self.bar.win_width)
        } else {
            None
        }
    }

    /// The titles of the mirrored menus, in order.
    pub fn titles(&self) -> (titles: Vec<String>)
        ensures
            texts(titles@) == model_titles(self.menus()),
    {
        let mut titles: Vec<String> = Vec::new();
        let mut i: usize = 0;
        while i < self.menus.len()
            invariant
                i <= self.menus@.len(),
                titles@.len() == i,
                forall|k: int| 0 <= k < i ==> titles@[k]@ == self.menus@[k].title@,
            decreases self.menus.len() - i,
        {
            titles.push(self.menus[i].title.clone());
            i += 1;
        }
        assert(texts(titles@) =~= model_titles(self.menus()));
        titles
    }

    /// Fits the titles of the mirrored menus, which are `widths` wide, into the available width.
    pub fn layout_bar(&mut self, widths: &[i64], overflow_width: i64, avail: Option<i64>) -> (fit:
        BarFit)
        requires
            old(self).wf(),
            widths@.len() == old(self).menus().len(),
            forall|k: int| 0 <= k < widths@.len() ==> fits(#[trigger] widths@[k]),
            fits(overflow_width),
        ensures
            final(self).wf(),
            final(self).menus() == old(self).menus(),
            fits_bar(widths@, overflow_width, avail, fit),
            final(self).bar() == (Bar { fit, laid_out_width: avail, ..old(self).bar() }),
            final(self).bar() == old(self).bar().laid_out(fit, avail),
    {
        let fit = fit_titles(widths, overflow_width, avail);
        self.bar.fit = fit;
        self.bar.laid_out_width = avail;
        fit
    }

    /// Takes the width of the row of titles that was laid out, and returns the size of the bar,
    /// which is a little higher than the system menu bar.
    pub fn measured(&mut self, width: i64, menu_bar_height: i64) -> (size: Size)
        requires
            old(self).wf(),
            fits(width),
            -LIMIT <= menu_bar_height <= LIMIT - BAR_V_MARGIN,
        ensures
            final(self).wf(),
            final(self).menus() == old(self).menus(),
            size.width == width,
            size.height == menu_bar_height + BAR_V_MARGIN,
            final(self).bar() == (Bar { bar_size: size, ..old(self).bar() }),
    {
        let size = Size { width, height: bar_height(menu_bar_height) };
        self.bar.bar_size = size;
        size
    }

    /// The look at the frame of the focused window.
    pub fn reconcile(
        &mut self,
        frame: Option<Rect>,
        menu_bar_height: i64,
        screen: Option<ScreenExtents>,
    ) -> (next: Reconcile)
        requires
            old(self).wf(),
            fits(menu_bar_height),
            screen matches Some(s) ==> s.frame.fits() && s.visible.fits(),
        ensures
            final(self).wf(),
            final(self).menus() == old(self).menus(),
            (final(self).bar(), next) == reconciled(
                old(self).bar(),
                old(self).menus().len() > 0,
                frame,
                menu_bar_height,
                screen,
            ),
            next is Place && old(self).bar().open_top is None ==> {
                &&& frame is Some
                &&& old(self).bar().laid_out_width matches Some(w) && -POINT <= frame->0.size.width - w
                    <= POINT
            },
            next matches Reconcile::Relayout(w) ==> frame is Some && w == frame->0.size.width,
            next is Stop ==> !final(self).bar().shown,
            !(next is Stop) ==> final(self).bar().shown == old(self).bar().shown,
    {
        let frame = match frame {
            Some(frame) => frame,
            None => return Reconcile::Stop(self.hide_all()),
        };
        if should_hide(frame.origin, frame.size, menu_bar_height, screen) {
            return Reconcile::Stop(self.hide_all());
        }
        if self.menus.len() == 0 {
            return Reconcile::Stop(self.hide_all());
        }
        let width = frame.size.width;
        let off = match self.bar.laid_out_width {
            Some(w) => {
                let wider: i128 = width as i128 - w as i128;
                wider > POINT as i128 || -wider > POINT as i128
            },
            None => true,
        };
        self.bar.win_width = width;
        if off && self.bar.open_top.is_none() {
            Reconcile::Relayout(width)
        } else {
            Reconcile::Place
        }
    }

    /// Finds the bar's place above the focused window, which has the given frame.
    pub fn place_bar(
        &mut self,
        frame: Rect,
        menu_bar_height: i64,
        screens: &[ScreenTop],
        primary_height: i64,
        now: u64,
    ) -> (command: BarCommand)
        requires
            old(self).wf(),
            frame.fits(),
            fits(menu_bar_height),
            fits(primary_height),
            forall|k: int| 0 <= k < screens@.len() ==> (#[trigger] screens@[k]).fits(),
        ensures
            final(self).wf(),
            final(self).menus() == old(self).menus(),
            (final(self).bar(), command) == placed(
                old(self).bar(),
                frame,
                menu_bar_height,
                screens@,
                primary_height,
                now,
            ),
            carried_out(old(self).bar(), command, final(self).bar()),
    {
        let notch = notch_x_span(screens, frame.origin.x, frame.size.width);
        if in_the_way(
            frame.origin,
            self.bar.bar_size,
            menu_bar_height,
            self.bar.menu_span,
            notch,
        ) {
            return self.hide_all();
        }
        let origin = bar_origin(place(frame.origin, primary_height));
        assert(origin == origin_above(frame.origin, primary_height));
        let last = match self.bar.last_frame {
            Some(last) => last,
            None => {
                self.bar.last_frame = Some(frame);
                return self.raise(origin);
            },
        };
        if last != frame {
            self.bar.last_frame = Some(frame);
            return self.begin_move(now);
        }
        if self.bar.moving {
            let settled = match self.bar.settle_at {
                Some(at) => now as u128 >= at,
                None => true,
            };
            if settled {
                self.raise(origin)
            } else {
                BarCommand::Nothing
            }
        } else if !self.bar.shown {
            self.raise(origin)
        } else {
            BarCommand::Nothing
        }
    }

    /// Whether the fade of the given generation is the latest command, so that its end takes the
    /// bar off the screen.
    pub fn fade_is_current(&self, gen: u64) -> (current: bool)
        ensures
            current == (self.bar().fade_gen == gen),
    {
        self.bar.fade_gen == gen
    }

    /// Whether the window is yet to be observed.
    pub fn needs_observer(&self, pid: i32, window: u64) -> (needed: bool)
        ensures
            needed == (self.bar().observed != Some(Observed { pid, window })),
            needed == !self.bar().observes(pid, window),
    {
        match self.bar.observed {
            Some(observed) => observed.pid != pid || observed.window != window,
            None => true,
        }
    }

    /// Takes what came of observing the window: whether the observer could be made, and for each
    /// notification whether it could be subscribed to. One that could not be subscribed to anything
    /// is given up, so that a later tick tries again.
    pub fn observer_armed(&mut self, pid: i32, window: u64, created: bool, subscribed: &[bool]) -> (
        armed: bool)
        requires
            old(self).wf(),
        ensures
            final(self).wf(),
            final(self).menus() == old(self).menus(),
            armed == (created && subscribed@.contains(true)),
            final(self).bar() == (Bar {
                observed: if armed {
                    Some(Observed { pid, window })
                } else {
                    None
                },
                ..old(self).bar()
            }),
            final(self).bar() == old(self).bar().observing(pid, window, armed),
    {
        let mut any = false;
        let mut i: usize = 0;
        while i < subscribed.len()
            invariant
                i <= subscribed.len(),
                any == exists|k: int| 0 <= k < i && subscribed@[k],
            decreases subscribed.len() - i,
        {
            any = any || subscribed[i];
            i += 1;
        }
        assert(any == subscribed@.contains(true)) by {
            if any {
                let k = choose|k: int| 0 <= k < i && subscribed@[k];
                assert(subscribed@[k] == true);
            }
        }
        let armed = created && any;
        self.bar.observed = if armed {
            Some(Observed { pid, window })
        } else {
            None
        };
        armed
    }

    // ---- the menus of the bar -----------------------------------------------------------------

    /// Opens the menu of the title with the given index, and returns its rows; `None` where the bar
    /// has no such title.
    pub fn open_menu_at(&mut self, index: usize) -> (rows: Option<Vec<MenuRow>>)
        requires
            old(self).wf(),
        ensures
            final(self).wf(),
            final(self).menus() == old(self).menus(),
            rows is Some == (index < old(self).bar().fit.visible),
            rows matches Some(r) ==> {
                let menu = old(self).menus()[index as int];
                row_views(r@) == menu.items.map_values(
                    |entry: EntryView| row_of(seq![menu.title], entry),
                )
            },
            final(self).bar() == (if rows is Some {
                Bar {
                    open_top: Some(index),
                    menu_open: true,
                    pending_switch: None,
                    ..old(self).bar()
                }
            } else {
                old(self).bar()
            }),
            rows is Some ==> final(self).bar() == old(self).bar().opened(index),
    {
        if index >= self.menus.len() || index >= self.bar.fit.visible {
            return None;
        }
        let rows = menu_of(&self.menus[index]);
        self.bar.open_top = Some(index);
        self.bar.menu_open = true;
        self.bar.pending_switch = None;
        Some(rows)
    }

    /// The open menu is closed. Returns the title whose menu is to be opened next, where the mouse
    /// has moved on to one.
    pub fn menu_closed(&mut self) -> (next: Option<usize>)
        requires
            old(self).wf(),
        ensures
            final(self).wf(),
            final(self).menus() == old(self).menus(),
            next == old(self).bar().pending_switch,
            final(self).bar() == (Bar {
                menu_open: false,
                pending_switch: None,
                open_top: if next is Some {
                    old(self).bar().open_top
                } else {
                    None
                },
                ..old(self).bar()
            }),
            (final(self).bar(), next) == old(self).bar().closed(),
    {
        self.bar.menu_open = false;
        let next = self.bar.pending_switch;
        self.bar.pending_switch = None;
        if next.is_none() {
            self.bar.open_top = None;
        }
        next
    }

    /// While a menu is open: whether it is to be closed because the mouse is over another title,
    /// whose menu is to be opened next. `titles` are the places of the titles that the bar has.
    pub fn check_switch(&mut self, mouse: Point, titles: &[Rect]) -> (cancel: bool)
        requires
            old(self).wf(),
            forall|k: int| 0 <= k < titles@.len() ==> (#[trigger] titles@[k]).fits(),
        ensures
            final(self).wf(),
            final(self).menus() == old(self).menus(),
            ({
                let under = first_holding(titles@, mouse);
                &&& cancel == (old(self).bar().menu_open && under < titles@.len()
                    && old(self).bar().open_top != Some(under as usize))
                &&& final(self).bar() == (if cancel {
                    Bar { pending_switch: Some(under as usize), ..old(self).bar() }
                } else {
                    old(self).bar()
                })
                &&& (final(self).bar(), cancel) == old(self).bar().hovered(
                    if under < titles@.len() {
                        Some(under as usize)
                    } else {
                        None
                    },
                )
            }),
    {
        if !self.bar.menu_open {
            return false;
        }
        let target = match title_under(mouse, titles) {
            Some(target) => target,
            None => return false,
        };
        let same = match self.bar.open_top {
            Some(open) => open == target,
            None => false,
        };
        if same {
            return false;
        }
        self.bar.pending_switch = Some(target);
        true
    }

    /// The item that a clicked row names, or the submenu that is about to open, in the application
    /// whose menus are mirrored; `None` where the key names nothing.
    pub fn target_of(&self, key: &Option<String>) -> (target: Option<(i32, Vec<String>)>)
        ensures
            ({
                let path = match opt_text(*key) {
                    Some(k) => unpacked(k),
                    None => Seq::empty(),
                };
                &&& target is Some == (path.len() > 0)
                &&& target matches Some((pid, titles)) ==> pid == self.bar().current_pid && texts(
                    titles@,
                ) == path
            }),
    {
        let path = path_of_key(key);
        assert(texts(path@).len() == path@.len());
        if path.len() == 0 {
            None
        } else {
            Some((self.bar.current_pid, path))
        }
    }

    /// What the overflow button opens: the menus whose titles the bar does not have; `None` where
    /// there is no overflow button.
    pub fn on_overflow_clicked(&self) -> (menus: Option<Vec<OverflowMenu>>)
        requires
            self.wf(),
        ensures
            menus is Some == self.bar().fit.overflow_from is Some,
            menus matches Some(m) ==> {
                let start = self.bar().fit.overflow_from->0;
                &&& m@.len() == self.menus().len() - start
                &&& forall|k: int|
                    0 <= k < m@.len() ==> (#[trigger] m@[k]).title@ == self.menus()[start
                        + k].title && row_views(m@[k].rows@) == self.menus()[start
                        + k].items.map_values(
                        |entry: EntryView| row_of(seq![self.menus()[start + k].title], entry),
                    )
            },
    {
        match self.bar.fit.overflow_from {
            Some(start) => Some(overflow_menus(self.menus.as_slice(), start)),
            None => None,
        }
    }

    // ---- settings and the command palette -----------------------------------------------------

    /// The preferences that are in effect.
    pub fn current_config(&self) -> (preferences: Preferences)
        ensures
            preferences == self.bar().preferences,
    {
        self.bar.preferences
    }

    /// The state behind a settings window, which works on a copy of the preferences that are in
    /// effect and hands it to [`Controller::apply_and_save_config`] after each change.
    pub fn open_settings(&self) -> (settings: SettingsController)
        ensures
            settings@ == (SettingsView { preferences: self.bar().preferences, recording: false }),
    {
        SettingsController::new(self.bar.preferences)
    }

    /// Adopts preferences that were edited, clamped to their sane ranges, and returns what is to be
    /// done so that they take effect.
    pub fn apply_and_save_config(&mut self, preferences: Preferences) -> (changes: Changes)
        requires
            old(self).wf(),
        ensures
            final(self).wf(),
            final(self).menus() == old(self).menus(),
            final(self).bar() == (Bar { preferences: preferences.clamped(), ..old(self).bar() }),
            changes == changes_between(old(self).bar().preferences, preferences.clamped()),
            ({
                let was = old(self).bar().preferences;
                let is = final(self).bar().preferences;
                &&& changes.save == is
                &&& changes.restart_timer <==> was.config.poll_hz != is.config.poll_hz
                &&& changes.register_hotkey <==> !(was.palette_enabled == is.palette_enabled
                    && was.palette_hotkey.mods == is.palette_hotkey.mods
                    && was.palette_hotkey.keycode == is.palette_hotkey.keycode)
            }),
    {
        let edited = preferences.sanitized();
        let held = self.bar.preferences;
        self.bar.preferences = edited;
        Changes {
            restart_timer: held.config.poll_hz != edited.config.poll_hz,
            login_item: if held.config.launch_at_login != edited.config.launch_at_login {
                Some(edited.config.launch_at_login)
            } else {
                None
            },
            theme: if held.theme != edited.theme {
                Some(edited.theme)
            } else {
                None
            },
            register_hotkey: held.palette_enabled != edited.palette_enabled || held.palette_hotkey
                != edited.palette_hotkey,
            save: edited,
        }
    }

    /// Takes whether the system is dark. Returns the theme that is to be put into effect anew
    /// because the system has changed: only the opposite of the system depends on it.
    pub fn system_seen(&mut self, dark: bool) -> (theme: Option<Theme>)
        requires
            old(self).wf(),
        ensures
            final(self).wf(),
            final(self).menus() == old(self).menus(),
            final(self).bar() == (Bar { system_dark: Some(dark), ..old(self).bar() }),
            theme == (if old(self).bar().system_dark == Some(!dark)
                && old(self).bar().preferences.theme == Theme::OppositeSystem {
                Some(Theme::OppositeSystem)
            } else {
                None
            }),
            (final(self).bar(), theme) == old(self).bar().dark_seen(dark),
    {
        let flipped = match self.bar.system_dark {
            Some(was) => was != dark,
            None => false,
        };
        self.bar.system_dark = Some(dark);
        match self.bar.preferences.theme {
            Theme::OppositeSystem => if flipped {
                Some(Theme::OppositeSystem)
            } else {
                None
            },
            _ => None,
        }
    }

    /// The hotkey that is to be registered; `None` while there is no command palette.
    pub fn palette_chord(&self) -> (chord: Option<HotkeyChord>)
        ensures
            chord == (if self.bar().preferences.palette_enabled {
                Some(self.bar().preferences.palette_hotkey)
            } else {
                None
            }),
            chord == wanted_chord(self.bar().preferences),
    {
        if self.bar.preferences.palette_enabled {
            Some(self.bar.preferences.palette_hotkey)
        } else {
            None
        }
    }
}

/// The application whose commands the palette is to list when its hotkey is pressed: the frontmost
/// one, but never ourselves.
pub fn palette_target(frontmost: Option<i32>, own_pid: i32) -> (target: Option<i32>)
    ensures
        target == (if frontmost == Some(own_pid) {
            None
        } else {
            frontmost
        }),
        target == listed_application(frontmost, own_pid),
{
    match frontmost {
        Some(pid) => if pid == own_pid {
            None
        } else {
            Some(pid)
        },
        None => None,
    }
}

// ---- what the bar can be relied upon for ------------------------------------------------------

/// The controller always knows whether the bar is on screen: whatever happens, the command that it
/// gives leaves the screen as its state says.
pub proof fn lemma_commands_are_carried_out(
    bar: Bar,
    frame: Rect,
    menu_bar_height: i64,
    screens: Seq<ScreenTop>,
    primary_height: i64,
    now: u64,
)
    ensures
        carried_out(bar, bar.hidden().1, bar.hidden().0),
        carried_out(bar, bar.unsettled(now).1, bar.unsettled(now).0),
        ({
            let (after, command) = placed(
                bar,
                frame,
                menu_bar_height,
                screens,
                primary_height,
                now,
            );
            carried_out(bar, command, after)
        }),
{
}

/// So it is at the first look at a tick.
pub proof fn lemma_tick_commands_are_carried_out(
    bar: Bar,
    trusted: bool,
    frontmost: Option<i32>,
    own_pid: i32,
)
    ensures
        match tick_started(bar, trusted, frontmost, own_pid) {
            (after, TickStart::Stop(command)) => carried_out(bar, command, after),
            (after, TickStart::Refocus(command)) => carried_out(bar, command, after)
                && !after.shown,
            (after, TickStart::Focus) => after == bar,
        },
{
}

/// And so it is at the look at the focused window.
pub proof fn lemma_focus_commands_are_carried_out(
    bar: Bar,
    pid: i32,
    window: Option<(u64, Option<Seq<char>>)>,
)
    ensures
        match tick_focused(bar, pid, window) {
            (after, TickFocus::Stop(command)) => carried_out(bar, command, after),
            (after, TickFocus::Refocus(command)) => carried_out(bar, command, after)
                && !after.shown,
            (after, TickFocus::Proceed) => carried_out(bar, BarCommand::Nothing, after),
        },
{
}

/// And at the look at its frame.
pub proof fn lemma_reconcile_commands_are_carried_out(
    bar: Bar,
    has_menus: bool,
    frame: Option<Rect>,
    menu_bar_height: i64,
    screen: Option<ScreenExtents>,
)
    ensures
        match reconciled(bar, has_menus, frame, menu_bar_height, screen) {
            (after, Reconcile::Stop(command)) => carried_out(bar, command, after),
            (after, _) => carried_out(bar, BarCommand::Nothing, after),
        },
{
}

/// The bar never chases a window: once the window has another frame than before, the bar is off the
/// screen, and it stays off until the settle delay is over.
pub proof fn lemma_bar_is_hidden_while_the_window_moves(
    bar: Bar,
    frame: Rect,
    origin: Point,
    now: u64,
    later: u64,
)
    requires
        bar.last_frame is Some,
        bar.last_frame != Some(frame),
        now <= later,
        later < now + bar.preferences.config.settle_ms * MILLISECOND,
    ensures
        ({
            let moved = bar.pinned(frame, origin, now).0;
            &&& !moved.shown
            &&& moved.moving
            &&& moved.pinned(frame, origin, later) == (moved, BarCommand::Nothing)
        }),
{
}

/// The bar comes back: above a window that has kept still for the settle delay since it moved, it
/// is shown again, where the window is now.
pub proof fn lemma_bar_returns_when_the_window_has_settled(
    bar: Bar,
    frame: Rect,
    origin: Point,
    now: u64,
    later: u64,
)
    requires
        bar.last_frame is Some,
        bar.last_frame != Some(frame),
        later >= now + bar.preferences.config.settle_ms * MILLISECOND,
    ensures
        ({
            let moved = bar.pinned(frame, origin, now).0;
            let (after, command) = moved.pinned(frame, origin, later);
            &&& command == BarCommand::Show(origin)
            &&& after.shown
            &&& !after.moving
        }),
{
}

/// Each move starts the settle delay anew: a window that moves on does not get its bar back before
/// the delay after its last move is over.
pub proof fn lemma_each_move_restarts_the_delay(bar: Bar, frame: Rect, origin: Point, now: u64)
    requires
        bar.last_frame is Some,
        bar.last_frame != Some(frame),
    ensures
        bar.pinned(frame, origin, now).0.settle_at == Some(
            (now + bar.preferences.config.settle_ms * MILLISECOND) as u128,
        ),
{
}

/// A still window is left alone: while its frame stays the same, a bar that is shown is neither
/// moved nor hidden.
pub proof fn lemma_still_window_is_left_alone(bar: Bar, frame: Rect, origin: Point, now: u64)
    requires
        bar.wf(),
        bar.shown,
        bar.last_frame == Some(frame),
    ensures
        bar.pinned(frame, origin, now) == (bar, BarCommand::Nothing),
{
}

/// A window that is seen for the first time gets its bar at once, without a settle delay; so does
/// one for whose bar there was no place.
pub proof fn lemma_fresh_window_is_shown_at_once(bar: Bar, frame: Rect, origin: Point, now: u64)
    ensures
        bar.last_frame is None ==> bar.pinned(frame, origin, now).1 == BarCommand::Show(origin),
        bar.hidden().0.pinned(frame, origin, now).1 == BarCommand::Show(origin),
{
}

/// Where there is no place for the bar, it is off the screen.
pub proof fn lemma_bar_is_hidden_without_a_place(bar: Bar)
    ensures
        !bar.hidden().0.shown,
        !bar.hidden().0.moving,
        bar.shown == bar.hidden().1 is FadeOut,
{
}

/// Our own windows change nothing: the bar of the application behind them stays as it is.
pub proof fn lemma_own_windows_change_nothing(bar: Bar, own_pid: i32)
    ensures
        tick_started(bar, true, Some(own_pid), own_pid) == (
            bar,
            TickStart::Stop(BarCommand::Nothing),
        ),
{
}

/// A popover, a sheet or a dialog leaves the bar of its own application in place, and never gets
/// the bar itself.
pub proof fn lemma_transient_window_never_gets_the_bar(
    bar: Bar,
    pid: i32,
    id: u64,
    subrole: Option<Seq<char>>,
)
    requires
        !is_standard(subrole),
    ensures
        tick_focused(bar, pid, Some((id, subrole))).1 is Stop,
        tick_focused(bar, pid, Some((id, subrole))).0.window == bar.window,
        bar.shown && bar.current_pid == pid ==> tick_focused(bar, pid, Some((id, subrole))).0
            == bar,
        bar.current_pid != pid ==> !tick_focused(bar, pid, Some((id, subrole))).0.shown,
{
}

/// The generation that `commands` commands after `gen` lead to.
pub open spec fn gen_after(gen: u64, commands: nat) -> u64
    decreases commands,
{
    if commands == 0 {
        gen
    } else {
        next_gen(gen_after(gen, (commands - 1) as nat))
    }
}

/// A fade that another command has overtaken is told by its generation, so that its end never
/// takes a bar off the screen that was shown again meanwhile.
pub proof fn lemma_outdated_fade_is_told(gen: u64, commands: nat)
    requires
        0 < commands <= u64::MAX,
    ensures
        gen_after(gen, commands) != gen,
{
    lemma_gen_after(gen, commands);
}

proof fn lemma_gen_after(gen: u64, commands: nat)
    requires
        commands <= u64::MAX,
    ensures
        gen_after(gen, commands) == (if gen + commands <= u64::MAX {
            gen + commands
        } else {
            gen + commands - u64::MAX - 1
        }),
    decreases commands,
{
    if commands > 0 {
        lemma_gen_after(gen, (commands - 1) as nat);
    }
}

/// Preferences that are in effect already have nothing to be done but to be saved, and what is
/// saved is in its sane ranges.
pub proof fn lemma_same_preferences_change_nothing(preferences: Preferences)
    ensures
        ({
            let changes = changes_between(preferences.clamped(), preferences.clamped());
            &&& !changes.restart_timer
            &&& changes.login_item is None
            &&& changes.theme is None
            &&& !changes.register_hotkey
            &&& changes.save == preferences.clamped()
            &&& changes.save.config.is_sane()
        }),
{
}

/// Edited preferences outlive the run: what is saved of them, read back from a text that holds it,
/// is what has taken effect, all seven settings.
pub proof fn lemma_edited_preferences_are_loaded(
    held: Preferences,
    edited: Preferences,
    text: Seq<char>,
)
    requires
        preferences_of(text) == Ok::<Preferences, ConfigError>(
            changes_between(held, edited.clamped()).save,
        ),
    ensures
        preferences_or_default(text).clamped() == edited.clamped(),
{
    lemma_saved_preferences_are_loaded(edited.clamped(), text);
}

/// Nothing that has changed is left undone, and nothing is done that has not: the timer keeps going
/// just where the poll rate is the same, the hotkey stays registered just where the switch and both
/// halves of the hotkey are the same, and the login item and the theme are left alone just where they
/// are the same; what is put into effect and saved is what was edited.
pub proof fn lemma_each_change_takes_effect(held: Preferences, edited: Preferences)
    ensures
        ({
            let changes = changes_between(held, edited);
            &&& !changes.restart_timer <==> held.config.poll_hz == edited.config.poll_hz
            &&& changes.login_item is None <==> held.config.launch_at_login
                == edited.config.launch_at_login
            &&& changes.login_item matches Some(on) ==> on == edited.config.launch_at_login
            &&& changes.theme is None <==> held.theme == edited.theme
            &&& changes.theme matches Some(theme) ==> theme == edited.theme
            &&& !changes.register_hotkey <==> held.palette_enabled == edited.palette_enabled
                && held.palette_hotkey.mods == edited.palette_hotkey.mods
                && held.palette_hotkey.keycode == edited.palette_hotkey.keycode
            &&& changes.save == edited
        }),
{
}

/// Going back to the preferences that were held asks for the same kinds of effects as leaving them.
pub proof fn lemma_changes_are_symmetric(one: Preferences, two: Preferences)
    ensures
        changes_between(one, two).restart_timer == changes_between(two, one).restart_timer,
        changes_between(one, two).login_item is Some == changes_between(two, one).login_item is Some,
        changes_between(one, two).theme is Some == changes_between(two, one).theme is Some,
        changes_between(one, two).register_hotkey == changes_between(two, one).register_hotkey,
{
}

/// The bar fits its window: wherever it is placed without a new layout and no menu is open, its
/// titles were fitted into a width that is within a point of the window's, in either direction; and
/// a new layout is for the width of the window.
pub proof fn lemma_titles_fit_the_window(
    bar: Bar,
    has_menus: bool,
    frame: Option<Rect>,
    menu_bar_height: i64,
    screen: Option<ScreenExtents>,
)
    ensures
        ({
            let (after, next) = reconciled(bar, has_menus, frame, menu_bar_height, screen);
            &&& next is Place && bar.open_top is None ==> {
                &&& frame is Some
                &&& bar.laid_out_width matches Some(w) && -POINT <= frame->0.size.width - w <= POINT
            }
            &&& next matches Reconcile::Relayout(w) ==> {
                &&& frame is Some
                &&& w == frame->0.size.width
                &&& bar.open_top is None
                &&& bar.laid_out_width matches Some(l) ==> w < l - POINT || w > l + POINT
            }
            &&& !(next is Stop) ==> after == (Bar { win_width: frame->0.size.width, ..bar })
        }),
{
}

/// A bar is kept from a window just where there are no menus to show, the frame is unknown, or the
/// window is up in the menu-bar row and as high as the screen, or as high and wide as its visible
/// part. There it is off the screen.
pub proof fn lemma_bar_is_kept_only_from_covering_windows(
    bar: Bar,
    has_menus: bool,
    frame: Option<Rect>,
    menu_bar_height: i64,
    screen: Option<ScreenExtents>,
)
    ensures
        ({
            let (after, next) = reconciled(bar, has_menus, frame, menu_bar_height, screen);
            &&& next is Stop <==> {
                ||| !has_menus
                ||| frame is None
                ||| screen is Some && frame->0.origin.y <= menu_bar_height + 6 * POINT && {
                    ||| frame->0.size.height + 2 * POINT >= screen->0.frame.height
                    ||| frame->0.size.height + 2 * POINT >= screen->0.visible.height
                        && frame->0.size.width + 2 * POINT >= screen->0.visible.width
                }
            }
            &&& next is Stop ==> !after.shown
        }),
{
}

/// The bar goes right above its window: its corner is at the window's left edge, two points above the
/// window's top edge, whatever the heights.
pub proof fn lemma_bar_sits_on_its_window(pos: Point, primary_height: i64)
    requires
        pos.fits(),
        fits(primary_height),
    ensures
        origin_above(pos, primary_height).x == pos.x,
        primary_height - origin_above(pos, primary_height).y + 2 * POINT == pos.y,
{
}

/// The bar is never on screen in the way of the system, that is, up in the menu-bar strip and either
/// before the point one and a half menu lengths behind the start of the real menus, or reaching under
/// the notch; anywhere else it is not kept away: there the window's frame is noted, and a window seen
/// for the first time gets its bar.
pub proof fn lemma_bar_is_never_in_the_way(
    bar: Bar,
    frame: Rect,
    menu_bar_height: i64,
    screens: Seq<ScreenTop>,
    primary_height: i64,
    now: u64,
)
    requires
        frame.fits(),
        fits(primary_height),
    ensures
        ({
            let (after, command) = placed(bar, frame, menu_bar_height, screens, primary_height, now);
            let x = frame.origin.x as int;
            let notch = notch_at(screens, x, frame.size.width as int);
            let in_strip = frame.origin.y < menu_bar_height + 2 * POINT + bar.bar_size.height;
            let by_menus = bar.menu_span matches Some(s) && s.left <= s.right && 2 * (x - s.left) < 3
                * (s.right - s.left);
            let by_notch = notch matches Some((left, right)) && left < x + bar.bar_size.width && x
                < right;
            &&& in_strip && (by_menus || by_notch) ==> !after.shown && after.last_frame is None
            &&& !(in_strip && (by_menus || by_notch)) ==> after.last_frame == Some(frame)
            &&& !(in_strip && (by_menus || by_notch)) && bar.last_frame is None ==> command is Show
            &&& command matches BarCommand::Show(at) ==> at.x == frame.origin.x && at.y
                == primary_height - frame.origin.y + 2 * POINT
        }),
{
}

/// What comes of the first look at a tick: the focused window is looked at just where the frontmost
/// application is the one whose menus are mirrored; for any other but ourselves the bar goes and is
/// built anew; and without permission or a frontmost application the bar is off the screen.
pub proof fn lemma_tick_follows_the_frontmost_application(
    bar: Bar,
    trusted: bool,
    frontmost: Option<i32>,
    own_pid: i32,
)
    ensures
        match tick_started(bar, trusted, frontmost, own_pid) {
            (after, TickStart::Focus) => {
                &&& trusted
                &&& frontmost == Some(bar.current_pid)
                &&& bar.current_pid != own_pid
                &&& after == bar
            },
            (after, TickStart::Refocus(_)) => {
                &&& trusted
                &&& frontmost matches Some(pid) && pid != own_pid && pid != bar.current_pid
                &&& after.window is None
                &&& !after.shown
            },
            (after, TickStart::Stop(command)) => {
                ||| (!trusted || frontmost is None) && !after.shown && after.last_frame is None
                ||| trusted && frontmost == Some(own_pid) && after == bar && command is Nothing
            },
        },
{
}

/// What comes of the look at the focused window: the tick goes on just for a real window that was
/// focused before or is the first one; for another real window the bar goes and is built anew;
/// without a window the bar is off the screen; and a window that is no real one leaves it only above
/// its own application's window.
pub proof fn lemma_tick_follows_the_focused_window(
    bar: Bar,
    pid: i32,
    window: Option<(u64, Option<Seq<char>>)>,
)
    ensures
        match tick_focused(bar, pid, window) {
            (after, TickFocus::Proceed) => {
                &&& window matches Some((id, subrole)) && subrole == Some("AXStandardWindow"@) && (
                bar.window is None || bar.window == Some(id)) && after == (Bar {
                    window: Some(id),
                    ..bar
                })
            },
            (after, TickFocus::Refocus(_)) => {
                &&& window matches Some((id, subrole)) && subrole == Some("AXStandardWindow"@)
                    && bar.window is Some && bar.window != Some(id) && after.window == Some(id)
                &&& !after.shown
            },
            (after, TickFocus::Stop(command)) => {
                ||| window is None && !after.shown
                ||| (window matches Some((_, subrole)) && subrole != Some("AXStandardWindow"@))
                    && if bar.shown && bar.current_pid == pid {
                    after == bar && command is Nothing
                } else {
                    !after.shown
                }
            },
        },
{
}

/// Showing and hiding the bar touches nothing but the bar: the preferences, the mirrored application,
/// the layout, the menus that are open, and the observed and focused windows all stay as they were.
pub proof fn lemma_placing_touches_only_the_bar(
    bar: Bar,
    frame: Rect,
    menu_bar_height: i64,
    screens: Seq<ScreenTop>,
    primary_height: i64,
    now: u64,
)
    ensures
        ({
            let after = placed(bar, frame, menu_bar_height, screens, primary_height, now).0;
            after == (Bar {
                last_frame: after.last_frame,
                moving: after.moving,
                settle_at: after.settle_at,
                shown: after.shown,
                fade_gen: after.fade_gen,
                ..bar
            })
        }),
        bar.hidden().0 == (Bar {
            last_frame: None,
            moving: false,
            shown: false,
            fade_gen: bar.hidden().0.fade_gen,
            ..bar
        }),
        ({
            let after = bar.unsettled(now).0;
            after == (Bar {
                moving: true,
                settle_at: after.settle_at,
                shown: false,
                fade_gen: after.fade_gen,
                ..bar
            })
        }),
{
}

/// The hotkey stays registered just where the preferences ask for the same one as before, or for none
/// as before: where nothing is registered anew, the hotkey that is asked for is the same, and where
/// another one is asked for, it is registered.
pub proof fn lemma_registered_hotkey_is_the_wanted_one(held: Preferences, edited: Preferences)
    ensures
        !changes_between(held, edited).register_hotkey ==> wanted_chord(held) == wanted_chord(edited),
        wanted_chord(held) != wanted_chord(edited) ==> changes_between(held, edited).register_hotkey,
        wanted_chord(edited) is Some <==> edited.palette_enabled,
        wanted_chord(edited) matches Some(chord) ==> chord.mods == edited.palette_hotkey.mods
            && chord.keycode == edited.palette_hotkey.keycode,
{
}

/// The palette never lists our own commands, and lists those of whatever else is in front.
pub proof fn lemma_palette_lists_the_frontmost_application(frontmost: Option<i32>, own_pid: i32)
    ensures
        listed_application(frontmost, own_pid) != Some(own_pid),
        frontmost != Some(own_pid) ==> listed_application(frontmost, own_pid) == frontmost,
        frontmost == Some(own_pid) ==> listed_application(frontmost, own_pid) is None,
{
}

/// The menus are read again every half second, and never while one is open: once they were read, they
/// are not due until half a second has passed, and then they are.
pub proof fn lemma_menus_are_read_at_intervals(bar: Bar, now: u64, later: u64)
    ensures
        bar.open_top is Some ==> !bar.checked(now).1,
        bar.open_top is None && bar.last_menu_check is None ==> bar.checked(now).1,
        bar.checked(now).1 ==> (bar.checked(now).0.checked(later).1 <==> later >= now + 500_000_000),
        !bar.checked(now).1 ==> bar.checked(now).0 == bar,
        bar.checked(now).0 == (Bar { last_menu_check: bar.checked(now).0.last_menu_check, ..bar }),
{
}

/// Once the menus of an application were mirrored, its ticks go on to its windows without building
/// the bar anew, no menu counts as open, and the next place that is found for the bar shows it at
/// once.
pub proof fn lemma_rebuilt_bar_is_shown_at_once(
    bar: Bar,
    pid: i32,
    span: Option<MenuSpan>,
    own_pid: i32,
    frame: Rect,
    origin: Point,
    now: u64,
)
    ensures
        pid != own_pid ==> tick_started(bar.rebuilt(pid, span), true, Some(pid), own_pid).1 is Focus,
        bar.rebuilt(pid, span).pinned(frame, origin, now).1 == BarCommand::Show(origin),
        bar.rebuilt(pid, span).open_top is None,
        bar.rebuilt(pid, span).menu_span == span,
        bar.rebuilt(pid, span).fit.visible == 0,
        bar.rebuilt(pid, span).shown == bar.shown,
        bar.rebuilt(pid, span).preferences == bar.preferences,
        bar.rebuilt(pid, span).window == bar.window,
{
}

/// Titles that were fitted into the width of the window need no new layout for that window, and do
/// for one that is more than a point narrower or wider.
pub proof fn lemma_layout_lasts_while_the_width_does(
    bar: Bar,
    fit: BarFit,
    avail: i64,
    frame: Rect,
    menu_bar_height: i64,
)
    requires
        bar.open_top is None,
    ensures
        ({
            let next = reconciled(
                bar.laid_out(fit, Some(avail)),
                true,
                Some(frame),
                menu_bar_height,
                None,
            ).1;
            let width = frame.size.width;
            &&& avail - POINT <= width <= avail + POINT ==> next is Place
            &&& width < avail - POINT || width > avail + POINT ==> next == Reconcile::Relayout(width)
        }),
        reconciled(bar.laid_out(fit, None), true, Some(frame), menu_bar_height, None).1
            == Reconcile::Relayout(frame.size.width),
        bar.laid_out(fit, Some(avail)).fit == fit,
        bar.room() is Some <==> bar.win_width > POINT,
        bar.room() matches Some(width) ==> width == bar.win_width,
{
}

/// A window that is observed needs no observer, any other one does, and so does one that could not be
/// observed.
pub proof fn lemma_each_window_is_observed_once(
    bar: Bar,
    pid: i32,
    window: u64,
    other_pid: i32,
    other: u64,
)
    ensures
        bar.observing(pid, window, true).observes(other_pid, other) <==> other_pid == pid && other
            == window,
        !bar.observing(pid, window, false).observes(other_pid, other),
        bar.observing(pid, window, true) == (Bar {
            observed: bar.observing(pid, window, true).observed,
            ..bar
        }),
{
}

/// Moving the mouse from the title of the open menu to another one switches menus: the open one is
/// to be closed, and when it is, the other one is to be opened, and is the open one then. Over its
/// own title or none, and while no menu is open, nothing happens.
pub proof fn lemma_menus_switch_under_the_mouse(bar: Bar, index: usize, other: usize)
    ensures
        ({
            let open = bar.opened(index);
            &&& open.open_top == Some(index)
            &&& open.menu_open
            &&& open.hovered(None) == (open, false)
            &&& open.hovered(Some(index)) == (open, false)
            &&& other != index ==> {
                let (hovering, cancel) = open.hovered(Some(other));
                let (closed, next) = hovering.closed();
                &&& cancel
                &&& hovering.open_top == Some(index)
                &&& next == Some(other)
                &&& !closed.menu_open
                &&& closed.open_top is Some
                &&& closed.opened(other).open_top == Some(other)
                &&& closed.opened(other).closed().1 is None
            }
        }),
        !bar.menu_open ==> bar.hovered(Some(other)) == (bar, false),
{
}

/// A menu that is closed without another to follow leaves none open, so that the bar may be laid out
/// anew again and its menus be read again.
pub proof fn lemma_closing_leaves_no_menu_open(bar: Bar, index: usize)
    ensures
        ({
            let (closed, next) = bar.opened(index).closed();
            &&& next is None
            &&& closed.open_top is None
            &&& !closed.menu_open
            &&& closed.pending_switch is None
            &&& closed.fit == bar.fit
            &&& closed.shown == bar.shown
        }),
{
}

/// The opposite of the system is put into effect anew just when the system changes: not at the first
/// look, and not while it stays the same. No other theme is.
pub proof fn lemma_opposite_theme_follows_the_system(bar: Bar, dark: bool, later: bool)
    ensures
        bar.system_dark is None ==> bar.dark_seen(dark).1 is None,
        !(bar.preferences.theme is OppositeSystem) ==> bar.dark_seen(dark).1 is None,
        bar.preferences.theme is OppositeSystem ==> (bar.dark_seen(dark).0.dark_seen(later).1 is Some
            <==> later != dark),
        bar.dark_seen(dark).1 matches Some(theme) ==> theme == Theme::OppositeSystem,
        bar.dark_seen(dark).0 == (Bar { system_dark: Some(dark), ..bar }),
{
}

/// While a window moves the bar goes at once, without a fade, if it is there, and comes back no
/// earlier than the settle delay after the move; so it goes too when another application or another
/// window gets the focus.
pub proof fn lemma_bar_goes_at_once(bar: Bar, now: u64, frontmost: i32, own_pid: i32, pid: i32, id: u64)
    ensures
        bar.unsettled(now).1 == (if bar.shown {
            BarCommand::HideFast
        } else {
            BarCommand::Nothing
        }),
        bar.unsettled(now).0.settle_at == Some(
            (now + bar.preferences.config.settle_ms * 1_000_000) as u128,
        ),
        bar.unsettled(now).0.moving,
        tick_started(bar, true, Some(frontmost), own_pid).1 matches TickStart::Refocus(command)
            ==> command == (if bar.shown {
            BarCommand::HideFast
        } else {
            BarCommand::Nothing
        }),
        tick_focused(bar, pid, Some((id, Some("AXStandardWindow"@)))).1 matches TickFocus::Refocus(
            command,
        ) ==> command == (if bar.shown {
            BarCommand::HideFast
        } else {
            BarCommand::Nothing
        }),
{
}

/// A bar that is off the screen comes back above a window that keeps still and has its place.
pub proof fn lemma_missing_bar_is_shown(bar: Bar, frame: Rect, origin: Point, now: u64)
    requires
        bar.last_frame == Some(frame),
        !bar.moving,
        !bar.shown,
    ensures
        bar.pinned(frame, origin, now).1 == BarCommand::Show(origin),
        bar.pinned(frame, origin, now).0.shown,
{
}

/// A bar is built anew just when titles were read that differ from its own: any title more or less,
/// changed or moved. Titles that could not be read never blank it, and once it was built anew from a
/// menu bar it is not outdated by the titles of that menu bar.
pub proof fn lemma_bar_is_outdated_by_other_titles(
    shown: Seq<Seq<char>>,
    read: Seq<Seq<char>>,
    tops: Seq<TopView>,
)
    ensures
        !outdated(shown, Seq::empty()),
        !outdated(shown, shown),
        read.len() > 0 && read.len() != shown.len() ==> outdated(shown, read),
        forall|i: int|
            0 <= i < read.len() && i < shown.len() && #[trigger] read[i] != shown[i] ==> outdated(
                shown,
                read,
            ),
        !outdated(
            model_titles(model_of(tops)),
            kept_titles(tops.map_values(|top: TopView| top.title)),
        ),
{
    lemma_titles_of_model(tops);
}

} // verus!
