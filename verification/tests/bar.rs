use lintel::config::{
    load_preferences, preferences_text, Config, FileRead, HotkeyChord, Preferences, Theme,
};
use lintel::geometry::{
    bar_height, bar_origin, fit_titles, in_the_way, menu_location, notch_x_span, pill, place,
    should_hide, title_under, BarFit, MenuSpan, Point, Rect, ScreenExtents, ScreenTop, Size, POINT,
};
use lintel::menu::MenuItem;
use lintel::mirror::{MenuRow, TopItem};
use lintel::overlay::{
    palette_target, BarCommand, Controller, FocusedWindow, Reconcile, TickFocus, TickStart,
};

const MS: u64 = 1_000_000;

fn pt(points: i64) -> i64 {
    points * POINT
}

fn point(x: i64, y: i64) -> Point {
    Point { x: pt(x), y: pt(y) }
}

fn size(width: i64, height: i64) -> Size {
    Size {
        width: pt(width),
        height: pt(height),
    }
}

fn rect(x: i64, y: i64, width: i64, height: i64) -> Rect {
    Rect {
        origin: point(x, y),
        size: size(width, height),
    }
}

fn screen() -> Option<ScreenExtents> {
    Some(ScreenExtents {
        frame: size(2560, 1440),
        visible: size(2560, 1400),
    })
}

fn window(id: u64, subrole: &str) -> Option<FocusedWindow> {
    Some(FocusedWindow {
        id,
        subrole: Some(subrole.to_string()),
    })
}

fn titled(title: &str, items: &[&str]) -> TopItem {
    TopItem {
        title: Some(title.to_string()),
        items: Some(
            items
                .iter()
                .map(|t| MenuItem {
                    id: 0,
                    title: Some(t.to_string()),
                    enabled: None,
                    cmd_char: None,
                    cmd_mods: None,
                    help: None,
                    has_children: false,
                })
                .collect(),
        ),
        extent: None,
    }
}

fn menus() -> Vec<TopItem> {
    vec![
        titled("Apple", &["About"]),
        titled("Finder", &["Preferences"]),
        titled("File", &["New", "Open"]),
    ]
}

/// A controller that mirrors an application with two menus, laid out without a limit.
fn mirroring(pid: i32) -> Controller {
    let mut c = Controller::new(Preferences::new(Config::default()));
    assert_eq!(
        c.on_tick(true, Some(pid), 1),
        TickStart::Refocus(BarCommand::Nothing)
    );
    lay_out(&mut c, pid);
    c
}

fn lay_out(c: &mut Controller, pid: i32) {
    let avail = c.rebuild(pid, &menus());
    c.layout_bar(&[pt(50), pt(30)], pt(20), avail);
    c.measured(pt(128), pt(24));
}

/// Places the bar above a window that has room around it.
fn settle_at(c: &mut Controller, frame: Rect, now: u64) -> BarCommand {
    match c.reconcile(Some(frame), pt(24), screen()) {
        Reconcile::Stop(command) => return command,
        Reconcile::Relayout(width) => {
            c.layout_bar(&[pt(50), pt(30)], pt(20), Some(width));
            c.measured(pt(128), pt(24));
        }
        Reconcile::Place => {}
    }
    c.place_bar(frame, pt(24), &[], pt(1440), now)
}

#[test]
fn bar_goes_right_above_the_window() {
    let top = place(point(100, 300), pt(1440));
    assert_eq!(top, point(100, 1140));
    assert_eq!(bar_origin(top), point(100, 1142));
    assert_eq!(place(point(-500, -200), pt(1440)), point(-500, 1640));
}

#[test]
fn windows_that_cover_the_top_hide_the_bar() {
    // Fullscreen.
    assert!(should_hide(point(0, 0), size(2560, 1440), pt(24), screen()));
    // Maximized below the menu bar.
    assert!(should_hide(point(0, 30), size(2560, 1400), pt(24), screen()));
    assert!(should_hide(point(0, 30), size(2558, 1398), pt(24), screen()));
    // As high, but narrower.
    assert!(!should_hide(point(0, 30), size(1200, 1400), pt(24), screen()));
    // Dragged down.
    assert!(!should_hide(point(0, 31), size(2560, 1400), pt(24), screen()));
    assert!(!should_hide(point(0, 100), size(2560, 1440), pt(24), screen()));
    // An ordinary window at the top.
    assert!(!should_hide(point(0, 0), size(800, 600), pt(24), screen()));
    assert!(!should_hide(point(0, 0), size(2560, 1440), pt(24), None));
}

fn notched(x: i64) -> ScreenTop {
    ScreenTop {
        x: pt(x),
        width: pt(1000),
        safe_top: pt(32),
        left_area_x: pt(x),
        left_area_width: pt(400),
        right_area_x: pt(x + 600),
    }
}

#[test]
fn notch_is_that_of_the_screen_under_the_middle_of_the_window() {
    let plain = ScreenTop {
        safe_top: 0,
        ..notched(1000)
    };
    let screens = [notched(0), plain];
    assert_eq!(notch_x_span(&screens, pt(100), pt(200)), Some((pt(400), pt(600))));
    assert_eq!(notch_x_span(&screens, pt(1000), pt(200)), None);
    // The middle decides.
    assert_eq!(notch_x_span(&screens, pt(900), pt(400)), None);
    assert_eq!(notch_x_span(&screens, pt(-100), pt(400)), Some((pt(400), pt(600))));
    assert_eq!(notch_x_span(&screens, pt(5000), pt(10)), None);
    assert_eq!(notch_x_span(&[], 0, 0), None);
    let closed = ScreenTop {
        right_area_x: pt(400),
        ..notched(0)
    };
    assert_eq!(notch_x_span(&[closed], pt(100), pt(200)), None);
}

#[test]
fn bar_keeps_away_from_the_menus_and_the_notch() {
    let bar = size(200, 30);
    let span = Some(MenuSpan {
        left: pt(0),
        right: pt(400),
    });
    // In the strip and left of 1.5 times the menus' length.
    assert!(in_the_way(point(599, 40), bar, pt(24), span, None));
    assert!(!in_the_way(point(600, 40), bar, pt(24), span, None));
    // Below the strip: 24 + 2 + 30.
    assert!(in_the_way(point(0, 55), bar, pt(24), span, None));
    assert!(!in_the_way(point(0, 56), bar, pt(24), span, None));
    // A display to the left has its menus at negative places.
    let left = Some(MenuSpan {
        left: pt(-2000),
        right: pt(-1600),
    });
    assert!(!in_the_way(point(-1300, 40), bar, pt(24), left, None));
    assert!(in_the_way(point(-1900, 40), bar, pt(24), left, None));
    assert!(!in_the_way(point(0, 0), bar, pt(24), None, None));
    // Under the notch.
    let notch = Some((pt(400), pt(600)));
    assert!(in_the_way(point(300, 40), bar, pt(24), None, notch));
    assert!(!in_the_way(point(200, 40), bar, pt(24), None, notch));
    assert!(!in_the_way(point(600, 40), bar, pt(24), None, notch));
}

#[test]
fn titles_that_fit_are_all_shown() {
    let widths = [pt(50), pt(30), pt(40)];
    // 2 * 14 + 120 + 2 * 20 = 188.
    let all = BarFit {
        visible: 3,
        overflow_from: None,
    };
    assert_eq!(fit_titles(&widths, pt(20), Some(pt(188))), all);
    assert_eq!(fit_titles(&widths, pt(20), None), all);
    assert_eq!(
        fit_titles(&[], pt(20), Some(0)),
        BarFit {
            visible: 0,
            overflow_from: None
        }
    );
}

#[test]
fn titles_that_do_not_fit_go_behind_the_overflow_button() {
    let widths = [pt(50), pt(30), pt(40)];
    let fit = |avail: i64| fit_titles(&widths, pt(20), Some(pt(avail)));
    let some = |n: usize| BarFit {
        visible: n,
        overflow_from: Some(n),
    };
    // With the button: 28 + 20 + 20 = 68, then 50, then 50 more.
    assert_eq!(fit(187), some(2));
    assert_eq!(fit(168), some(2));
    assert_eq!(fit(167), some(1));
    assert_eq!(fit(118), some(1));
    assert_eq!(fit(117), some(0));
    assert_eq!(fit(0), some(0));
}

#[test]
fn menus_drop_below_their_titles() {
    assert_eq!(bar_height(pt(24)), pt(30));
    assert_eq!(menu_location(pt(100), pt(500)), point(87, 490));
    assert_eq!(pill(pt(100), pt(40), pt(30)), rect(90, 2, 60, 26));
}

#[test]
fn title_under_the_mouse_is_the_first_that_holds_it() {
    let titles = [rect(0, 0, 50, 20), rect(50, 0, 30, 20)];
    assert_eq!(title_under(point(10, 10), &titles), Some(0));
    assert_eq!(title_under(point(50, 20), &titles), Some(0));
    assert_eq!(title_under(point(51, 0), &titles), Some(1));
    assert_eq!(title_under(point(81, 0), &titles), None);
    assert_eq!(title_under(point(10, 21), &titles), None);
}

#[test]
fn without_permission_or_application_the_bar_hides() {
    let mut c = mirroring(7);
    let frame = rect(100, 300, 800, 600);
    assert_eq!(settle_at(&mut c, frame, 0), BarCommand::Show(point(100, 1142)));
    let mut d = mirroring(7);
    settle_at(&mut d, frame, 0);
    assert!(matches!(
        c.on_tick(false, Some(7), 1),
        TickStart::Stop(BarCommand::FadeOut(_))
    ));
    assert_eq!(
        c.on_tick(false, Some(7), 1),
        TickStart::Stop(BarCommand::Nothing)
    );
    assert!(matches!(
        d.on_tick(true, None, 1),
        TickStart::Stop(BarCommand::FadeOut(_))
    ));
}

#[test]
fn own_windows_leave_the_bar_alone() {
    let mut c = mirroring(7);
    settle_at(&mut c, rect(100, 300, 800, 600), 0);
    assert_eq!(c.on_tick(true, Some(1), 1), TickStart::Stop(BarCommand::Nothing));
    assert_eq!(c.on_tick(true, Some(7), 1), TickStart::Focus);
}

#[test]
fn another_application_drops_the_bar_and_rebuilds_it() {
    let mut c = mirroring(7);
    settle_at(&mut c, rect(100, 300, 800, 600), 0);
    assert_eq!(
        c.on_tick(true, Some(8), 1),
        TickStart::Refocus(BarCommand::HideFast)
    );
    lay_out(&mut c, 8);
    assert_eq!(c.on_tick(true, Some(8), 1), TickStart::Focus);
    assert_eq!(
        settle_at(&mut c, rect(500, 300, 800, 600), 5),
        BarCommand::Show(point(500, 1142))
    );
}

#[test]
fn another_window_drops_the_bar_and_rebuilds_it() {
    let mut c = mirroring(7);
    assert_eq!(c.on_focus(7, &window(1, "AXStandardWindow")), TickFocus::Proceed);
    settle_at(&mut c, rect(100, 300, 800, 600), 0);
    assert_eq!(c.on_focus(7, &window(1, "AXStandardWindow")), TickFocus::Proceed);
    assert_eq!(
        c.on_focus(7, &window(2, "AXStandardWindow")),
        TickFocus::Refocus(BarCommand::HideFast)
    );
    lay_out(&mut c, 7);
    assert_eq!(c.on_focus(7, &window(2, "AXStandardWindow")), TickFocus::Proceed);
}

#[test]
fn transient_windows_never_get_the_bar() {
    let mut c = mirroring(7);
    // Nothing is shown yet.
    assert_eq!(
        c.on_focus(7, &window(5, "AXDialog")),
        TickFocus::Stop(BarCommand::Nothing)
    );
    c.on_focus(7, &window(1, "AXStandardWindow"));
    let frame = rect(100, 300, 800, 600);
    settle_at(&mut c, frame, 0);
    // A popover of the application keeps its bar in place.
    assert_eq!(
        c.on_focus(7, &window(5, "AXDialog")),
        TickFocus::Stop(BarCommand::Nothing)
    );
    assert_eq!(settle_at(&mut c, frame, 1), BarCommand::Nothing);
    // One of another application hides it.
    assert!(matches!(
        c.on_focus(8, &window(6, "AXDialog")),
        TickFocus::Stop(BarCommand::FadeOut(_))
    ));
    let mut d = mirroring(7);
    settle_at(&mut d, frame, 0);
    assert!(matches!(
        d.on_focus(7, &None),
        TickFocus::Stop(BarCommand::FadeOut(_))
    ));
    let untold = Some(FocusedWindow {
        id: 9,
        subrole: None,
    });
    assert_eq!(d.on_focus(7, &untold), TickFocus::Stop(BarCommand::Nothing));
}

#[test]
fn bar_hides_while_the_window_moves_and_returns_when_it_settles() {
    let mut c = mirroring(7);
    let frame = rect(100, 300, 800, 600);
    assert_eq!(settle_at(&mut c, frame, 0), BarCommand::Show(point(100, 1142)));
    // A still window is left alone.
    assert_eq!(settle_at(&mut c, frame, 10 * MS), BarCommand::Nothing);
    // It moves.
    let moved = rect(140, 300, 800, 600);
    assert_eq!(settle_at(&mut c, moved, 20 * MS), BarCommand::HideFast);
    assert_eq!(settle_at(&mut c, moved, 199 * MS), BarCommand::Nothing);
    // It moves on: the delay starts anew.
    let again = rect(180, 320, 800, 600);
    assert_eq!(settle_at(&mut c, again, 199 * MS), BarCommand::Nothing);
    assert_eq!(settle_at(&mut c, again, 378 * MS), BarCommand::Nothing);
    assert_eq!(settle_at(&mut c, again, 379 * MS), BarCommand::Show(point(180, 1122)));
    assert_eq!(settle_at(&mut c, again, 400 * MS), BarCommand::Nothing);
}

#[test]
fn move_events_hide_the_bar_at_once() {
    let mut c = mirroring(7);
    let frame = rect(100, 300, 800, 600);
    settle_at(&mut c, frame, 0);
    assert_eq!(c.begin_move(MS), BarCommand::HideFast);
    assert_eq!(c.begin_move(2 * MS), BarCommand::Nothing);
    assert_eq!(settle_at(&mut c, frame, 100 * MS), BarCommand::Nothing);
    assert_eq!(settle_at(&mut c, frame, 182 * MS), BarCommand::Show(point(100, 1142)));
}

#[test]
fn bar_hides_where_it_has_no_place_and_comes_back_at_once() {
    let mut c = mirroring(7);
    let frame = rect(100, 300, 800, 600);
    settle_at(&mut c, frame, 0);
    let fade = settle_at(&mut c, rect(0, 0, 2560, 1440), MS);
    assert!(matches!(fade, BarCommand::FadeOut(_)));
    assert_eq!(settle_at(&mut c, frame, 2 * MS), BarCommand::Show(point(100, 1142)));
    assert!(matches!(
        c.reconcile(None, pt(24), screen()),
        Reconcile::Stop(BarCommand::FadeOut(_))
    ));
}

#[test]
fn ends_of_outdated_fades_are_told() {
    let mut c = mirroring(7);
    let frame = rect(100, 300, 800, 600);
    settle_at(&mut c, frame, 0);
    let gen = match settle_at(&mut c, rect(0, 0, 2560, 1440), MS) {
        BarCommand::FadeOut(gen) => gen,
        other => panic!("{other:?}"),
    };
    assert!(c.fade_is_current(gen));
    settle_at(&mut c, frame, 2 * MS);
    assert!(!c.fade_is_current(gen));
}

#[test]
fn application_without_menus_gets_no_bar() {
    let mut c = Controller::new(Preferences::new(Config::default()));
    c.on_tick(true, Some(7), 1);
    let avail = c.rebuild(7, &[]);
    assert_eq!(avail, None);
    c.layout_bar(&[], pt(20), avail);
    assert_eq!(
        c.reconcile(Some(rect(100, 300, 800, 600)), pt(24), screen()),
        Reconcile::Stop(BarCommand::Nothing)
    );
    // Its menus appear later.
    assert!(c.recheck_menus(&["Finder".to_string(), "File".to_string()]));
    lay_out(&mut c, 7);
    assert_eq!(
        settle_at(&mut c, rect(100, 300, 800, 600), 0),
        BarCommand::Show(point(100, 1142))
    );
}

#[test]
fn bar_near_the_system_menus_hides() {
    let mut c = Controller::new(Preferences::new(Config::default()));
    c.on_tick(true, Some(7), 1);
    let mut tops = menus();
    tops[0].extent = Some((pt(0), pt(50)));
    tops[2].extent = Some((pt(50), pt(350)));
    let avail = c.rebuild(7, &tops);
    c.layout_bar(&[pt(50), pt(30)], pt(20), avail);
    assert_eq!(c.measured(pt(128), pt(24)), size(128, 30));
    assert_eq!(settle_at(&mut c, rect(100, 30, 800, 600), 0), BarCommand::Nothing);
    assert_eq!(
        settle_at(&mut c, rect(700, 30, 800, 600), 0),
        BarCommand::Show(point(700, 1412))
    );
}

#[test]
fn titles_are_fitted_again_when_the_width_changes() {
    let mut c = mirroring(7);
    // Laid out without a limit at first.
    assert_eq!(
        c.reconcile(Some(rect(100, 300, 800, 600)), pt(24), screen()),
        Reconcile::Relayout(pt(800))
    );
    c.layout_bar(&[pt(50), pt(30)], pt(20), Some(pt(800)));
    assert_eq!(
        c.reconcile(Some(rect(100, 300, 801, 600)), pt(24), screen()),
        Reconcile::Place
    );
    assert_eq!(
        c.reconcile(Some(rect(100, 300, 802, 600)), pt(24), screen()),
        Reconcile::Relayout(pt(802))
    );
    // Not while a menu is open.
    assert!(c.open_menu_at(0).is_some());
    assert_eq!(
        c.reconcile(Some(rect(100, 300, 900, 600)), pt(24), screen()),
        Reconcile::Place
    );
    // A rebuilt bar is fitted into the width that is known.
    assert_eq!(c.rebuild(7, &menus()), Some(pt(900)));
}

#[test]
fn menus_are_rechecked_at_intervals_and_never_blanked() {
    let mut c = mirroring(7);
    assert!(c.menus_due(1000 * MS));
    assert!(!c.menus_due(1499 * MS));
    assert!(c.menus_due(1500 * MS));
    let same = c.titles();
    assert_eq!(same, vec!["Finder", "File"]);
    assert!(!c.recheck_menus(&same));
    assert!(c.recheck_menus(&same[..1]));
    assert!(!c.recheck_menus(&[]));
    c.open_menu_at(0);
    assert!(!c.menus_due(9000 * MS));
}

#[test]
fn observer_is_armed_for_each_window_once() {
    let mut c = mirroring(7);
    assert!(c.needs_observer(7, 1));
    assert!(c.observer_armed(7, 1, true, &[false, true]));
    assert!(!c.needs_observer(7, 1));
    assert!(c.needs_observer(7, 2));
    assert!(c.needs_observer(8, 1));
    // One that could not be subscribed to anything is tried again.
    assert!(!c.observer_armed(7, 1, true, &[false, false]));
    assert!(c.needs_observer(7, 1));
    assert!(!c.observer_armed(7, 1, false, &[]));
    assert!(c.needs_observer(7, 1));
}

#[test]
fn hovering_switches_from_menu_to_menu() {
    let mut c = mirroring(7);
    let titles = [rect(0, 0, 50, 20), rect(70, 0, 30, 20)];
    // No menu is open.
    assert!(!c.check_switch(point(10, 10), &titles));
    let rows = c.open_menu_at(0).unwrap();
    assert_eq!(rows.len(), 1);
    assert!(!c.check_switch(point(10, 10), &titles));
    assert!(!c.check_switch(point(60, 10), &titles));
    assert!(c.check_switch(point(80, 10), &titles));
    assert_eq!(c.menu_closed(), Some(1));
    let rows = c.open_menu_at(1).unwrap();
    match &rows[1] {
        MenuRow::Command { title, key, .. } => {
            assert_eq!(title, "Open");
            assert_eq!(
                c.target_of(&Some(key.clone())),
                Some((7, vec!["File".to_string(), "Open".to_string()]))
            );
        }
        other => panic!("{other:?}"),
    }
    assert_eq!(c.menu_closed(), None);
    assert!(c.open_menu_at(2).is_none());
}

#[test]
fn rows_without_a_key_name_nothing() {
    let c = mirroring(7);
    assert_eq!(c.target_of(&None), None);
    assert_eq!(c.target_of(&Some(String::new())), None);
}

#[test]
fn overflow_button_opens_the_rest() {
    let mut c = mirroring(7);
    assert!(c.on_overflow_clicked().is_none());
    let fit = c.layout_bar(&[pt(50), pt(30)], pt(20), Some(pt(120)));
    assert_eq!(
        fit,
        BarFit {
            visible: 1,
            overflow_from: Some(1)
        }
    );
    let rest = c.on_overflow_clicked().unwrap();
    assert_eq!(rest.len(), 1);
    assert_eq!(rest[0].title, "File");
    assert_eq!(rest[0].rows.len(), 2);
    assert!(c.open_menu_at(1).is_none());
}

#[test]
fn edited_preferences_take_effect() {
    let mut c = Controller::new(Preferences::new(Config::default()));
    let mut settings = c.open_settings();
    assert_eq!(settings.emit(), c.current_config());
    settings.poll_changed(500);
    settings.theme_selected(1);
    settings.launch_toggled(true);
    let changes = c.apply_and_save_config(settings.emit());
    assert!(changes.restart_timer);
    assert_eq!(changes.login_item, Some(true));
    assert_eq!(changes.theme, Some(Theme::Dark));
    assert!(!changes.register_hotkey);
    assert_eq!(changes.save.config.poll_hz, 120);
    assert_eq!(c.current_config().config.poll_hz, 120);
    // Once more: nothing but to save.
    let again = c.apply_and_save_config(settings.emit());
    assert!(!again.restart_timer && !again.register_hotkey);
    assert_eq!(again.login_item, None);
    assert_eq!(again.theme, None);
    assert_eq!(again.save, changes.save);
}

#[test]
fn palette_hotkey_follows_the_preferences() {
    let mut c = Controller::new(Preferences::new(Config::default()));
    let default = HotkeyChord {
        mods: 0x0300,
        keycode: 0x2e,
    };
    assert_eq!(c.palette_chord(), Some(default));
    let mut settings = c.open_settings();
    settings.palette_toggled(false);
    assert!(c.apply_and_save_config(settings.emit()).register_hotkey);
    assert_eq!(c.palette_chord(), None);
    assert_eq!(palette_target(Some(7), 1), Some(7));
    assert_eq!(palette_target(Some(1), 1), None);
    assert_eq!(palette_target(None, 1), None);
}

#[test]
fn opposite_theme_follows_the_system() {
    let mut c = Controller::new(Preferences::new(Config::default()));
    assert_eq!(c.system_seen(false), None);
    assert_eq!(c.system_seen(true), None);
    let mut settings = c.open_settings();
    settings.theme_selected(3);
    let changes = c.apply_and_save_config(settings.emit());
    assert_eq!(changes.theme, Some(Theme::OppositeSystem));
    assert_eq!(c.system_seen(true), None);
    assert_eq!(c.system_seen(false), Some(Theme::OppositeSystem));
    assert_eq!(c.system_seen(false), None);
}

#[test]
fn edited_preferences_outlive_the_run() {
    let mut c = Controller::new(Preferences::new(Config::default()));
    let mut settings = c.open_settings();
    settings.theme_selected(2);
    settings.palette_toggled(false);
    settings.poll_changed(500);
    let changes = c.apply_and_save_config(settings.emit());
    let read = Some(FileRead::Text(preferences_text(&changes.save)));
    let next = Controller::new(load_preferences(&read));
    assert_eq!(next.current_config(), c.current_config());
    assert_eq!(next.current_config().theme, Theme::Light);
    assert_eq!(next.palette_chord(), None);
}
