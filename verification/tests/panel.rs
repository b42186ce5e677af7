use lintel::geometry::{Point, Rect, Size, POINT};
use lintel::index::Command;
use lintel::palette::{row_title, target_center, Palette, Tint};

fn pt(points: i64) -> i64 {
    points * POINT
}

fn rect(x: i64, y: i64, width: i64, height: i64) -> Rect {
    Rect {
        origin: Point { x: pt(x), y: pt(y) },
        size: Size {
            width: pt(width),
            height: pt(height),
        },
    }
}

fn cmd(leaf: &str, enabled: bool) -> Command {
    Command {
        path: vec!["Menu".to_string(), leaf.to_string()],
        enabled,
        shortcut: None,
        help: None,
    }
}

fn centered() -> Palette {
    Palette::new(Point {
        x: pt(1000),
        y: pt(600),
    })
}

#[test]
fn rows_show_path_shortcut_and_help() {
    let mut c = cmd("Bold", true);
    let plain = row_title(&c, false);
    assert_eq!(plain.line, "Menu ▸ Bold");
    assert_eq!(plain.line_tint, Tint::Label);
    assert_eq!(plain.help, None);
    c.shortcut = Some("⌘B".to_string());
    c.help = Some("Makes it bold".to_string());
    let full = row_title(&c, true);
    assert_eq!(full.line, "Menu ▸ Bold    ⌘B");
    assert_eq!(full.line_tint, Tint::Selected);
    assert_eq!(full.help, Some("\nMakes it bold".to_string()));
    assert_eq!(full.help_tint, Tint::SelectedDim);
    c.enabled = false;
    let greyed = row_title(&c, false);
    assert_eq!(greyed.line_tint, Tint::Secondary);
    assert_eq!(greyed.help_tint, Tint::Secondary);
    assert_eq!(c.row_height(), pt(44));
    assert_eq!(cmd("x", true).row_height(), pt(28));
}

#[test]
fn empty_palette_spins_until_the_index_is_built() {
    let mut p = centered();
    assert!(p.is_stale(0, false));
    let shown = p.try_refilter("", &[], false).unwrap();
    assert!(shown.spinning);
    // 12 + 28 + 10 high, centered.
    assert_eq!(shown.layout.panel, rect(690, 575, 620, 50));
    assert_eq!(shown.layout.results.size.height, 0);
    assert!(!p.is_stale(0, false));
    assert!(p.is_stale(1, false));
    assert!(p.is_stale(0, true));
    assert!(!p.has_seen_all());
    let done = p.try_refilter("", &[], true).unwrap();
    assert!(!done.spinning);
    assert!(p.has_seen_all());
}

#[test]
fn panel_fits_its_rows() {
    let mut p = centered();
    let mut tall = cmd("c", true);
    tall.help = Some("help".to_string());
    let commands = [cmd("a", true), cmd("b", true), tall];
    let shown = p.try_refilter("", &commands, false).unwrap();
    assert!(!shown.spinning);
    // 12 + 28 + 8 + 28 + 28 + 44 + 2 * 1 + 10 = 160.
    assert_eq!(shown.layout.panel, rect(690, 520, 620, 160));
    assert_eq!(shown.layout.field, rect(18, 120, 560, 28));
    assert_eq!(shown.layout.spinner, rect(584, 124, 18, 18));
    assert_eq!(shown.layout.results, rect(10, 10, 600, 102));
    assert_eq!(p.matches().len(), 3);
}

#[test]
fn top_edge_stays_put_while_a_query_narrows() {
    let mut p = centered();
    let commands = [cmd("alpha", true), cmd("beta", true)];
    let all = p.try_refilter("", &commands, true).unwrap().layout.panel;
    let top = all.origin.y + all.size.height;
    let one = p.try_refilter("alp", &commands, true).unwrap().layout.panel;
    assert_eq!(p.matches().len(), 1);
    assert!(one.size.height < all.size.height);
    assert_eq!(one.origin.y + one.size.height, top);
    let none = p.try_refilter("zzz", &commands, true).unwrap().layout.panel;
    assert_eq!(none.origin.y + none.size.height, top);
    // The empty query centers it again.
    let back = p.refilter("", &commands, true).layout.panel;
    assert_eq!(back, all);
}

#[test]
fn selection_wraps_round_the_ends() {
    let mut p = centered();
    p.move_selection(1);
    assert_eq!(p.selected(), 0);
    let commands = [cmd("a", true), cmd("b", true), cmd("c", true)];
    p.try_refilter("", &commands, true);
    assert_eq!(p.selected(), 0);
    p.move_selection(-1);
    assert_eq!(p.selected(), 2);
    p.move_selection(1);
    assert_eq!(p.selected(), 0);
    p.move_selection(1);
    assert_eq!(p.selected(), 1);
    // A new query starts at the first row again.
    p.try_refilter("c", &commands, true);
    assert_eq!(p.selected(), 0);
}

#[test]
fn selection_skips_disabled_rows() {
    let mut p = centered();
    let commands = [cmd("a", false), cmd("b", true), cmd("c", false), cmd("d", true)];
    p.try_refilter("", &commands, true);
    assert_eq!(p.selected(), 1);
    p.move_selection(1);
    assert_eq!(p.selected(), 3);
    p.move_selection(1);
    assert_eq!(p.selected(), 1);
    p.move_selection(-1);
    assert_eq!(p.selected(), 3);
    let off = [cmd("a", false), cmd("b", false)];
    p.try_refilter("", &off, true);
    assert_eq!(p.selected(), 0);
    p.move_selection(1);
    assert_eq!(p.selected(), 0);
}

#[test]
fn selected_command_is_fired_by_its_path() {
    let mut p = centered();
    assert_eq!(p.fire_selected(), None);
    p.try_refilter("", &[cmd("a", true), cmd("b", true)], true);
    p.move_selection(1);
    assert_eq!(
        p.fire_selected(),
        Some(vec!["Menu".to_string(), "b".to_string()])
    );
    p.select(0);
    assert_eq!(
        p.fire_selected(),
        Some(vec!["Menu".to_string(), "a".to_string()])
    );
    p.select(-1);
    assert_eq!(p.selected(), 0);
    p.select(5);
    assert_eq!(p.fire_selected(), None);
}

#[test]
fn one_odd_title_does_not_empty_the_list() {
    let mut p = centered();
    let commands = [cmd("\u{130}a", true), cmd("b", true)];
    let shown = p.try_refilter("a", &commands, true).unwrap();
    assert!(!shown.spinning);
    assert_eq!(p.matches().len(), 1);
    assert_eq!(p.matches()[0].path[1], "\u{130}a");
}

#[test]
fn results_from_elsewhere_are_shown_too() {
    let mut p = centered();
    let shown = p.show(false, vec![cmd("a", true)], 5, false);
    assert!(!shown.spinning);
    assert!(!p.is_stale(5, false));
    // 12 + 28 + 8 + 28 + 10 below the top edge, which starts at the center.
    assert_eq!(shown.layout.panel, rect(690, 514, 620, 86));
}

#[test]
fn palette_is_centered_on_the_window_or_the_screen() {
    let window = Some((
        Point {
            x: pt(100),
            y: pt(200),
        },
        Size {
            width: pt(801),
            height: pt(600),
        },
    ));
    let screen = Some(rect(-100, 50, 1000, 500));
    assert_eq!(
        target_center(window, screen, Some(pt(1440))),
        Point {
            x: pt(1001) / 2,
            y: pt(940)
        }
    );
    assert_eq!(
        target_center(None, screen, Some(pt(1440))),
        Point {
            x: pt(400),
            y: pt(300)
        }
    );
    assert_eq!(
        target_center(None, None, Some(pt(900))),
        Point {
            x: pt(700),
            y: pt(450)
        }
    );
    assert_eq!(
        target_center(None, None, None),
        Point {
            x: pt(700),
            y: pt(540)
        }
    );
}
