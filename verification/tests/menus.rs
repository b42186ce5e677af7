use lintel::index::{IndexState, Walk, WalkStep};
use lintel::menu::{
    ax_mods_to_ns, find_title, join_path, may_press, read_item, read_items, shortcut_display, split_path,
    MenuItem, Modifiers, Resolve, Resolver,
};
use lintel::mirror::{
    build_menu_items, build_model, menu_of, menu_span, mirrors, overflow_menus, path_of_key,
    read_top_titles, titles_changed, MenuRow, TopItem,
};

fn text(s: &str) -> Option<String> {
    Some(s.to_string())
}

fn strings(parts: &[&str]) -> Vec<String> {
    parts.iter().map(|s| s.to_string()).collect()
}

fn item(id: u64, title: &str) -> MenuItem {
    MenuItem {
        id,
        title: text(title),
        enabled: None,
        cmd_char: None,
        cmd_mods: None,
        help: None,
        has_children: false,
    }
}

fn parent(id: u64, title: &str) -> MenuItem {
    MenuItem {
        has_children: true,
        ..item(id, title)
    }
}

fn top(title: Option<String>, extent: Option<(i64, i64)>) -> TopItem {
    TopItem {
        title,
        items: None,
        extent,
    }
}

fn mods(shift: bool, option: bool, control: bool, command: bool) -> Modifiers {
    Modifiers {
        shift,
        option,
        control,
        command,
    }
}

#[test]
fn command_is_implied_in_the_modifier_mask() {
    assert_eq!(ax_mods_to_ns(0), mods(false, false, false, true));
    assert_eq!(ax_mods_to_ns(1), mods(true, false, false, true));
    assert_eq!(ax_mods_to_ns(2), mods(false, true, false, true));
    assert_eq!(ax_mods_to_ns(4), mods(false, false, true, true));
    assert_eq!(ax_mods_to_ns(8), mods(false, false, false, false));
    assert_eq!(ax_mods_to_ns(15), mods(true, true, true, false));
    assert_eq!(ax_mods_to_ns(16), mods(false, false, false, true));
}

#[test]
fn shortcuts_show_signs_then_the_uppercase_character() {
    assert_eq!(shortcut_display(&text("b"), Some(1)), text("⌘⇧B"));
    assert_eq!(shortcut_display(&text("n"), None), text("⌘N"));
    assert_eq!(shortcut_display(&text("x"), Some(12)), text("⌃X"));
    assert_eq!(shortcut_display(&text("x"), Some(7)), text("⌘⇧⌥⌃X"));
    assert_eq!(shortcut_display(&text("ß"), Some(8)), text("SS"));
    assert_eq!(shortcut_display(&text(""), Some(1)), None);
    assert_eq!(shortcut_display(&None, Some(1)), None);
}

#[test]
fn items_are_mirrored_with_their_defaults() {
    let plain = read_item(&item(1, "Copy"));
    assert_eq!(plain.title, "Copy");
    assert!(!plain.is_sep && plain.enabled && !plain.has_submenu);
    assert!(plain.shortcut.is_none());

    let separator = read_item(&MenuItem {
        title: None,
        has_children: true,
        ..item(2, "")
    });
    assert!(separator.is_sep && !separator.has_submenu);
    assert!(read_item(&item(3, "")).is_sep);

    let full = read_item(&MenuItem {
        enabled: Some(false),
        cmd_char: text("B"),
        cmd_mods: Some(1),
        ..parent(4, "More")
    });
    assert!(!full.enabled && full.has_submenu);
    let keys = full.shortcut.unwrap();
    assert_eq!(keys.key, "b");
    assert_eq!(keys.mods, mods(true, false, false, true));

    let unset = read_item(&MenuItem {
        cmd_char: text(""),
        ..item(5, "None")
    });
    assert!(unset.shortcut.is_none());
}

#[test]
fn paths_survive_packing() {
    let path = strings(&["Format", "Font", "Bold"]);
    let key = join_path(&path);
    assert_eq!(key, "Format\u{1f}Font\u{1f}Bold");
    assert_eq!(split_path(&key), path);
    assert_eq!(split_path(""), Vec::<String>::new());
    assert_eq!(join_path(&[]), "");
    assert_eq!(split_path("\u{1f}"), strings(&["", ""]));
    assert_eq!(join_path(&split_path("a\u{1f}\u{1f}b")), "a\u{1f}\u{1f}b");
    assert_eq!(split_path("File"), strings(&["File"]));
}

#[test]
fn keys_of_rows_name_their_items() {
    let items = read_items(&[
        item(1, "Bold"),
        MenuItem {
            title: None,
            ..item(2, "")
        },
        parent(3, "Kern"),
    ]);
    let base = strings(&["Format", "Font"]);
    let rows = build_menu_items(&base, &items);
    assert_eq!(rows.len(), 3);
    match &rows[0] {
        MenuRow::Command {
            title,
            enabled,
            equivalent,
            mods,
            key,
        } => {
            assert_eq!(title, "Bold");
            assert!(*enabled);
            assert_eq!(equivalent, "");
            assert_eq!(*mods, None);
            assert_eq!(
                path_of_key(&Some(key.clone())),
                strings(&["Format", "Font", "Bold"])
            );
        }
        other => panic!("{other:?}"),
    }
    assert!(matches!(rows[1], MenuRow::Separator));
    match &rows[2] {
        MenuRow::Submenu { title, key, .. } => {
            assert_eq!(title, "Kern");
            assert_eq!(
                path_of_key(&Some(key.clone())),
                strings(&["Format", "Font", "Kern"])
            );
        }
        other => panic!("{other:?}"),
    }
    assert!(path_of_key(&None).is_empty());
}

#[test]
fn rows_show_the_key_equivalent() {
    let items = read_items(&[MenuItem {
        cmd_char: text("Q"),
        cmd_mods: Some(2),
        enabled: Some(false),
        ..item(1, "Quit")
    }]);
    match &build_menu_items(&strings(&["App"]), &items)[0] {
        MenuRow::Command {
            enabled,
            equivalent,
            mods: shown,
            ..
        } => {
            assert!(!enabled);
            assert_eq!(equivalent, "q");
            assert_eq!(*shown, Some(mods(false, true, false, true)));
        }
        other => panic!("{other:?}"),
    }
}

#[test]
fn apple_and_untitled_menus_are_not_mirrored() {
    assert!(mirrors(&text("File")));
    assert!(!mirrors(&text("Apple")));
    assert!(!mirrors(&text("")));
    assert!(!mirrors(&None));
    assert!(mirrors(&text("apple")));
    let titles = vec![text("Apple"), text("Finder"), None, text(""), text("File")];
    assert_eq!(read_top_titles(&titles), strings(&["Finder", "File"]));
}

#[test]
fn model_has_the_mirrored_menus_and_their_titles_look_unchanged() {
    let tops = vec![
        top(text("Apple"), Some((0, 10))),
        TopItem {
            title: text("File"),
            items: Some(vec![item(1, "New"), item(2, "")]),
            extent: None,
        },
        top(None, Some((-50, 20))),
        top(text("Edit"), Some((30, 25))),
    ];
    let model = build_model(&tops);
    assert_eq!(model.len(), 2);
    assert_eq!(model[0].title, "File");
    assert_eq!(model[0].items.len(), 2);
    assert!(model[0].items[1].is_sep);
    assert_eq!(model[1].title, "Edit");
    assert!(model[1].items.is_empty());

    let titles: Vec<Option<String>> = tops.iter().map(|t| t.title.clone()).collect();
    let kept = read_top_titles(&titles);
    assert!(!titles_changed(&kept, &model));
    assert!(titles_changed(&strings(&["File"]), &model));
    assert!(titles_changed(&strings(&["Edit", "File"]), &model));
    assert!(titles_changed(&[], &model));

    let span = menu_span(&tops).unwrap();
    assert_eq!((span.left, span.right), (-50, 55));
    assert!(menu_span(&[top(text("File"), None)]).is_none());
}

#[test]
fn overflow_opens_the_menus_from_the_start_given() {
    let tops = vec![
        top(text("A"), None),
        top(text("B"), None),
        TopItem {
            title: text("C"),
            items: Some(vec![item(1, "c1")]),
            extent: None,
        },
    ];
    let model = build_model(&tops);
    let menus = overflow_menus(&model, 1);
    assert_eq!(menus.len(), 2);
    assert_eq!(menus[0].title, "B");
    assert!(menus[0].rows.is_empty());
    assert_eq!(menus[1].title, "C");
    match &menus[1].rows[0] {
        MenuRow::Command { key, .. } => assert_eq!(key, "C\u{1f}c1"),
        other => panic!("{other:?}"),
    }
    assert_eq!(menu_of(&model[2]).len(), 1);
    assert!(overflow_menus(&model, 3).is_empty());
}

#[test]
fn first_item_with_the_title_is_found() {
    let titles = vec![None, text("a"), text("b"), text("a")];
    assert_eq!(find_title(&titles, "a"), Some(1));
    assert_eq!(find_title(&titles, "b"), Some(2));
    assert_eq!(find_title(&titles, "c"), None);
    assert_eq!(find_title(&titles, ""), None);
}

#[test]
fn resolver_follows_a_path_level_by_level() {
    assert!(Resolver::new(vec![]).is_none());
    let mut r = Resolver::new(strings(&["Format", "Font", "Bold"])).unwrap();
    assert_eq!(r.step(&[text("File"), text("Format")]), Resolve::Descend(1));
    assert_eq!(r.step(&[text("Font")]), Resolve::Descend(0));
    assert_eq!(
        r.step(&[text("Italic"), None, text("Bold"), text("Bold")]),
        Resolve::Found(2)
    );
    let mut gone = Resolver::new(strings(&["Format", "Font"])).unwrap();
    assert_eq!(gone.step(&[text("File")]), Resolve::Lost);
    let mut single = Resolver::new(strings(&["File"])).unwrap();
    assert_eq!(single.step(&[text("File")]), Resolve::Found(0));
}

#[test]
fn disabled_items_are_not_pressed() {
    assert!(!may_press(Some(false)));
    assert!(may_press(Some(true)));
    assert!(may_press(None));
}

/// Walks a tree given as the items of each menu by the id of its parent; zero is the menu bar.
fn index_of(menus: &dyn Fn(u64) -> Vec<MenuItem>) -> IndexState {
    let mut index = IndexState::default();
    let mut walk = Walk::new();
    walk.feed(menus(0));
    loop {
        match walk.next() {
            WalkStep::Read(id) => walk.feed(menus(id)),
            WalkStep::Found(command) => index.add(command),
            WalkStep::Finished => {
                index.finish();
                return index;
            }
        }
    }
}

fn sample(id: u64) -> Vec<MenuItem> {
    match id {
        0 => vec![
            parent(1, "Apple"),
            parent(2, "File"),
            parent(3, ""),
            parent(4, "Format"),
            parent(9, "Empty"),
        ],
        1 => vec![item(10, "About")],
        2 => vec![
            MenuItem {
                cmd_char: text("n"),
                ..item(20, "New")
            },
            item(21, ""),
            MenuItem {
                title: None,
                ..item(22, "")
            },
            MenuItem {
                enabled: Some(false),
                help: text("Closes the window"),
                ..item(23, "Close")
            },
        ],
        4 => vec![parent(40, "Font"), item(41, "Wrap")],
        40 => vec![
            MenuItem {
                cmd_char: text("b"),
                cmd_mods: Some(1),
                help: text(""),
                ..item(400, "Bold")
            },
            item(401, "Italic"),
        ],
        _ => vec![],
    }
}

#[test]
fn walk_lists_every_leaf_once_in_menu_order() {
    let index = index_of(&sample);
    assert!(index.done);
    let paths: Vec<Vec<String>> = index.commands.iter().map(|c| c.path.clone()).collect();
    assert_eq!(
        paths,
        vec![
            strings(&["File", "New"]),
            strings(&["File", "Close"]),
            strings(&["Format", "Font", "Bold"]),
            strings(&["Format", "Font", "Italic"]),
            strings(&["Format", "Wrap"]),
        ]
    );
    assert_eq!(index.commands[0].shortcut, text("⌘N"));
    assert!(index.commands[0].enabled);
    assert!(!index.commands[1].enabled);
    assert_eq!(index.commands[1].help, text("Closes the window"));
    assert_eq!(index.commands[2].shortcut, text("⌘⇧B"));
    assert_eq!(index.commands[2].help, None);
}

#[test]
fn walk_of_an_application_without_menus_finds_nothing() {
    let index = index_of(&|_| vec![]);
    assert!(index.done);
    assert!(index.commands.is_empty());
    assert!(!IndexState::default().done);
}

#[test]
fn listed_commands_are_found_again_by_their_path() {
    for command in index_of(&sample).commands {
        let mut resolver = Resolver::new(command.path.clone()).unwrap();
        let mut menu = sample(0);
        loop {
            let titles: Vec<Option<String>> = menu.iter().map(|i| i.title.clone()).collect();
            match resolver.step(&titles) {
                Resolve::Descend(i) => menu = sample(menu[i].id),
                Resolve::Found(i) => {
                    assert_eq!(menu[i].title, command.path.last().cloned());
                    break;
                }
                Resolve::Lost => panic!("{command:?}"),
            }
        }
    }
}
