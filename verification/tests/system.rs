use lintel::cli::{
    listing, log_dir, log_file, not_found_message, press_target, request, unknown_message, Request,
    TopTitles,
};
use lintel::hotkey::{teardown as hotkey_teardown, Held, HotkeyError, Stage};
use lintel::observer::{event_line, subscribed, teardown, ObserverCtx, Teardown};

fn args(words: &[&str]) -> Vec<String> {
    words.iter().map(|w| w.to_string()).collect()
}

fn top(title: Option<&str>, items: &[Option<&str>]) -> TopTitles {
    TopTitles {
        title: title.map(str::to_string),
        items: items.iter().map(|i| i.map(str::to_string)).collect(),
    }
}

#[test]
fn registration_goes_from_stage_to_stage() {
    let mut stage = Stage::InstallHandler;
    assert_eq!(stage.advance(0), vec![]);
    assert_eq!(stage, Stage::RegisterHotkey);
    assert_eq!(stage.advance(0), vec![]);
    assert_eq!(stage, Stage::Registered);
}

#[test]
fn failed_registration_releases_what_it_holds() {
    let mut stage = Stage::InstallHandler;
    assert_eq!(stage.advance(-50), vec![Held::Callback]);
    assert_eq!(stage, Stage::Failed(HotkeyError::Register(-50)));

    let mut stage = Stage::RegisterHotkey;
    assert_eq!(stage.advance(-9878), vec![Held::Handler, Held::Callback]);
    assert_eq!(stage, Stage::Failed(HotkeyError::Register(-9878)));
}

#[test]
fn registration_ends_in_reverse() {
    assert_eq!(
        hotkey_teardown(true, true, true),
        vec![Held::Hotkey, Held::Handler, Held::Callback]
    );
    assert_eq!(hotkey_teardown(false, true, false), vec![Held::Handler]);
    assert_eq!(hotkey_teardown(false, false, false), vec![]);
}

#[test]
fn hotkey_errors_tell_the_status() {
    assert_eq!(
        HotkeyError::Register(-9878).message(),
        "RegisterEventHotKey failed: OSStatus -9878"
    );
    assert_eq!(
        HotkeyError::Register(i32::MIN).message(),
        "RegisterEventHotKey failed: OSStatus -2147483648"
    );
    assert_eq!(
        HotkeyError::Register(10).message(),
        "RegisterEventHotKey failed: OSStatus 10"
    );
}

#[test]
fn events_are_logged_under_their_label() {
    let ctx = Some(ObserverCtx {
        label: "Finder".to_string(),
    });
    assert_eq!(event_line(&ctx, "AXWindowMoved"), "[ax-event] Finder: AXWindowMoved");
    assert_eq!(event_line(&None, "AXWindowMoved"), "[ax-event] ?: AXWindowMoved");
}

#[test]
fn only_what_was_subscribed_to_is_kept() {
    assert_eq!(subscribed(&[true, false, true]), vec![0, 2]);
    assert_eq!(subscribed(&[false]), Vec::<usize>::new());
    assert_eq!(subscribed(&[]), Vec::<usize>::new());
}

#[test]
fn observer_ends_with_its_context() {
    assert_eq!(
        teardown(&[0, 2]),
        vec![
            Teardown::RemoveSource,
            Teardown::Unsubscribe(0),
            Teardown::Unsubscribe(2),
            Teardown::ReleaseObserver,
            Teardown::FreeContext,
        ]
    );
    assert_eq!(
        teardown(&[]),
        vec![
            Teardown::RemoveSource,
            Teardown::ReleaseObserver,
            Teardown::FreeContext
        ]
    );
}

#[test]
fn command_line_names_the_request() {
    assert!(matches!(request(&args(&["lintel"])), Request::Run));
    assert!(matches!(request(&args(&[])), Request::Run));
    assert!(matches!(request(&args(&["lintel", "run"])), Request::Run));
    assert!(matches!(request(&args(&["lintel", "read"])), Request::Read));
    assert!(matches!(request(&args(&["lintel", "watch", "x"])), Request::Watch));
    match request(&args(&["lintel", "press", "File", "New", "more"])) {
        Request::Press { top, item } => {
            assert_eq!(top, "File");
            assert_eq!(item, "New");
        }
        other => panic!("{other:?}"),
    }
    assert!(matches!(
        request(&args(&["lintel", "press", "File"])),
        Request::PressUsage
    ));
    match request(&args(&["lintel", "Run"])) {
        Request::Unknown(name) => assert_eq!(
            unknown_message(&name),
            "unknown command 'Run' (try: run | read | press | watch)"
        ),
        other => panic!("{other:?}"),
    }
}

#[test]
fn listing_shows_the_first_items_of_each_menu() {
    let many: Vec<Option<&str>> = vec![
        Some("1"),
        Some(""),
        Some("2"),
        None,
        Some("3"),
        Some("4"),
        Some("5"),
        Some("6"),
        Some("7"),
    ];
    let tops = vec![
        top(Some("Apple"), &[Some("About")]),
        top(None, &[Some("hidden")]),
        top(Some(""), &[Some("hidden")]),
        top(Some("File"), &many),
        top(Some("Edit"), &many[..8]),
        top(Some("Help"), &[]),
    ];
    assert_eq!(
        listing(&tops),
        vec![
            "* Apple  (1 items)",
            "    - About",
            "* File  (7 items)",
            "    - 1",
            "    - 2",
            "    - 3",
            "    - 4",
            "    - 5",
            "    - 6",
            "    ...",
            "* Edit  (6 items)",
            "    - 1",
            "    - 2",
            "    - 3",
            "    - 4",
            "    - 5",
            "    - 6",
            "* Help  (0 items)",
        ]
    );
}

#[test]
fn first_matching_item_is_pressed() {
    let tops = vec![
        top(Some("File"), &[Some("Open")]),
        top(None, &[Some("New")]),
        top(Some("File"), &[None, Some("New"), Some("New")]),
        top(Some("File"), &[Some("New")]),
    ];
    assert_eq!(press_target(&tops, "File", "New"), Some((2, 1)));
    assert_eq!(press_target(&tops, "File", "Open"), Some((0, 0)));
    assert_eq!(press_target(&tops, "Edit", "New"), None);
    assert_eq!(press_target(&tops, "File", "Close"), None);
    assert_eq!(not_found_message("File", "Close"), "Item 'File > Close' not found.");
}

#[test]
fn log_is_in_the_home_directory() {
    let dir = log_dir(&Some("/Users/me".to_string()));
    assert_eq!(dir, "/Users/me/Library/Logs/Lintel");
    assert_eq!(log_file(&dir), "/Users/me/Library/Logs/Lintel/lintel.log");
    assert_eq!(log_dir(&None), "/tmp/Library/Logs/Lintel");
}
