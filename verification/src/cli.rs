//! The command line: which command it asks for, and what the commands print or press.

use vstd::prelude::*;

use crate::menu::{find_title, lemma_first_titled_bears, nonempty, opt_text, opt_texts};
use crate::text::{decimal, decimal_text, same_text, texts};

verus! {

/// What the command line asks for.
#[derive(Debug)]
pub enum Request {
    /// Show the bar: the default, and what a launch from the Finder asks for.
    Run,
    /// Print the menus of the frontmost application.
    Read,
    /// Log the focus and geometry events of the frontmost application.
    Watch,
    /// Fire a first-level menu item of the frontmost application.
    Press { top: String, item: String },
    /// The titles to press are missing.
    PressUsage,
    /// There is no such command.
    Unknown(String),
}

/// The model of a [`Request`].
pub enum RequestView {
    Run,
    Read,
    Watch,
    Press { top: Seq<char>, item: Seq<char> },
    PressUsage,
    Unknown(Seq<char>),
}

impl View for Request {
    type V = RequestView;

    open spec fn view(&self) -> RequestView {
        match *self {
            Request::Run => RequestView::Run,
            Request::Read => RequestView::Read,
            Request::Watch => RequestView::Watch,
            Request::Press { top, item } => RequestView::Press { top: top@, item: item@ },
            Request::PressUsage => RequestView::PressUsage,
            Request::Unknown(name) => RequestView::Unknown(name@),
        }
    }
}

/// What a command line asks for; its first word is the name of the program, and words after those
/// that are needed are ignored.
pub open spec fn asked_for(args: Seq<Seq<char>>) -> RequestView {
    if args.len() < 2 || args[1] == "run"@ {
        RequestView::Run
    } else if args[1] == "watch"@ {
        RequestView::Watch
    } else if args[1] == "press"@ {
        if args.len() < 4 {
            RequestView::PressUsage
        } else {
            RequestView::Press { top: args[2], item: args[3] }
        }
    } else if args[1] == "read"@ {
        RequestView::Read
    } else {
        RequestView::Unknown(args[1])
    }
}

/// What a command line asks for.
pub fn request(args: &[String]) -> (request: Request)
    ensures
        request@ == asked_for(texts(args@)),
{
    assert(texts(args@).len() == args@.len());
    if args.len() < 2 {
        return Request::Run;
    }
    assert(texts(args@)[1] == args@[1]@);
    let name = args[1].as_str();
    if same_text(name, "run") {
        Request::Run
    } else if same_text(name, "watch") {
        Request::Watch
    } else if same_text(name, "press") {
        if args.len() < 4 {
            Request::PressUsage
        } else {
            assert(texts(args@)[2] == args@[2]@ && texts(args@)[3] == args@[3]@);
            Request::Press { top: args[2].clone(), item: args[3].clone() }
        }
    } else if same_text(name, "read") {
        Request::Read
    } else {
        Request::Unknown(args[1].clone())
    }
}

/// What is said of a command that there is not.
pub fn unknown_message(name: &str) -> (message: String)
    ensures
        message@ == "unknown command '"@ + name@ + "' (try: run | read | press | watch)"@,
{
    let mut message = "unknown command '".to_owned();
    message.append(name);
    message.append("' (try: run | read | press | watch)");
    message
}

/// What is said of an item that was not found.
pub fn not_found_message(top: &str, item: &str) -> (message: String)
    ensures
        message@ == "Item '"@ + top@ + " > "@ + item@ + "' not found."@,
{
    let mut message = "Item '".to_owned();
    message.append(top);
    message.append(" > ");
    message.append(item);
    message.append("' not found.");
    message
}

/// The titles of an item of the system menu bar and of the items of its menu; an item without a
/// menu has none of these.
#[derive(Debug)]
pub struct TopTitles {
    pub title: Option<String>,
    pub items: Vec<Option<String>>,
}

/// The model of a [`TopTitles`].
pub struct TopTitlesView {
    pub title: Option<Seq<char>>,
    pub items: Seq<Option<Seq<char>>>,
}

impl View for TopTitles {
    type V = TopTitlesView;

    open spec fn view(&self) -> TopTitlesView {
        TopTitlesView { title: opt_text(self.title), items: opt_texts(self.items@) }
    }
}

/// The models of a sequence of menu-bar items.
pub open spec fn top_titles(tops: Seq<TopTitles>) -> Seq<TopTitlesView> {
    tops.map_values(|top: TopTitles| top@)
}

// ---- printing the menus -----------------------------------------------------------------------

/// How many items of a menu are printed.
pub const PRINTED_ITEMS: usize = 6;

/// The titles that there are and that are not empty, in order.
pub open spec fn titled(titles: Seq<Option<Seq<char>>>) -> Seq<Seq<char>>
    decreases titles.len(),
{
    if titles.len() == 0 {
        Seq::empty()
    } else {
        let before = titled(titles.drop_last());
        match nonempty(titles.last()) {
            Some(title) => before.push(title),
            None => before,
        }
    }
}

fn titled_items(titles: &[Option<String>]) -> (found: Vec<String>)
    ensures
        texts(found@) == titled(opt_texts(titles@)),
{
    let mut found: Vec<String> = Vec::new();
    let mut i: usize = 0;
    assert(texts(found@) =~= titled(opt_texts(titles@).take(0)));
    while i < titles.len()
        invariant
            i <= titles.len(),
            texts(found@) == titled(opt_texts(titles@).take(i as int)),
        decreases titles.len() - i,
    {
        let ghost next = opt_texts(titles@).take(i + 1);
        assert(next.drop_last() =~= opt_texts(titles@).take(i as int));
        assert(next.last() == opt_text(titles@[i as int]));
        let ghost before = texts(found@);
        match &titles[i] {
            Some(title) => {
                if !title.as_str().is_empty() {
                    found.push(title.clone());
                    assert(texts(found@) =~= before.push(title@));
                }
            },
            None => {},
        }
        i += 1;
    }
    assert(opt_texts(titles@).take(titles@.len() as int) =~= opt_texts(titles@));
    found
}

/// The line for a menu: its title and the number of its items.
pub open spec fn menu_line(title: Seq<char>, items: nat) -> Seq<char> {
    "* "@ + title + "  ("@ + decimal(items) + " items)"@
}

/// The lines for a menu: its own, those of its first items, and dots where it has more.
pub open spec fn menu_lines(title: Seq<char>, items: Seq<Seq<char>>) -> Seq<Seq<char>> {
    let shown = if items.len() <= PRINTED_ITEMS {
        items
    } else {
        items.take(PRINTED_ITEMS as int)
    };
    let more = if items.len() > PRINTED_ITEMS {
        seq!["    ..."@]
    } else {
        Seq::empty()
    };
    seq![menu_line(title, items.len())] + shown.map_values(|item: Seq<char>| "    - "@ + item)
        + more
}

/// The lines for a menu bar: those for each menu that has a title, in order.
pub open spec fn listing_of(tops: Seq<TopTitlesView>) -> Seq<Seq<char>>
    decreases tops.len(),
{
    if tops.len() == 0 {
        Seq::empty()
    } else {
        let before = listing_of(tops.drop_last());
        match nonempty(tops.last().title) {
            Some(title) => before + menu_lines(title, titled(tops.last().items)),
            None => before,
        }
    }
}

fn print_menu(lines: &mut Vec<String>, title: &str, items: &[String])
    ensures
        texts(final(lines)@) == texts(old(lines)@) + menu_lines(title@, texts(items@)),
{
    let ghost before = texts(lines@);
    let ghost all = texts(items@);
    assert(all.len() == items@.len());
    let mut head = "* ".to_owned();
    head.append(title);
    head.append("  (");
    head.append(decimal_text(items.len() as u64).as_str());
    head.append(" items)");
    assert(head@ =~= menu_line(title@, all.len()));
    lines.push(head);
    let shown = if items.len() <= PRINTED_ITEMS {
        items.len()
    } else {
        PRINTED_ITEMS
    };
    let ghost item_line = |item: Seq<char>| "    - "@ + item;
    assert(texts(lines@) =~= before + seq![menu_line(title@, all.len())] + all.take(0).map_values(
        item_line,
    ));
    let mut i: usize = 0;
    while i < shown
        invariant
            i <= shown <= items@.len() == all.len(),
            all == texts(items@),
            item_line == (|item: Seq<char>| "    - "@ + item),
            texts(lines@) == before + seq![menu_line(title@, all.len())] + all.take(
                i as int,
            ).map_values(item_line),
        decreases shown - i,
    {
        let ghost held = texts(lines@);
        let mut line = "    - ".to_owned();
        line.append(items[i].as_str());
        assert(line@ == item_line(all[i as int]));
        let ghost text = line@;
        lines.push(line);
        assert(texts(lines@) =~= held.push(text));
        assert(texts(lines@) =~= before + seq![menu_line(title@, all.len())] + all.take(
            i + 1,
        ).map_values(item_line));
        i += 1;
    }
    assert(all.take(all.len() as int) =~= all);
    if items.len() > PRINTED_ITEMS {
        let ghost held = texts(lines@);
        lines.push("    ...".to_owned());
        assert(texts(lines@) =~= held.push("    ..."@));
    }
    assert(texts(lines@) =~= before + menu_lines(title@, all));
}

/// The lines that list a menu bar.
pub fn listing(tops: &[TopTitles]) -> (lines: Vec<String>)
    ensures
        texts(lines@) == listing_of(top_titles(tops@)),
{
    let mut lines: Vec<String> = Vec::new();
    let mut i: usize = 0;
    assert(texts(lines@) =~= listing_of(top_titles(tops@).take(0)));
    while i < tops.len()
        invariant
            i <= tops.len(),
            texts(lines@) == listing_of(top_titles(tops@).take(i as int)),
        decreases tops.len() - i,
    {
        let ghost next = top_titles(tops@).take(i + 1);
        assert(next.drop_last() =~= top_titles(tops@).take(i as int));
        assert(next.last() == tops@[i as int]@);
        match &tops[i].title {
            Some(title) => {
                if !title.as_str().is_empty() {
                    let items = titled_items(tops[i].items.as_slice());
                    print_menu(&mut lines, title.as_str(), items.as_slice());
                }
            },
            None => {},
        }
        i += 1;
    }
    assert(top_titles(tops@).take(tops@.len() as int) =~= top_titles(tops@));
    lines
}

// ---- pressing an item -------------------------------------------------------------------------

/// Whether the item with index `j` of the menu with index `i` is the one to press.
pub open spec fn is_pressed(
    tops: Seq<TopTitlesView>,
    top: Seq<char>,
    item: Seq<char>,
    i: int,
    j: int,
) -> bool {
    &&& 0 <= i < tops.len()
    &&& 0 <= j < tops[i].items.len()
    &&& tops[i].title == Some(top)
    &&& tops[i].items[j] == Some(item)
}

/// The item to press: the first with its title in the first menu that has the wanted title and such
/// an item.
pub fn press_target(tops: &[TopTitles], top: &str, item: &str) -> (target: Option<(usize, usize)>)
    ensures
        target is Some <==> exists|i: int, j: int|
            is_pressed(top_titles(tops@), top@, item@, i, j),
        target matches Some((i, j)) ==> {
            &&& is_pressed(top_titles(tops@), top@, item@, i as int, j as int)
            &&& forall|k: int, l: int|
                is_pressed(top_titles(tops@), top@, item@, k, l) ==> i < k || (i == k && j <= l)
        },
{
    let ghost views = top_titles(tops@);
    let mut i: usize = 0;
    while i < tops.len()
        invariant
            i <= tops.len(),
            views == top_titles(tops@),
            forall|k: int, l: int| k < i ==> !is_pressed(views, top@, item@, k, l),
        decreases tops.len() - i,
    {
        assert(views[i as int] == tops@[i as int]@);
        let wanted = match &tops[i].title {
            Some(title) => same_text(title.as_str(), top),
            None => false,
        };
        if wanted {
            let ghost items = opt_texts(tops@[i as int].items@);
            let found = find_title(tops[i].items.as_slice(), item);
            proof {
                lemma_first_titled_bears(items, item@);
                assert(items.len() == tops@[i as int].items.len());
            }
            match found {
                Some(j) => {
                    assert(is_pressed(views, top@, item@, i as int, j as int));
                    return Some((i, j));
                },
                None => {},
            }
        }
        i += 1;
    }
    None
}

// ---- the log ----------------------------------------------------------------------------------

/// The directory of the log file: in the home directory, or in `/tmp` where that is unknown.
pub fn log_dir(home: &Option<String>) -> (dir: String)
    ensures
        dir@ == (match opt_text(*home) {
            Some(h) => h,
            None => "/tmp"@,
        }) + "/Library/Logs/Lintel"@,
{
    let mut dir = match home {
        Some(h) => h.clone(),
        None => "/tmp".to_owned(),
    };
    dir.append("/Library/Logs/Lintel");
    dir
}

/// The log file in its directory.
pub fn log_file(dir: &str) -> (path: String)
    ensures
        path@ == dir@ + "/lintel.log"@,
{
    let mut path = dir.to_owned();
    path.append("/lintel.log");
    path
}

// ---- what the commands can be relied upon for -------------------------------------------------

/// Without a command, and for `run`, the bar is shown; `read` and `watch` are taken by their names,
/// whatever follows; `press` needs two titles; and any other word is handed back as unknown.
pub proof fn lemma_command_is_known_by_its_name(args: Seq<Seq<char>>)
    ensures
        args.len() < 2 ==> asked_for(args) is Run,
        args.len() >= 2 ==> {
            let name = args[1];
            &&& asked_for(args) is Run <==> name == seq!['r', 'u', 'n']
            &&& asked_for(args) is Read <==> name == seq!['r', 'e', 'a', 'd']
            &&& asked_for(args) is Watch <==> name == seq!['w', 'a', 't', 'c', 'h']
            &&& asked_for(args) is Press <==> name == seq!['p', 'r', 'e', 's', 's'] && args.len() >= 4
            &&& asked_for(args) is PressUsage <==> name == seq!['p', 'r', 'e', 's', 's'] && args.len()
                < 4
            &&& asked_for(args) matches RequestView::Press { top, item } ==> top == args[2] && item
                == args[3]
            &&& asked_for(args) matches RequestView::Unknown(word) ==> word == name
        },
{
    reveal_strlit("run");
    reveal_strlit("read");
    reveal_strlit("watch");
    reveal_strlit("press");
    assert("run"@ =~= seq!['r', 'u', 'n']);
    assert("read"@ =~= seq!['r', 'e', 'a', 'd']);
    assert("watch"@ =~= seq!['w', 'a', 't', 'c', 'h']);
    assert("press"@ =~= seq!['p', 'r', 'e', 's', 's']);
    assert("run"@.len() == 3 && "read"@.len() == 4 && "watch"@.len() == 5 && "press"@.len() == 5);
    assert("watch"@[0] == 'w' && "press"@[0] == 'p');
}

/// Titles are kept in order, and just those that are there and not empty.
pub proof fn lemma_titles_are_kept_in_order(titles: Seq<Option<Seq<char>>>, title: Option<Seq<char>>)
    ensures
        title matches Some(t) && t.len() > 0 ==> titled(titles.push(title)) == titled(titles).push(
            title->0,
        ),
        title is None || title->0.len() == 0 ==> titled(titles.push(title)) == titled(titles),
        titled(Seq::empty()).len() == 0,
{
    assert(titles.push(title).drop_last() =~= titles);
}

/// What is printed of a menu: one line with its title and how many items it has, one for each of its
/// first six items, in order, and one with dots just where there are more.
pub proof fn lemma_first_items_are_printed(title: Seq<char>, items: Seq<Seq<char>>, k: int)
    ensures
        menu_lines(title, items).len() == 1 + (if items.len() <= 6 {
            items.len() as int
        } else {
            7
        }),
        menu_lines(title, items)[0] == "* "@ + title + "  ("@ + decimal(items.len()) + " items)"@,
        0 <= k < items.len() && k < 6 ==> menu_lines(title, items)[k + 1] == "    - "@ + items[k],
        items.len() > 6 ==> menu_lines(title, items)[7] == "    ..."@,
{
}

/// Menus are printed in order, those without a title not at all.
pub proof fn lemma_menus_are_printed_in_order(tops: Seq<TopTitlesView>, top: TopTitlesView)
    ensures
        top.title matches Some(t) && t.len() > 0 ==> listing_of(tops.push(top)) == listing_of(tops)
            + menu_lines(top.title->0, titled(top.items)),
        top.title is None || top.title->0.len() == 0 ==> listing_of(tops.push(top)) == listing_of(
            tops,
        ),
        listing_of(Seq::empty()).len() == 0,
{
    assert(tops.push(top).drop_last() =~= tops);
}

} // verus!
