//! The mirrored menu bar: which top-level menus it has, and the rows of the menus that drop from
//! it.

use vstd::prelude::*;

use crate::geometry::{fits, MenuSpan, LIMIT};
use crate::menu::{
    entry_views, item_views, join_path, leads, lemma_found_by_its_titles,
    lemma_titles_end_with_its_own, lemma_unpack_of_pack, mirrored, modifiers_in, named, opt_text,
    opt_texts, packed, read_items, split_path, titles_to, told_apart, tree_at, unpacked, EntryView,
    ItemEntry, ItemView, MenuItem, Modifiers, Tree, PATH_SEP,
};
use crate::text::{lowered, same_text, texts};

verus! {

/// What the Accessibility API reports of one item of the system menu bar.
#[derive(Debug)]
pub struct TopItem {
    pub title: Option<String>,
    /// The items of its menu, if it has one.
    pub items: Option<Vec<MenuItem>>,
    /// Its left edge and its width, if it tells them.
    pub extent: Option<(i64, i64)>,
}

/// The model of a [`TopItem`]: an item without a menu has no items.
pub struct TopView {
    pub title: Option<Seq<char>>,
    pub items: Seq<ItemView>,
    pub extent: Option<(i64, i64)>,
}

impl View for TopItem {
    type V = TopView;

    open spec fn view(&self) -> TopView {
        TopView {
            title: opt_text(self.title),
            items: match self.items {
                Some(items) => item_views(items@),
                None => Seq::empty(),
            },
            extent: self.extent,
        }
    }
}

/// The models of a sequence of menu-bar items.
pub open spec fn top_views(tops: Seq<TopItem>) -> Seq<TopView> {
    tops.map_values(|top: TopItem| top@)
}

/// A mirrored top-level menu.
#[derive(Debug)]
pub struct TopMenu {
    pub title: String,
    pub items: Vec<ItemEntry>,
}

/// The model of a [`TopMenu`].
pub struct TopMenuView {
    pub title: Seq<char>,
    pub items: Seq<EntryView>,
}

impl View for TopMenu {
    type V = TopMenuView;

    open spec fn view(&self) -> TopMenuView {
        TopMenuView { title: self.title@, items: entry_views(self.items@) }
    }
}

/// The models of a sequence of mirrored menus.
pub open spec fn menu_views(menus: Seq<TopMenu>) -> Seq<TopMenuView> {
    menus.map_values(|menu: TopMenu| menu@)
}

/// Whether the menu with this title is mirrored: it has a title, and it is not the Apple menu,
/// which stays on the system menu bar.
pub open spec fn is_mirrored(title: Option<Seq<char>>) -> bool {
    match title {
        Some(t) => t.len() > 0 && t != "Apple"@,
        None => false,
    }
}

/// Whether the menu with this title is mirrored.
pub fn mirrors(title: &Option<String>) -> (yes: bool)
    ensures
        yes == is_mirrored(opt_text(*title)),
{
    match title {
        Some(t) => !t.as_str().is_empty() && !same_text(t.as_str(), "Apple"),
        None => false,
    }
}

/// The titles of the mirrored menus, in order.
pub open spec fn kept_titles(titles: Seq<Option<Seq<char>>>) -> Seq<Seq<char>>
    decreases titles.len(),
{
    if titles.len() == 0 {
        Seq::empty()
    } else if is_mirrored(titles.last()) {
        kept_titles(titles.drop_last()).push(titles.last()->0)
    } else {
        kept_titles(titles.drop_last())
    }
}

/// The titles of the mirrored menus, from the titles of all items of the system menu bar.
pub fn read_top_titles(titles: &[Option<String>]) -> (kept: Vec<String>)
    ensures
        texts(kept@) == kept_titles(opt_texts(titles@)),
{
    let mut kept: Vec<String> = Vec::new();
    let mut i: usize = 0;
    assert(texts(kept@) =~= kept_titles(opt_texts(titles@).take(0)));
    while i < titles.len()
        invariant
            i <= titles.len(),
            texts(kept@) == kept_titles(opt_texts(titles@).take(i as int)),
        decreases titles.len() - i,
    {
        let ghost next = opt_texts(titles@).take(i + 1);
        assert(next.drop_last() =~= opt_texts(titles@).take(i as int));
        assert(next.last() == opt_text(titles@[i as int]));
        let ghost before = texts(kept@);
        if mirrors(&titles[i]) {
            match &titles[i] {
                Some(t) => {
                    kept.push(t.clone());
                    assert(texts(kept@) =~= before.push(t@));
                },
                None => {},
            }
        }
        i += 1;
    }
    assert(opt_texts(titles@).take(titles@.len() as int) =~= opt_texts(titles@));
    kept
}

/// The mirrored menus of a system menu bar, in its order.
pub open spec fn model_of(tops: Seq<TopView>) -> Seq<TopMenuView>
    decreases tops.len(),
{
    if tops.len() == 0 {
        Seq::empty()
    } else if is_mirrored(tops.last().title) {
        model_of(tops.drop_last()).push(
            TopMenuView {
                title: tops.last().title->0,
                items: tops.last().items.map_values(|item: ItemView| mirrored(item)),
            },
        )
    } else {
        model_of(tops.drop_last())
    }
}

/// Mirrors the menus of the system menu bar.
pub fn build_model(tops: &[TopItem]) -> (model: Vec<TopMenu>)
    ensures
        menu_views(model@) == model_of(top_views(tops@)),
{
    let mut model: Vec<TopMenu> = Vec::new();
    let mut i: usize = 0;
    assert(menu_views(model@) =~= model_of(top_views(tops@).take(0)));
    while i < tops.len()
        invariant
            i <= tops.len(),
            menu_views(model@) == model_of(top_views(tops@).take(i as int)),
        decreases tops.len() - i,
    {
        let ghost next = top_views(tops@).take(i + 1);
        assert(next.drop_last() =~= top_views(tops@).take(i as int));
        assert(next.last() == tops@[i as int]@);
        let ghost before = menu_views(model@);
        if mirrors(&tops[i].title) {
            match &tops[i].title {
                Some(t) => {
                    let items = match &tops[i].items {
                        Some(items) => read_items(items.as_slice()),
                        None => Vec::new(),
                    };
                    assert(entry_views(items@) =~= tops@[i as int]@.items.map_values(
                        |item: ItemView| mirrored(item),
                    ));
                    let menu = TopMenu { title: t.clone(), items };
                    model.push(menu);
                    assert(menu_views(model@) =~= before.push(menu@));
                },
                None => {},
            }
        }
        i += 1;
    }
    assert(top_views(tops@).take(tops@.len() as int) =~= top_views(tops@));
    model
}

/// The titles of a mirrored menu bar.
pub open spec fn model_titles(model: Seq<TopMenuView>) -> Seq<Seq<char>> {
    model.map_values(|menu: TopMenuView| menu.title)
}

/// Reading the titles alone keeps just the menus that reading all of it keeps, so a menu bar that
/// has not changed since it was mirrored does not look changed.
pub proof fn lemma_titles_of_model(tops: Seq<TopView>)
    ensures
        kept_titles(tops.map_values(|top: TopView| top.title)) == model_titles(model_of(tops)),
    decreases tops.len(),
{
    let titles = tops.map_values(|top: TopView| top.title);
    if tops.len() == 0 {
        assert(kept_titles(titles) =~= model_titles(model_of(tops)));
    } else {
        lemma_titles_of_model(tops.drop_last());
        assert(titles.drop_last() =~= tops.drop_last().map_values(|top: TopView| top.title));
        assert(kept_titles(titles) =~= model_titles(model_of(tops)));
    }
}

/// Whether the live titles differ from those of the mirrored menus.
pub fn titles_changed(titles: &[String], model: &[TopMenu]) -> (changed: bool)
    ensures
        changed == (texts(titles@) != model_titles(menu_views(model@))),
{
    let ghost shown = model_titles(menu_views(model@));
    assert(texts(titles@).len() == titles@.len());
    assert(shown.len() == model@.len());
    if titles.len() != model.len() {
        return true;
    }
    let mut i: usize = 0;
    while i < titles.len()
        invariant
            i <= titles.len() == model.len(),
            shown == model_titles(menu_views(model@)),
            forall|k: int| 0 <= k < i ==> titles@[k]@ == model@[k].title@,
        decreases titles.len() - i,
    {
        if !same_text(titles[i].as_str(), model[i].title.as_str()) {
            assert(texts(titles@)[i as int] != shown[i as int]);
            return true;
        }
        i += 1;
    }
    assert(texts(titles@) =~= shown);
    false
}

/// The extent of the items that tell theirs: the leftmost left edge and the rightmost right edge.
pub open spec fn span_of(extents: Seq<Option<(i64, i64)>>) -> Option<MenuSpan>
    decreases extents.len(),
{
    if extents.len() == 0 {
        None
    } else {
        let before = span_of(extents.drop_last());
        match extents.last() {
            None => before,
            Some((x, width)) => match before {
                None => Some(MenuSpan { left: x, right: (x + width) as i64 }),
                Some(s) => Some(
                    MenuSpan {
                        left: if x < s.left {
                            x
                        } else {
                            s.left
                        },
                        right: if x + width > s.right {
                            (x + width) as i64
                        } else {
                            s.right
                        },
                    },
                ),
            },
        }
    }
}

/// The extents of a sequence of menu-bar items.
pub open spec fn extents_of(tops: Seq<TopItem>) -> Seq<Option<(i64, i64)>> {
    tops.map_values(|top: TopItem| top.extent)
}

/// Whether an extent is within what is handled.
pub open spec fn extent_fits(extent: Option<(i64, i64)>) -> bool {
    match extent {
        Some((x, width)) => fits(x) && fits(width),
        None => true,
    }
}

/// The extent of the real menus, the Apple menu included; `None` if no item tells its own.
pub fn menu_span(tops: &[TopItem]) -> (span: Option<MenuSpan>)
    requires
        forall|k: int| 0 <= k < tops@.len() ==> extent_fits((#[trigger] tops@[k]).extent),
    ensures
        span == span_of(extents_of(tops@)),
        span matches Some(s) ==> -2 * LIMIT <= s.left <= 2 * LIMIT && -2 * LIMIT <= s.right <= 2
            * LIMIT,
        forall|k: int|
            0 <= k < tops@.len() ==> ((#[trigger] tops@[k]).extent matches Some((x, width)) ==> span
                is Some && span->0.left <= x && x + width <= span->0.right),
{
    let mut span: Option<MenuSpan> = None;
    let mut i: usize = 0;
    while i < tops.len()
        invariant
            i <= tops.len(),
            forall|k: int| 0 <= k < tops@.len() ==> extent_fits((#[trigger] tops@[k]).extent),
            span == span_of(extents_of(tops@).take(i as int)),
            span matches Some(s) ==> -2 * LIMIT <= s.left <= 2 * LIMIT && -2 * LIMIT <= s.right
                <= 2 * LIMIT,
        decreases tops.len() - i,
    {
        let ghost next = extents_of(tops@).take(i + 1);
        assert(next.drop_last() =~= extents_of(tops@).take(i as int));
        assert(next.last() == tops@[i as int].extent);
        assert(extent_fits(tops@[i as int].extent));
        match tops[i].extent {
            None => {},
            Some((x, width)) => {
                let right = x + width;
                span =
                match span {
                    None => Some(MenuSpan { left: x, right }),
                    Some(s) => Some(
                        MenuSpan {
                            left: if x < s.left {
                                x
                            } else {
                                s.left
                            },
                            right: if right > s.right {
                                right
                            } else {
                                s.right
                            },
                        },
                    ),
                };
            },
        }
        i += 1;
    }
    assert(extents_of(tops@).take(tops@.len() as int) =~= extents_of(tops@));
    proof {
        let extents = extents_of(tops@);
        assert forall|k: int| 0 <= k < extents.len() implies extent_fits(#[trigger] extents[k]) by {
            assert(extent_fits(tops@[k].extent));
        }
        assert forall|k: int| 0 <= k < tops@.len() implies ((
        #[trigger] tops@[k]).extent matches Some((x, width)) ==> span is Some && span->0.left <= x
            && x + width <= span->0.right) by {
            assert(extents[k] == tops@[k].extent);
            if tops@[k].extent is Some {
                lemma_span_holds_extents(extents, k);
            }
        }
    }
    span
}

/// The real menus lie within their extent: no item starts left of it or ends right of it.
pub proof fn lemma_span_holds_extents(extents: Seq<Option<(i64, i64)>>, i: int)
    requires
        forall|k: int| 0 <= k < extents.len() ==> extent_fits(#[trigger] extents[k]),
        0 <= i < extents.len(),
        extents[i] is Some,
    ensures
        span_of(extents) is Some,
        extents[i] matches Some((x, width)) ==> span_of(extents)->0.left <= x && x + width
            <= span_of(extents)->0.right,
    decreases extents.len(),
{
    assert(extent_fits(extents.last()));
    if i < extents.len() - 1 {
        let front = extents.drop_last();
        assert(front[i] == extents[i]);
        assert forall|k: int| 0 <= k < front.len() implies extent_fits(#[trigger] front[k]) by {
            assert(front[k] == extents[k]);
        }
        lemma_span_holds_extents(front, i);
    }
}

// ---- the rows of a menu that drops from the bar -----------------------------------------------

/// A row of a menu.
#[derive(Debug)]
pub enum MenuRow {
    Separator,
    /// Opens a submenu, which `key` names when it is to be filled.
    Submenu { title: String, enabled: bool, key: String },
    /// Fires the item that `key` names.
    Command {
        title: String,
        enabled: bool,
        /// The key equivalent; empty where there is none.
        equivalent: String,
        mods: Option<Modifiers>,
        key: String,
    },
}

/// The model of a [`MenuRow`].
pub enum RowView {
    Separator,
    Submenu { title: Seq<char>, enabled: bool, key: Seq<char> },
    Command {
        title: Seq<char>,
        enabled: bool,
        equivalent: Seq<char>,
        mods: Option<Modifiers>,
        key: Seq<char>,
    },
}

impl View for MenuRow {
    type V = RowView;

    open spec fn view(&self) -> RowView {
        match *self {
            MenuRow::Separator => RowView::Separator,
            MenuRow::Submenu { title, enabled, key } => RowView::Submenu {
                title: title@,
                enabled,
                key: key@,
            },
            MenuRow::Command { title, enabled, equivalent, mods, key } => RowView::Command {
                title: title@,
                enabled,
                equivalent: equivalent@,
                mods,
                key: key@,
            },
        }
    }
}

/// The models of a sequence of rows.
pub open spec fn row_views(rows: Seq<MenuRow>) -> Seq<RowView> {
    rows.map_values(|row: MenuRow| row@)
}

/// The row of an item in the menu that `base` names. Its key packs the path of the item.
pub open spec fn row_of(base: Seq<Seq<char>>, entry: EntryView) -> RowView {
    if entry.is_sep {
        RowView::Separator
    } else if entry.has_submenu {
        RowView::Submenu {
            title: entry.title,
            enabled: entry.enabled,
            key: packed(base.push(entry.title)),
        }
    } else {
        RowView::Command {
            title: entry.title,
            enabled: entry.enabled,
            equivalent: match entry.shortcut {
                Some((key, _)) => key,
                None => Seq::empty(),
            },
            mods: match entry.shortcut {
                Some((_, mods)) => Some(mods),
                None => None,
            },
            key: packed(base.push(entry.title)),
        }
    }
}

fn build_row(base: &[String], entry: &ItemEntry) -> (row: MenuRow)
    ensures
        row@ == row_of(texts(base@), entry@),
{
    if entry.is_sep {
        return MenuRow::Separator;
    }
    let mut path: Vec<String> = Vec::new();
    let mut i: usize = 0;
    while i < base.len()
        invariant
            i <= base.len(),
            path@ == base@.take(i as int),
        decreases base.len() - i,
    {
        path.push(base[i].clone());
        assert(path@ =~= base@.take(i + 1));
        i += 1;
    }
    path.push(entry.title.clone());
    assert(texts(path@) =~= texts(base@).push(entry.title@));
    let key = join_path(path.as_slice());
    let title = entry.title.clone();
    if entry.has_submenu {
        MenuRow::Submenu { title, enabled: entry.enabled, key }
    } else {
        match &entry.shortcut {
            Some(s) => MenuRow::Command {
                title,
                enabled: entry.enabled,
                equivalent: s.key.clone(),
                mods: Some(s.mods),
                key,
            },
            None => MenuRow::Command {
                title,
                enabled: entry.enabled,
                equivalent: String::new(),
                mods: None,
                key,
            },
        }
    }
}

/// The rows of the menu that `base` names: a single title for a menu of the bar, more for a
/// submenu.
pub fn build_menu_items(base: &[String], items: &[ItemEntry]) -> (rows: Vec<MenuRow>)
    ensures
        row_views(rows@) == entry_views(items@).map_values(
            |entry: EntryView| row_of(texts(base@), entry),
        ),
{
    let mut rows: Vec<MenuRow> = Vec::new();
    let mut i: usize = 0;
    while i < items.len()
        invariant
            i <= items.len(),
            rows@.len() == i,
            forall|k: int|
                0 <= k < i ==> (#[trigger] rows@[k])@ == row_of(texts(base@), items@[k]@),
        decreases items.len() - i,
    {
        rows.push(build_row(base, &items[i]));
        i += 1;
    }
    assert(row_views(rows@) =~= entry_views(items@).map_values(
        |entry: EntryView| row_of(texts(base@), entry),
    ));
    rows
}

/// The path that the key of a clicked row or an opening submenu names; empty where there is no
/// key.
pub fn path_of_key(key: &Option<String>) -> (path: Vec<String>)
    ensures
        texts(path@) == (match *key {
            Some(k) => unpacked(k@),
            None => Seq::empty(),
        }),
{
    match key {
        Some(k) => split_path(k.as_str()),
        None => {
            let path: Vec<String> = Vec::new();
            assert(texts(path@) =~= Seq::<Seq<char>>::empty());
            path
        },
    }
}

/// The key of a row names the item that the row shows: unpacked, it is the path of the menu
/// followed by the title of the item, as long as no title holds the separator.
pub proof fn lemma_key_names_its_item(base: Seq<Seq<char>>, entry: EntryView)
    requires
        base.len() > 0,
        forall|i: int| 0 <= i < base.len() ==> !(#[trigger] base[i]).contains(PATH_SEP),
        !entry.title.contains(PATH_SEP),
        !entry.is_sep,
    ensures
        match row_of(base, entry) {
            RowView::Separator => false,
            RowView::Submenu { key, .. } => unpacked(key) == base.push(entry.title),
            RowView::Command { key, .. } => unpacked(key) == base.push(entry.title),
        },
{
    let path = base.push(entry.title);
    assert forall|i: int| 0 <= i < path.len() implies !(#[trigger] path[i]).contains(
        PATH_SEP,
    ) by {
        if i < base.len() {
            assert(path[i] == base[i]);
        }
    }
    assert(path.len() != seq![Seq::<char>::empty()].len());
    lemma_unpack_of_pack(path);
}

/// Clicking a mirrored item fires the real one: the path that the key of its row unpacks to leads
/// to the very item that the row mirrors, at any depth, as long as each title on the way tells its
/// item apart from those before it and none holds the separator.
pub proof fn lemma_row_names_the_real_item(trees: Seq<Tree>, pos: Seq<int>)
    requires
        leads(trees, pos),
        told_apart(trees, pos),
        pos.len() >= 2,
        forall|i: int|
            0 <= i < titles_to(trees, pos).len() ==> !(#[trigger] titles_to(trees, pos)[i]).contains(
                PATH_SEP,
            ),
        !mirrored(tree_at(trees, pos).item).is_sep,
    ensures
        match row_of(titles_to(trees, pos).drop_last(), mirrored(tree_at(trees, pos).item)) {
            RowView::Separator => false,
            RowView::Submenu { key, .. } => named(trees, unpacked(key)) == Some(
                tree_at(trees, pos),
            ),
            RowView::Command { key, .. } => named(trees, unpacked(key)) == Some(
                tree_at(trees, pos),
            ),
        },
{
    let path = titles_to(trees, pos);
    let base = path.drop_last();
    let entry = mirrored(tree_at(trees, pos).item);
    lemma_titles_end_with_its_own(trees, pos);
    assert(base.push(entry.title) =~= path);
    assert forall|i: int| 0 <= i < base.len() implies !(#[trigger] base[i]).contains(PATH_SEP) by {
        assert(base[i] == path[i]);
    }
    assert(!path[path.len() - 1].contains(PATH_SEP));
    lemma_key_names_its_item(base, entry);
    lemma_found_by_its_titles(trees, pos);
}

/// A menu behind the overflow button: the title of its parent row, and its own rows.
#[derive(Debug)]
pub struct OverflowMenu {
    pub title: String,
    pub rows: Vec<MenuRow>,
}

/// What the overflow button opens: each menu from `start` on, with its rows.
pub fn overflow_menus(model: &[TopMenu], start: usize) -> (menus: Vec<OverflowMenu>)
    requires
        start <= model@.len(),
    ensures
        menus@.len() == model@.len() - start,
        forall|k: int|
            0 <= k < menus@.len() ==> (#[trigger] menus@[k]).title@ == model@[start + k]@.title
                && row_views(menus@[k].rows@) == model@[start + k]@.items.map_values(
                |entry: EntryView| row_of(seq![model@[start + k]@.title], entry),
            ),
{
    let mut menus: Vec<OverflowMenu> = Vec::new();
    let mut i = start;
    while i < model.len()
        invariant
            start <= i <= model.len(),
            menus@.len() == i - start,
            forall|k: int|
                0 <= k < menus@.len() ==> (#[trigger] menus@[k]).title@ == model@[start + k]@.title
                    && row_views(menus@[k].rows@) == model@[start + k]@.items.map_values(
                    |entry: EntryView| row_of(seq![model@[start + k]@.title], entry),
                ),
        decreases model.len() - i,
    {
        let rows = menu_of(&model[i]);
        menus.push(OverflowMenu { title: model[i].title.clone(), rows });
        i += 1;
    }
    menus
}

/// The rows of a menu of the bar.
pub fn menu_of(menu: &TopMenu) -> (rows: Vec<MenuRow>)
    ensures
        row_views(rows@) == menu@.items.map_values(
            |entry: EntryView| row_of(seq![menu@.title], entry),
        ),
{
    let mut base: Vec<String> = Vec::new();
    base.push(menu.title.clone());
    assert(texts(base@) =~= seq![menu@.title]);
    build_menu_items(base.as_slice(), menu.items.as_slice())
}

// ---- what is mirrored of a menu bar -----------------------------------------------------------

/// Every menu that has a title is mirrored, but for the Apple menu.
pub proof fn lemma_only_the_apple_menu_is_left_out(title: Seq<char>)
    ensures
        title.len() > 0 ==> (is_mirrored(Some(title)) <==> title != seq!['A', 'p', 'p', 'l', 'e']),
        title.len() == 0 ==> !is_mirrored(Some(title)),
        !is_mirrored(None),
{
    reveal_strlit("Apple");
    assert("Apple"@ =~= seq!['A', 'p', 'p', 'l', 'e']);
}

/// Menus are mirrored in the order of the menu bar: those of some items come before those of the
/// items behind them, and each item gives one menu or none.
pub proof fn lemma_menus_are_mirrored_in_order(tops: Seq<TopView>, behind: Seq<TopView>)
    ensures
        model_of(tops + behind) == model_of(tops) + model_of(behind),
        model_of(tops).len() <= tops.len(),
    decreases tops.len() + behind.len(),
{
    if behind.len() == 0 {
        assert(tops + behind =~= tops);
        assert(model_of(tops) + model_of(behind) =~= model_of(tops));
        if tops.len() > 0 {
            lemma_menus_are_mirrored_in_order(tops.drop_last(), Seq::empty());
        }
    } else {
        lemma_menus_are_mirrored_in_order(tops, behind.drop_last());
        assert((tops + behind).drop_last() =~= tops + behind.drop_last());
        assert(model_of(tops + behind) =~= model_of(tops) + model_of(behind));
    }
}

/// Every menu of the menu bar but the Apple menu is mirrored, with its title and all of its items in
/// their order: each under its own title, and disabled just where it says that it is.
pub proof fn lemma_every_menu_is_mirrored(tops: Seq<TopView>, i: int)
    requires
        0 <= i < tops.len(),
        tops[i].title matches Some(t) && t.len() > 0,
        tops[i].title != Some("Apple"@),
    ensures
        ({
            let k = model_of(tops.take(i)).len() as int;
            let items = tops[i].items;
            &&& k < model_of(tops).len()
            &&& model_of(tops)[k].title == tops[i].title->0
            &&& model_of(tops)[k].items.len() == items.len()
            &&& forall|j: int|
                0 <= j < items.len() ==> {
                    let entry = #[trigger] model_of(tops)[k].items[j];
                    &&& entry == mirrored(items[j])
                    &&& entry.enabled == (items[j].enabled != Some(false))
                    &&& items[j].title is Some ==> entry.title == items[j].title->0
                    &&& entry.is_sep <==> items[j].title is None || items[j].title->0.len() == 0
                }
        }),
{
    let front = tops.take(i);
    let upto = tops.take(i + 1);
    assert(upto.drop_last() =~= front);
    lemma_menus_are_mirrored_in_order(upto, tops.skip(i + 1));
    assert(upto + tops.skip(i + 1) =~= tops);
    let k = model_of(front).len() as int;
    assert(model_of(tops)[k] == model_of(upto)[k]);
}

/// Nothing else is mirrored: an item of the menu bar without a title, and the Apple menu, leave no
/// trace.
pub proof fn lemma_untitled_menu_leaves_no_trace(tops: Seq<TopView>, i: int)
    requires
        0 <= i < tops.len(),
        tops[i].title is None || tops[i].title->0.len() == 0 || tops[i].title == Some("Apple"@),
    ensures
        model_of(tops) == model_of(tops.remove(i)),
{
    let front = tops.take(i);
    let upto = tops.take(i + 1);
    let rear = tops.skip(i + 1);
    assert(upto.drop_last() =~= front);
    lemma_menus_are_mirrored_in_order(upto, rear);
    lemma_menus_are_mirrored_in_order(front, rear);
    assert(upto + rear =~= tops);
    assert(front + rear =~= tops.remove(i));
}

/// The extent of the real menus is no larger than they are: it starts where one of them starts and
/// ends where one of them ends, and there is one just where one of them tells its own.
pub proof fn lemma_span_is_tight(extents: Seq<Option<(i64, i64)>>) -> (ends: (int, int))
    requires
        forall|k: int| 0 <= k < extents.len() ==> extent_fits(#[trigger] extents[k]),
    ensures
        span_of(extents) is None <==> forall|k: int| 0 <= k < extents.len() ==> (#[trigger] extents[k])
            is None,
        span_of(extents) matches Some(span) ==> {
            &&& 0 <= ends.0 < extents.len()
            &&& 0 <= ends.1 < extents.len()
            &&& extents[ends.0] matches Some((x, _)) && x == span.left
            &&& extents[ends.1] matches Some((x, width)) && x + width == span.right
        },
    decreases extents.len(),
{
    if extents.len() == 0 {
        (0, 0)
    } else {
        let front = extents.drop_last();
        let last = extents.len() - 1;
        assert(extent_fits(extents[last]));
        assert forall|k: int| 0 <= k < front.len() implies extent_fits(#[trigger] front[k]) by {
            assert(front[k] == extents[k]);
        }
        let (l, r) = lemma_span_is_tight(front);
        if span_of(front) is None {
            assert forall|k: int| 0 <= k < last implies (#[trigger] extents[k]) is None by {
                assert(front[k] is None);
            }
            assert(span_of(extents) is Some ==> extents[last] is Some);
            (last, last)
        } else {
            assert(extents[l] == front[l]);
            match extents[last] {
                None => (l, r),
                Some((x, width)) => {
                    let before = span_of(front)->0;
                    (
                        if x < before.left {
                            last
                        } else {
                            l
                        },
                        if x + width > before.right {
                            last
                        } else {
                            r
                        },
                    )
                },
            }
        }
    }
}

/// A row shows its item: a separator just where the item has no title, else a row under the item's
/// own title, greyed out just where the item says that it is disabled. It opens a submenu just where
/// the item does, and else has the item's key equivalent, where there is one.
pub proof fn lemma_row_shows_its_item(base: Seq<Seq<char>>, item: ItemView)
    ensures
        match row_of(base, mirrored(item)) {
            RowView::Separator => item.title is None || item.title->0.len() == 0,
            RowView::Submenu { title, enabled, key } => {
                &&& title.len() > 0
                &&& item.title == Some(title)
                &&& enabled == (item.enabled != Some(false))
                &&& item.has_children
                &&& key == packed(base.push(title))
            },
            RowView::Command { title, enabled, equivalent, mods, key } => {
                &&& title.len() > 0
                &&& item.title == Some(title)
                &&& enabled == (item.enabled != Some(false))
                &&& !item.has_children
                &&& key == packed(base.push(title))
                &&& mods is Some <==> (item.cmd_char matches Some(c) && c.len() > 0)
                &&& mods is Some ==> equivalent == lowered(item.cmd_char->0)
                &&& mods is Some ==> mods->0 == modifiers_in(
                    if item.cmd_mods is Some {
                        item.cmd_mods->0
                    } else {
                        0
                    },
                )
                &&& mods is None ==> equivalent.len() == 0
            },
        },
{
}

/// What is modelled of the menu bar is all that was read of it: every item with its title, its own
/// extent and all of its menu's items, none where it has no menu.
pub proof fn lemma_menu_bar_is_modelled_whole(tops: Seq<TopItem>, i: int)
    requires
        0 <= i < tops.len(),
    ensures
        top_views(tops).len() == tops.len(),
        extents_of(tops).len() == tops.len(),
        extents_of(tops)[i] == tops[i].extent,
        top_views(tops)[i].extent == tops[i].extent,
        tops[i].title is Some == top_views(tops)[i].title is Some,
        tops[i].title matches Some(title) ==> top_views(tops)[i].title == Some(title@),
        tops[i].items is None ==> top_views(tops)[i].items.len() == 0,
        tops[i].items matches Some(items) ==> top_views(tops)[i].items.len() == items@.len()
            && forall|j: int|
            0 <= j < items@.len() ==> top_views(tops)[i].items[j] == (#[trigger] items@[j])@,
{
}

/// What is modelled of a mirrored menu is all of it.
pub proof fn lemma_menu_is_modelled_whole(menu: TopMenu)
    ensures
        menu@.title == menu.title@,
        menu@.items.len() == menu.items@.len(),
        forall|j: int| 0 <= j < menu.items@.len() ==> menu@.items[j] == (#[trigger] menu.items@[j])@,
{
}

} // verus!
