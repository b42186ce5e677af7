//! Menus as the Accessibility API reports them, item by item, and what is made of them: the
//! mirrored items, the paths that name them, and the search for the item that a path names.

use vstd::prelude::*;

use crate::text::{
    join, joined, lemma_join_of_split, lemma_split_of_join, lower_text, lowered, same_text, split,
    split_on, texts, uppercase_of,
};

verus! {

/// What the Accessibility API reports of one menu item. An attribute is `None` where the item does
/// not have it.
#[derive(Debug)]
pub struct MenuItem {
    /// By which the caller finds the element again.
    pub id: u64,
    pub title: Option<String>,
    pub enabled: Option<bool>,
    /// The key equivalent.
    pub cmd_char: Option<String>,
    /// The modifiers of the key equivalent: Shift 1, Option 2, Control 4, NoCommand 8.
    pub cmd_mods: Option<i64>,
    pub help: Option<String>,
    /// Whether the item has any children, that is, opens a submenu.
    pub has_children: bool,
}

/// The model of a [`MenuItem`].
pub struct ItemView {
    pub id: u64,
    pub title: Option<Seq<char>>,
    pub enabled: Option<bool>,
    pub cmd_char: Option<Seq<char>>,
    pub cmd_mods: Option<i64>,
    pub help: Option<Seq<char>>,
    pub has_children: bool,
}

/// The text of an optional string.
pub open spec fn opt_text(s: Option<String>) -> Option<Seq<char>> {
    match s {
        Some(s) => Some(s@),
        None => None,
    }
}

impl View for MenuItem {
    type V = ItemView;

    open spec fn view(&self) -> ItemView {
        ItemView {
            id: self.id,
            title: opt_text(self.title),
            enabled: self.enabled,
            cmd_char: opt_text(self.cmd_char),
            cmd_mods: self.cmd_mods,
            help: opt_text(self.help),
            has_children: self.has_children,
        }
    }
}

/// The text, unless there is none or it is empty.
pub open spec fn nonempty(text: Option<Seq<char>>) -> Option<Seq<char>> {
    match text {
        Some(t) => if t.len() == 0 {
            None
        } else {
            Some(t)
        },
        None => None,
    }
}

/// The modifier keys of a key equivalent.
#[derive(Debug, Clone, Copy, PartialEq, Eq, Structural)]
pub struct Modifiers {
    pub shift: bool,
    pub option: bool,
    pub control: bool,
    pub command: bool,
}

/// The modifier keys in the Accessibility API's mask (Shift 1, Option 2, Control 4, NoCommand 8):
/// Command is implied unless its bit says otherwise.
pub open spec fn modifiers_in(mask: i64) -> Modifiers {
    Modifiers {
        shift: mask & 1 != 0,
        option: mask & 2 != 0,
        control: mask & 4 != 0,
        command: mask & 8 == 0,
    }
}

/// The modifier keys in the Accessibility API's mask.
pub fn ax_mods_to_ns(mask: i64) -> (mods: Modifiers)
    ensures
        mods == modifiers_in(mask),
{
    Modifiers {
        shift: mask & 1 != 0,
        option: mask & 2 != 0,
        control: mask & 4 != 0,
        command: mask & 8 == 0,
    }
}

/// The key equivalent of a mirrored item.
#[derive(Debug)]
pub struct Shortcut {
    /// The character, in lowercase.
    pub key: String,
    pub mods: Modifiers,
}

/// A mirrored item.
#[derive(Debug)]
pub struct ItemEntry {
    pub title: String,
    pub is_sep: bool,
    pub enabled: bool,
    /// Whether the item opens a submenu rather than firing an action.
    pub has_submenu: bool,
    pub shortcut: Option<Shortcut>,
}

/// The model of an [`ItemEntry`]: its key equivalent is the character and the modifiers.
pub struct EntryView {
    pub title: Seq<char>,
    pub is_sep: bool,
    pub enabled: bool,
    pub has_submenu: bool,
    pub shortcut: Option<(Seq<char>, Modifiers)>,
}

impl View for ItemEntry {
    type V = EntryView;

    open spec fn view(&self) -> EntryView {
        EntryView {
            title: self.title@,
            is_sep: self.is_sep,
            enabled: self.enabled,
            has_submenu: self.has_submenu,
            shortcut: match self.shortcut {
                Some(s) => Some((s.key@, s.mods)),
                None => None,
            },
        }
    }
}

/// How an item is mirrored: one without a title is a separator, one is enabled unless it says
/// otherwise, and a key equivalent is shown in lowercase.
pub open spec fn mirrored(item: ItemView) -> EntryView {
    let title = match item.title {
        Some(t) => t,
        None => Seq::empty(),
    };
    EntryView {
        title,
        is_sep: title.len() == 0,
        enabled: match item.enabled {
            Some(e) => e,
            None => true,
        },
        has_submenu: title.len() != 0 && item.has_children,
        shortcut: match nonempty(item.cmd_char) {
            Some(c) => Some(
                (
                    lowered(c),
                    modifiers_in(
                        match item.cmd_mods {
                            Some(m) => m,
                            None => 0,
                        },
                    ),
                ),
            ),
            None => None,
        },
    }
}

/// The mirrored form of one item.
pub fn read_item(item: &MenuItem) -> (entry: ItemEntry)
    ensures
        entry@ == mirrored(item@),
        entry.enabled == (item.enabled != Some(false)),
        entry.is_sep <==> item.title is None || item.title->0@.len() == 0,
        item.title matches Some(t) ==> entry.title@ == t@,
        entry.has_submenu <==> item.has_children && !entry.is_sep,
        entry.shortcut is Some <==> (item.cmd_char matches Some(c) && c@.len() > 0),
        entry.shortcut matches Some(s) ==> s.key@ == lowered(item.cmd_char->0@),
{
    let title = match &item.title {
        Some(t) => t.clone(),
        None => String::new(),
    };
    let enabled = match item.enabled {
        Some(e) => e,
        None => true,
    };
    let shortcut = match &item.cmd_char {
        Some(c) => if c.as_str().is_empty() {
            None
        } else {
            let mask = match item.cmd_mods {
                Some(m) => m,
                None => 0,
            };
            Some(Shortcut { key: lower_text(c.as_str()), mods: ax_mods_to_ns(mask) })
        },
        None => None,
    };
    let is_sep = title.as_str().is_empty();
    ItemEntry { has_submenu: !is_sep && item.has_children, is_sep, enabled, shortcut, title }
}

/// The models of a sequence of items.
pub open spec fn item_views(items: Seq<MenuItem>) -> Seq<ItemView> {
    items.map_values(|item: MenuItem| item@)
}

/// The models of a sequence of mirrored items.
pub open spec fn entry_views(entries: Seq<ItemEntry>) -> Seq<EntryView> {
    entries.map_values(|entry: ItemEntry| entry@)
}

/// The mirrored items of one level of a menu, in its order.
pub fn read_items(items: &[MenuItem]) -> (entries: Vec<ItemEntry>)
    ensures
        entry_views(entries@) == item_views(items@).map_values(|item: ItemView| mirrored(item)),
{
    let mut entries: Vec<ItemEntry> = Vec::new();
    let mut i: usize = 0;
    while i < items.len()
        invariant
            i <= items.len(),
            entries@.len() == i,
            forall|k: int| 0 <= k < i ==> (#[trigger] entries@[k])@ == mirrored(items@[k]@),
        decreases items.len() - i,
    {
        entries.push(read_item(&items[i]));
        i += 1;
    }
    assert(entry_views(entries@) =~= item_views(items@).map_values(
        |item: ItemView| mirrored(item),
    ));
    entries
}

// ---- paths --------------------------------------------------------------------------------

/// Separates the titles of a path that is packed into one string: a control character that never
/// occurs in a menu title.
pub const PATH_SEP: char = '\u{1f}';

/// A path packed into one string.
pub open spec fn packed(path: Seq<Seq<char>>) -> Seq<char> {
    joined(path, seq![PATH_SEP])
}

/// The path that a string packs; the empty string packs the empty path.
pub open spec fn unpacked(text: Seq<char>) -> Seq<Seq<char>> {
    if text.len() == 0 {
        Seq::empty()
    } else {
        split_on(text, PATH_SEP)
    }
}

/// Packs a path into one string.
pub fn join_path(path: &[String]) -> (text: String)
    ensures
        text@ == packed(texts(path@)),
{
    let mut sep = String::new();
    sep.push(PATH_SEP);
    assert(sep@ =~= seq![PATH_SEP]);
    join(path, sep.as_str())
}

/// Unpacks a path from a string.
pub fn split_path(s: &str) -> (path: Vec<String>)
    ensures
        texts(path@) == unpacked(s@),
{
    if s.is_empty() {
        let path: Vec<String> = Vec::new();
        assert(texts(path@) =~= Seq::<Seq<char>>::empty());
        return path;
    }
    split(s, PATH_SEP)
}

/// A path survives being packed, unless a title of it holds the separator or it is one empty
/// title, which packs like the empty path.
pub proof fn lemma_unpack_of_pack(path: Seq<Seq<char>>)
    requires
        forall|i: int| 0 <= i < path.len() ==> !(#[trigger] path[i]).contains(PATH_SEP),
        path != seq![Seq::<char>::empty()],
    ensures
        unpacked(packed(path)) == path,
{
    if path.len() == 0 {
        assert(unpacked(packed(path)) =~= path);
    } else {
        lemma_split_of_join(path, PATH_SEP);
        if packed(path).len() == 0 {
            assert(packed(path) =~= Seq::empty());
            assert(split_on(packed(path), PATH_SEP) =~= seq![Seq::<char>::empty()]);
        }
    }
}

/// Every string packs some path: packing what was unpacked gives the string back.
pub proof fn lemma_pack_of_unpack(text: Seq<char>)
    ensures
        packed(unpacked(text)) == text,
{
    if text.len() == 0 {
        assert(packed(unpacked(text)) =~= text);
    } else {
        lemma_join_of_split(text, PATH_SEP);
    }
}

// ---- shortcuts for display ------------------------------------------------------------------

/// The sign of a modifier key where it is held, else nothing.
pub open spec fn sign_if(held: bool, sign: char) -> Seq<char> {
    if held {
        seq![sign]
    } else {
        Seq::empty()
    }
}

/// The signs of the modifier keys that are held: Command, Shift, Option, Control.
pub open spec fn mod_signs(mods: Modifiers) -> Seq<char> {
    sign_if(mods.command, '⌘') + sign_if(mods.shift, '⇧') + sign_if(mods.option, '⌥') + sign_if(
        mods.control,
        '⌃',
    )
}

/// The signs of the modifier keys that are held.
pub(crate) fn mod_signs_text(mods: Modifiers) -> (signs: String)
    ensures
        signs@ == mod_signs(mods),
{
    let mut signs = String::new();
    if mods.command {
        signs.push('⌘');
    }
    if mods.shift {
        signs.push('⇧');
    }
    if mods.option {
        signs.push('⌥');
    }
    if mods.control {
        signs.push('⌃');
    }
    assert(signs@ =~= mod_signs(mods));
    signs
}

/// A key equivalent for display, such as `⌘⇧B`: the signs of its modifiers, then the character in
/// uppercase. Nothing where the item has no key equivalent.
pub open spec fn shortcut_text(cmd_char: Option<Seq<char>>, cmd_mods: Option<i64>) -> Option<
    Seq<char>,
> {
    let mods = modifiers_in(
        match cmd_mods {
            Some(m) => m,
            None => 0,
        },
    );
    match nonempty(cmd_char) {
        Some(c) => Some(mod_signs(mods) + uppercase_of(c)),
        None => None,
    }
}

/// A key equivalent for display, from the item's character and modifier mask.
pub fn shortcut_display(cmd_char: &Option<String>, cmd_mods: Option<i64>) -> (res: Option<String>)
    ensures
        opt_text(res) == shortcut_text(opt_text(*cmd_char), cmd_mods),
{
    let c = match cmd_char {
        Some(c) => c,
        None => return None,
    };
    if c.as_str().is_empty() {
        return None;
    }
    let mods = ax_mods_to_ns(
        match cmd_mods {
            Some(m) => m,
            None => 0,
        },
    );
    let mut s = mod_signs_text(mods);
    s.append(c.as_str().to_uppercase().as_str());
    Some(s)
}

// ---- menu trees -------------------------------------------------------------------------------

/// A menu item with the items of the submenu that it opens; none where it opens none.
pub struct Tree {
    pub item: ItemView,
    pub kids: Seq<Tree>,
}

/// The titles of a sequence of trees.
pub open spec fn tree_titles(trees: Seq<Tree>) -> Seq<Option<Seq<char>>> {
    trees.map_values(|tree: Tree| tree.item.title)
}

/// The index of the first title that is `wanted`, or the number of titles.
pub open spec fn first_titled(titles: Seq<Option<Seq<char>>>, wanted: Seq<char>) -> int
    decreases titles.len(),
{
    if titles.len() == 0 || titles[0] == Some(wanted) {
        0
    } else {
        1 + first_titled(titles.drop_first(), wanted)
    }
}

/// The first title that is wanted is at `n` where no earlier title is.
pub proof fn lemma_first_titled(titles: Seq<Option<Seq<char>>>, wanted: Seq<char>, n: int)
    requires
        0 <= n <= titles.len(),
        forall|k: int| 0 <= k < n ==> titles[k] != Some(wanted),
        n < titles.len() ==> titles[n] == Some(wanted),
    ensures
        first_titled(titles, wanted) == n,
    decreases titles.len(),
{
    if n > 0 {
        assert(titles[0] != Some(wanted));
        let rest = titles.drop_first();
        assert forall|k: int| 0 <= k < n - 1 implies rest[k] != Some(wanted) by {
            assert(rest[k] == titles[k + 1]);
        }
        if n < titles.len() {
            assert(rest[n - 1] == titles[n]);
        }
        lemma_first_titled(rest, wanted, n - 1);
    }
}

/// The texts of a sequence of optional titles.
pub open spec fn opt_texts(titles: Seq<Option<String>>) -> Seq<Option<Seq<char>>> {
    titles.map_values(|title: Option<String>| opt_text(title))
}

/// Whether a title is there and is `wanted`.
fn is_titled(title: &Option<String>, wanted: &str) -> (yes: bool)
    ensures
        yes == (opt_text(*title) == Some(wanted@)),
{
    match title {
        Some(t) => same_text(t.as_str(), wanted),
        None => false,
    }
}

/// The first item that has the wanted title, if one has it.
pub fn find_title(titles: &[Option<String>], wanted: &str) -> (found: Option<usize>)
    ensures
        found == (if first_titled(opt_texts(titles@), wanted@) < titles@.len() {
            Some(first_titled(opt_texts(titles@), wanted@) as usize)
        } else {
            None
        }),
{
    let mut i: usize = 0;
    while i < titles.len()
        invariant
            i <= titles.len(),
            forall|k: int| 0 <= k < i ==> opt_texts(titles@)[k] != Some(wanted@),
        decreases titles.len() - i,
    {
        if is_titled(&titles[i], wanted) {
            proof {
                lemma_first_titled(opt_texts(titles@), wanted@, i as int);
            }
            return Some(i);
        }
        i += 1;
    }
    proof {
        lemma_first_titled(opt_texts(titles@), wanted@, titles@.len() as int);
    }
    None
}

// ---- resolving a path against the live tree ---------------------------------------------------

/// What to do next to find the item that a path names.
#[derive(Debug, Clone, Copy, PartialEq, Eq, Structural)]
pub enum Resolve {
    /// No item has the next title of the path.
    Lost,
    /// The path goes on below the item with this index: read the titles of its menu.
    Descend(usize),
    /// The item with this index is the one that the path names.
    Found(usize),
}

/// What to do next where the titles `ahead` are still to be found, level by level, and the items of
/// the current level have the given titles.
pub open spec fn resolved(titles: Seq<Option<Seq<char>>>, ahead: Seq<Seq<char>>) -> Resolve {
    let i = first_titled(titles, ahead[0]);
    if i >= titles.len() {
        Resolve::Lost
    } else if ahead.len() == 1 {
        Resolve::Found(i as usize)
    } else {
        Resolve::Descend(i as usize)
    }
}

/// A search for the item that a path names, one level of the live menu tree at a time.
#[derive(Debug)]
pub struct Resolver {
    path: Vec<String>,
    depth: usize,
}

impl Resolver {
    /// The titles that are still to be found, level by level.
    pub closed spec fn ahead(self) -> Seq<Seq<char>> {
        texts(self.path@).skip(self.depth as int)
    }

    /// Whether a title is still to be found.
    pub closed spec fn wf(self) -> bool {
        self.depth < self.path@.len()
    }

    /// A search for `path` from the menu bar on; `None` for the empty path, which names nothing.
    pub fn new(path: Vec<String>) -> (res: Option<Resolver>)
        ensures
            res is Some == (path@.len() > 0),
            res matches Some(r) ==> r.wf() && r.ahead() == texts(path@),
    {
        if path.len() == 0 {
            return None;
        }
        let resolver = Resolver { path, depth: 0 };
        assert(resolver.ahead() =~= texts(path@));
        Some(resolver)
    }

    /// Takes the titles of the items at the current level, and says where the path goes on.
    pub fn step(&mut self, titles: &[Option<String>]) -> (next: Resolve)
        requires
            old(self).wf(),
        ensures
            old(self).ahead().len() > 0,
            next == resolved(opt_texts(titles@), old(self).ahead()),
            next is Descend ==> final(self).wf() && final(self).ahead()
                == old(self).ahead().drop_first(),
            !(next is Descend) ==> *final(self) == *old(self),
    {
        assert(self.ahead()[0] == self.path@[self.depth as int]@);
        let levels = self.path.len();
        match find_title(titles, self.path[self.depth].as_str()) {
            None => Resolve::Lost,
            Some(i) => if self.depth + 1 == levels {
                Resolve::Found(i)
            } else {
                self.depth = self.depth + 1;
                assert(self.ahead() =~= old(self).ahead().drop_first());
                Resolve::Descend(i)
            },
        }
    }
}

/// Whether an item that was found may be pressed: not where it says, right before the press, that
/// it is disabled.
pub fn may_press(enabled: Option<bool>) -> (yes: bool)
    ensures
        yes == (enabled != Some(false)),
{
    match enabled {
        Some(enabled) => enabled,
        None => true,
    }
}

/// The item that a path names among `trees`: at each level the first one with the title, and from
/// there on in the items that it opens.
pub open spec fn named(trees: Seq<Tree>, path: Seq<Seq<char>>) -> Option<Tree>
    decreases path.len(),
{
    if path.len() == 0 {
        None
    } else {
        let i = first_titled(tree_titles(trees), path[0]);
        if i >= trees.len() {
            None
        } else if path.len() == 1 {
            Some(trees[i])
        } else {
            named(trees[i].kids, path.drop_first())
        }
    }
}

/// A search finds just the item that the path names: where a step is lost, the path names nothing;
/// where it finds an item, that is the one; and where it descends, the path names what the rest of
/// it names among the items of the menu to which it descends.
pub proof fn lemma_step_of_search(trees: Seq<Tree>, path: Seq<Seq<char>>)
    requires
        path.len() > 0,
        trees.len() <= usize::MAX,
    ensures
        match resolved(tree_titles(trees), path) {
            Resolve::Lost => named(trees, path) is None,
            Resolve::Found(i) => i < trees.len() && path.len() == 1 && named(trees, path) == Some(
                trees[i as int],
            ),
            Resolve::Descend(i) => i < trees.len() && path.len() > 1 && named(trees, path) == named(
                trees[i as int].kids,
                path.drop_first(),
            ),
        },
{
    lemma_first_titled_bears(tree_titles(trees), path[0]);
}

/// Only an item that bears the last title of a path is ever found for it.
pub proof fn lemma_named_bears_title(trees: Seq<Tree>, path: Seq<Seq<char>>)
    requires
        named(trees, path) is Some,
    ensures
        path.len() > 0,
        named(trees, path)->0.item.title == Some(path.last()),
    decreases path.len(),
{
    let i = first_titled(tree_titles(trees), path[0]);
    lemma_first_titled_bears(tree_titles(trees), path[0]);
    if path.len() > 1 {
        lemma_named_bears_title(trees[i].kids, path.drop_first());
    } else {
        assert(tree_titles(trees)[i] == trees[i].item.title);
    }
}

/// What is found bears the wanted title, and nothing before it does.
pub proof fn lemma_first_titled_bears(titles: Seq<Option<Seq<char>>>, wanted: Seq<char>)
    ensures
        0 <= first_titled(titles, wanted) <= titles.len(),
        first_titled(titles, wanted) < titles.len() ==> titles[first_titled(titles, wanted)]
            == Some(wanted),
        forall|k: int| 0 <= k < first_titled(titles, wanted) ==> titles[k] != Some(wanted),
    decreases titles.len(),
{
    if titles.len() > 0 && titles[0] != Some(wanted) {
        lemma_first_titled_bears(titles.drop_first(), wanted);
        let n = first_titled(titles.drop_first(), wanted);
        assert forall|k: int| 0 <= k < n + 1 implies titles[k] != Some(wanted) by {
            if k > 0 {
                assert(titles.drop_first()[k - 1] == titles[k]);
            }
        }
    }
}

/// Whether `pos` leads from level to level to an item of the trees.
pub open spec fn leads(trees: Seq<Tree>, pos: Seq<int>) -> bool
    decreases pos.len(),
{
    &&& pos.len() > 0
    &&& 0 <= pos[0] < trees.len()
    &&& pos.len() > 1 ==> leads(trees[pos[0]].kids, pos.drop_first())
}

/// The item to which `pos` leads.
pub open spec fn tree_at(trees: Seq<Tree>, pos: Seq<int>) -> Tree
    decreases pos.len(),
{
    if pos.len() <= 1 {
        trees[pos[0]]
    } else {
        tree_at(trees[pos[0]].kids, pos.drop_first())
    }
}

/// The titles of the items on the way to which `pos` leads, that one included.
pub open spec fn titles_to(trees: Seq<Tree>, pos: Seq<int>) -> Seq<Seq<char>>
    decreases pos.len(),
{
    if pos.len() == 0 {
        Seq::empty()
    } else {
        seq![trees[pos[0]].item.title->0] + titles_to(trees[pos[0]].kids, pos.drop_first())
    }
}

/// Whether every item on the way has a title that no item before it at the same level has.
pub open spec fn told_apart(trees: Seq<Tree>, pos: Seq<int>) -> bool
    decreases pos.len(),
{
    pos.len() > 0 ==> {
        &&& trees[pos[0]].item.title is Some
        &&& forall|j: int|
            0 <= j < pos[0] ==> (#[trigger] trees[j]).item.title != trees[pos[0]].item.title
        &&& told_apart(trees[pos[0]].kids, pos.drop_first())
    }
}

/// An item is found again by the titles on the way to it, where each of them tells its item apart
/// from those before it.
pub proof fn lemma_found_by_its_titles(trees: Seq<Tree>, pos: Seq<int>)
    requires
        leads(trees, pos),
        told_apart(trees, pos),
    ensures
        named(trees, titles_to(trees, pos)) == Some(tree_at(trees, pos)),
    decreases pos.len(),
{
    let path = titles_to(trees, pos);
    let title = trees[pos[0]].item.title->0;
    assert(path[0] == title);
    assert(path.drop_first() =~= titles_to(trees[pos[0]].kids, pos.drop_first()));
    assert forall|k: int| 0 <= k < pos[0] implies tree_titles(trees)[k] != Some(title) by {
        assert(trees[k].item.title != trees[pos[0]].item.title);
    }
    lemma_first_titled(tree_titles(trees), title, pos[0]);
    if pos.len() > 1 {
        lemma_found_by_its_titles(trees[pos[0]].kids, pos.drop_first());
        assert(titles_to(trees[pos[0]].kids, pos.drop_first()).len() > 0);
    } else {
        assert(pos.drop_first() =~= Seq::<int>::empty());
        assert(path =~= seq![title]);
    }
}

/// The titles on the way to an item end with its own.
pub proof fn lemma_titles_end_with_its_own(trees: Seq<Tree>, pos: Seq<int>)
    requires
        leads(trees, pos),
        told_apart(trees, pos),
    ensures
        titles_to(trees, pos).len() == pos.len(),
        tree_at(trees, pos).item.title == Some(titles_to(trees, pos).last()),
    decreases pos.len(),
{
    if pos.len() > 1 {
        let kids = trees[pos[0]].kids;
        lemma_titles_end_with_its_own(kids, pos.drop_first());
        assert(titles_to(trees, pos).last() == titles_to(kids, pos.drop_first()).last());
    } else {
        let kids = trees[pos[0]].kids;
        assert(titles_to(kids, pos.drop_first()) =~= Seq::<Seq<char>>::empty());
        assert(titles_to(trees, pos) =~= seq![trees[pos[0]].item.title->0]);
    }
}

// ---- what is mirrored of an item --------------------------------------------------------------

/// An item is mirrored faithfully: disabled just where it says that it is, a separator just where
/// it has no title, under its own title, opening a submenu just where it does, and with a key
/// equivalent just where it has one.
pub proof fn lemma_item_is_mirrored_faithfully(item: ItemView)
    ensures
        !mirrored(item).enabled <==> item.enabled == Some(false),
        mirrored(item).is_sep <==> item.title is None || item.title->0.len() == 0,
        item.title is Some ==> mirrored(item).title == item.title->0,
        item.title is None ==> mirrored(item).title.len() == 0,
        !mirrored(item).is_sep ==> mirrored(item).has_submenu == item.has_children,
        mirrored(item).is_sep ==> !mirrored(item).has_submenu,
        mirrored(item).shortcut is Some <==> (item.cmd_char matches Some(c) && c.len() > 0),
        mirrored(item).shortcut matches Some((key, _)) ==> key == lowered(item.cmd_char->0),
{
}

/// How an item is mirrored depends on nothing that it does not show: a different identity or help
/// text changes nothing, and each attribute decides its own part alone.
pub proof fn lemma_attributes_are_mirrored_apart(item: ItemView, other: ItemView)
    ensures
        item.enabled == other.enabled ==> mirrored(item).enabled == mirrored(other).enabled,
        item.title == other.title ==> mirrored(item).title == mirrored(other).title && mirrored(
            item,
        ).is_sep == mirrored(other).is_sep,
        item.cmd_char == other.cmd_char && item.cmd_mods == other.cmd_mods ==> mirrored(
            item,
        ).shortcut == mirrored(other).shortcut,
        item.title == other.title && item.has_children == other.has_children ==> mirrored(
            item,
        ).has_submenu == mirrored(other).has_submenu,
{
}

/// The modifier mask reads as a sum: one for Shift, two for Option, four for Control, and eight
/// where Command is not held.
pub proof fn lemma_mask_is_a_sum(shift: bool, option: bool, control: bool, command: bool, mask: i64)
    requires
        mask == (if shift {
            1int
        } else {
            0
        }) + (if option {
            2int
        } else {
            0
        }) + (if control {
            4int
        } else {
            0
        }) + (if command {
            0int
        } else {
            8
        }),
    ensures
        modifiers_in(mask) == (Modifiers { shift, option, control, command }),
{
    assert(forall|m: i64|
        #![trigger m & 1]
        0 <= m < 16 ==> (m & 1 != 0) == (m == 1 || m == 3 || m == 5 || m == 7 || m == 9 || m == 11 || m
            == 13 || m == 15)) by (bit_vector);
    assert(forall|m: i64|
        #![trigger m & 2]
        0 <= m < 16 ==> (m & 2 != 0) == (m == 2 || m == 3 || m == 6 || m == 7 || m == 10 || m == 11 || m
            == 14 || m == 15)) by (bit_vector);
    assert(forall|m: i64|
        #![trigger m & 4]
        0 <= m < 16 ==> (m & 4 != 0) == (4 <= m < 8 || 12 <= m)) by (bit_vector);
    assert(forall|m: i64| #![trigger m & 8] 0 <= m < 16 ==> (m & 8 == 0) == (m < 8)) by (bit_vector);
}

/// An item without a modifier mask has Command alone, in its mirrored key equivalent and on display.
pub proof fn lemma_command_is_implied(item: ItemView)
    requires
        item.cmd_char matches Some(c) && c.len() > 0,
        item.cmd_mods is None || item.cmd_mods == Some(0i64),
    ensures
        mirrored(item).shortcut == Some(
            (
                lowered(item.cmd_char->0),
                Modifiers { shift: false, option: false, control: false, command: true },
            ),
        ),
        shortcut_text(item.cmd_char, item.cmd_mods) == Some(
            seq!['⌘'] + uppercase_of(item.cmd_char->0),
        ),
{
    lemma_mask_is_a_sum(false, false, false, true, 0);
    lemma_signs_are_those_held(modifiers_in(0));
    assert(mod_signs(modifiers_in(0)) =~= seq!['⌘']);
}

/// The place of a modifier sign among the signs.
pub open spec fn sign_rank(sign: char) -> int {
    if sign == '⌘' {
        0
    } else if sign == '⇧' {
        1
    } else if sign == '⌥' {
        2
    } else {
        3
    }
}

/// The signs are those of the keys that are held, each once: Command before Shift before Option
/// before Control.
pub proof fn lemma_signs_are_those_held(mods: Modifiers)
    ensures
        mod_signs(mods).contains('⌘') <==> mods.command,
        mod_signs(mods).contains('⇧') <==> mods.shift,
        mod_signs(mods).contains('⌥') <==> mods.option,
        mod_signs(mods).contains('⌃') <==> mods.control,
        forall|i: int|
            0 <= i < mod_signs(mods).len() ==> {
                let sign = #[trigger] mod_signs(mods)[i];
                sign == '⌘' || sign == '⇧' || sign == '⌥' || sign == '⌃'
            },
        forall|i: int, j: int|
            0 <= i < j < mod_signs(mods).len() ==> sign_rank(#[trigger] mod_signs(mods)[i])
                < sign_rank(#[trigger] mod_signs(mods)[j]),
{
    let signs = mod_signs(mods);
    let c: int = if mods.command {
        1
    } else {
        0
    };
    let s: int = if mods.shift {
        1
    } else {
        0
    };
    let o: int = if mods.option {
        1
    } else {
        0
    };
    if mods.command {
        assert(signs[0] == '⌘');
    }
    if mods.shift {
        assert(signs[c] == '⇧');
    }
    if mods.option {
        assert(signs[c + s] == '⌥');
    }
    if mods.control {
        assert(signs[c + s + o] == '⌃');
    }
}

/// A key equivalent is displayed just where there is one: it ends with the character in uppercase,
/// and before that stand the signs of its modifiers, Command unless the mask says otherwise.
pub proof fn lemma_shortcut_is_displayed(cmd_char: Option<Seq<char>>, cmd_mods: Option<i64>)
    ensures
        shortcut_text(cmd_char, cmd_mods) is Some <==> (cmd_char matches Some(c) && c.len() > 0),
        shortcut_text(cmd_char, cmd_mods) matches Some(text) ==> {
            let mods = modifiers_in(
                if cmd_mods is Some {
                    cmd_mods->0
                } else {
                    0
                },
            );
            let key = uppercase_of(cmd_char->0);
            &&& text.len() >= key.len()
            &&& text.skip(text.len() - key.len()) == key
            &&& text.take(text.len() - key.len()) == mod_signs(mods)
        },
{
    if shortcut_text(cmd_char, cmd_mods) is Some {
        let text = shortcut_text(cmd_char, cmd_mods)->0;
        let key = uppercase_of(cmd_char->0);
        let mods = modifiers_in(
            if cmd_mods is Some {
                cmd_mods->0
            } else {
                0
            },
        );
        assert(text.skip(text.len() - key.len()) =~= key);
        assert(text.take(text.len() - key.len()) =~= mod_signs(mods));
    }
}

/// A step of a search looks for the next title alone: it is lost just where no item has that title,
/// it takes the first item that has it, and it ends there just where no further title is ahead.
pub proof fn lemma_step_takes_the_first_of_its_title(
    titles: Seq<Option<Seq<char>>>,
    ahead: Seq<Seq<char>>,
)
    requires
        ahead.len() > 0,
        titles.len() <= usize::MAX,
    ensures
        resolved(titles, ahead) is Lost <==> !titles.contains(Some(ahead[0])),
        resolved(titles, ahead) is Found ==> ahead.len() == 1,
        resolved(titles, ahead) is Descend ==> ahead.len() > 1,
        ({
            let at = match resolved(titles, ahead) {
                Resolve::Lost => titles.len() as int,
                Resolve::Found(i) => i as int,
                Resolve::Descend(i) => i as int,
            };
            &&& at < titles.len() ==> titles[at] == Some(ahead[0])
            &&& forall|k: int| 0 <= k < at ==> titles[k] != Some(ahead[0])
        }),
{
    lemma_first_titled_bears(titles, ahead[0]);
    let i = first_titled(titles, ahead[0]);
    if i < titles.len() {
        assert(titles[i] == Some(ahead[0]));
    }
}

/// A path names an item just where there is one for each of its titles, level by level: it names
/// what the rest of it names below the first item that has its first title.
pub proof fn lemma_path_is_followed(trees: Seq<Tree>, path: Seq<Seq<char>>, i: int)
    requires
        path.len() > 0,
        0 <= i < trees.len(),
        trees[i].item.title == Some(path[0]),
        forall|k: int| 0 <= k < i ==> (#[trigger] trees[k]).item.title != Some(path[0]),
    ensures
        path.len() == 1 ==> named(trees, path) == Some(trees[i]),
        path.len() > 1 ==> named(trees, path) == named(trees[i].kids, path.skip(1)),
{
    let titles = tree_titles(trees);
    assert forall|k: int| 0 <= k < i implies titles[k] != Some(path[0]) by {
        assert(trees[k].item.title != Some(path[0]));
    }
    lemma_first_titled(titles, path[0], i);
    assert(path.skip(1) =~= path.drop_first());
}

/// Only the last four bits of a modifier mask count.
pub proof fn lemma_other_bits_do_not_count(mask: i64)
    ensures
        0 <= mask & 15 <= 15,
        modifiers_in(mask) == modifiers_in(mask & 15),
{
    assert(0 <= mask & 15 <= 15 && (mask & 15) & 1 == mask & 1 && (mask & 15) & 2 == mask & 2 && (
    mask & 15) & 4 == mask & 4 && (mask & 15) & 8 == mask & 8) by (bit_vector);
}

/// A path whose first title no item has names nothing, and neither does the empty path.
pub proof fn lemma_unknown_title_names_nothing(trees: Seq<Tree>, path: Seq<Seq<char>>)
    requires
        path.len() > 0 ==> forall|k: int|
            0 <= k < trees.len() ==> (#[trigger] trees[k]).item.title != Some(path[0]),
    ensures
        named(trees, path) is None,
{
    if path.len() > 0 {
        let titles = tree_titles(trees);
        assert forall|k: int| 0 <= k < trees.len() implies titles[k] != Some(path[0]) by {
            assert(trees[k].item.title != Some(path[0]));
        }
        lemma_first_titled(titles, path[0], trees.len() as int);
    }
}

/// What is modelled of an item is all that was read of it.
pub proof fn lemma_item_is_modelled_whole(item: MenuItem, entry: ItemEntry)
    ensures
        item@.id == item.id,
        item@.enabled == item.enabled,
        item@.cmd_mods == item.cmd_mods,
        item@.has_children == item.has_children,
        item@.title is Some == item.title is Some,
        item.title matches Some(title) ==> item@.title == Some(title@),
        item@.cmd_char is Some == item.cmd_char is Some,
        item.cmd_char matches Some(c) ==> item@.cmd_char == Some(c@),
        item@.help is Some == item.help is Some,
        item.help matches Some(help) ==> item@.help == Some(help@),
        entry@.title == entry.title@,
        entry@.is_sep == entry.is_sep,
        entry@.enabled == entry.enabled,
        entry@.has_submenu == entry.has_submenu,
        entry@.shortcut is Some == entry.shortcut is Some,
        entry.shortcut matches Some(s) ==> entry@.shortcut == Some((s.key@, s.mods)),
{
}

} // verus!
