//! The index of an application's menu commands, built while its menu tree is read.
//!
//! Reading a menu is slow, so the tree is walked one menu at a time: the walk says which menu to
//! read next, takes its items, and hands out each command as soon as it is known.

use vstd::prelude::*;

use crate::menu::{
    item_views, leads, lemma_found_by_its_titles, named, nonempty, opt_text, shortcut_display,
    shortcut_text, titles_to, told_apart, tree_at, ItemView, MenuItem, Tree,
};
use crate::mirror::{is_mirrored, mirrors};
use crate::text::texts;

verus! {

/// A single leaf menu command.
#[derive(Debug)]
pub struct Command {
    /// The titles on the way to it, such as Format, Font, Bold.
    pub path: Vec<String>,
    pub enabled: bool,
    /// The key equivalent for display.
    pub shortcut: Option<String>,
    /// The help text, if the application has set one.
    pub help: Option<String>,
}

/// The model of a [`Command`].
pub struct CommandView {
    pub path: Seq<Seq<char>>,
    pub enabled: bool,
    pub shortcut: Option<Seq<char>>,
    pub help: Option<Seq<char>>,
}

impl View for Command {
    type V = CommandView;

    open spec fn view(&self) -> CommandView {
        CommandView {
            path: texts(self.path@),
            enabled: self.enabled,
            shortcut: opt_text(self.shortcut),
            help: opt_text(self.help),
        }
    }
}

fn copy_text(s: &Option<String>) -> (copy: Option<String>)
    ensures
        opt_text(copy) == opt_text(*s),
{
    match s {
        Some(s) => Some(s.clone()),
        None => None,
    }
}

/// A copy of a path.
pub(crate) fn copy_path(path: &[String]) -> (copy: Vec<String>)
    ensures
        texts(copy@) == texts(path@),
{
    let mut copy: Vec<String> = Vec::new();
    let mut i: usize = 0;
    while i < path.len()
        invariant
            i <= path.len(),
            copy@ == path@.take(i as int),
        decreases path.len() - i,
    {
        copy.push(path[i].clone());
        assert(copy@ =~= path@.take(i + 1));
        i += 1;
    }
    assert(path@.take(path@.len() as int) =~= path@);
    copy
}

impl Clone for Command {
    fn clone(&self) -> (copy: Self)
        ensures
            copy@ == self@,
    {
        Command {
            path: copy_path(self.path.as_slice()),
            enabled: self.enabled,
            shortcut: copy_text(&self.shortcut),
            help: copy_text(&self.help),
        }
    }
}

/// The models of a sequence of commands.
pub open spec fn command_views(commands: Seq<Command>) -> Seq<CommandView> {
    commands.map_values(|command: Command| command@)
}

/// The index as far as it is built.
#[derive(Debug)]
pub struct IndexState {
    pub commands: Vec<Command>,
    /// Whether the whole tree has been walked.
    pub done: bool,
}

impl Default for IndexState {
    fn default() -> (state: Self)
        ensures
            state.commands@.len() == 0,
            !state.done,
    {
        IndexState { commands: Vec::new(), done: false }
    }
}

impl IndexState {
    /// Takes in a command that the walk has found.
    pub fn add(&mut self, command: Command)
        ensures
            command_views(final(self).commands@) == command_views(old(self).commands@).push(
                command@,
            ),
            final(self).done == old(self).done,
    {
        let ghost before = command_views(self.commands@);
        self.commands.push(command);
        assert(command_views(self.commands@) =~= before.push(command@));
    }

    /// Notes that the walk has come to its end.
    pub fn finish(&mut self)
        ensures
            final(self).commands == old(self).commands,
            final(self).done,
    {
        self.done = true;
    }
}

/// What an item is to the walk.
pub enum Visit {
    /// Nothing: it has no title, or it is the Apple menu.
    Skip,
    /// The parent of the menu with this path.
    Menu(Seq<Seq<char>>),
    /// A command.
    Leaf(CommandView),
}

/// The command that a leaf item below `path` is.
pub open spec fn command_of(item: ItemView, path: Seq<Seq<char>>) -> CommandView {
    CommandView {
        path: path.push(item.title->0),
        enabled: match item.enabled {
            Some(e) => e,
            None => true,
        },
        shortcut: shortcut_text(item.cmd_char, item.cmd_mods),
        help: nonempty(item.help),
    }
}

/// What an item below `path` is; the items of the menu bar itself are below the empty path, and
/// each of them that is mirrored is a menu.
pub open spec fn visit(item: ItemView, path: Seq<Seq<char>>) -> Visit {
    if path.len() == 0 {
        if is_mirrored(item.title) {
            Visit::Menu(seq![item.title->0])
        } else {
            Visit::Skip
        }
    } else if nonempty(item.title) is None {
        Visit::Skip
    } else if item.has_children {
        Visit::Menu(path.push(item.title->0))
    } else {
        Visit::Leaf(command_of(item, path))
    }
}

/// An item that the walk has still to visit, with the path of the menu that it is in.
#[derive(Debug)]
pub struct Pending {
    item: MenuItem,
    path: Vec<String>,
}

/// What the walk needs or has found.
#[derive(Debug)]
pub enum WalkStep {
    /// The items of the menu that the item with this id opens are to be read and fed.
    Read(u64),
    /// A command.
    Found(Command),
    /// The whole tree has been walked.
    Finished,
}

/// A walk through a menu tree, depth first and in menu order.
#[derive(Debug)]
pub struct Walk {
    // What is still to be visited, the next one last.
    stack: Vec<Pending>,
    // The path of the menu that is being read.
    reading: Option<Vec<String>>,
}

/// The first of the items that are not skipped, and all that follow it.
pub open spec fn unskipped(pending: Seq<(ItemView, Seq<Seq<char>>)>) -> Seq<
    (ItemView, Seq<Seq<char>>),
>
    decreases pending.len(),
{
    if pending.len() > 0 && visit(pending[0].0, pending[0].1) is Skip {
        unskipped(pending.drop_first())
    } else {
        pending
    }
}

/// What is to be visited once the items of a menu were fed.
pub open spec fn fed(
    items: Seq<ItemView>,
    path: Seq<Seq<char>>,
    pending: Seq<(ItemView, Seq<Seq<char>>)>,
) -> Seq<(ItemView, Seq<Seq<char>>)> {
    items.map_values(|item: ItemView| (item, path)) + pending
}

impl Walk {
    /// The items that are still to be visited, with the paths of the menus that they are in, in
    /// the order in which they will be.
    pub closed spec fn pending(self) -> Seq<(ItemView, Seq<Seq<char>>)> {
        self.stack@.map_values(|p: Pending| (p.item@, texts(p.path@))).reverse()
    }

    /// The path of the menu that is being read, if one is.
    pub closed spec fn menu_read(self) -> Option<Seq<Seq<char>>> {
        match self.reading {
            Some(path) => Some(texts(path@)),
            None => None,
        }
    }

    /// A walk that is to read the menu bar first.
    pub fn new() -> (walk: Walk)
        ensures
            walk.pending().len() == 0,
            walk.menu_read() == Some(Seq::<Seq<char>>::empty()),
    {
        let path: Vec<String> = Vec::new();
        assert(texts(path@) =~= Seq::<Seq<char>>::empty());
        Walk { stack: Vec::new(), reading: Some(path) }
    }

    /// Takes the items of the menu that was to be read, none if it is gone: they are visited
    /// before all that is pending.
    pub fn feed(&mut self, items: Vec<MenuItem>)
        requires
            old(self).menu_read() is Some,
        ensures
            final(self).menu_read() is None,
            final(self).pending() == item_views(items@).map_values(
                |item: ItemView| (item, old(self).menu_read()->0),
            ) + old(self).pending(),
            final(self).pending() == fed(
                item_views(items@),
                old(self).menu_read()->0,
                old(self).pending(),
            ),
    {
        let ghost path = self.menu_read()->0;
        let ghost fed = item_views(items@);
        let ghost before = self.pending();
        let menu = match self.reading.take() {
            Some(menu) => menu,
            None => return,
        };
        let mut items = items;
        let ghost all = items@;
        while items.len() > 0
            invariant
                texts(menu@) == path,
                fed == item_views(all),
                items@.len() <= all.len(),
                items@ == all.take(items@.len() as int),
                self.reading is None,
                self.pending() == fed.skip(items@.len() as int).map_values(
                    |item: ItemView| (item, path),
                ) + before,
            decreases items@.len(),
        {
            let ghost n = items@.len() - 1;
            let ghost stacked = self.stack@;
            let ghost shown = self.pending();
            match items.pop() {
                Some(item) => {
                    assert(item == all[n]);
                    let next = Pending { item, path: copy_path(menu.as_slice()) };
                    self.stack.push(next);
                    proof {
                        let f = |p: Pending| (p.item@, texts(p.path@));
                        assert(self.stack@.map_values(f) =~= stacked.map_values(f).push(f(next)));
                        assert(self.pending() =~= seq![(fed[n], path)] + shown);
                        let g = |item: ItemView| (item, path);
                        assert(fed.skip(n).map_values(g) =~= seq![g(fed[n])] + fed.skip(
                            n + 1,
                        ).map_values(g));
                        assert(self.pending() =~= fed.skip(n).map_values(g) + before);
                    }
                },
                None => {},
            }
            assert(items@ =~= all.take(items@.len() as int));
        }
        assert(fed.skip(0) =~= fed);
    }

    /// Visits the pending items up to the first that is a command or the parent of a menu.
    pub fn next(&mut self) -> (step: WalkStep)
        requires
            old(self).menu_read() is None,
        ensures
            ({
                let rest = unskipped(old(self).pending());
                if rest.len() == 0 {
                    &&& step is Finished
                    &&& final(self).pending().len() == 0
                    &&& final(self).menu_read() is None
                } else {
                    &&& final(self).pending() == rest.drop_first()
                    &&& match visit(rest[0].0, rest[0].1) {
                        Visit::Skip => false,
                        Visit::Menu(path) => {
                            &&& step == WalkStep::Read(rest[0].0.id)
                            &&& final(self).menu_read() == Some(path)
                        },
                        Visit::Leaf(command) => {
                            &&& step matches WalkStep::Found(found) && found@ == command
                            &&& final(self).menu_read() is None
                        },
                    }
                }
            }),
    {
        let ghost start = self.pending();
        while self.stack.len() > 0
            invariant
                self.reading is None,
                start == old(self).pending(),
                unskipped(self.pending()) == unskipped(start),
            decreases self.stack@.len(),
        {
            let ghost stacked = self.stack@;
            let ghost shown = self.pending();
            match self.stack.pop() {
                None => {},
                Some(next) => {
                    proof {
                        let f = |p: Pending| (p.item@, texts(p.path@));
                        assert(stacked =~= self.stack@.push(next));
                        assert(stacked.map_values(f) =~= self.stack@.map_values(f).push(f(next)));
                        assert(shown.drop_first() =~= self.pending());
                        assert(shown[0] == f(next));
                    }
                    let Pending { item, path } = next;
                    if path.len() == 0 {
                        if mirrors(&item.title) {
                            match item.title {
                                Some(title) => {
                                    let mut menu: Vec<String> = Vec::new();
                                    menu.push(title);
                                    assert(texts(menu@) =~= seq![title@]);
                                    self.reading = Some(menu);
                                    return WalkStep::Read(item.id);
                                },
                                None => {},
                            }
                        }
                    } else {
                        match item.title {
                            Some(title) => {
                                if !title.as_str().is_empty() {
                                    let ghost above = texts(path@);
                                    let mut path = path;
                                    path.push(title);
                                    assert(texts(path@) =~= above.push(title@));
                                    if item.has_children {
                                        self.reading = Some(path);
                                        return WalkStep::Read(item.id);
                                    }
                                    let help = match item.help {
                                        Some(h) => if h.as_str().is_empty() {
                                            None
                                        } else {
                                            Some(h)
                                        },
                                        None => None,
                                    };
                                    let command = Command {
                                        enabled: match item.enabled {
                                            Some(e) => e,
                                            None => true,
                                        },
                                        shortcut: shortcut_display(&item.cmd_char, item.cmd_mods),
                                        help,
                                        path,
                                    };
                                    return WalkStep::Found(command);
                                }
                            },
                            None => {},
                        }
                    }
                    assert(visit(shown[0].0, shown[0].1) is Skip);
                },
            }
        }
        assert(self.pending() =~= Seq::empty());
        WalkStep::Finished
    }
}

// ---- what a walk finds ------------------------------------------------------------------------

/// The commands at and below an item of the menu with this path, in menu order.
pub open spec fn listed(tree: Tree, path: Seq<Seq<char>>) -> Seq<CommandView>
    decreases tree,
{
    match visit(tree.item, path) {
        Visit::Skip => Seq::empty(),
        Visit::Menu(menu) => listed_all(tree.kids, menu),
        Visit::Leaf(command) => seq![command],
    }
}

/// The commands at and below the items of the menu with this path, in menu order.
pub open spec fn listed_all(trees: Seq<Tree>, path: Seq<Seq<char>>) -> Seq<CommandView>
    decreases trees,
{
    if trees.len() == 0 {
        Seq::empty()
    } else {
        listed(trees[0], path) + listed_all(trees.drop_first(), path)
    }
}

/// How many items a tree has.
pub open spec fn weight(tree: Tree) -> nat
    decreases tree,
{
    1 + weight_all(tree.kids)
}

/// How many items the trees have together.
pub open spec fn weight_all(trees: Seq<Tree>) -> nat
    decreases trees,
{
    if trees.len() == 0 {
        0
    } else {
        weight(trees[0]) + weight_all(trees.drop_first())
    }
}

/// How many items there are at and below those that are still to be visited.
pub open spec fn weight_ahead(ahead: Seq<(Tree, Seq<Seq<char>>)>) -> nat
    decreases ahead.len(),
{
    if ahead.len() == 0 {
        0
    } else {
        weight(ahead[0].0) + weight_ahead(ahead.drop_first())
    }
}

/// The trees of a menu, each with the path of the menu.
pub open spec fn in_menu(trees: Seq<Tree>, path: Seq<Seq<char>>) -> Seq<(Tree, Seq<Seq<char>>)> {
    trees.map_values(|tree: Tree| (tree, path))
}

/// Whether a walk has just the items `ahead` still to visit.
pub open spec fn awaits(walk: Walk, ahead: Seq<(Tree, Seq<Seq<char>>)>) -> bool {
    walk.pending() == ahead.map_values(|next: (Tree, Seq<Seq<char>>)| (next.0.item, next.1))
}

/// What a walk finds that has the items `ahead` still to visit, when it is fed the items of each
/// menu that it asks for.
pub open spec fn walked(ahead: Seq<(Tree, Seq<Seq<char>>)>) -> Seq<CommandView>
    decreases weight_ahead(ahead),
{
    proof {
        if ahead.len() > 0 && visit(ahead[0].0.item, ahead[0].1) is Menu {
            lemma_weight_of_menu(
                ahead[0].0.kids,
                visit(ahead[0].0.item, ahead[0].1)->Menu_0,
                ahead.drop_first(),
            );
        }
    }
    if ahead.len() == 0 {
        Seq::empty()
    } else {
        match visit(ahead[0].0.item, ahead[0].1) {
            Visit::Skip => walked(ahead.drop_first()),
            Visit::Menu(menu) => walked(in_menu(ahead[0].0.kids, menu) + ahead.drop_first()),
            Visit::Leaf(command) => seq![command] + walked(ahead.drop_first()),
        }
    }
}

/// Putting the items of a menu before others adds their number.
pub proof fn lemma_weight_of_menu(
    kids: Seq<Tree>,
    path: Seq<Seq<char>>,
    ahead: Seq<(Tree, Seq<Seq<char>>)>,
)
    ensures
        weight_ahead(in_menu(kids, path) + ahead) == weight_all(kids) + weight_ahead(ahead),
    decreases kids.len(),
{
    let all = in_menu(kids, path) + ahead;
    if kids.len() == 0 {
        assert(all =~= ahead);
    } else {
        lemma_weight_of_menu(kids.drop_first(), path, ahead);
        assert(all.drop_first() =~= in_menu(kids.drop_first(), path) + ahead);
        assert(all[0] == (kids[0], path));
    }
}

/// The commands at and below the items `ahead`.
pub open spec fn listed_ahead(ahead: Seq<(Tree, Seq<Seq<char>>)>) -> Seq<CommandView>
    decreases ahead.len(),
{
    if ahead.len() == 0 {
        Seq::empty()
    } else {
        listed(ahead[0].0, ahead[0].1) + listed_ahead(ahead.drop_first())
    }
}

proof fn lemma_listed_of_menu(
    kids: Seq<Tree>,
    path: Seq<Seq<char>>,
    ahead: Seq<(Tree, Seq<Seq<char>>)>,
)
    ensures
        listed_ahead(in_menu(kids, path) + ahead) == listed_all(kids, path) + listed_ahead(ahead),
    decreases kids.len(),
{
    let all = in_menu(kids, path) + ahead;
    if kids.len() == 0 {
        assert(all =~= ahead);
        assert(listed_all(kids, path) + listed_ahead(ahead) =~= listed_ahead(ahead));
    } else {
        lemma_listed_of_menu(kids.drop_first(), path, ahead);
        assert(all.drop_first() =~= in_menu(kids.drop_first(), path) + ahead);
        assert(all[0] == (kids[0], path));
        assert(listed_all(kids, path) + listed_ahead(ahead) =~= listed(kids[0], path) + (listed_all(
            kids.drop_first(),
            path,
        ) + listed_ahead(ahead)));
    }
}

/// A walk finds all commands at and below what it has still to visit, each once and in menu order,
/// and nothing else.
pub proof fn lemma_walk_finds_all(ahead: Seq<(Tree, Seq<Seq<char>>)>)
    ensures
        walked(ahead) == listed_ahead(ahead),
    decreases weight_ahead(ahead),
{
    if ahead.len() > 0 {
        let rest = ahead.drop_first();
        match visit(ahead[0].0.item, ahead[0].1) {
            Visit::Skip => {
                lemma_walk_finds_all(rest);
                assert(walked(ahead) =~= listed_ahead(ahead));
            },
            Visit::Menu(menu) => {
                lemma_weight_of_menu(ahead[0].0.kids, menu, rest);
                lemma_walk_finds_all(in_menu(ahead[0].0.kids, menu) + rest);
                lemma_listed_of_menu(ahead[0].0.kids, menu, rest);
            },
            Visit::Leaf(command) => {
                lemma_walk_finds_all(rest);
            },
        }
    }
}

/// What a walk does at one step is what it finds in the end: where the next item that is not
/// skipped is a command, that command is the first that is found; where it is the parent of a
/// menu, what is found is what is found once the items of that menu have been fed; and where there
/// is none, nothing is found any more.
pub proof fn lemma_step_of_walk(walk: Walk, ahead: Seq<(Tree, Seq<Seq<char>>)>) -> (skipped: int)
    requires
        awaits(walk, ahead),
    ensures
        0 <= skipped <= ahead.len(),
        unskipped(walk.pending()) == ahead.skip(skipped).map_values(
            |next: (Tree, Seq<Seq<char>>)| (next.0.item, next.1),
        ),
        walked(ahead) == walked(ahead.skip(skipped)),
        skipped == ahead.len() ==> walked(ahead) == Seq::<CommandView>::empty(),
        skipped < ahead.len() ==> match visit(ahead[skipped].0.item, ahead[skipped].1) {
            Visit::Skip => false,
            Visit::Menu(menu) => walked(ahead) == walked(
                in_menu(ahead[skipped].0.kids, menu) + ahead.skip(skipped + 1),
            ),
            Visit::Leaf(command) => walked(ahead) == seq![command] + walked(
                ahead.skip(skipped + 1),
            ),
        },
{
    lemma_unskipped(ahead)
}

proof fn lemma_unskipped(ahead: Seq<(Tree, Seq<Seq<char>>)>) -> (skipped: int)
    ensures
        0 <= skipped <= ahead.len(),
        unskipped(
            ahead.map_values(|next: (Tree, Seq<Seq<char>>)| (next.0.item, next.1)),
        ) == ahead.skip(skipped).map_values(
            |next: (Tree, Seq<Seq<char>>)| (next.0.item, next.1),
        ),
        walked(ahead) == walked(ahead.skip(skipped)),
        skipped == ahead.len() ==> walked(ahead) == Seq::<CommandView>::empty(),
        skipped < ahead.len() ==> match visit(ahead[skipped].0.item, ahead[skipped].1) {
            Visit::Skip => false,
            Visit::Menu(menu) => walked(ahead) == walked(
                in_menu(ahead[skipped].0.kids, menu) + ahead.skip(skipped + 1),
            ),
            Visit::Leaf(command) => walked(ahead) == seq![command] + walked(
                ahead.skip(skipped + 1),
            ),
        },
    decreases ahead.len(),
{
    let f = |next: (Tree, Seq<Seq<char>>)| (next.0.item, next.1);
    assert(ahead.skip(0) =~= ahead);
    if ahead.len() == 0 {
        0
    } else if visit(ahead[0].0.item, ahead[0].1) is Skip {
        let rest = ahead.drop_first();
        let n = lemma_unskipped(rest);
        assert(ahead.map_values(f).drop_first() =~= rest.map_values(f));
        assert(rest.skip(n) =~= ahead.skip(n + 1));
        if n < rest.len() {
            assert(rest[n] == ahead[n + 1]);
            assert(rest.skip(n + 1) =~= ahead.skip(n + 2));
        }
        n + 1
    } else {
        assert(ahead.skip(1) =~= ahead.drop_first());
        0
    }
}

/// Where in the tree a listed command comes from: its path is that of the menu followed by the
/// titles on the way.
proof fn lemma_listed_has_place(trees: Seq<Tree>, path: Seq<Seq<char>>, k: int) -> (pos: Seq<int>)
    requires
        0 <= k < listed_all(trees, path).len(),
    ensures
        leads(trees, pos),
        listed_all(trees, path)[k].path == path + titles_to(trees, pos),
        visit(
            tree_at(trees, pos).item,
            listed_all(trees, path)[k].path.drop_last(),
        ) == Visit::Leaf(listed_all(trees, path)[k]),
    decreases trees,
{
    let first = listed(trees[0], path);
    if k < first.len() {
        match visit(trees[0].item, path) {
            Visit::Skip => Seq::empty(),
            Visit::Menu(menu) => {
                let below = lemma_listed_has_place(trees[0].kids, menu, k);
                let pos = seq![0int] + below;
                assert(pos.drop_first() =~= below);
                let title = trees[0].item.title->0;
                assert(menu =~= path.push(title));
                assert(titles_to(trees, pos) =~= seq![title] + titles_to(trees[0].kids, below));
                assert(menu + titles_to(trees[0].kids, below) =~= path + titles_to(trees, pos));
                pos
            },
            Visit::Leaf(command) => {
                let pos = seq![0int];
                assert(pos.drop_first() =~= Seq::<int>::empty());
                let title = trees[0].item.title->0;
                assert(titles_to(trees[0].kids, pos.drop_first()) =~= Seq::empty());
                assert(titles_to(trees, pos) =~= seq![title]);
                assert(command.path =~= path + titles_to(trees, pos));
                assert(command.path.drop_last() =~= path);
                pos
            },
        }
    } else {
        let rest = trees.drop_first();
        let after = lemma_listed_has_place(rest, path, k - first.len());
        let pos = seq![after[0] + 1] + after.drop_first();
        assert(pos.drop_first() =~= after.drop_first());
        assert(rest[after[0]] == trees[pos[0]]);
        assert(titles_to(trees, pos) =~= titles_to(rest, after));
        pos
    }
}

/// What the index lists can be fired: the path of a listed command names the very item that it
/// came from, as long as no title on the way occurs before at the same level.
pub proof fn lemma_listed_command_is_found_again(tops: Seq<Tree>, k: int) -> (pos: Seq<int>)
    requires
        0 <= k < listed_all(tops, Seq::empty()).len(),
    ensures
        leads(tops, pos),
        listed_all(tops, Seq::empty())[k].path == titles_to(tops, pos),
        visit(
            tree_at(tops, pos).item,
            titles_to(tops, pos).drop_last(),
        ) == Visit::Leaf(listed_all(tops, Seq::empty())[k]),
        told_apart(tops, pos) ==> named(tops, listed_all(tops, Seq::empty())[k].path) == Some(
            tree_at(tops, pos),
        ),
{
    let pos = lemma_listed_has_place(tops, Seq::empty(), k);
    assert(Seq::<Seq<char>>::empty() + titles_to(tops, pos) =~= titles_to(tops, pos));
    if told_apart(tops, pos) {
        lemma_found_by_its_titles(tops, pos);
    }
    pos
}

// ---- which commands are listed ----------------------------------------------------------------

/// Where the commands at and below one of the items start among those of all of them.
proof fn lemma_listed_among(trees: Seq<Tree>, path: Seq<Seq<char>>, i: int) -> (start: int)
    requires
        0 <= i < trees.len(),
    ensures
        0 <= start,
        start + listed(trees[i], path).len() <= listed_all(trees, path).len(),
        forall|k: int|
            0 <= k < listed(trees[i], path).len() ==> listed_all(trees, path)[start + k]
                == #[trigger] listed(trees[i], path)[k],
    decreases i,
{
    if i == 0 {
        0
    } else {
        let rest = trees.drop_first();
        assert(rest[i - 1] == trees[i]);
        let after = lemma_listed_among(rest, path, i - 1);
        let start = listed(trees[0], path).len() + after;
        assert forall|k: int| 0 <= k < listed(trees[i], path).len() implies listed_all(trees, path)[
            start + k] == #[trigger] listed(trees[i], path)[k] by {
            assert(listed_all(rest, path)[after + k] == listed(rest[i - 1], path)[k]);
        }
        start
    }
}

/// What leads on from the first item on the way leads to the same items.
proof fn lemma_way_goes_on(trees: Seq<Tree>, pos: Seq<int>, n: int)
    requires
        leads(trees, pos),
        1 <= n < pos.len(),
    ensures
        tree_at(trees[pos[0]].kids, pos.drop_first().take(n)) == tree_at(trees, pos.take(n + 1)),
{
    assert(pos.take(n + 1).drop_first() =~= pos.drop_first().take(n));
}

/// A leaf below the items of a menu is listed, however deep it is.
proof fn lemma_leaf_is_listed(trees: Seq<Tree>, path: Seq<Seq<char>>, pos: Seq<int>) -> (k: int)
    requires
        path.len() > 0,
        leads(trees, pos),
        forall|n: int|
            1 <= n <= pos.len() ==> ((#[trigger] tree_at(
                trees,
                pos.take(n),
            )).item.title matches Some(t) && t.len() > 0),
        forall|n: int|
            1 <= n < pos.len() ==> (#[trigger] tree_at(trees, pos.take(n))).item.has_children,
        !tree_at(trees, pos).item.has_children,
    ensures
        0 <= k < listed_all(trees, path).len(),
        listed_all(trees, path)[k] == command_of(
            tree_at(trees, pos).item,
            path + titles_to(trees, pos).drop_last(),
        ),
        titles_to(trees, pos).len() > 0,
        titles_to(trees, pos).last() == tree_at(trees, pos).item.title->0,
    decreases pos.len(),
{
    let tree = trees[pos[0]];
    let start = lemma_listed_among(trees, path, pos[0]);
    assert(tree_at(trees, pos.take(1)) == tree);
    let title = tree.item.title->0;
    if pos.len() == 1 {
        assert(pos.take(1) =~= pos);
        assert(pos.drop_first() =~= Seq::<int>::empty());
        assert(titles_to(tree.kids, pos.drop_first()) =~= Seq::empty());
        assert(titles_to(trees, pos) =~= seq![title]);
        assert(path + titles_to(trees, pos).drop_last() =~= path);
        assert(listed(tree, path) =~= seq![command_of(tree.item, path)]);
        assert(listed(tree, path)[0] == command_of(tree.item, path));
        start
    } else {
        let rest = pos.drop_first();
        let menu = path.push(title);
        assert forall|n: int| 1 <= n <= rest.len() implies ((#[trigger] tree_at(
            tree.kids,
            rest.take(n),
        )).item.title matches Some(t) && t.len() > 0) by {
            lemma_way_goes_on(trees, pos, n);
        }
        assert forall|n: int| 1 <= n < rest.len() implies (#[trigger] tree_at(
            tree.kids,
            rest.take(n),
        )).item.has_children by {
            lemma_way_goes_on(trees, pos, n);
        }
        let j = lemma_leaf_is_listed(tree.kids, menu, rest);
        let below = titles_to(tree.kids, rest);
        assert(titles_to(trees, pos) =~= seq![title] + below);
        assert(menu + below.drop_last() =~= path + titles_to(trees, pos).drop_last());
        assert(listed(tree, path) == listed_all(tree.kids, menu));
        assert(listed(tree, path)[j] == listed_all(tree.kids, menu)[j]);
        start + j
    }
}

/// The index is complete: every item of the menu bar's menus that opens no submenu is listed, at
/// any depth, as long as it and all the submenus on the way have titles and its menu is not the
/// Apple menu. It is listed with the titles on the way to it, as enabled unless it says that it is
/// not, with its help text, and with its key equivalent.
pub proof fn lemma_every_command_is_listed(tops: Seq<Tree>, pos: Seq<int>) -> (k: int)
    requires
        leads(tops, pos),
        pos.len() >= 2,
        forall|n: int|
            1 <= n <= pos.len() ==> ((#[trigger] tree_at(
                tops,
                pos.take(n),
            )).item.title matches Some(t) && t.len() > 0),
        tops[pos[0]].item.title != Some("Apple"@),
        forall|n: int|
            2 <= n < pos.len() ==> (#[trigger] tree_at(tops, pos.take(n))).item.has_children,
        !tree_at(tops, pos).item.has_children,
    ensures
        0 <= k < listed_all(tops, Seq::empty()).len(),
        ({
            let item = tree_at(tops, pos).item;
            let command = listed_all(tops, Seq::empty())[k];
            &&& command.path == titles_to(tops, pos)
            &&& command.enabled == (item.enabled != Some(false))
            &&& command.help is Some <==> (item.help matches Some(h) && h.len() > 0)
            &&& command.help is Some ==> command.help == item.help
            &&& command.shortcut == shortcut_text(item.cmd_char, item.cmd_mods)
        }),
{
    let top = tops[pos[0]];
    let start = lemma_listed_among(tops, Seq::empty(), pos[0]);
    assert(tree_at(tops, pos.take(1)) == top);
    let title = top.item.title->0;
    let rest = pos.drop_first();
    assert forall|n: int| 1 <= n <= rest.len() implies ((#[trigger] tree_at(
        top.kids,
        rest.take(n),
    )).item.title matches Some(t) && t.len() > 0) by {
        lemma_way_goes_on(tops, pos, n);
    }
    assert forall|n: int| 1 <= n < rest.len() implies (#[trigger] tree_at(
        top.kids,
        rest.take(n),
    )).item.has_children by {
        lemma_way_goes_on(tops, pos, n);
    }
    let j = lemma_leaf_is_listed(top.kids, seq![title], rest);
    let below = titles_to(top.kids, rest);
    assert(titles_to(tops, pos) =~= seq![title] + below);
    let item = tree_at(tops, pos).item;
    assert((seq![title] + below.drop_last()).push(item.title->0) =~= titles_to(tops, pos));
    assert(listed(top, Seq::empty())[j] == listed_all(top.kids, seq![title])[j]);
    start + j
}

/// Where a listed command comes from, among the items of a menu.
proof fn lemma_listed_is_a_leaf(trees: Seq<Tree>, path: Seq<Seq<char>>, k: int) -> (pos: Seq<int>)
    requires
        path.len() > 0,
        0 <= k < listed_all(trees, path).len(),
    ensures
        leads(trees, pos),
        forall|n: int|
            1 <= n <= pos.len() ==> ((#[trigger] tree_at(
                trees,
                pos.take(n),
            )).item.title matches Some(t) && t.len() > 0),
        forall|n: int|
            1 <= n < pos.len() ==> (#[trigger] tree_at(trees, pos.take(n))).item.has_children,
        !tree_at(trees, pos).item.has_children,
        listed_all(trees, path)[k].path == path + titles_to(trees, pos),
    decreases trees,
{
    let first = listed(trees[0], path);
    if k < first.len() {
        let title = trees[0].item.title->0;
        match visit(trees[0].item, path) {
            Visit::Skip => Seq::empty(),
            Visit::Menu(menu) => {
                let below = lemma_listed_is_a_leaf(trees[0].kids, menu, k);
                let pos = seq![0int] + below;
                assert(pos.drop_first() =~= below);
                assert(titles_to(trees, pos) =~= seq![title] + titles_to(trees[0].kids, below));
                assert(path.push(title) + titles_to(trees[0].kids, below) =~= path + titles_to(
                    trees,
                    pos,
                ));
                assert forall|n: int| 1 <= n <= pos.len() implies ((#[trigger] tree_at(
                    trees,
                    pos.take(n),
                )).item.title matches Some(t) && t.len() > 0) && (n < pos.len() ==> tree_at(
                    trees,
                    pos.take(n),
                ).item.has_children) by {
                    if n > 1 {
                        lemma_way_goes_on(trees, pos, n - 1);
                        assert(tree_at(trees[0].kids, below.take(n - 1)).item.title is Some);
                    }
                }
                pos
            },
            Visit::Leaf(command) => {
                let pos = seq![0int];
                assert(pos.drop_first() =~= Seq::<int>::empty());
                assert(titles_to(trees[0].kids, pos.drop_first()) =~= Seq::empty());
                assert(titles_to(trees, pos) =~= seq![title]);
                assert(command.path =~= path + titles_to(trees, pos));
                pos
            },
        }
    } else {
        let rest = trees.drop_first();
        let after = lemma_listed_is_a_leaf(rest, path, k - first.len());
        let pos = seq![after[0] + 1] + after.drop_first();
        assert(pos.drop_first() =~= after.drop_first());
        assert(rest[after[0]] == trees[pos[0]]);
        assert(titles_to(trees, pos) =~= titles_to(rest, after));
        assert forall|n: int| 1 <= n <= pos.len() implies #[trigger] tree_at(trees, pos.take(n))
            == tree_at(rest, after.take(n)) by {
            assert(pos.take(n).drop_first() =~= after.take(n).drop_first());
        }
        assert(pos.take(pos.len() as int) =~= pos && after.take(after.len() as int) =~= after);
        assert(tree_at(trees, pos.take(pos.len() as int)) == tree_at(rest, after));
        pos
    }
}

/// The index lists nothing but commands: each comes from an item at least one level below the menu
/// bar that opens no submenu, in a menu other than the Apple menu, and all titles on the way to it
/// are there.
pub proof fn lemma_only_commands_are_listed(tops: Seq<Tree>, k: int) -> (pos: Seq<int>)
    requires
        0 <= k < listed_all(tops, Seq::empty()).len(),
    ensures
        leads(tops, pos),
        pos.len() >= 2,
        forall|n: int|
            1 <= n <= pos.len() ==> ((#[trigger] tree_at(
                tops,
                pos.take(n),
            )).item.title matches Some(t) && t.len() > 0),
        tops[pos[0]].item.title != Some("Apple"@),
        forall|n: int|
            2 <= n < pos.len() ==> (#[trigger] tree_at(tops, pos.take(n))).item.has_children,
        !tree_at(tops, pos).item.has_children,
        listed_all(tops, Seq::empty())[k].path == titles_to(tops, pos),
    decreases tops.len(),
{
    let none = Seq::<Seq<char>>::empty();
    let first = listed(tops[0], none);
    if k < first.len() {
        let title = tops[0].item.title->0;
        let below = lemma_listed_is_a_leaf(tops[0].kids, seq![title], k);
        let pos = seq![0int] + below;
        assert(pos.drop_first() =~= below);
        assert(titles_to(tops, pos) =~= seq![title] + titles_to(tops[0].kids, below));
        assert forall|n: int| 1 <= n <= pos.len() implies ((#[trigger] tree_at(
            tops,
            pos.take(n),
        )).item.title matches Some(t) && t.len() > 0) && (2 <= n < pos.len() ==> tree_at(
            tops,
            pos.take(n),
        ).item.has_children) by {
            if n > 1 {
                lemma_way_goes_on(tops, pos, n - 1);
                assert(tree_at(tops[0].kids, below.take(n - 1)).item.title is Some);
            }
        }
        pos
    } else {
        let rest = tops.drop_first();
        let after = lemma_only_commands_are_listed(rest, k - first.len());
        let pos = seq![after[0] + 1] + after.drop_first();
        assert(pos.drop_first() =~= after.drop_first());
        assert(rest[after[0]] == tops[pos[0]]);
        assert(titles_to(tops, pos) =~= titles_to(rest, after));
        assert forall|n: int| 1 <= n <= pos.len() implies #[trigger] tree_at(tops, pos.take(n))
            == tree_at(rest, after.take(n)) by {
            assert(pos.take(n).drop_first() =~= after.take(n).drop_first());
        }
        assert(pos.take(pos.len() as int) =~= pos && after.take(after.len() as int) =~= after);
        assert(tree_at(tops, pos.take(pos.len() as int)) == tree_at(rest, after));
        pos
    }
}

/// Commands are listed in menu order, each once: those of some items come before those of the items
/// behind them, an item that opens no submenu gives one at most, and one that does gives just those
/// of its submenu.
pub proof fn lemma_commands_are_listed_in_menu_order(
    trees: Seq<Tree>,
    behind: Seq<Tree>,
    path: Seq<Seq<char>>,
    tree: Tree,
)
    ensures
        listed_all(trees + behind, path) == listed_all(trees, path) + listed_all(behind, path),
        listed_all(seq![tree], path) == listed(tree, path),
        path.len() > 0 && !tree.item.has_children ==> listed(tree, path).len() <= 1,
        path.len() > 0 && tree.item.has_children && (tree.item.title matches Some(t) && t.len() > 0)
            ==> listed(tree, path) == listed_all(tree.kids, path.push(tree.item.title->0)),
    decreases trees.len(),
{
    assert(seq![tree].drop_first() =~= Seq::<Tree>::empty());
    assert(listed_all(seq![tree].drop_first(), path) =~= Seq::empty());
    assert(listed_all(seq![tree], path) =~= listed(tree, path));
    if trees.len() == 0 {
        assert(trees + behind =~= behind);
        assert(listed_all(trees, path) + listed_all(behind, path) =~= listed_all(behind, path));
    } else {
        lemma_commands_are_listed_in_menu_order(trees.drop_first(), behind, path, tree);
        assert((trees + behind).drop_first() =~= trees.drop_first() + behind);
        assert(listed_all(trees + behind, path) =~= listed_all(trees, path) + listed_all(
            behind,
            path,
        ));
    }
}

/// A walk that starts at the menu bar and is fed every menu that it asks for finds just what the
/// index lists.
pub proof fn lemma_walk_lists_the_menu_bar(tops: Seq<Tree>)
    ensures
        walked(in_menu(tops, Seq::empty())) == listed_all(tops, Seq::empty()),
{
    let none = Seq::<(Tree, Seq<Seq<char>>)>::empty();
    let ahead = in_menu(tops, Seq::empty());
    lemma_walk_finds_all(ahead);
    lemma_listed_of_menu(tops, Seq::empty(), none);
    assert(ahead + none =~= ahead);
    assert(listed_all(tops, Seq::empty()) + listed_ahead(none) =~= listed_all(tops, Seq::empty()));
}

/// What an item with a title is, at any depth: it is walked into where it opens a submenu, and
/// listed where it does not; on the menu bar itself it is walked into unless it is the Apple menu.
pub proof fn lemma_no_titled_item_is_skipped(item: ItemView, path: Seq<Seq<char>>)
    requires
        item.title matches Some(t) && t.len() > 0,
    ensures
        path.len() > 0 && item.has_children ==> visit(item, path) == Visit::Menu(
            path.push(item.title->0),
        ),
        path.len() > 0 && !item.has_children ==> (visit(item, path) matches Visit::Leaf(command)
            && command.path == path.push(item.title->0) && command.enabled == (item.enabled != Some(
            false,
        ))),
        path.len() == 0 && item.title != Some("Apple"@) ==> (visit(item, path) matches Visit::Menu(
            menu,
        ) && menu == seq![item.title->0]),
        path.len() == 0 && item.title == Some("Apple"@) ==> visit(item, path) is Skip,
{
}

/// A walk passes over nothing but items without a title and the Apple menu.
pub proof fn lemma_only_untitled_items_are_passed_over(
    pending: Seq<(ItemView, Seq<Seq<char>>)>,
) -> (passed: int)
    ensures
        0 <= passed <= pending.len(),
        unskipped(pending) == pending.skip(passed),
        forall|i: int|
            0 <= i < passed ==> {
                let (item, path) = #[trigger] pending[i];
                ||| item.title is None
                ||| item.title->0.len() == 0
                ||| path.len() == 0 && item.title == Some("Apple"@)
            },
        passed < pending.len() ==> (pending[passed].0.title matches Some(t) && t.len() > 0),
    decreases pending.len(),
{
    if pending.len() > 0 && visit(pending[0].0, pending[0].1) is Skip {
        let rest = pending.drop_first();
        let more = lemma_only_untitled_items_are_passed_over(rest);
        assert(rest.skip(more) =~= pending.skip(more + 1));
        assert forall|i: int| 0 <= i < more + 1 implies {
            let (item, path) = #[trigger] pending[i];
            ||| item.title is None
            ||| item.title->0.len() == 0
            ||| path.len() == 0 && item.title == Some("Apple"@)
        } by {
            if i > 0 {
                assert(rest[i - 1] == pending[i]);
            }
        }
        if more < rest.len() {
            assert(rest[more] == pending[more + 1]);
        }
        more + 1
    } else {
        assert(pending.skip(0) =~= pending);
        0
    }
}

/// A menu that was fed is visited before all that was pending, item by item in its order, and each of
/// its items as one below the path of the menu.
pub proof fn lemma_fed_menu_is_visited_next(
    kids: Seq<Tree>,
    path: Seq<Seq<char>>,
    ahead: Seq<(Tree, Seq<Seq<char>>)>,
)
    ensures
        ({
            let items = kids.map_values(|kid: Tree| kid.item);
            let pending = ahead.map_values(|next: (Tree, Seq<Seq<char>>)| (next.0.item, next.1));
            let all = fed(items, path, pending);
            &&& all == (in_menu(kids, path) + ahead).map_values(
                |next: (Tree, Seq<Seq<char>>)| (next.0.item, next.1),
            )
            &&& all.len() == kids.len() + ahead.len()
            &&& forall|i: int| 0 <= i < kids.len() ==> #[trigger] all[i] == (kids[i].item, path)
            &&& forall|i: int|
                0 <= i < ahead.len() ==> all[kids.len() + i] == (
                    (#[trigger] ahead[i]).0.item,
                    ahead[i].1,
                )
        }),
{
    let items = kids.map_values(|kid: Tree| kid.item);
    let f = |next: (Tree, Seq<Seq<char>>)| (next.0.item, next.1);
    let all = fed(items, path, ahead.map_values(f));
    assert(all =~= (in_menu(kids, path) + ahead).map_values(f));
}

/// What is modelled of a command is all of it.
pub proof fn lemma_command_is_modelled_whole(command: Command)
    ensures
        command@.path.len() == command.path@.len(),
        forall|i: int| 0 <= i < command.path@.len() ==> command@.path[i] == (
        #[trigger] command.path@[i])@,
        command@.enabled == command.enabled,
        command@.shortcut is Some == command.shortcut is Some,
        command.shortcut matches Some(keys) ==> command@.shortcut == Some(keys@),
        command@.help is Some == command.help is Some,
        command.help matches Some(help) ==> command@.help == Some(help@),
{
}

} // verus!
