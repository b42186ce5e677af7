//! The command palette: which commands match what is typed, in which order they are listed, and
//! where the panel and its parts go.

use vstd::prelude::*;

use crate::fuzzy::{
    can_fuzzy_score, fuzzy, fuzzy_scorable, fuzzy_score, is_subsequence,
    lemma_longer_query_matches_less, lemma_ordinary_texts_can_be_scored,
    lemma_query_matches_iff_it_occurs, lemma_score_bounds, places,
};
use crate::geometry::{fits, Point, Rect, Size, LIMIT, POINT};
use crate::index::{command_views, copy_path, Command, CommandView};
use crate::menu::opt_text;
use crate::text::{
    all_ascii, join, joined, lemma_joined_holds_every_part, lemma_joined_part_by_part, lowered, texts,
};

verus! {

/// How many results are listed at most.
pub const MAX_RESULTS: usize = 12;

// ---- matching ---------------------------------------------------------------------------------

/// The last title of a path.
pub open spec fn leaf_of(path: Seq<Seq<char>>) -> Seq<char> {
    if path.len() == 0 {
        Seq::empty()
    } else {
        path.last()
    }
}

/// The titles of a path with spaces between them.
pub open spec fn spelled(path: Seq<Seq<char>>) -> Seq<char> {
    joined(path, seq![' '])
}

/// The score of a command: that of its own title and a hundred more, or, where that does not
/// match, that of its whole path and twenty less.
pub open spec fn command_score(query: Seq<char>, path: Seq<Seq<char>>) -> Option<int> {
    match fuzzy(query, leaf_of(path)) {
        Some(s) => Some(s + 100),
        None => match fuzzy(query, spelled(path)) {
            Some(s) => Some(s - 20),
            None => None,
        },
    }
}

/// Whether the score of a command fits a machine integer.
pub open spec fn command_scorable(query: Seq<char>, path: Seq<Seq<char>>) -> bool {
    &&& fuzzy_scorable(query, leaf_of(path))
    &&& fuzzy(query, leaf_of(path)) is None ==> fuzzy_scorable(query, spelled(path))
}

/// A command whose own title matches outranks one that matches by its whole path only, as long as
/// the lowercase of the query and the title are short enough that no run of hits makes up for the
/// difference.
pub proof fn lemma_leaf_match_outranks_path_match(
    query: Seq<char>,
    path: Seq<Seq<char>>,
    other: Seq<Seq<char>>,
)
    requires
        fuzzy(query, leaf_of(path)) is Some,
        fuzzy(query, leaf_of(other)) is None,
        command_score(query, other) is Some,
        13 * lowered(query).len() + leaf_of(path).len() as int / 10 < 125 + spelled(
            other,
        ).len() as int / 10,
    ensures
        command_score(query, path)->0 > command_score(query, other)->0,
{
    let q = lowered(query);
    lemma_score_bounds(q, leaf_of(path), lowered(leaf_of(path)));
    lemma_score_bounds(q, spelled(other), lowered(spelled(other)));
}

/// For an ASCII query of up to eight characters, a command whose own title matches and has up to two
/// hundred characters outranks every command whose own title does not match.
pub proof fn lemma_short_query_prefers_own_title(
    query: Seq<char>,
    path: Seq<Seq<char>>,
    other: Seq<Seq<char>>,
)
    requires
        all_ascii(query),
        query.len() <= 8,
        fuzzy(query, leaf_of(path)) is Some,
        leaf_of(path).len() <= 200,
        fuzzy(query, leaf_of(other)) is None,
        command_score(query, other) is Some,
    ensures
        command_score(query, path) is Some,
        command_score(query, path)->0 > command_score(query, other)->0,
{
    assert(lowered(query).len() == query.len());
    lemma_leaf_match_outranks_path_match(query, path, other);
}

/// Typing on only narrows the results: a command that matches a longer query matches what was typed
/// before, provided that the lowercase of the longer query starts with that of the shorter.
pub proof fn lemma_typing_on_narrows(query: Seq<char>, longer: Seq<char>, path: Seq<Seq<char>>)
    requires
        lowered(query).is_prefix_of(lowered(longer)),
        command_score(longer, path) is Some,
    ensures
        command_score(query, path) is Some,
{
    let q = lowered(query);
    let l = lowered(longer);
    if fuzzy(longer, leaf_of(path)) is Some {
        lemma_longer_query_matches_less(q, l, leaf_of(path), lowered(leaf_of(path)));
    } else {
        lemma_longer_query_matches_less(q, l, spelled(path), lowered(spelled(path)));
    }
}

/// Typing on in ASCII only narrows the results: a command that matches a longer query matches what
/// was typed before.
pub proof fn lemma_typing_on_in_ascii_narrows(
    query: Seq<char>,
    longer: Seq<char>,
    path: Seq<Seq<char>>,
)
    requires
        all_ascii(longer),
        query.is_prefix_of(longer),
        command_score(longer, path) is Some,
    ensures
        command_score(query, path) is Some,
{
    assert forall|i: int| 0 <= i < query.len() implies #[trigger] query[i] == longer[i] by {}
    assert(all_ascii(query));
    assert(lowered(query).is_prefix_of(lowered(longer))) by {
        assert(lowered(query) =~= lowered(longer).take(query.len() as int));
    }
    lemma_typing_on_narrows(query, longer, path);
}

fn leaf_text(command: &Command) -> (leaf: String)
    ensures
        leaf@ == leaf_of(command@.path),
{
    let n = command.path.len();
    if n == 0 {
        String::new()
    } else {
        command.path[n - 1].clone()
    }
}

fn path_text(command: &Command) -> (text: String)
    ensures
        text@ == spelled(command@.path),
{
    proof {
        reveal_strlit(" ");
        assert(" "@ =~= seq![' ']);
    }
    join(command.path.as_slice(), " ")
}

/// Scores a command for a query: prefers a match of its own title, falls back to its whole path.
pub fn match_command(query: &str, command: &Command) -> (res: Option<i64>)
    requires
        command_scorable(query@, command@.path),
    ensures
        res is Some == command_score(query@, command@.path) is Some,
        res matches Some(s) ==> s as int == command_score(query@, command@.path)->0,
        query@.len() == 0 ==> res == Some(100i64),
        res is Some <==> {
            ||| command.path@.len() > 0 && is_subsequence(
                lowered(query@),
                lowered(command.path@.last()@),
            )
            ||| is_subsequence(lowered(query@), lowered(joined(texts(command.path@), seq![' '])))
        },
{
    proof {
        lemma_titles_and_path_are_searched(query@, command@.path);
        if command.path@.len() > 0 {
            assert(command@.path.last() == command.path@.last()@);
        }
    }
    let leaf = leaf_text(command);
    proof {
        lemma_score_bounds(lowered(query@), leaf@, lowered(leaf@));
    }
    match fuzzy_score(query, leaf.as_str()) {
        Some(s) => {
            return Some(s + 100);
        },
        None => {},
    }
    let text = path_text(command);
    proof {
        lemma_score_bounds(lowered(query@), text@, lowered(text@));
    }
    match fuzzy_score(query, text.as_str()) {
        Some(s) => Some(s - 20),
        None => None,
    }
}

fn can_match(query: &str, command: &Command) -> (yes: bool)
    ensures
        yes == command_scorable(query@, command@.path),
{
    let leaf = leaf_text(command);
    if !can_fuzzy_score(query, leaf.as_str()) {
        return false;
    }
    match fuzzy_score(query, leaf.as_str()) {
        Some(_) => true,
        None => can_fuzzy_score(query, path_text(command).as_str()),
    }
}

// ---- ranking ----------------------------------------------------------------------------------

/// Whether the item `i` is listed before the item `j`: it scores more, or as much and comes first.
pub open spec fn ranks_before(scores: Seq<Option<int>>, i: int, j: int) -> bool {
    scores[i]->0 > scores[j]->0 || (scores[i]->0 == scores[j]->0 && i < j)
}

/// Whether `order` lists just the items that have a score, the best first, and items with the same
/// score in their own order.
pub open spec fn is_ranking(scores: Seq<Option<int>>, order: Seq<int>) -> bool {
    &&& forall|a: int| 0 <= a < order.len() ==> 0 <= #[trigger] order[a] < scores.len()
    &&& forall|a: int| 0 <= a < order.len() ==> scores[#[trigger] order[a]] is Some
    &&& forall|i: int|
        0 <= i < scores.len() && (#[trigger] scores[i]) is Some ==> order.contains(i)
    &&& forall|a: int, b: int|
        0 <= a < b < order.len() ==> ranks_before(scores, #[trigger] order[a], #[trigger] order[b])
}

/// The two orders agree from the start on.
proof fn lemma_rankings_agree(scores: Seq<Option<int>>, one: Seq<int>, two: Seq<int>, n: int)
    requires
        is_ranking(scores, one),
        is_ranking(scores, two),
        0 <= n <= one.len(),
    ensures
        n <= two.len(),
        forall|k: int| 0 <= k < n ==> one[k] == two[k],
    decreases n,
{
    if n > 0 {
        let m = n - 1;
        lemma_rankings_agree(scores, one, two, m);
        assert(scores[one[m]] is Some);
        assert(two.contains(one[m]));
        let a = choose|a: int| 0 <= a < two.len() && two[a] == one[m];
        if a < m {
            assert(one[a] == one[m]);
            assert(ranks_before(scores, one[a], one[m]));
        }
        assert(m < two.len());
        assert(scores[two[m]] is Some);
        assert(one.contains(two[m]));
        let b = choose|b: int| 0 <= b < one.len() && one[b] == two[m];
        if b < m {
            assert(two[b] == two[m]);
            assert(ranks_before(scores, two[b], two[m]));
        }
        if a > m && b > m {
            assert(ranks_before(scores, two[m], two[a]));
            assert(ranks_before(scores, one[m], one[b]));
        }
    }
}

/// There is only one ranking: the scores decide the order of the results.
pub proof fn lemma_ranking_is_unique(scores: Seq<Option<int>>, one: Seq<int>, two: Seq<int>)
    requires
        is_ranking(scores, one),
        is_ranking(scores, two),
    ensures
        one == two,
{
    lemma_rankings_agree(scores, one, two, one.len() as int);
    lemma_rankings_agree(scores, two, one, two.len() as int);
    assert(one =~= two);
}

/// No item that is left out of the first `n` of a ranking scores more than one of them.
pub proof fn lemma_best_are_listed(scores: Seq<Option<int>>, order: Seq<int>, n: int, a: int, i: int)
    requires
        is_ranking(scores, order),
        0 <= a < n <= order.len(),
        0 <= i < scores.len(),
        scores[i] is Some,
        !order.take(n).contains(i),
    ensures
        scores[i]->0 <= scores[order[a]]->0,
{
    assert(order.contains(i));
    let b = choose|b: int| 0 <= b < order.len() && order[b] == i;
    if b < n {
        assert(order.take(n)[b] == i);
    }
    assert(ranks_before(scores, order[a], order[b]));
}

/// Indices as whole numbers.
pub open spec fn ints(order: Seq<usize>) -> Seq<int> {
    order.map_values(|i: usize| i as int)
}

/// Scores as whole numbers.
pub open spec fn int_scores(scores: Seq<Option<i64>>) -> Seq<Option<int>> {
    scores.map_values(
        |s: Option<i64>|
            match s {
                Some(s) => Some(s as int),
                None => None,
            },
    )
}

/// Ranks items by their scores, the best first and equals in their own order; those without a
/// score are left out.
pub fn rank(scores: &[Option<i64>]) -> (order: Vec<usize>)
    ensures
        is_ranking(int_scores(scores@), ints(order@)),
{
    let mut order: Vec<usize> = Vec::new();
    let ghost all = int_scores(scores@);
    let mut i: usize = 0;
    while i < scores.len()
        invariant
            i <= scores.len(),
            all == int_scores(scores@),
            is_ranking(all.take(i as int), ints(order@)),
        decreases scores.len() - i,
    {
        let ghost before = order@;
        let ghost seen = all.take(i as int);
        let ghost more = all.take(i + 1);
        match scores[i] {
            None => {
                proof {
                    assert(more[i as int] is None);
                    assert forall|a: int| 0 <= a < ints(order@).len() implies more[#[trigger] ints(
                        order@,
                    )[a]] == seen[ints(order@)[a]] by {}
                    assert forall|j: int|
                        0 <= j < more.len() && (#[trigger] more[j]) is Some implies ints(
                        order@,
                    ).contains(j) by {
                        assert(seen[j] is Some);
                    }
                    assert(is_ranking(more, ints(order@)));
                }
            },
            Some(s) => {
                let mut at: usize = 0;
                let mut placed = false;
                while at < order.len() && !placed
                    invariant
                        at <= order.len(),
                        order@ == before,
                        i < scores.len(),
                        all == int_scores(scores@),
                        seen == all.take(i as int),
                        scores@[i as int] == Some(s),
                        is_ranking(seen, ints(order@)),
                        forall|a: int|
                            0 <= a < at ==> all[#[trigger] ints(order@)[a]]->0 >= s,
                        placed ==> at < order.len() && all[ints(order@)[at as int]]->0 < s,
                    decreases
                            order.len() - at + if placed {
                                0int
                            } else {
                                1int
                            },
                {
                    let other = order[at];
                    assert(ints(order@)[at as int] == other);
                    assert(seen[ints(order@)[at as int]] is Some);
                    assert(other < i);
                    assert(all[other as int] is Some);
                    match scores[other] {
                        Some(t) => {
                            if t < s {
                                placed = true;
                            } else {
                                at += 1;
                            }
                        },
                        None => {
                            assert(false);
                            at += 1;
                        },
                    }
                }
                order.insert(at, i);
                proof {
                    lemma_insert_keeps_ranking(all, ints(before), i as int, at as int);
                    assert(ints(order@) =~= ints(before).insert(at as int, i as int));
                }
            },
        }
        i += 1;
    }
    assert(all.take(all.len() as int) =~= all);
    order
}

/// Putting the next item behind those that score at least as much, and before one that scores
/// less, keeps a ranking.
proof fn lemma_insert_keeps_ranking(all: Seq<Option<int>>, order: Seq<int>, i: int, at: int)
    requires
        0 <= i < all.len(),
        is_ranking(all.take(i), order),
        all[i] is Some,
        0 <= at <= order.len(),
        forall|a: int| 0 <= a < at ==> all[#[trigger] order[a]]->0 >= all[i]->0,
        at < order.len() ==> all[order[at]]->0 < all[i]->0,
    ensures
        is_ranking(all.take(i + 1), order.insert(at, i)),
{
    let seen = all.take(i);
    let more = all.take(i + 1);
    let next = order.insert(at, i);
    assert forall|a: int| 0 <= a < next.len() implies 0 <= #[trigger] next[a] < more.len()
        && more[next[a]] is Some by {
        if a < at {
            assert(next[a] == order[a]);
            assert(seen[order[a]] is Some);
        } else if a > at {
            assert(next[a] == order[a - 1]);
            assert(seen[order[a - 1]] is Some);
        }
    }
    assert forall|j: int| 0 <= j < more.len() && (#[trigger] more[j]) is Some implies next.contains(
        j,
    ) by {
        if j == i {
            assert(next[at] == i);
        } else {
            assert(seen[j] is Some);
            assert(order.contains(j));
            let a = choose|a: int| 0 <= a < order.len() && order[a] == j;
            if a < at {
                assert(next[a] == j);
            } else {
                assert(next[a + 1] == j);
            }
        }
    }
    assert forall|a: int, b: int| 0 <= a < b < next.len() implies ranks_before(
        more,
        #[trigger] next[a],
        #[trigger] next[b],
    ) by {
        if b < at {
            assert(next[a] == order[a] && next[b] == order[b]);
            assert(ranks_before(seen, order[a], order[b]));
        } else if b == at {
            assert(next[a] == order[a]);
            assert(order[a] < seen.len());
        } else if a < at {
            assert(next[a] == order[a] && next[b] == order[b - 1]);
            assert(ranks_before(seen, order[a], order[b - 1]));
        } else if a == at {
            assert(next[b] == order[b - 1]);
            if b - 1 > at {
                assert(ranks_before(seen, order[at], order[b - 1]));
            }
            assert(seen[order[b - 1]] == more[order[b - 1]]);
            assert(seen[order[at]] == more[order[at]]);
        } else {
            assert(next[a] == order[a - 1] && next[b] == order[b - 1]);
            assert(ranks_before(seen, order[a - 1], order[b - 1]));
        }
    }
}

/// The scores of commands for a query.
pub open spec fn scores_of(query: Seq<char>, commands: Seq<CommandView>) -> Seq<Option<int>> {
    commands.map_values(|command: CommandView| command_score(query, command.path))
}

/// Whether `results` are the best of the commands for a query: the first of their ranking, as many
/// as are listed at most.
pub open spec fn are_best(
    query: Seq<char>,
    commands: Seq<CommandView>,
    results: Seq<CommandView>,
) -> bool {
    exists|order: Seq<int>|
        {
            &&& #[trigger] is_ranking(scores_of(query, commands), order)
            &&& results.len() == if order.len() > MAX_RESULTS {
                MAX_RESULTS as nat
            } else {
                order.len()
            }
            &&& forall|k: int| 0 <= k < results.len() ==> results[k] == commands[order[k]]
        }
}

/// Whether the scores of all commands for a query fit a machine integer.
pub open spec fn all_scorable(query: Seq<char>, commands: Seq<CommandView>) -> bool {
    forall|k: int| 0 <= k < commands.len() ==> command_scorable(query, (#[trigger] commands[k]).path)
}

/// The results for a query are decided by the commands: there is only one list of the best.
pub proof fn lemma_best_are_unique(
    query: Seq<char>,
    commands: Seq<CommandView>,
    one: Seq<CommandView>,
    two: Seq<CommandView>,
)
    requires
        are_best(query, commands, one),
        are_best(query, commands, two),
    ensures
        one == two,
{
    let scores = scores_of(query, commands);
    let first = choose|order: Seq<int>|
        {
            &&& #[trigger] is_ranking(scores, order)
            &&& one.len() == if order.len() > MAX_RESULTS {
                MAX_RESULTS as nat
            } else {
                order.len()
            }
            &&& forall|k: int| 0 <= k < one.len() ==> one[k] == commands[order[k]]
        };
    let second = choose|order: Seq<int>|
        {
            &&& #[trigger] is_ranking(scores, order)
            &&& two.len() == if order.len() > MAX_RESULTS {
                MAX_RESULTS as nat
            } else {
                order.len()
            }
            &&& forall|k: int| 0 <= k < two.len() ==> two[k] == commands[order[k]]
        };
    lemma_ranking_is_unique(scores, first, second);
    assert(one =~= two);
}

/// The best-ranked commands for `query` (capped at `MAX_RESULTS`). For the empty query these are
/// the first commands, in menu order.
pub fn ranked(query: &str, commands: &[Command]) -> (results: Vec<Command>)
    requires
        all_scorable(query@, command_views(commands@)),
    ensures
        are_best(query@, command_views(commands@), command_views(results@)),
        results@.len() <= MAX_RESULTS,
        query@.len() == 0 ==> command_views(results@) == command_views(commands@).take(
            results@.len() as int,
        ) && results@.len() == if commands@.len() > MAX_RESULTS {
            MAX_RESULTS as nat
        } else {
            commands@.len()
        },
{
    let ghost views = command_views(commands@);
    let mut scores: Vec<Option<i64>> = Vec::new();
    let mut i: usize = 0;
    while i < commands.len()
        invariant
            i <= commands.len(),
            views == command_views(commands@),
            all_scorable(query@, views),
            scores@.len() == i,
            forall|k: int|
                0 <= k < i ==> int_scores(scores@)[k] == command_score(
                    query@,
                    (#[trigger] views[k]).path,
                ),
            query@.len() == 0 ==> forall|k: int| 0 <= k < i ==> scores@[k] == Some(100i64),
        decreases commands.len() - i,
    {
        let ghost before = int_scores(scores@);
        assert(command_scorable(query@, views[i as int].path));
        scores.push(match_command(query, &commands[i]));
        assert forall|k: int| 0 <= k < i + 1 implies int_scores(scores@)[k] == command_score(
            query@,
            (#[trigger] views[k]).path,
        ) by {
            if k < i {
                assert(int_scores(scores@)[k] == before[k]);
            }
        }
        i += 1;
    }
    assert(int_scores(scores@) =~= scores_of(query@, views));
    let order = rank(scores.as_slice());
    let n = if order.len() > MAX_RESULTS {
        MAX_RESULTS
    } else {
        order.len()
    };
    let mut results: Vec<Command> = Vec::new();
    let mut k: usize = 0;
    while k < n
        invariant
            k <= n <= order.len(),
            results@.len() == k,
            views == command_views(commands@),
            is_ranking(scores_of(query@, views), ints(order@)),
            forall|a: int|
                0 <= a < k ==> (#[trigger] results@[a])@ == views[ints(order@)[a]],
        decreases n - k,
    {
        assert(0 <= ints(order@)[k as int] < views.len());
        results.push(commands[order[k]].clone());
        k += 1;
    }
    proof {
        assert(is_ranking(scores_of(query@, views), ints(order@)));
        assert(forall|a: int|
            0 <= a < n ==> command_views(results@)[a] == views[ints(order@)[a]]);
        if query@.len() == 0 {
            let same = Seq::new(views.len(), |a: int| a);
            let all = scores_of(query@, views);
            assert(forall|a: int| 0 <= a < views.len() ==> all[a] == Some(100int)) by {
                assert forall|a: int| 0 <= a < views.len() implies all[a] == Some(100int) by {
                    assert(int_scores(scores@)[a] == Some(100int));
                }
            }
            assert forall|a: int|
                0 <= a < all.len() && (#[trigger] all[a]) is Some implies same.contains(a) by {
                assert(same[a] == a);
            }
            assert(is_ranking(all, same));
            lemma_ranking_is_unique(all, same, ints(order@));
            assert(command_views(results@) =~= views.take(n as int));
        }
    }
    results
}

/// Whether the scores of all commands for a query fit a machine integer.
fn can_rank(query: &str, commands: &[Command]) -> (yes: bool)
    ensures
        yes == all_scorable(query@, command_views(commands@)),
{
    let ghost views = command_views(commands@);
    let mut i: usize = 0;
    while i < commands.len()
        invariant
            i <= commands.len(),
            views == command_views(commands@),
            forall|k: int| 0 <= k < i ==> command_scorable(query@, (#[trigger] views[k]).path),
        decreases commands.len() - i,
    {
        if !can_match(query, &commands[i]) {
            assert(!command_scorable(query@, views[i as int].path));
            return false;
        }
        i += 1;
    }
    true
}

/// The best-ranked commands for `query`, as `ranked` gives them, or `None` where a score might not
/// fit a machine integer.
pub fn try_ranked(query: &str, commands: &[Command]) -> (res: Option<Vec<Command>>)
    ensures
        res is Some == all_scorable(query@, command_views(commands@)),
        res matches Some(results) ==> are_best(
            query@,
            command_views(commands@),
            command_views(results@),
        ),
{
    if can_rank(query, commands) {
        Some(ranked(query, commands))
    } else {
        None
    }
}

// ---- rows -------------------------------------------------------------------------------------

/// Width of the panel.
pub const PANEL_W: i64 = 620 * POINT;

/// Left and right inset of the search field.
pub const FIELD_X: i64 = 18 * POINT;

/// Left and right inset of the results.
pub const LIST_X: i64 = 10 * POINT;

/// Margin above the search field.
pub const TOP: i64 = 12 * POINT;

/// Height of the search field.
pub const FIELD_H: i64 = 28 * POINT;

/// Gap between the search field and the results.
pub const SEP_GAP: i64 = 8 * POINT;

/// Height of a row with one line.
pub const ROW_H: i64 = 28 * POINT;

/// Height of a row with a second line for the help text.
pub const ROW_H_HELP: i64 = 44 * POINT;

/// Gap between rows.
pub const ROW_SPACING: i64 = POINT;

/// Margin below the last row.
pub const BOTTOM: i64 = 10 * POINT;

/// Extent of the spinner in either direction.
pub const SPINNER: i64 = 18 * POINT;

/// How far the spinner is above the lower edge of the search field.
pub const SPINNER_RISE: i64 = 4 * POINT;

/// How much narrower the search field is than its insets leave, for the spinner's sake.
pub const SPINNER_ROOM: i64 = 24 * POINT;

/// How high the row of a command is.
pub open spec fn height_of(command: CommandView) -> int {
    if command.help is Some {
        ROW_H_HELP as int
    } else {
        ROW_H as int
    }
}

impl Command {
    /// How high the row of the command is.
    pub fn row_height(&self) -> (height: i64)
        ensures
            height == height_of(self@),
    {
        if self.help.is_some() {
            ROW_H_HELP
        } else {
            ROW_H
        }
    }
}

/// The colors of the texts of a row.
#[derive(Debug, Clone, Copy, PartialEq, Eq, Structural)]
pub enum Tint {
    /// White, on the solid background of the selection.
    Selected,
    /// Dimmed white, on the solid background of the selection.
    SelectedDim,
    /// The color of labels.
    Label,
    /// The color of secondary labels.
    Secondary,
}

/// What the row of a command shows.
#[derive(Debug)]
pub struct RowTitle {
    /// The path and the key equivalent.
    pub line: String,
    pub line_tint: Tint,
    /// The help text, in a line of its own.
    pub help: Option<String>,
    pub help_tint: Tint,
}

/// The first line of the row of a command: its path, and its key equivalent some way behind it.
pub open spec fn first_line(command: CommandView) -> Seq<char> {
    joined(command.path, seq![' ', '▸', ' ']) + match command.shortcut {
        Some(keys) => seq![' ', ' ', ' ', ' '] + keys,
        None => Seq::empty(),
    }
}

/// The colors of the two lines of a row.
pub open spec fn tints(enabled: bool, selected: bool) -> (Tint, Tint) {
    if selected {
        (Tint::Selected, Tint::SelectedDim)
    } else if enabled {
        (Tint::Label, Tint::Secondary)
    } else {
        (Tint::Secondary, Tint::Secondary)
    }
}

/// What the row of a command shows, depending on whether it is selected.
pub fn row_title(command: &Command, selected: bool) -> (title: RowTitle)
    ensures
        title.line@ == first_line(command@),
        title.line_tint == (if selected {
            Tint::Selected
        } else if command.enabled {
            Tint::Label
        } else {
            Tint::Secondary
        }),
        opt_text(title.help) == (match command@.help {
            Some(help) => Some(seq!['\n'] + help),
            None => None,
        }),
        title.help_tint == (if selected {
            Tint::SelectedDim
        } else {
            Tint::Secondary
        }),
        (title.line_tint, title.help_tint) == tints(command.enabled, selected),
{
    proof {
        reveal_strlit(" ▸ ");
        assert(" ▸ "@ =~= seq![' ', '▸', ' ']);
        reveal_strlit("    ");
        assert("    "@ =~= seq![' ', ' ', ' ', ' ']);
        reveal_strlit("\n");
        assert("\n"@ =~= seq!['\n']);
    }
    let mut line = join(command.path.as_slice(), " ▸ ");
    match &command.shortcut {
        Some(keys) => {
            line.append("    ");
            line.append(keys.as_str());
        },
        None => {},
    }
    assert(line@ =~= first_line(command@));
    let help = match &command.help {
        Some(text) => {
            let mut second = "\n".to_owned();
            second.append(text.as_str());
            Some(second)
        },
        None => None,
    };
    RowTitle {
        line,
        line_tint: if selected {
            Tint::Selected
        } else if command.enabled {
            Tint::Label
        } else {
            Tint::Secondary
        },
        help,
        help_tint: if selected {
            Tint::SelectedDim
        } else {
            Tint::Secondary
        },
    }
}

// ---- the open palette -------------------------------------------------------------------------

/// Where the panel and its parts go; the parts are placed inside the panel.
#[derive(Debug, Clone, Copy, PartialEq, Eq, Structural)]
pub struct PanelLayout {
    pub panel: Rect,
    pub field: Rect,
    pub spinner: Rect,
    pub results: Rect,
}

/// What is to be shown after the query or the index has changed.
#[derive(Debug, Clone, Copy, PartialEq, Eq, Structural)]
pub struct Refilter {
    /// Whether the spinner turns.
    pub spinning: bool,
    pub layout: PanelLayout,
}

/// How high the rows of commands are together, with the gaps between them.
pub open spec fn rows_height(commands: Seq<CommandView>) -> int
    decreases commands.len(),
{
    if commands.len() == 0 {
        0
    } else {
        rows_height(commands.drop_last()) + height_of(commands.last()) + if commands.len() > 1 {
            ROW_SPACING as int
        } else {
            0
        }
    }
}

/// How high the panel is that lists the commands: as high as its contents, with nothing left over.
pub open spec fn panel_height(commands: Seq<CommandView>) -> int {
    TOP + FIELD_H + BOTTOM + if commands.len() == 0 {
        0
    } else {
        SEP_GAP + rows_height(commands)
    }
}

/// Where the panel and its parts go for a height of the panel and a place of its top edge.
pub open spec fn layout_of(center_x: int, top: int, height: int) -> PanelLayout {
    PanelLayout {
        panel: Rect {
            origin: Point { x: (center_x - PANEL_W / 2) as i64, y: (top - height) as i64 },
            size: Size { width: PANEL_W, height: height as i64 },
        },
        field: Rect {
            origin: Point { x: FIELD_X, y: (height - TOP - FIELD_H) as i64 },
            size: Size { width: (PANEL_W - 2 * FIELD_X - SPINNER_ROOM) as i64, height: FIELD_H },
        },
        spinner: Rect {
            origin: Point {
                x: (PANEL_W - FIELD_X - SPINNER) as i64,
                y: (height - TOP - FIELD_H + SPINNER_RISE) as i64,
            },
            size: Size { width: SPINNER, height: SPINNER },
        },
        results: Rect {
            origin: Point { x: LIST_X, y: BOTTOM },
            size: Size {
                width: (PANEL_W - 2 * LIST_X) as i64,
                height: if height - TOP - FIELD_H - SEP_GAP - BOTTOM > 0 {
                    (height - TOP - FIELD_H - SEP_GAP - BOTTOM) as i64
                } else {
                    0
                },
            },
        },
    }
}

/// Which rows are enabled.
pub open spec fn enabled_rows(commands: Seq<CommandView>) -> Seq<bool> {
    commands.map_values(|command: CommandView| command.enabled)
}

/// The first enabled row, or the first row where none is.
pub open spec fn first_enabled(enabled: Seq<bool>) -> int {
    if exists|i: int| 0 <= i < enabled.len() && enabled[i] {
        choose|i: int|
            0 <= i < enabled.len() && enabled[i] && forall|k: int| 0 <= k < i ==> !enabled[k]
    } else {
        0
    }
}

/// The first enabled row that one or more moves by `delta` meet, wrapping round the ends, if there
/// is one within so many tries.
pub open spec fn next_enabled(enabled: Seq<bool>, row: int, delta: int, tries: nat) -> Option<int>
    decreases tries,
{
    let next = (row + delta) % (enabled.len() as int);
    if tries == 0 {
        None
    } else if enabled[next] {
        Some(next)
    } else {
        next_enabled(enabled, next, delta, (tries - 1) as nat)
    }
}

/// Where a move of the selection by `delta` rows lands.
pub open spec fn moved(enabled: Seq<bool>, row: int, delta: int) -> int {
    match next_enabled(enabled, row, delta, enabled.len()) {
        Some(next) => next,
        None => row,
    }
}

/// The row `delta` rows on from `row`, wrapping round the ends.
fn wrapped(row: usize, delta: i64, rows: usize) -> (next: usize)
    requires
        rows > 0,
    ensures
        next == (row + delta) % (rows as int),
        next < rows,
{
    let sum = row as i128 + delta as i128;
    if sum >= 0 {
        (sum as u128 % rows as u128) as usize
    } else {
        let back = ((-sum) as u128 % rows as u128) as usize;
        proof {
            let n = rows as int;
            let q = -sum / n;
            vstd::arithmetic::div_mod::lemma_fundamental_div_mod(-sum, n);
            if back == 0 {
                assert(sum == (-q) * n + 0) by (nonlinear_arith)
                    requires
                        -sum == n * q + back,
                        back == 0,
                ;
                vstd::arithmetic::div_mod::lemma_fundamental_div_mod_converse(sum as int, n, -q, 0);
            } else {
                assert(sum == (-q - 1) * n + (n - back)) by (nonlinear_arith)
                    requires
                        -sum == n * q + back,
                ;
                vstd::arithmetic::div_mod::lemma_fundamental_div_mod_converse(
                    sum as int,
                    n,
                    -q - 1,
                    n - back,
                );
            }
        }
        if back == 0 {
            0
        } else {
            rows - back
        }
    }
}

/// The first enabled command, or the first one where none is.
fn first_selectable(commands: &[Command]) -> (row: usize)
    ensures
        row == first_enabled(enabled_rows(command_views(commands@))),
{
    let ghost enabled = enabled_rows(command_views(commands@));
    let mut i: usize = 0;
    while i < commands.len()
        invariant
            i <= commands.len(),
            enabled == enabled_rows(command_views(commands@)),
            forall|k: int| 0 <= k < i ==> !enabled[k],
        decreases commands.len() - i,
    {
        if commands[i].enabled {
            proof {
                assert(enabled[i as int]);
                let c = choose|c: int|
                    0 <= c < enabled.len() && enabled[c] && forall|k: int|
                        0 <= k < c ==> !enabled[k];
                assert(c == i);
            }
            return i;
        }
        i += 1;
    }
    0
}

/// The state of an open palette.
#[derive(Debug)]
pub struct Palette {
    // The point on which the panel is centered while the query is empty.
    center: Point,
    // The top edge of the panel, which stays put while a query narrows the results.
    anchor_top: i64,
    matches: Vec<Command>,
    selected: usize,
    // How far the index was built when it was last looked at.
    last_len: usize,
    last_done: bool,
}

/// The model of an open palette.
pub struct PaletteView {
    pub center: Point,
    pub anchor_top: int,
    pub matches: Seq<CommandView>,
    pub selected: int,
    pub last_len: int,
    pub last_done: bool,
}

impl PaletteView {
    /// Whether the panel's places are within what is handled and no more is listed than may be.
    pub open spec fn wf(self) -> bool {
        &&& self.center.fits()
        &&& -2 * LIMIT <= self.anchor_top <= 2 * LIMIT
        &&& self.matches.len() <= MAX_RESULTS
    }

    /// The palette once `matches` are shown, from an index of `len` commands, and what there is to
    /// show then. While the query is empty the panel is centered; once a query narrows the results
    /// its top edge stays put.
    pub open spec fn showing(
        self,
        query_empty: bool,
        matches: Seq<CommandView>,
        len: int,
        done: bool,
    ) -> (PaletteView, Refilter) {
        let height = panel_height(matches);
        let top = if query_empty {
            self.center.y + height / 2
        } else {
            self.anchor_top
        };
        (
            PaletteView {
                center: self.center,
                anchor_top: top,
                matches,
                selected: first_enabled(enabled_rows(matches)),
                last_len: len,
                last_done: done,
            },
            Refilter {
                spinning: !done && matches.len() == 0,
                layout: layout_of(self.center.x as int, top, height),
            },
        )
    }
}

impl PaletteView {
    /// A palette on `center` that has not looked at the index yet.
    pub open spec fn opened(center: Point) -> PaletteView {
        PaletteView {
            center,
            anchor_top: center.y as int,
            matches: Seq::empty(),
            selected: 0,
            last_len: usize::MAX as int,
            last_done: false,
        }
    }

    /// Whether an index of `len` commands differs from what was last looked at.
    pub open spec fn is_behind(self, len: int, done: bool) -> bool {
        !(self.last_len == len && self.last_done == done)
    }

    /// The palette once a row was clicked.
    pub open spec fn clicked(self, tag: int) -> PaletteView {
        PaletteView {
            selected: if tag >= 0 {
                tag
            } else {
                0
            },
            ..self
        }
    }

    /// The path that is fired.
    pub open spec fn fired(self) -> Option<Seq<Seq<char>>> {
        if self.selected < self.matches.len() {
            Some(self.matches[self.selected].path)
        } else {
            None
        }
    }
}

impl View for Palette {
    type V = PaletteView;

    closed spec fn view(&self) -> PaletteView {
        PaletteView {
            center: self.center,
            anchor_top: self.anchor_top as int,
            matches: command_views(self.matches@),
            selected: self.selected as int,
            last_len: self.last_len as int,
            last_done: self.last_done,
        }
    }
}

impl Palette {
    /// What holds at all times.
    pub open spec fn wf(self) -> bool {
        self@.wf()
    }

    /// A palette that is centered on `center` and has not looked at the index yet.
    pub fn new(center: Point) -> (palette: Palette)
        requires
            center.fits(),
        ensures
            palette.wf(),
            palette@ == (PaletteView {
                center,
                anchor_top: center.y as int,
                matches: Seq::empty(),
                selected: 0,
                last_len: usize::MAX as int,
                last_done: false,
            }),
            palette@ == PaletteView::opened(center),
    {
        let palette = Palette {
            center,
            anchor_top: center.y,
            matches: Vec::new(),
            selected: 0,
            last_len: usize::MAX,
            last_done: false,
        };
        assert(palette@.matches =~= Seq::empty());
        palette
    }

    /// Whether the index has grown or ended since it was last looked at.
    pub fn is_stale(&self, len: usize, done: bool) -> (stale: bool)
        ensures
            stale == (len != self@.last_len || done != self@.last_done),
            stale == self@.is_behind(len as int, done),
    {
        len != self.last_len || done != self.last_done
    }

    /// Whether the index was complete when it was last looked at, so that it need not be polled any
    /// more.
    pub fn has_seen_all(&self) -> (seen: bool)
        ensures
            seen == self@.last_done,
    {
        self.last_done
    }

    /// Takes the results for the query over the index as far as it is built: lists them, selects
    /// the first that is enabled, and lays the panel out anew. The spinner turns while the index is
    /// still built and there is nothing to show. While the query is empty the panel is centered;
    /// once a query narrows the results its top edge stays put.
    pub fn show(&mut self, query_empty: bool, results: Vec<Command>, len: usize, done: bool) -> (res:
        Refilter)
        requires
            old(self).wf(),
            results@.len() <= MAX_RESULTS,
        ensures
            final(self).wf(),
            (final(self)@, res) == old(self)@.showing(
                query_empty,
                command_views(results@),
                len as int,
                done,
            ),
    {
        let ghost matches = command_views(results@);
        self.last_len = len;
        self.last_done = done;
        let n = results.len();
        let mut rows: i64 = 0;
        let mut i: usize = 0;
        while i < n
            invariant
                i <= n == results@.len(),
                n <= MAX_RESULTS,
                matches == command_views(results@),
                rows == rows_height(matches.take(i as int)),
                0 <= rows <= 0x30_0000 * i,
            decreases n - i,
        {
            let ghost next = matches.take(i + 1);
            assert(next.drop_last() =~= matches.take(i as int));
            assert(next.last() == results@[i as int]@);
            rows = rows + results[i].row_height();
            if i > 0 {
                rows = rows + ROW_SPACING;
            }
            i += 1;
        }
        assert(matches.take(n as int) =~= matches);
        let height = if n == 0 {
            TOP + FIELD_H + BOTTOM
        } else {
            TOP + FIELD_H + SEP_GAP + rows + BOTTOM
        };
        assert(height == panel_height(matches));
        let top = if query_empty {
            self.center.y + height / 2
        } else {
            self.anchor_top
        };
        self.anchor_top = top;
        self.selected = first_selectable(results.as_slice());
        self.matches = results;
        let list = height - TOP - FIELD_H - SEP_GAP - BOTTOM;
        Refilter {
            spinning: !done && n == 0,
            layout: PanelLayout {
                panel: Rect {
                    origin: Point { x: self.center.x - PANEL_W / 2, y: top - height },
                    size: Size { width: PANEL_W, height },
                },
                field: Rect {
                    origin: Point { x: FIELD_X, y: height - TOP - FIELD_H },
                    size: Size { width: PANEL_W - 2 * FIELD_X - SPINNER_ROOM, height: FIELD_H },
                },
                spinner: Rect {
                    origin: Point {
                        x: PANEL_W - FIELD_X - SPINNER,
                        y: height - TOP - FIELD_H + SPINNER_RISE,
                    },
                    size: Size { width: SPINNER, height: SPINNER },
                },
                results: Rect {
                    origin: Point { x: LIST_X, y: BOTTOM },
                    size: Size {
                        width: PANEL_W - 2 * LIST_X,
                        height: if list > 0 {
                            list
                        } else {
                            0
                        },
                    },
                },
            },
        }
    }

    /// Recomputes the results for the query over the index as far as it is built, and shows them.
    pub fn refilter(&mut self, query: &str, commands: &[Command], done: bool) -> (res: Refilter)
        requires
            old(self).wf(),
            all_scorable(query@, command_views(commands@)),
        ensures
            final(self).wf(),
            are_best(query@, command_views(commands@), final(self)@.matches),
            (final(self)@, res) == old(self)@.showing(
                query@.len() == 0,
                final(self)@.matches,
                commands@.len() as int,
                done,
            ),
    {
        let results = ranked(query, commands);
        self.show(query.is_empty(), results, commands.len(), done)
    }

    /// Recomputes the results, as `refilter` does, where all scores fit a machine integer; else
    /// returns `None` and changes nothing.
    pub fn try_refilter(&mut self, query: &str, commands: &[Command], done: bool) -> (res: Option<
        Refilter,
    >)
        requires
            old(self).wf(),
        ensures
            final(self).wf(),
            res is Some == all_scorable(query@, command_views(commands@)),
            res is None ==> *final(self) == *old(self),
            res is Some ==> are_best(query@, command_views(commands@), final(self)@.matches),
            res matches Some(r) ==> (final(self)@, r) == old(self)@.showing(
                query@.len() == 0,
                final(self)@.matches,
                commands@.len() as int,
                done,
            ),
    {
        if can_rank(query, commands) {
            Some(self.refilter(query, commands, done))
        } else {
            None
        }
    }

    /// The commands that are listed.
    pub fn matches(&self) -> (matches: &Vec<Command>)
        ensures
            command_views(matches@) == self@.matches,
    {
        &self.matches
    }

    /// The row that is selected.
    pub fn selected(&self) -> (row: usize)
        ensures
            row == self@.selected,
    {
        self.selected
    }

    /// Moves the selection by `delta` rows, from the last row on to the first and back, and on by
    /// as many again while the row is disabled; does nothing where nothing is listed or all that
    /// it meets is disabled.
    pub fn move_selection(&mut self, delta: i64)
        requires
            old(self).wf(),
        ensures
            final(self).wf(),
            final(self)@ == (PaletteView {
                selected: moved(enabled_rows(old(self)@.matches), old(self)@.selected, delta as int),
                ..old(self)@
            }),
    {
        let n = self.matches.len();
        let ghost enabled = enabled_rows(self@.matches);
        assert(enabled.len() == n);
        let mut row = self.selected;
        let mut left = n;
        while left > 0
            invariant
                left <= n == self.matches@.len() == enabled.len(),
                enabled == enabled_rows(self@.matches),
                *self == *old(self),
                old(self).wf(),
                next_enabled(enabled, row as int, delta as int, left as nat) == next_enabled(
                    enabled,
                    old(self)@.selected,
                    delta as int,
                    n as nat,
                ),
            decreases left,
        {
            row = wrapped(row, delta, n);
            if self.matches[row].enabled {
                self.selected = row;
                return;
            }
            left -= 1;
        }
    }

    /// Selects the row that was clicked.
    pub fn select(&mut self, tag: isize)
        requires
            old(self).wf(),
        ensures
            final(self).wf(),
            final(self)@ == (PaletteView {
                selected: if tag < 0 {
                    0
                } else {
                    tag as int
                },
                ..old(self)@
            }),
            final(self)@ == old(self)@.clicked(tag as int),
    {
        self.selected = if tag < 0 {
            0
        } else {
            tag as usize
        };
    }

    /// The path of the selected command, which is to be fired; `None` where no row is selected.
    pub fn fire_selected(&self) -> (path: Option<Vec<String>>)
        ensures
            path is Some == (self@.selected < self@.matches.len()),
            path matches Some(p) ==> texts(p@) == self@.matches[self@.selected].path,
            path is Some == self@.fired() is Some,
            path matches Some(p) ==> self@.fired() == Some(texts(p@)),
    {
        assert(self@.matches.len() == self.matches@.len());
        if self.selected < self.matches.len() {
            Some(copy_path(self.matches[self.selected].path.as_slice()))
        } else {
            None
        }
    }
}

/// The row that `moves` moves by `delta` lead to.
pub open spec fn row_after(row: int, delta: int, moves: int, rows: int) -> int {
    (row + moves * delta) % rows
}

/// After how many moves of the selection it meets an enabled row for the first time.
proof fn lemma_next_enabled(enabled: Seq<bool>, row: int, delta: int, tries: nat) -> (moves: nat)
    requires
        next_enabled(enabled, row, delta, tries) is Some,
        enabled.len() > 0,
    ensures
        1 <= moves <= tries,
        next_enabled(enabled, row, delta, tries) == Some(
            row_after(row, delta, moves as int, enabled.len() as int),
        ),
        enabled[row_after(row, delta, moves as int, enabled.len() as int)],
        forall|m: int|
            1 <= m < moves ==> !enabled[#[trigger] row_after(row, delta, m, enabled.len() as int)],
    decreases tries,
{
    let n = enabled.len() as int;
    let next = (row + delta) % n;
    if enabled[next] {
        assert(row + 1 * delta == row + delta);
        1
    } else {
        let more = lemma_next_enabled(enabled, next, delta, (tries - 1) as nat);
        lemma_row_after_step(row, delta, more as int, n);
        assert forall|m: int| 1 <= m < more + 1 implies !enabled[#[trigger] row_after(
            row,
            delta,
            m,
            n,
        )] by {
            if m > 1 {
                lemma_row_after_step(row, delta, m - 1, n);
                assert(!enabled[row_after(next, delta, m - 1, n)]);
            } else {
                assert(row + 1 * delta == row + delta);
            }
        }
        more + 1
    }
}

/// One move, then some more, lead where that many moves together lead.
proof fn lemma_row_after_step(row: int, delta: int, moves: int, rows: int)
    requires
        rows > 0,
    ensures
        row_after((row + delta) % rows, delta, moves, rows) == row_after(
            row,
            delta,
            moves + 1,
            rows,
        ),
{
    let next = (row + delta) % rows;
    vstd::arithmetic::div_mod::lemma_add_mod_noop(row + delta, moves * delta, rows);
    vstd::arithmetic::div_mod::lemma_add_mod_noop(next, moves * delta, rows);
    vstd::arithmetic::div_mod::lemma_mod_twice(row + delta, rows);
    assert(row + (moves + 1) * delta == (row + delta) + moves * delta) by (nonlinear_arith);
}

/// Where the first enabled row is met after just `moves` moves, that row is the next one.
proof fn lemma_next_enabled_at(enabled: Seq<bool>, row: int, delta: int, tries: nat, moves: nat)
    requires
        enabled.len() > 0,
        1 <= moves <= tries,
        enabled[row_after(row, delta, moves as int, enabled.len() as int)],
        forall|m: int|
            1 <= m < moves ==> !enabled[#[trigger] row_after(row, delta, m, enabled.len() as int)],
    ensures
        next_enabled(enabled, row, delta, tries) == Some(
            row_after(row, delta, moves as int, enabled.len() as int),
        ),
    decreases tries,
{
    let n = enabled.len() as int;
    let next = (row + delta) % n;
    assert(row + 1 * delta == row + delta);
    assert(row_after(row, delta, 1, n) == next);
    if moves > 1 {
        assert(!enabled[row_after(row, delta, 1, n)]);
        lemma_row_after_step(row, delta, moves - 1, n);
        assert forall|m: int| 1 <= m < moves - 1 implies !enabled[#[trigger] row_after(
            next,
            delta,
            m,
            n,
        )] by {
            lemma_row_after_step(row, delta, m, n);
            assert(!enabled[row_after(row, delta, m + 1, n)]);
        }
        lemma_next_enabled_at(enabled, next, delta, (tries - 1) as nat, (moves - 1) as nat);
    }
}

/// Moving the selection lands on an enabled row that is listed, and moving it back lands where it
/// was, if that row is enabled.
pub proof fn lemma_selection_moves_back(enabled: Seq<bool>, row: int, delta: int)
    requires
        0 <= row < enabled.len(),
        enabled[row],
        delta == 1 || delta == -1,
    ensures
        0 <= moved(enabled, row, delta) < enabled.len(),
        enabled[moved(enabled, row, delta)],
        moved(enabled, moved(enabled, row, delta), -delta) == row,
{
    let n = enabled.len() as int;
    if next_enabled(enabled, row, delta, enabled.len()) is None {
        lemma_comes_round(enabled, row, delta, n);
    }
    let moves = lemma_next_enabled(enabled, row, delta, enabled.len());
    let there = row_after(row, delta, moves as int, n);
    assert forall|m: int| 1 <= m < moves implies !enabled[#[trigger] row_after(
        there,
        -delta,
        m,
        n,
    )] by {
        lemma_way_back(row, delta, moves as int, m, n);
        assert(!enabled[row_after(row, delta, moves - m, n)]);
    }
    lemma_way_back(row, delta, moves as int, moves as int, n);
    assert(row + 0 * delta == row);
    vstd::arithmetic::div_mod::lemma_small_mod(row as nat, n as nat);
    lemma_next_enabled_at(enabled, there, -delta, enabled.len(), moves);
}

/// Going back `m` of `moves` moves leads where the rest of them leads.
proof fn lemma_way_back(row: int, delta: int, moves: int, m: int, rows: int)
    requires
        rows > 0,
    ensures
        row_after(row_after(row, delta, moves, rows), -delta, m, rows) == row_after(
            row,
            delta,
            moves - m,
            rows,
        ),
{
    let there = (row + moves * delta) % rows;
    vstd::arithmetic::div_mod::lemma_add_mod_noop(row + moves * delta, m * (-delta), rows);
    vstd::arithmetic::div_mod::lemma_add_mod_noop(there, m * (-delta), rows);
    vstd::arithmetic::div_mod::lemma_mod_twice(row + moves * delta, rows);
    assert(row + (moves - m) * delta == (row + moves * delta) + m * (-delta)) by (nonlinear_arith);
}

/// As many moves by one row as there are rows lead back to the row they started from, so an
/// enabled row is met.
proof fn lemma_comes_round(enabled: Seq<bool>, row: int, delta: int, n: int)
    requires
        n == enabled.len(),
        0 <= row < n,
        enabled[row],
        delta == 1 || delta == -1,
    ensures
        next_enabled(enabled, row, delta, enabled.len()) is Some,
{
    if next_enabled(enabled, row, delta, enabled.len()) is None {
        lemma_none_is_enabled(enabled, row, delta, enabled.len(), n);
        assert(row_after(row, delta, n, n) == row) by {
            if delta == 1 {
                assert(row + n * delta == n * 1 + row);
                vstd::arithmetic::div_mod::lemma_fundamental_div_mod_converse(row + n, n, 1, row);
            } else {
                assert(row + n * delta == n * -1 + row);
                vstd::arithmetic::div_mod::lemma_fundamental_div_mod_converse(row - n, n, -1, row);
            }
        }
    }
}

/// Where no enabled row is met, every row on the way is disabled.
proof fn lemma_none_is_enabled(enabled: Seq<bool>, row: int, delta: int, tries: nat, m: int)
    requires
        enabled.len() > 0,
        next_enabled(enabled, row, delta, tries) is None,
        1 <= m <= tries,
    ensures
        !enabled[row_after(row, delta, m, enabled.len() as int)],
    decreases tries,
{
    let n = enabled.len() as int;
    let next = (row + delta) % n;
    assert(row + 1 * delta == row + delta);
    if m > 1 {
        lemma_row_after_step(row, delta, m - 1, n);
        lemma_none_is_enabled(enabled, next, delta, (tries - 1) as nat, m - 1);
    }
}

/// How high rows are at most.
proof fn lemma_rows_height_bounds(commands: Seq<CommandView>)
    ensures
        0 <= rows_height(commands) <= 0x30_0000 * commands.len(),
    decreases commands.len(),
{
    if commands.len() > 0 {
        lemma_rows_height_bounds(commands.drop_last());
    }
}

/// The panel is placed exactly: it is as wide as it always is and as high as its contents, centered
/// from left to right, and its top edge is where the palette has it.
pub proof fn lemma_panel_is_placed(
    palette: PaletteView,
    query_empty: bool,
    matches: Seq<CommandView>,
    len: int,
    done: bool,
)
    requires
        palette.wf(),
        matches.len() <= MAX_RESULTS,
    ensures
        ({
            let (after, shown) = palette.showing(query_empty, matches, len, done);
            let panel = shown.layout.panel;
            &&& after.center == palette.center
            &&& panel.size.width == PANEL_W
            &&& panel.size.height == panel_height(matches)
            &&& panel.origin.x == palette.center.x - PANEL_W / 2
            &&& panel.origin.y + panel.size.height == after.anchor_top
            &&& query_empty ==> after.anchor_top == palette.center.y + panel.size.height as int / 2
            &&& !query_empty ==> after.anchor_top == palette.anchor_top
        }),
{
    lemma_rows_height_bounds(matches);
}

/// The panel's top edge stays put while a query narrows the results: whatever is listed for one
/// query and for the next, the panel grows and shrinks downwards.
pub proof fn lemma_top_edge_stays_put(
    palette: PaletteView,
    one: Seq<CommandView>,
    len: int,
    done: bool,
    two: Seq<CommandView>,
    later_len: int,
    later_done: bool,
)
    requires
        palette.wf(),
        one.len() <= MAX_RESULTS,
        two.len() <= MAX_RESULTS,
    ensures
        ({
            let (first, shown) = palette.showing(false, one, len, done);
            let (second, later) = first.showing(false, two, later_len, later_done);
            let panel = shown.layout.panel;
            let next = later.layout.panel;
            &&& panel.origin.y + panel.size.height == palette.anchor_top
            &&& next.origin.y + next.size.height == palette.anchor_top
            &&& next.origin.x == panel.origin.x
            &&& second.anchor_top == palette.anchor_top
        }),
{
    let first = palette.showing(false, one, len, done).0;
    lemma_panel_is_placed(palette, false, one, len, done);
    lemma_panel_is_placed(first, false, two, later_len, later_done);
}

/// Where the palette is centered: on the focused window where its place is known, else on the main
/// screen. A window is placed from the top of the primary screen downwards, a screen from its
/// bottom upwards.
pub fn target_center(
    window: Option<(Point, Size)>,
    main_screen: Option<Rect>,
    primary_height: Option<i64>,
) -> (center: Point)
    requires
        window matches Some((p, s)) ==> p.fits() && s.fits(),
        main_screen matches Some(r) ==> r.fits(),
        primary_height matches Some(h) ==> fits(h),
    ensures
        ({
            let height = match primary_height {
                Some(h) => h as int,
                None => 1080 * POINT,
            };
            match window {
                Some((p, s)) => {
                    &&& center.x == p.x + s.width as int / 2
                    &&& center.y == height - (p.y + s.height as int / 2)
                },
                None => match main_screen {
                    Some(r) => {
                        &&& center.x == r.origin.x + r.size.width as int / 2
                        &&& center.y == r.origin.y + r.size.height as int / 2
                    },
                    None => {
                        &&& center.x == 700 * POINT
                        &&& center.y == height / 2
                    },
                },
            }
        }),
        window matches Some((p, s)) ==> {
            &&& center.x - p.x <= p.x + s.width - center.x <= center.x - p.x + 1
            &&& primary_height matches Some(h) ==> h - center.y - p.y <= p.y + s.height - (h
                - center.y) <= h - center.y - p.y + 1
        },
        window is None ==> (main_screen matches Some(r) ==> {
            &&& center.x - r.origin.x <= r.origin.x + r.size.width - center.x <= center.x - r.origin.x
                + 1
            &&& center.y - r.origin.y <= r.origin.y + r.size.height - center.y <= center.y
                - r.origin.y + 1
        }),
{
    let height = match primary_height {
        Some(h) => h,
        None => 1080 * POINT,
    };
    match window {
        Some((p, s)) => Point { x: p.x + half(s.width), y: height - (p.y + half(s.height)) },
        None => match main_screen {
            Some(r) => Point {
                x: r.origin.x + half(r.size.width),
                y: r.origin.y + half(r.size.height),
            },
            None => Point { x: 700 * POINT, y: half(height) },
        },
    }
}

/// Half of a length, rounded down to a whole unit.
fn half(length: i64) -> (h: i64)
    ensures
        h == length as int / 2,
{
    if length >= 0 {
        length / 2
    } else {
        let lost: i64 = length % 2;
        if lost == 0 {
            length / 2
        } else {
            length / 2 - 1
        }
    }
}

// ---- what is searched and listed --------------------------------------------------------------

/// What is searched of a command: its own title, and all the titles on the way to it with single
/// spaces between them, however many there are. It matches just where the query occurs in one of the
/// two, in order and whatever the case.
pub proof fn lemma_titles_and_path_are_searched(query: Seq<char>, path: Seq<Seq<char>>)
    ensures
        command_score(query, path) is Some <==> {
            ||| path.len() > 0 && is_subsequence(lowered(query), lowered(path.last()))
            ||| is_subsequence(lowered(query), lowered(joined(path, seq![' '])))
        },
{
    lemma_query_matches_iff_it_occurs(query, joined(path, seq![' ']));
    if path.len() > 0 {
        lemma_query_matches_iff_it_occurs(query, path.last());
    } else {
        assert(joined(path, seq![' ']) =~= Seq::empty());
        lemma_query_matches_iff_it_occurs(query, Seq::empty());
    }
}

/// A title is searched along with all those before it, after one space.
pub proof fn lemma_searched_text_goes_title_by_title(path: Seq<Seq<char>>, title: Seq<char>)
    ensures
        path.len() > 0 ==> spelled(path.push(title)) == spelled(path) + seq![' '] + title,
        spelled(seq![title]) == title,
        leaf_of(path.push(title)) == title,
{
    lemma_joined_part_by_part(path, title, seq![' ']);
}

/// Every title on the way to a command can be searched for: typing it in ASCII, in any part of an
/// ASCII path, finds the command.
pub proof fn lemma_every_title_finds_its_commands(path: Seq<Seq<char>>, i: int)
    requires
        0 <= i < path.len(),
        all_ascii(joined(path, seq![' '])),
    ensures
        command_score(path[i], path) is Some,
{
    let all = joined(path, seq![' ']);
    let behind = lemma_joined_holds_every_part(path, seq![' '], i);
    let before = (if i == 0 {
        Seq::empty()
    } else {
        joined(path.take(i), seq![' ']) + seq![' ']
    });
    let title = path[i];
    let start = before.len() as int;
    assert forall|k: int| 0 <= k < title.len() implies #[trigger] title[k] == all[start + k] by {}
    assert(all_ascii(title));
    let at = Seq::new(title.len(), |k: int| start + k);
    assert(lowered(title).len() == title.len() && lowered(all).len() == all.len());
    assert forall|k: int| 0 <= k < at.len() implies lowered(all)[#[trigger] at[k]] == lowered(title)[
    k] by {
        assert(title[k] == all[start + k]);
    }
    assert(places(lowered(title), lowered(all), at));
    lemma_titles_and_path_are_searched(title, path);
}

/// What a match is worth: a match of the own title a hundred points more than the title scores, and a
/// match of the path alone twenty less than the path scores.
pub proof fn lemma_own_title_is_worth_more(query: Seq<char>, path: Seq<Seq<char>>)
    requires
        path.len() > 0,
    ensures
        fuzzy(query, path.last()) matches Some(s) ==> command_score(query, path) == Some(s + 100),
        fuzzy(query, path.last()) is None ==> (fuzzy(
            query,
            joined(path, seq![' ']),
        ) matches Some(s) ==> command_score(query, path) == Some(s - 20)),
{
}

/// What is listed are matching commands, the best first: no result scores less than one behind it,
/// and twelve are listed at most.
pub proof fn lemma_results_match_and_descend(
    query: Seq<char>,
    commands: Seq<CommandView>,
    results: Seq<CommandView>,
)
    requires
        are_best(query, commands, results),
    ensures
        results.len() <= 12,
        forall|k: int| 0 <= k < results.len() ==> commands.contains(#[trigger] results[k]),
        forall|k: int|
            0 <= k < results.len() ==> command_score(query, (#[trigger] results[k]).path) is Some,
        forall|k: int, l: int|
            0 <= k < l < results.len() ==> command_score(query, (#[trigger] results[k]).path)->0
                >= command_score(query, (#[trigger] results[l]).path)->0,
{
    let scores = scores_of(query, commands);
    let order = choose|order: Seq<int>|
        {
            &&& #[trigger] is_ranking(scores, order)
            &&& results.len() == if order.len() > MAX_RESULTS {
                MAX_RESULTS as nat
            } else {
                order.len()
            }
            &&& forall|k: int| 0 <= k < results.len() ==> results[k] == commands[order[k]]
        };
    assert forall|k: int| 0 <= k < results.len() implies commands.contains(#[trigger] results[k])
        && command_score(query, results[k].path) == scores[order[k]] && scores[order[k]] is Some by {
        assert(0 <= order[k] < scores.len());
        assert(results[k] == commands[order[k]]);
    }
    assert forall|k: int, l: int| 0 <= k < l < results.len() implies command_score(
        query,
        (#[trigger] results[k]).path,
    )->0 >= command_score(query, (#[trigger] results[l]).path)->0 by {
        assert(ranks_before(scores, order[k], order[l]));
    }
}

/// A command that matches is listed, unless twelve others are that score at least as much.
pub proof fn lemma_matching_command_is_listed(
    query: Seq<char>,
    commands: Seq<CommandView>,
    results: Seq<CommandView>,
    i: int,
)
    requires
        are_best(query, commands, results),
        0 <= i < commands.len(),
        command_score(query, commands[i].path) is Some,
    ensures
        results.contains(commands[i]) || (results.len() == 12 && forall|k: int|
            0 <= k < 12 ==> command_score(query, (#[trigger] results[k]).path)->0 >= command_score(
                query,
                commands[i].path,
            )->0),
{
    let scores = scores_of(query, commands);
    let order = choose|order: Seq<int>|
        {
            &&& #[trigger] is_ranking(scores, order)
            &&& results.len() == if order.len() > MAX_RESULTS {
                MAX_RESULTS as nat
            } else {
                order.len()
            }
            &&& forall|k: int| 0 <= k < results.len() ==> results[k] == commands[order[k]]
        };
    assert(scores[i] is Some);
    assert(order.contains(i));
    let a = choose|a: int| 0 <= a < order.len() && order[a] == i;
    if a < results.len() {
        assert(results[a] == commands[i]);
    } else {
        assert forall|k: int| 0 <= k < 12 implies command_score(
            query,
            (#[trigger] results[k]).path,
        )->0 >= command_score(query, commands[i].path)->0 by {
            assert(0 <= order[k] < scores.len());
            assert(ranks_before(scores, order[k], order[a]));
        }
    }
}

/// Where commands score the same, the first in menu order is listed first, and each command is listed
/// as often as the index has it: the results are commands at different places of the index, in
/// menu order among equals.
pub proof fn lemma_equals_are_listed_in_menu_order(
    query: Seq<char>,
    commands: Seq<CommandView>,
    results: Seq<CommandView>,
) -> (from: Seq<int>)
    requires
        are_best(query, commands, results),
    ensures
        from.len() == results.len(),
        forall|k: int| 0 <= k < from.len() ==> 0 <= #[trigger] from[k] < commands.len(),
        forall|k: int| 0 <= k < from.len() ==> results[k] == commands[#[trigger] from[k]],
        forall|k: int, l: int|
            0 <= k < l < from.len() ==> #[trigger] from[k] != #[trigger] from[l] && (command_score(
                query,
                results[k].path,
            ) == command_score(query, results[l].path) ==> from[k] < from[l]),
{
    let scores = scores_of(query, commands);
    let order = choose|order: Seq<int>|
        {
            &&& #[trigger] is_ranking(scores, order)
            &&& results.len() == if order.len() > MAX_RESULTS {
                MAX_RESULTS as nat
            } else {
                order.len()
            }
            &&& forall|k: int| 0 <= k < results.len() ==> results[k] == commands[order[k]]
        };
    let from = order.take(results.len() as int);
    assert forall|k: int| 0 <= k < from.len() implies 0 <= #[trigger] from[k] < commands.len()
        && results[k] == commands[from[k]] by {
        assert(from[k] == order[k]);
        assert(0 <= order[k] < scores.len());
    }
    assert forall|k: int, l: int| 0 <= k < l < from.len() implies #[trigger] from[k]
        != #[trigger] from[l] && (command_score(query, results[k].path) == command_score(
        query,
        results[l].path,
    ) ==> from[k] < from[l]) by {
        assert(ranks_before(scores, order[k], order[l]));
        assert(from[k] == order[k] && from[l] == order[l]);
        assert(scores[order[k]] == command_score(query, results[k].path));
        assert(scores[order[l]] == command_score(query, results[l].path));
    }
    from
}

// ---- what the panel shows ---------------------------------------------------------------------

/// The first line of a row holds the whole path, title by title with arrows between, and ends with
/// the key equivalent, where there is one.
pub proof fn lemma_row_shows_path_and_keys(command: CommandView, title: Seq<char>)
    ensures
        command.shortcut is None ==> first_line(command) == joined(command.path, seq![' ', '▸', ' ']),
        command.shortcut matches Some(keys) ==> first_line(command) == first_line(
            CommandView { shortcut: None, ..command },
        ) + seq![' ', ' ', ' ', ' '] + keys,
        command.shortcut is None && command.path.len() > 0 ==> first_line(
            CommandView { path: command.path.push(title), ..command },
        ) == first_line(command) + seq![' ', '▸', ' '] + title,
{
    let plain = CommandView { shortcut: None, ..command };
    let more = CommandView { path: command.path.push(title), ..command };
    lemma_joined_part_by_part(command.path, title, seq![' ', '▸', ' ']);
    assert(first_line(plain) =~= joined(command.path, seq![' ', '▸', ' ']));
    if command.shortcut is Some {
        assert(first_line(command) =~= first_line(plain) + seq![' ', ' ', ' ', ' ']
            + command.shortcut->0);
    } else {
        assert(first_line(command) =~= first_line(plain));
        if command.path.len() > 0 {
            assert(first_line(more) =~= first_line(command) + seq![' ', '▸', ' '] + title);
        }
    }
}

/// Rows are stacked with a point between them: one more row adds that and its own height, which is
/// 28 points, or 44 with a help text.
pub proof fn lemma_rows_are_stacked(commands: Seq<CommandView>, command: CommandView)
    ensures
        rows_height(commands.push(command)) == rows_height(commands) + (if commands.len() == 0 {
            0
        } else {
            POINT as int
        }) + (if command.help is Some {
            44 * POINT
        } else {
            28 * POINT
        }),
        rows_height(Seq::empty()) == 0,
{
    assert(commands.push(command).drop_last() =~= commands);
}

/// The rows fill the list exactly, and the list, the search field and the spinner lie inside the
/// panel without touching each other.
pub proof fn lemma_parts_fill_the_panel(
    palette: PaletteView,
    query_empty: bool,
    matches: Seq<CommandView>,
    len: int,
    done: bool,
)
    requires
        palette.wf(),
        matches.len() <= MAX_RESULTS,
    ensures
        ({
            let layout = palette.showing(query_empty, matches, len, done).1.layout;
            let panel = layout.panel.size;
            let field = layout.field;
            let spinner = layout.spinner;
            let list = layout.results;
            &&& list.size.height == rows_height(matches)
            &&& matches.len() > 0 ==> panel.height == TOP + FIELD_H + SEP_GAP + rows_height(matches)
                + BOTTOM
            &&& matches.len() == 0 ==> panel.height == TOP + FIELD_H + BOTTOM
            &&& list.origin.y == BOTTOM
            &&& matches.len() > 0 ==> list.origin.y + list.size.height + SEP_GAP == field.origin.y
            &&& field.origin.y + field.size.height + TOP == panel.height
            &&& field.size.height == FIELD_H
            &&& field.origin.x == FIELD_X
            &&& field.origin.x + field.size.width < spinner.origin.x
            &&& spinner.origin.x + spinner.size.width + FIELD_X == panel.width
            &&& field.origin.y < spinner.origin.y
            &&& spinner.origin.y + spinner.size.height < field.origin.y + field.size.height
            &&& spinner.size.width == spinner.size.height
            &&& list.origin.x == LIST_X
            &&& list.origin.x + list.size.width + LIST_X == panel.width
        }),
{
    lemma_rows_height_bounds(matches);
    if matches.len() > 0 {
        lemma_rows_height_bounds(matches.drop_last());
    }
}

/// After the results were shown, the palette lists just them, with the first enabled one selected and
/// none before it, or the first one where none is; it knows how far the index was built, and the
/// spinner turns just while nothing was found and more may come.
pub proof fn lemma_results_are_shown(
    palette: PaletteView,
    query_empty: bool,
    matches: Seq<CommandView>,
    len: int,
    done: bool,
)
    ensures
        ({
            let (after, shown) = palette.showing(query_empty, matches, len, done);
            &&& after.matches == matches
            &&& after.last_len == len
            &&& after.last_done == done
            &&& shown.spinning <==> matches.len() == 0 && !done
            &&& after.selected >= 0
            &&& matches.len() > 0 ==> after.selected < matches.len()
            &&& (exists|i: int| 0 <= i < matches.len() && #[trigger] matches[i].enabled)
                ==> matches[after.selected].enabled
            &&& (forall|i: int| 0 <= i < matches.len() ==> !#[trigger] matches[i].enabled)
                ==> after.selected == 0
            &&& forall|i: int| 0 <= i < after.selected ==> !#[trigger] matches[i].enabled
        }),
{
    let enabled = enabled_rows(matches);
    if exists|i: int| 0 <= i < matches.len() && #[trigger] matches[i].enabled {
        let i = choose|i: int| 0 <= i < matches.len() && #[trigger] matches[i].enabled;
        assert(enabled[i]);
        let f = lemma_some_row_is_first(enabled, i);
        assert(enabled[f] && forall|k: int| 0 <= k < f ==> !enabled[k]);
        let s = first_enabled(enabled);
        assert(0 <= s < enabled.len() && enabled[s] && forall|k: int| 0 <= k < s ==> !enabled[k]);
        assert forall|k: int| 0 <= k < s implies !#[trigger] matches[k].enabled by {
            assert(!enabled[k]);
        }
    } else {
        assert forall|i: int| 0 <= i < enabled.len() implies !enabled[i] by {
            assert(!matches[i].enabled);
        }
    }
}

/// Among the enabled rows there is a first one.
proof fn lemma_some_row_is_first(enabled: Seq<bool>, i: int) -> (f: int)
    requires
        0 <= i < enabled.len(),
        enabled[i],
    ensures
        0 <= f <= i,
        enabled[f],
        forall|k: int| 0 <= k < f ==> !enabled[k],
    decreases i,
{
    if exists|k: int| 0 <= k < i && enabled[k] {
        let k = choose|k: int| 0 <= k < i && enabled[k];
        lemma_some_row_is_first(enabled, k)
    } else {
        i
    }
}

/// The selection moves by whole steps of `delta` rows, round the ends, and stops at the first enabled
/// row that it meets; it stays where it is where it meets none on the way round.
pub proof fn lemma_selection_stops_at_the_first_enabled(
    enabled: Seq<bool>,
    row: int,
    delta: int,
) -> (steps: nat)
    requires
        enabled.len() > 0,
    ensures
        ({
            let n = enabled.len() as int;
            let to = moved(enabled, row, delta);
            ||| steps > n && to == row && forall|m: int|
                1 <= m <= n ==> !enabled[#[trigger] row_after(row, delta, m, n)]
            ||| 1 <= steps <= n && to == (row + steps * delta) % n && enabled[to] && forall|m: int|
                1 <= m < steps ==> !enabled[#[trigger] row_after(row, delta, m, n)]
        }),
        forall|m: int|
            #[trigger] row_after(row, delta, m, enabled.len() as int) == (row + m * delta)
                % (enabled.len() as int),
{
    let n = enabled.len() as int;
    if next_enabled(enabled, row, delta, enabled.len()) is Some {
        lemma_next_enabled(enabled, row, delta, enabled.len())
    } else {
        assert forall|m: int| 1 <= m <= n implies !enabled[#[trigger] row_after(
            row,
            delta,
            m,
            n,
        )] by {
            lemma_none_is_enabled(enabled, row, delta, enabled.len(), m);
        }
        (n + 1) as nat
    }
}

/// Every query can be answered over an index whose titles a machine can hold: only a query whose
/// lowercase has more than half a quintillion characters might score more than can be counted.
pub proof fn lemma_ordinary_queries_are_answered(query: Seq<char>, commands: Seq<CommandView>)
    requires
        lowered(query).len() <= 0x0800_0000_0000_0000,
        forall|k: int|
            0 <= k < commands.len() ==> {
                &&& joined((#[trigger] commands[k]).path, seq![' ']).len() <= i64::MAX
                &&& commands[k].path.len() > 0 ==> commands[k].path.last().len() <= i64::MAX
            },
    ensures
        all_scorable(query, commands),
{
    assert forall|k: int| 0 <= k < commands.len() implies command_scorable(
        query,
        (#[trigger] commands[k]).path,
    ) by {
        let path = commands[k].path;
        lemma_ordinary_texts_can_be_scored(query, leaf_of(path));
        lemma_ordinary_texts_can_be_scored(query, joined(path, seq![' ']));
    }
}

/// A palette looks at the index at once, and again just when there are more commands or there will be
/// no more; what it has looked at is not looked at again.
pub proof fn lemma_index_is_looked_at_when_it_grows(
    palette: PaletteView,
    center: Point,
    query_empty: bool,
    matches: Seq<CommandView>,
    len: int,
    done: bool,
    later_len: int,
    later_done: bool,
)
    ensures
        len < usize::MAX ==> PaletteView::opened(center).is_behind(len, done),
        palette.showing(query_empty, matches, len, done).0.is_behind(later_len, later_done)
            <==> later_len != len || later_done != done,
        PaletteView::opened(center).matches.len() == 0,
        PaletteView::opened(center).center == center,
        PaletteView::opened(center).fired() is None,
{
}

/// What is fired is what is selected: after a click the command of the row that was clicked, and
/// right after the results were shown the first one that is enabled; nothing is where nothing is
/// listed there.
pub proof fn lemma_selected_command_is_fired(
    palette: PaletteView,
    row: int,
    query_empty: bool,
    matches: Seq<CommandView>,
    len: int,
    done: bool,
)
    ensures
        0 <= row < palette.matches.len() ==> palette.clicked(row).fired() == Some(
            palette.matches[row].path,
        ),
        row >= palette.matches.len() ==> palette.clicked(row).fired() is None,
        palette.clicked(row).matches == palette.matches,
        palette.clicked(row).anchor_top == palette.anchor_top,
        matches.len() == 0 ==> palette.showing(query_empty, matches, len, done).0.fired() is None,
        matches.len() > 0 && matches[0].enabled ==> palette.showing(
            query_empty,
            matches,
            len,
            done,
        ).0.fired() == Some(matches[0].path),
{
    lemma_results_are_shown(palette, query_empty, matches, len, done);
    if matches.len() > 0 && matches[0].enabled {
        let selected = palette.showing(query_empty, matches, len, done).0.selected;
        if selected > 0 {
            assert(!matches[0].enabled);
        }
    }
}

/// A selected row is told from every other one by its colors, and a disabled row from an enabled one
/// where neither is selected; a help text never stands out more than the line above it.
pub proof fn lemma_rows_are_told_apart(enabled: bool, other: bool)
    ensures
        tints(enabled, true).0 is Selected,
        tints(enabled, true).1 is SelectedDim,
        tints(enabled, true) != tints(other, false),
        tints(true, false).0 is Label,
        tints(true, false) != tints(false, false),
        tints(enabled, false).1 is Secondary,
        !enabled ==> tints(enabled, false).0 == tints(enabled, false).1,
{
}

} // verus!
