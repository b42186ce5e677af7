//! Subsequence matching with scores: the typed characters must occur in order, gaps allowed, and
//! contiguous runs and word starts earn more.

use vstd::prelude::*;

use crate::text::{
    all_ascii, alphanumeric, ascii_folded, chars_of, lower_text, lowered, same_but_ascii_case,
    uppercase,
};

verus! {

/// The positions at which a left-to-right scan of the first `n` characters of `text` meets the
/// characters of `query`, each as early as possible.
pub open spec fn scan(query: Seq<char>, text: Seq<char>, n: nat) -> Seq<int>
    decreases n,
{
    if n == 0 {
        Seq::empty()
    } else {
        let met = scan(query, text, (n - 1) as nat);
        if met.len() < query.len() && text[n - 1] == query[met.len() as int] {
            met.push(n - 1)
        } else {
            met
        }
    }
}

/// The positions at which a scan of all of `text` meets the characters of `query`.
pub open spec fn hits(query: Seq<char>, text: Seq<char>) -> Seq<int> {
    scan(query, text, text.len())
}

/// Whether `at` places the characters of `query` in `text`, in order.
pub open spec fn places(query: Seq<char>, text: Seq<char>, at: Seq<int>) -> bool {
    &&& at.len() == query.len()
    &&& forall|k: int| 0 <= k < at.len() ==> 0 <= #[trigger] at[k] < text.len()
    &&& forall|k: int| 0 <= k < at.len() ==> text[#[trigger] at[k]] == query[k]
    &&& forall|j: int, k: int| 0 <= j < k < at.len() ==> #[trigger] at[j] < #[trigger] at[k]
}

/// Whether the characters of `query` occur in `text` in order, gaps allowed.
pub open spec fn is_subsequence(query: Seq<char>, text: Seq<char>) -> bool {
    exists|at: Seq<int>| places(query, text, at)
}

/// What the hit number `k` earns in `text`, whose lowercase was hit at the positions `at`: a point,
/// five more right behind the hit before, and eight more at the start of a word or else four more
/// on a capital letter.
pub open spec fn points(text: Seq<char>, at: Seq<int>, k: int) -> int {
    1 + (if continues_run(at, k) {
        5int
    } else {
        0
    }) + (if starts_word(text, at[k]) {
        8int
    } else if is_capital(text, at[k]) {
        4
    } else {
        0
    })
}

/// Whether the hit number `k` continues a run, that is, lies right behind the hit before.
pub open spec fn continues_run(at: Seq<int>, k: int) -> bool {
    k > 0 && at[k - 1] + 1 == at[k]
}

/// Whether a hit at `p` is at the start of a word: at the start of the text, or behind a character
/// that is neither letter nor digit. Lowercase can be longer than the text itself; a hit that lies
/// so far behind the end of the text that nothing is before it starts no word.
pub open spec fn starts_word(text: Seq<char>, p: int) -> bool {
    p == 0 || (p - 1 < text.len() && !alphanumeric(text[p - 1]))
}

/// Whether there is a capital letter at `p`.
pub open spec fn is_capital(text: Seq<char>, p: int) -> bool {
    p < text.len() && uppercase(text[p])
}

/// What the first `n` hits earn together.
pub open spec fn earned(text: Seq<char>, at: Seq<int>, n: nat) -> int
    decreases n,
{
    if n == 0 {
        0
    } else {
        earned(text, at, (n - 1) as nat) + points(text, at, n - 1)
    }
}

/// The score of `text` for a query, given the lowercase of both: nothing unless every character of
/// the query is hit, else what the hits earn less a tenth of the length of the text. An empty
/// query scores zero on every text.
pub open spec fn score(query: Seq<char>, text: Seq<char>, lower: Seq<char>) -> Option<int> {
    let at = hits(query, lower);
    if query.len() == 0 {
        Some(0)
    } else if at.len() == query.len() {
        Some(earned(text, at, at.len()) - text.len() as int / 10)
    } else {
        None
    }
}

/// Whether the points fit a machine integer.
pub open spec fn scorable(query: Seq<char>, text: Seq<char>) -> bool {
    &&& text.len() <= i64::MAX
    &&& 14 * query.len() + 200 <= i64::MAX
}

/// Facts about the positions met by a scan.
pub proof fn lemma_scan(query: Seq<char>, text: Seq<char>, n: nat)
    requires
        n <= text.len(),
    ensures
        scan(query, text, n).len() <= query.len(),
        scan(query, text, n).len() <= n,
        forall|k: int|
            0 <= k < scan(query, text, n).len() ==> 0 <= #[trigger] scan(query, text, n)[k] < n,
        forall|k: int|
            0 <= k < scan(query, text, n).len() ==> text[#[trigger] scan(query, text, n)[k]]
                == query[k],
        forall|j: int, k: int|
            0 <= j < k < scan(query, text, n).len() ==> #[trigger] scan(query, text, n)[j]
                < #[trigger] scan(query, text, n)[k],
    decreases n,
{
    if n > 0 {
        lemma_scan(query, text, (n - 1) as nat);
    }
}

/// A later scan continues an earlier one.
proof fn lemma_scan_prefix(query: Seq<char>, text: Seq<char>, m: nat, n: nat)
    requires
        m <= n,
    ensures
        scan(query, text, m).len() <= scan(query, text, n).len(),
        forall|k: int|
            0 <= k < scan(query, text, m).len() ==> scan(query, text, m)[k] == #[trigger] scan(
                query,
                text,
                n,
            )[k],
    decreases n - m,
{
    if m < n {
        lemma_scan_prefix(query, text, m, (n - 1) as nat);
    }
}

/// No placement of the query reaches a character earlier than the scan does: where a placement
/// has put its first `k` characters before `n`, so has the scan.
proof fn lemma_scan_is_earliest(
    query: Seq<char>,
    text: Seq<char>,
    at: Seq<int>,
    k: nat,
    n: nat,
)
    requires
        places(query, text, at),
        k <= at.len(),
        n <= text.len(),
        k > 0 ==> at[k - 1] < n,
    ensures
        scan(query, text, n).len() >= k,
    decreases n,
{
    if k > 0 {
        assert(n > 0);
        let m = (n - 1) as nat;
        if at[k - 1] < m {
            lemma_scan_is_earliest(query, text, at, k, m);
        } else {
            assert(at[k - 1] == m);
            if k > 1 {
                assert(at[k - 2] < at[k - 1]);
            }
            lemma_scan_is_earliest(query, text, at, (k - 1) as nat, m);
            assert(text[at[k - 1]] == query[k - 1]);
        }
    }
}

/// A text scores for a query exactly where the query's characters occur in it in order.
pub proof fn lemma_score_iff_subsequence(query: Seq<char>, text: Seq<char>, lower: Seq<char>)
    ensures
        score(query, text, lower) is Some <==> is_subsequence(query, lower),
{
    lemma_scan(query, lower, lower.len());
    let met = hits(query, lower);
    if met.len() == query.len() {
        assert(places(query, lower, met));
    }
    if is_subsequence(query, lower) {
        let at = choose|at: Seq<int>| places(query, lower, at);
        lemma_scan_is_earliest(query, lower, at, at.len(), lower.len());
    }
}

/// The hits are the earliest possible: any other placement of the query puts each character at
/// the same place or later.
pub proof fn lemma_hits_are_earliest(query: Seq<char>, lower: Seq<char>, at: Seq<int>, k: int)
    requires
        places(query, lower, at),
        0 <= k < query.len(),
    ensures
        hits(query, lower).len() == query.len(),
        hits(query, lower)[k] <= at[k],
{
    lemma_scan(query, lower, lower.len());
    lemma_scan_is_earliest(query, lower, at, at.len(), lower.len());
    let n = (at[k] + 1) as nat;
    lemma_scan_is_earliest(query, lower, at, (k + 1) as nat, n);
    lemma_scan_prefix(query, lower, n, lower.len());
    lemma_scan(query, lower, n);
    assert(hits(query, lower)[k] == scan(query, lower, n)[k]);
}

/// Each hit earns at least one point and at most fourteen, the first one at most nine.
pub proof fn lemma_earned_bounds(text: Seq<char>, at: Seq<int>, n: nat)
    ensures
        n <= earned(text, at, n) <= 14 * n,
        n > 0 ==> earned(text, at, n) <= 14 * n - 5,
    decreases n,
{
    if n > 0 {
        lemma_earned_bounds(text, at, (n - 1) as nat);
    }
}

/// A hit at the start of a word earns more than one elsewhere, as long as either both or neither
/// continues a run.
pub proof fn lemma_word_start_earns_more(
    text: Seq<char>,
    at: Seq<int>,
    k: int,
    other_text: Seq<char>,
    other_at: Seq<int>,
    j: int,
)
    requires
        starts_word(text, at[k]),
        !starts_word(other_text, other_at[j]),
        continues_run(at, k) == continues_run(other_at, j),
    ensures
        points(text, at, k) > points(other_text, other_at, j),
{
}

/// A hit that continues a run earns more than one that does not, as long as either both or neither
/// is at the start of a word.
pub proof fn lemma_run_earns_more(
    text: Seq<char>,
    at: Seq<int>,
    k: int,
    other_text: Seq<char>,
    other_at: Seq<int>,
    j: int,
)
    requires
        continues_run(at, k),
        !continues_run(other_at, j),
        starts_word(text, at[k]) == starts_word(other_text, other_at[j]),
    ensures
        points(text, at, k) > points(other_text, other_at, j),
{
}

/// Typing on only narrows: a text that matches a longer query matches its beginning.
pub proof fn lemma_longer_query_matches_less(
    query: Seq<char>,
    longer: Seq<char>,
    text: Seq<char>,
    lower: Seq<char>,
)
    requires
        query.is_prefix_of(longer),
        score(longer, text, lower) is Some,
    ensures
        score(query, text, lower) is Some,
{
    lemma_score_iff_subsequence(longer, text, lower);
    lemma_score_iff_subsequence(query, text, lower);
    let at = choose|at: Seq<int>| places(longer, lower, at);
    let front = at.take(query.len() as int);
    assert forall|k: int| 0 <= k < front.len() implies lower[#[trigger] front[k]] == query[k] by {
        assert(front[k] == at[k]);
        assert(longer[k] == query[k]);
    }
    assert(places(query, lower, front));
}

/// Once all of the query is met, a scan meets nothing more.
proof fn lemma_scan_is_over(query: Seq<char>, text: Seq<char>, more: Seq<char>, n: nat)
    requires
        scan(query, text, text.len()).len() == query.len(),
        text.len() <= n <= text.len() + more.len(),
    ensures
        scan(query, text + more, n) == scan(query, text, text.len()),
    decreases n,
{
    if n > text.len() {
        lemma_scan_is_over(query, text, more, (n - 1) as nat);
    } else {
        lemma_scan_of_front(query, text, more, n);
    }
}

/// A scan that has not reached the added text has met what it meets without it.
proof fn lemma_scan_of_front(query: Seq<char>, text: Seq<char>, more: Seq<char>, n: nat)
    requires
        n <= text.len(),
    ensures
        scan(query, text + more, n) == scan(query, text, n),
    decreases n,
{
    if n > 0 {
        lemma_scan_of_front(query, text, more, (n - 1) as nat);
        assert((text + more)[n - 1] == text[n - 1]);
    }
}

/// Hits that lie in the text earn the same with more text behind it.
proof fn lemma_earned_in_front(text: Seq<char>, more: Seq<char>, at: Seq<int>, n: nat)
    requires
        n <= at.len(),
        forall|k: int| 0 <= k < at.len() ==> 0 <= #[trigger] at[k] < text.len(),
    ensures
        earned(text + more, at, n) == earned(text, at, n),
    decreases n,
{
    if n > 0 {
        lemma_earned_in_front(text, more, at, (n - 1) as nat);
        let p = at[n - 1];
        assert(0 <= p < text.len());
        assert((text + more)[p] == text[p]);
        assert(p > 0 ==> (text + more)[p - 1] == text[p - 1]);
    }
}

/// Text behind a complete match never adds points, it only costs length: shorter texts are
/// preferred. The lowercase of the text is as long as the text, and that of the longer text starts
/// with it.
pub proof fn lemma_text_behind_a_match_only_costs(
    query: Seq<char>,
    text: Seq<char>,
    lower: Seq<char>,
    more: Seq<char>,
    more_lower: Seq<char>,
)
    requires
        query.len() > 0,
        lower.len() == text.len(),
        score(query, text, lower) is Some,
    ensures
        score(query, text + more, lower + more_lower) == Some(
            score(query, text, lower)->0 + text.len() as int / 10 - (text + more).len() as int / 10,
        ),
        score(query, text + more, lower + more_lower)->0 <= score(query, text, lower)->0,
{
    let n = (lower + more_lower).len();
    lemma_scan(query, lower, lower.len());
    lemma_scan_is_over(query, lower, more_lower, n);
    let at = hits(query, lower);
    assert(hits(query, lower + more_lower) == at);
    lemma_earned_in_front(text, more, at, at.len());
}

/// Scores `text` for a query, given the lowercase of both.
pub fn fuzzy_score_chars(query: &[char], text: &[char], lower: &[char]) -> (res: Option<i64>)
    requires
        scorable(query@, text@),
    ensures
        res is Some == score(query@, text@, lower@) is Some,
        res matches Some(s) ==> s as int == score(query@, text@, lower@)->0,
        res is Some <==> is_subsequence(query@, lower@),
{
    proof {
        lemma_score_iff_subsequence(query@, text@, lower@);
    }
    if query.len() == 0 {
        return Some(0);
    }
    let ghost at = hits(query@, lower@);
    let mut met: usize = 0;
    let mut total: i64 = 0;
    let mut prev: Option<usize> = None;
    let mut i: usize = 0;
    while i < lower.len()
        invariant
            scorable(query@, text@),
            at == hits(query@, lower@),
            i <= lower.len(),
            met == scan(query@, lower@, i as nat).len(),
            met <= query.len(),
            total == earned(text@, at, met as nat),
            0 <= total <= 14 * met,
            met == 0 ==> prev is None,
            met > 0 ==> prev == Some(scan(query@, lower@, i as nat).last() as usize),
            met > 0 ==> 0 <= scan(query@, lower@, i as nat).last() < i,
        decreases lower.len() - i,
    {
        if met < query.len() && lower[i] == query[met] {
            let ghost now = scan(query@, lower@, (i + 1) as nat);
            proof {
                lemma_scan(query@, lower@, i as nat);
                lemma_scan_prefix(query@, lower@, (i + 1) as nat, lower@.len());
                assert(now[met as int] == i);
                assert(at[met as int] == i);
                if met > 0 {
                    assert(now[met - 1] == scan(query@, lower@, i as nat).last());
                    assert(at[met - 1] == now[met - 1]);
                }
            }
            let mut pts: i64 = 1;
            if i > 0 && prev == Some(i - 1) {
                pts += 5;
            }
            if i == 0 || (i - 1 < text.len() && !text[i - 1].is_alphanumeric()) {
                pts += 8;
            } else if i < text.len() && text[i].is_uppercase() {
                pts += 4;
            }
            assert(pts == points(text@, at, met as int));
            total += pts;
            prev = Some(i);
            met += 1;
        }
        i += 1;
    }
    if met == query.len() {
        Some(total - (text.len() as i64) / 10)
    } else {
        None
    }
}

/// Whether the points fit a machine integer.
fn can_score(query: &[char], text: &[char]) -> (yes: bool)
    ensures
        yes == scorable(query@, text@),
{
    text.len() as u128 <= i64::MAX as u128 && 14 * (query.len() as u128) + 200 <= i64::MAX as u128
}

/// The score of `text` for `query`: nothing unless all characters of the query occur in it in
/// order, whatever their case; higher is better.
pub open spec fn fuzzy(query: Seq<char>, text: Seq<char>) -> Option<int> {
    score(lowered(query), text, lowered(text))
}

/// The case of a query does not matter, as long as it is typed in ASCII.
pub proof fn lemma_case_of_query_is_ignored(query: Seq<char>, other: Seq<char>, text: Seq<char>)
    requires
        all_ascii(query),
        all_ascii(other),
        same_but_ascii_case(query, other),
    ensures
        fuzzy(query, text) == fuzzy(other, text),
{
}

/// Of two ASCII texts that start alike, where the query is met in the shorter one already, the
/// shorter is preferred: the text behind the match adds no points and costs its length.
pub proof fn lemma_shorter_text_is_preferred(query: Seq<char>, text: Seq<char>, more: Seq<char>)
    requires
        all_ascii(text + more),
        fuzzy(query, text) is Some,
    ensures
        fuzzy(query, text + more) is Some,
        fuzzy(query, text + more)->0 <= fuzzy(query, text)->0,
        lowered(query).len() > 0 ==> fuzzy(query, text + more)->0 == fuzzy(query, text)->0
            + text.len() as int / 10 - (text + more).len() as int / 10,
{
    assert(all_ascii(text)) by {
        assert forall|i: int| 0 <= i < text.len() implies #[trigger] text[i] as int <= 0x7f by {
            assert((text + more)[i] == text[i]);
        }
    }
    let fold = |c: char| ascii_folded(c);
    let whole = lowered(text + more);
    assert(whole =~= text.map_values(fold) + more.map_values(fold));
    if lowered(query).len() > 0 {
        lemma_text_behind_a_match_only_costs(
            lowered(query),
            text,
            text.map_values(fold),
            more,
            more.map_values(fold),
        );
    }
}

/// Whether the score of `text` for `query` fits a machine integer.
pub open spec fn fuzzy_scorable(query: Seq<char>, text: Seq<char>) -> bool {
    scorable(lowered(query), text)
}

/// Subsequence fuzzy score: `Some` if all characters of `query` occur in `text` in order (gaps
/// allowed), higher being better; `None` if they do not.
pub fn fuzzy_score(query: &str, text: &str) -> (res: Option<i64>)
    requires
        fuzzy_scorable(query@, text@),
    ensures
        res is Some == fuzzy(query@, text@) is Some,
        res matches Some(s) ==> s as int == fuzzy(query@, text@)->0,
        res is Some <==> is_subsequence(lowered(query@), lowered(text@)),
        query@.len() == 0 ==> res == Some(0i64),
{
    let q = chars_of(lower_text(query).as_str());
    let t = chars_of(text);
    let tl = chars_of(lower_text(text).as_str());
    fuzzy_score_chars(&q, &t, &tl)
}

/// Whether `fuzzy_score` can be called on `query` and `text`.
pub(crate) fn can_fuzzy_score(query: &str, text: &str) -> (yes: bool)
    ensures
        yes == fuzzy_scorable(query@, text@),
{
    let q = chars_of(lower_text(query).as_str());
    let t = chars_of(text);
    can_score(&q, &t)
}

/// A score lies between one and fourteen points for each character of the query, less what the
/// length of the text takes off; the first character earns at most nine.
pub proof fn lemma_score_bounds(query: Seq<char>, text: Seq<char>, lower: Seq<char>)
    ensures
        score(query, text, lower) matches Some(s) ==> query.len() - text.len() as int / 10 <= s
            <= 14 * query.len(),
        query.len() > 0 ==> (score(query, text, lower) matches Some(s) ==> s <= 14 * query.len() - 5
            - text.len() as int / 10),
{
    lemma_earned_bounds(text, hits(query, lower), hits(query, lower).len());
}

/// The score of `text` for `query`, as `fuzzy_score` gives it, or `None` where it might not fit a
/// machine integer.
pub fn try_fuzzy_score(query: &str, text: &str) -> (res: Option<Option<i64>>)
    ensures
        res is Some == fuzzy_scorable(query@, text@),
        res matches Some(scored) ==> scored is Some == fuzzy(query@, text@) is Some,
        res matches Some(Some(s)) ==> s as int == fuzzy(query@, text@)->0,
        res matches Some(scored) ==> (scored is Some <==> is_subsequence(
            lowered(query@),
            lowered(text@),
        )),
{
    if can_fuzzy_score(query, text) {
        Some(fuzzy_score(query, text))
    } else {
        None
    }
}

// ---- what a score is made of ------------------------------------------------------------------

/// How many of the first `n` numbers have a property.
pub open spec fn tally(property: spec_fn(int) -> bool, n: nat) -> int
    decreases n,
{
    if n == 0 {
        0
    } else {
        tally(property, (n - 1) as nat) + if property(n - 1) {
            1int
        } else {
            0
        }
    }
}

proof fn lemma_earned_by_tally(text: Seq<char>, at: Seq<int>, n: nat)
    requires
        forall|k: int| 0 <= k < n ==> 0 <= #[trigger] at[k],
    ensures
        earned(text, at, n) == n + 5 * tally(|k: int| k > 0 && at[k] == at[k - 1] + 1, n) + 8 * tally(
            |k: int|
                at[k] == 0 || (at[k] <= text.len() && !alphanumeric(text[at[k] - 1])),
            n,
        ) + 4 * tally(
            |k: int|
                at[k] > 0 && (at[k] > text.len() || alphanumeric(text[at[k] - 1])) && at[k]
                    < text.len() && uppercase(text[at[k]]),
            n,
        ),
    decreases n,
{
    if n > 0 {
        lemma_earned_by_tally(text, at, (n - 1) as nat);
        assert(0 <= at[n - 1]);
    }
}

/// What a match scores: a point for each character of the query, five more for each that comes right
/// behind the one before, eight more for each at the start of the text or behind a character that is
/// neither letter nor digit, four more for each other one that is a capital letter, less one for
/// every ten characters of the text.
pub proof fn lemma_score_is_made_of(query: Seq<char>, text: Seq<char>, lower: Seq<char>)
    requires
        query.len() > 0,
        is_subsequence(query, lower),
    ensures
        ({
            let at = hits(query, lower);
            let n = query.len();
            &&& at.len() == n
            &&& score(query, text, lower) == Some(
                n + 5 * tally(|k: int| k > 0 && at[k] == at[k - 1] + 1, n) + 8 * tally(
                    |k: int|
                        at[k] == 0 || (at[k] <= text.len() && !alphanumeric(text[at[k] - 1])),
                    n,
                ) + 4 * tally(
                    |k: int|
                        at[k] > 0 && (at[k] > text.len() || alphanumeric(text[at[k] - 1])) && at[k]
                            < text.len() && uppercase(text[at[k]]),
                    n,
                ) - text.len() as int / 10,
            )
        }),
{
    lemma_score_iff_subsequence(query, text, lower);
    lemma_scan(query, lower, lower.len());
    lemma_earned_by_tally(text, hits(query, lower), query.len());
}

/// Where a match is placed: each character of the query as early as it can be behind the one before,
/// the first one where it occurs first.
pub proof fn lemma_match_is_placed_early(query: Seq<char>, lower: Seq<char>, k: int, p: int)
    requires
        is_subsequence(query, lower),
        0 <= k < query.len(),
        0 <= p < lower.len(),
        lower[p] == query[k],
        k > 0 ==> p > hits(query, lower)[k - 1],
    ensures
        hits(query, lower).len() == query.len(),
        0 <= hits(query, lower)[k] <= p,
        lower[hits(query, lower)[k]] == query[k],
        k > 0 ==> hits(query, lower)[k - 1] < hits(query, lower)[k],
{
    lemma_scan(query, lower, lower.len());
    lemma_score_iff_subsequence(query, lower, lower);
    let met = hits(query, lower);
    if met[k] > p {
        let m = (p + 1) as nat;
        lemma_scan_prefix(query, lower, m, lower.len());
        lemma_scan(query, lower, m);
        lemma_met_before(query, lower, k as nat, p as nat);
        assert(scan(query, lower, m).len() > k);
        assert(scan(query, lower, m)[k] == met[k]);
    }
}

/// A scan up to a place where the next character is has met those before it, if they all are before.
proof fn lemma_met_before(query: Seq<char>, lower: Seq<char>, k: nat, p: nat)
    requires
        p < lower.len(),
        k < query.len(),
        hits(query, lower).len() == query.len(),
        k > 0 ==> hits(query, lower)[k - 1] < p,
        lower[p as int] == query[k as int],
    ensures
        scan(query, lower, (p + 1) as nat).len() > k,
{
    let met = scan(query, lower, p);
    lemma_scan_prefix(query, lower, p, lower.len());
    lemma_scan(query, lower, p);
    if met.len() < k {
        lemma_hit_is_met(query, lower, (k - 1) as nat, p);
    }
}

/// A scan that has passed a hit has met it.
proof fn lemma_hit_is_met(query: Seq<char>, lower: Seq<char>, k: nat, p: nat)
    requires
        p <= lower.len(),
        k < hits(query, lower).len(),
        hits(query, lower)[k as int] < p,
    ensures
        scan(query, lower, p).len() > k,
{
    lemma_scan_since(query, lower, p, lower.len());
}

/// What a later scan meets beyond an earlier one lies behind where that one stopped.
proof fn lemma_scan_since(query: Seq<char>, text: Seq<char>, m: nat, n: nat)
    requires
        m <= n,
    ensures
        scan(query, text, m).len() <= scan(query, text, n).len(),
        forall|k: int|
            scan(query, text, m).len() <= k < scan(query, text, n).len() ==> #[trigger] scan(
                query,
                text,
                n,
            )[k] >= m,
    decreases n - m,
{
    if m < n {
        lemma_scan_since(query, text, m, (n - 1) as nat);
    }
}

/// The empty query matches every text and scores nothing on it.
pub proof fn lemma_empty_query_scores_nothing(text: Seq<char>)
    ensures
        fuzzy(Seq::empty(), text) == Some(0int),
{
    assert(lowered(Seq::<char>::empty()) =~= Seq::empty());
}

/// A query matches a text just where the lowercase of its characters occurs in the lowercase of the
/// text in order.
pub proof fn lemma_query_matches_iff_it_occurs(query: Seq<char>, text: Seq<char>)
    ensures
        fuzzy(query, text) is Some <==> is_subsequence(lowered(query), lowered(text)),
{
    lemma_score_iff_subsequence(lowered(query), text, lowered(text));
}

/// Every query and text that a machine can hold can be scored: only a query whose lowercase has more
/// than half a quintillion characters might earn more points than can be counted.
pub proof fn lemma_ordinary_texts_can_be_scored(query: Seq<char>, text: Seq<char>)
    requires
        lowered(query).len() <= 0x0800_0000_0000_0000,
        text.len() <= i64::MAX,
    ensures
        fuzzy_scorable(query, text),
{
}

} // verus!
