//! An observer of focus and geometry events: what it subscribes to, what it logs, and what it gives
//! back, in which order, when it ends.

use vstd::prelude::*;

verus! {

/// The context that the observer's callback gets.
#[derive(Debug)]
pub struct ObserverCtx {
    /// The name under which events are logged.
    pub label: String,
}

/// The line that is logged for an event; a question mark stands for a missing context.
pub open spec fn logged(ctx: Option<ObserverCtx>, event: Seq<char>) -> Seq<char> {
    "[ax-event] "@ + match ctx {
        Some(ctx) => ctx.label@,
        None => "?"@,
    } + ": "@ + event
}

/// The line that is logged for an event.
pub fn event_line(ctx: &Option<ObserverCtx>, event: &str) -> (line: String)
    ensures
        line@ == logged(*ctx, event@),
{
    let mut line = "[ax-event] ".to_owned();
    match ctx {
        Some(ctx) => line.append(ctx.label.as_str()),
        None => line.append("?"),
    }
    line.append(": ");
    line.append(event);
    line
}

/// The notifications that could be subscribed to, given for each whether it could.
pub open spec fn succeeded(outcomes: Seq<bool>) -> Seq<usize>
    decreases outcomes.len(),
{
    if outcomes.len() == 0 {
        Seq::empty()
    } else if outcomes.last() {
        succeeded(outcomes.drop_last()).push((outcomes.len() - 1) as usize)
    } else {
        succeeded(outcomes.drop_last())
    }
}

/// The notifications that could be subscribed to: those that have to be unsubscribed from later.
pub fn subscribed(outcomes: &[bool]) -> (kept: Vec<usize>)
    ensures
        kept@ == succeeded(outcomes@),
{
    let mut kept: Vec<usize> = Vec::new();
    let mut i: usize = 0;
    while i < outcomes.len()
        invariant
            i <= outcomes.len(),
            kept@ == succeeded(outcomes@.take(i as int)),
        decreases outcomes.len() - i,
    {
        assert(outcomes@.take(i + 1).drop_last() =~= outcomes@.take(i as int));
        if outcomes[i] {
            kept.push(i);
        }
        i += 1;
    }
    assert(outcomes@.take(outcomes@.len() as int) =~= outcomes@);
    kept
}

/// One thing to do when an observer ends.
#[derive(Debug, Clone, Copy, PartialEq, Eq, Structural)]
pub enum Teardown {
    /// Remove its source from the run loop, so that no callback starts any more.
    RemoveSource,
    /// Unsubscribe from the notification with this index.
    Unsubscribe(usize),
    /// Release the observer.
    ReleaseObserver,
    /// Free the context that the callback gets.
    FreeContext,
}

/// What ends an observer with the given subscriptions: the source is removed first, and the context
/// is freed last, when nothing is left that could use it.
pub open spec fn ending(subscriptions: Seq<usize>) -> Seq<Teardown> {
    seq![Teardown::RemoveSource] + subscriptions.map_values(|n: usize| Teardown::Unsubscribe(n))
        + seq![Teardown::ReleaseObserver, Teardown::FreeContext]
}

/// What ends an observer with the given subscriptions.
pub fn teardown(subscriptions: &[usize]) -> (steps: Vec<Teardown>)
    ensures
        steps@ == ending(subscriptions@),
{
    let mut steps: Vec<Teardown> = Vec::new();
    steps.push(Teardown::RemoveSource);
    let mut i: usize = 0;
    while i < subscriptions.len()
        invariant
            i <= subscriptions.len(),
            steps@ == seq![Teardown::RemoveSource] + subscriptions@.take(i as int).map_values(
                |n: usize| Teardown::Unsubscribe(n),
            ),
        decreases subscriptions.len() - i,
    {
        steps.push(Teardown::Unsubscribe(subscriptions[i]));
        assert(steps@ =~= seq![Teardown::RemoveSource] + subscriptions@.take(i + 1).map_values(
            |n: usize| Teardown::Unsubscribe(n),
        ));
        i += 1;
    }
    steps.push(Teardown::ReleaseObserver);
    steps.push(Teardown::FreeContext);
    assert(steps@ =~= ending(subscriptions@));
    steps
}

/// What was subscribed to is just what could be: each notification once, in order.
pub proof fn lemma_subscriptions_are_those_that_succeeded(outcomes: Seq<bool>, n: usize)
    requires
        outcomes.len() <= usize::MAX,
    ensures
        succeeded(outcomes).contains(n) <==> n < outcomes.len() && outcomes[n as int],
        succeeded(outcomes).no_duplicates(),
    decreases outcomes.len(),
{
    if outcomes.len() > 0 {
        let front = outcomes.drop_last();
        let before = succeeded(front);
        let last = (outcomes.len() - 1) as usize;
        lemma_subscriptions_are_those_that_succeeded(front, n);
        lemma_subscriptions_are_those_that_succeeded(front, last);
        if outcomes.last() {
            assert(before.push(last)[before.len() as int] == last);
            assert forall|m: usize| before.contains(m) implies before.push(last).contains(m) by {
                let i = choose|i: int| 0 <= i < before.len() && before[i] == m;
                assert(before.push(last)[i] == m);
            }
        }
    }
}

/// An observer that ends unsubscribes from all that it subscribed to before it is released, and
/// frees its context after everything else.
pub proof fn lemma_context_outlives_the_observer(subscriptions: Seq<usize>, i: int)
    requires
        0 <= i < subscriptions.len(),
    ensures
        ending(subscriptions)[0] == Teardown::RemoveSource,
        ending(subscriptions)[1 + i] == Teardown::Unsubscribe(subscriptions[i]),
        ending(subscriptions).last() == Teardown::FreeContext,
        ending(subscriptions)[ending(subscriptions).len() - 2] == Teardown::ReleaseObserver,
        ending(subscriptions).len() == subscriptions.len() + 3,
{
}

/// What was subscribed to is kept in the order in which it was subscribed to.
pub proof fn lemma_subscriptions_are_kept_in_order(outcomes: Seq<bool>)
    requires
        outcomes.len() <= usize::MAX,
    ensures
        forall|i: int| 0 <= i < succeeded(outcomes).len() ==> #[trigger] succeeded(outcomes)[i]
            < outcomes.len(),
        forall|i: int, j: int|
            0 <= i < j < succeeded(outcomes).len() ==> #[trigger] succeeded(outcomes)[i]
                < #[trigger] succeeded(outcomes)[j],
    decreases outcomes.len(),
{
    if outcomes.len() > 0 {
        let before = succeeded(outcomes.drop_last());
        let all = succeeded(outcomes);
        lemma_subscriptions_are_kept_in_order(outcomes.drop_last());
        assert forall|i: int| 0 <= i < all.len() implies #[trigger] all[i] < outcomes.len() by {
            if i < before.len() {
                assert(all[i] == before[i]);
            }
        }
        assert forall|i: int, j: int| 0 <= i < j < all.len() implies #[trigger] all[i]
            < #[trigger] all[j] by {
            assert(all[i] == before[i]);
            if j < before.len() {
                assert(all[j] == before[j]);
            }
        }
    }
}

/// A logged line names the event and, where there is a context, its label.
pub proof fn lemma_event_is_logged(ctx: Option<ObserverCtx>, event: Seq<char>)
    ensures
        ctx matches Some(c) ==> logged(ctx, event) == "[ax-event] "@ + c.label@ + ": "@ + event,
        ctx is None ==> logged(ctx, event) == "[ax-event] "@ + "?"@ + ": "@ + event,
{
}

} // verus!
