//! The event log that the grammar writes and the sink replays.

use crate::error::ParseError;
use crate::syntax::SyntaxKind;
use vstd::prelude::*;

verus! {

/// One entry of the event log.
#[derive(Debug, Clone, PartialEq)]
pub enum Event {
    /// A node of the given kind begins here. With `offset: Some(d)`, the node
    /// `d` entries further on begins here too, and encloses this one.
    StartNode { kind: SyntaxKind, offset: Option<usize> },
    /// The next structural token of the input belongs here.
    AddToken,
    /// The innermost unfinished node ends here.
    FinishNode,
    /// A diagnostic raised at this point.
    Error(ParseError),
    /// The place of a marker that is still open, or was abandoned.
    Placeholder,
}

/// What an event adds to the number of unfinished nodes.
pub open spec fn delta(e: Event) -> int {
    match e {
        Event::StartNode { .. } => 1,
        Event::FinishNode => -1,
        _ => 0,
    }
}

/// The number of nodes that a log has started and not finished.
pub open spec fn depth(log: Seq<Event>) -> int
    decreases log.len(),
{
    if log.len() == 0 {
        0
    } else {
        depth(log.drop_last()) + delta(log.last())
    }
}

/// The number of `StartNode` events of a log.
pub open spec fn count_starts(log: Seq<Event>) -> nat
    decreases log.len(),
{
    if log.len() == 0 {
        0
    } else {
        count_starts(log.drop_last()) + if log.last() is StartNode { 1nat } else { 0nat }
    }
}

/// The number of `FinishNode` events of a log.
pub open spec fn count_finishes(log: Seq<Event>) -> nat
    decreases log.len(),
{
    if log.len() == 0 {
        0
    } else {
        count_finishes(log.drop_last()) + if log.last() is FinishNode { 1nat } else { 0nat }
    }
}

/// The number of `AddToken` events of a log.
pub open spec fn count_tokens(log: Seq<Event>) -> nat
    decreases log.len(),
{
    if log.len() == 0 {
        0
    } else {
        count_tokens(log.drop_last()) + if log.last() is AddToken { 1nat } else { 0nat }
    }
}

/// The diagnostics of a log, in the order in which they were raised.
pub open spec fn diagnostics(log: Seq<Event>) -> Seq<ParseError>
    decreases log.len(),
{
    if log.len() == 0 {
        Seq::empty()
    } else {
        match log.last() {
            Event::Error(e) => diagnostics(log.drop_last()).push(e),
            _ => diagnostics(log.drop_last()),
        }
    }
}

/// Whether the diagnostics stand in the order of the places they point at.
pub open spec fn ascending(errors: Seq<ParseError>) -> bool {
    forall|i: int, j: int|
        0 <= i <= j < errors.len() ==> (#[trigger] errors[i]).range.start <= (
        #[trigger] errors[j]).range.start
}

/// Whether the diagnostics of the log stand in the order of the places they
/// point at, none of them beyond `bound`.
pub open spec fn errors_ascend(log: Seq<Event>, bound: int) -> bool {
    &&& forall|i: int, j: int|
        0 <= i <= j < log.len() ==> (#[trigger] log[i] matches Event::Error(a) ==> (
        #[trigger] log[j] matches Event::Error(b) ==> a.range.start <= b.range.start))
    &&& forall|i: int|
        0 <= i < log.len() ==> (#[trigger] log[i] matches Event::Error(e) ==> e.range.start
            <= bound)
}

/// The diagnostics of a log whose errors ascend are ascending.
pub proof fn lemma_diagnostics_ascend(log: Seq<Event>, bound: int)
    requires
        errors_ascend(log, bound),
    ensures
        ascending(diagnostics(log)),
        forall|i: int|
            0 <= i < diagnostics(log).len() ==> (#[trigger] diagnostics(log)[i]).range.start
                <= bound,
    decreases log.len(),
{
    if log.len() > 0 {
        let rest = log.drop_last();
        let last = log.len() - 1;
        match log.last() {
            Event::Error(e) => {
                assert forall|i: int, j: int| 0 <= i <= j < rest.len() implies (
                #[trigger] rest[i] matches Event::Error(a) ==> (
                #[trigger] rest[j] matches Event::Error(b) ==> a.range.start
                    <= b.range.start)) by {
                    assert(rest[i] == log[i] && rest[j] == log[j]);
                }
                assert forall|i: int| 0 <= i < rest.len() implies (
                #[trigger] rest[i] matches Event::Error(a) ==> a.range.start
                    <= e.range.start) by {
                    assert(rest[i] == log[i]);
                    assert(log[last] == log.last());
                }
                lemma_diagnostics_ascend(rest, e.range.start as int);
                assert(log[last] == log.last());
            },
            _ => {
                assert forall|i: int, j: int| 0 <= i <= j < rest.len() implies (
                #[trigger] rest[i] matches Event::Error(a) ==> (
                #[trigger] rest[j] matches Event::Error(b) ==> a.range.start
                    <= b.range.start)) by {
                    assert(rest[i] == log[i] && rest[j] == log[j]);
                }
                assert forall|i: int| 0 <= i < rest.len() implies (
                #[trigger] rest[i] matches Event::Error(a) ==> a.range.start <= bound) by {
                    assert(rest[i] == log[i]);
                }
                lemma_diagnostics_ascend(rest, bound);
            },
        }
    }
}

/// Every forward offset of the log is positive: a chain of offsets moves
/// strictly forward, so it has no cycle.
pub open spec fn offsets_forward(log: Seq<Event>) -> bool {
    forall|i: int|
        0 <= i < log.len() ==> (#[trigger] log[i] matches Event::StartNode { offset: Some(d), .. }
            ==> d >= 1)
}

/// No prefix of the log finishes more nodes than it has started.
pub open spec fn never_negative(log: Seq<Event>) -> bool {
    forall|k: int| 0 <= k <= log.len() ==> depth(#[trigger] log.take(k)) >= 0
}

/// A log as the grammar leaves it when every marker is resolved: it opens with
/// the start of the root, the root stays unfinished up to the last event,
/// which finishes it, and forward offsets move forward.
pub open spec fn is_finished_log(log: Seq<Event>) -> bool {
    &&& log.len() >= 2
    &&& log[0] is StartNode
    &&& depth(log) == 0
    &&& forall|k: int| 0 < k < log.len() ==> depth(#[trigger] log.take(k)) >= 1
    &&& offsets_forward(log)
}

/// The depth of a log is the difference of its two counts.
pub proof fn lemma_depth_is_difference(log: Seq<Event>)
    ensures
        depth(log) == count_starts(log) - count_finishes(log),
    decreases log.len(),
{
    if log.len() > 0 {
        lemma_depth_is_difference(log.drop_last());
    }
}

/// A finished log starts as many nodes as it finishes.
pub proof fn lemma_finished_log_counts_match(log: Seq<Event>)
    requires
        is_finished_log(log),
    ensures
        count_starts(log) == count_finishes(log),
{
    lemma_depth_is_difference(log);
}

pub proof fn lemma_depth_push(log: Seq<Event>, e: Event)
    ensures
        depth(log.push(e)) == depth(log) + delta(e),
        count_tokens(log.push(e)) == count_tokens(log) + if e is AddToken { 1nat } else { 0nat },
{
    assert(log.push(e).drop_last() =~= log);
}

/// Taking a longer prefix adds the deltas of the events in between.
pub proof fn lemma_depth_take_step(log: Seq<Event>, k: int)
    requires
        0 <= k < log.len(),
    ensures
        depth(log.take(k + 1)) == depth(log.take(k)) + delta(log[k]),
        count_tokens(log.take(k + 1)) == count_tokens(log.take(k)) + if log[k] is AddToken {
            1nat
        } else {
            0nat
        },
{
    assert(log.take(k + 1).drop_last() =~= log.take(k));
}

/// Replacing one event shifts the depth of every prefix that holds it by the
/// difference of the two deltas, and leaves the shorter prefixes alone.
pub proof fn lemma_depth_update(log: Seq<Event>, a: int, e: Event, k: int)
    requires
        0 <= a < log.len(),
        0 <= k <= log.len(),
    ensures
        depth(log.update(a, e).take(k)) == depth(log.take(k)) + if a < k {
            delta(e) - delta(log[a])
        } else {
            0
        },
        !(e is AddToken) && !(log[a] is AddToken) ==> count_tokens(log.update(a, e).take(k))
            == count_tokens(log.take(k)),
    decreases k,
{
    if k > 0 {
        lemma_depth_update(log, a, e, k - 1);
        lemma_depth_take_step(log, k - 1);
        lemma_depth_take_step(log.update(a, e), k - 1);
    } else {
        assert(log.update(a, e).take(0) =~= log.take(0));
    }
}

} // verus!
