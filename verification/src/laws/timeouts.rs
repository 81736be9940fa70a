//! Waiting.
use crate::commands::CommandView;
use crate::sequences::lemma_flat_map_where;
use crate::timeouts::{
    dropped, given_up, longest, settled, total, Dragged, Initializing, TimeoutView, Waiting,
};
use vstd::prelude::*;

verus! {

/// A wait that is not over knows how long it has lasted: the times passed, until they make up its
/// duration; and from then on its duration, and it is over. What it is for does not change.
pub proof fn law_elapsed(start: TimeoutView, deltas: Seq<nat>)
    requires
        !start.finished,
        start.duration <= longest(),
    ensures
        ({
            let end = start.after(deltas);
            &&& end.duration == start.duration
            &&& end.message == start.message
            &&& end.finished <==> deltas.len() > 0 && start.elapsed + total(deltas)
                >= start.duration
            &&& end.elapsed == if end.finished {
                start.duration
            } else {
                start.elapsed + total(deltas)
            }
        }),
    decreases deltas.len(),
{
    if deltas.len() > 0 {
        law_elapsed(start, deltas.drop_last());
        if deltas.len() == 1 {
            assert(total(deltas.drop_last()) == 0);
        }
    }
}

/// The time that a wait has lasted is the sum of the times passed.
pub proof fn law_total(deltas: Seq<nat>, delta: nat)
    ensures
        total(Seq::empty()) == 0,
        total(deltas.push(delta)) == total(deltas) + delta,
{
    assert(deltas.push(delta).drop_last() =~= deltas);
}

/// Exactly the entities are given up for which the wait is over; nothing else is asked for.
pub proof fn law_given_up(timers: Seq<Waiting>, command: CommandView)
    ensures
        timers.flat_map(given_up()).contains(command) <==> exists|i: int|
            {
                &&& 0 <= i < timers.len()
                &&& (#[trigger] timers[i]).timeout@.finished
                &&& command == CommandView::Despawn(timers[i].entity)
            },
{
    broadcast use
        vstd::seq_lib::lemma_seq_contains_after_push,
        vstd::seq_lib::lemma_seq_empty_contains_nothing,
    ;

    lemma_flat_map_where(
        timers,
        given_up(),
        command,
        |w: Waiting| w.timeout@.finished && command == CommandView::Despawn(w.entity),
    );
}

/// Exactly what is no longer new is no longer waited for; nothing else is asked for.
pub proof fn law_settled(entries: Seq<Initializing>, command: CommandView)
    ensures
        entries.flat_map(settled()).contains(command) <==> exists|i: int|
            {
                &&& 0 <= i < entries.len()
                &&& !(#[trigger] entries[i]).fresh
                &&& command == CommandView::RemoveTimeout(entries[i].entity)
            },
{
    broadcast use
        vstd::seq_lib::lemma_seq_contains_after_push,
        vstd::seq_lib::lemma_seq_empty_contains_nothing,
    ;

    lemma_flat_map_where(
        entries,
        settled(),
        command,
        |e: Initializing| !e.fresh && command == CommandView::RemoveTimeout(e.entity),
    );
}

/// The strip is laid out around exactly the windows whose drag is over; nothing else is asked for.
pub proof fn law_dropped(markers: Seq<Dragged>, command: CommandView)
    ensures
        markers.flat_map(dropped()).contains(command) <==> exists|i: int|
            {
                &&& 0 <= i < markers.len()
                &&& (#[trigger] markers[i]).timeout@.finished
                &&& command == CommandView::Reshuffle(markers[i].window)
            },
{
    broadcast use
        vstd::seq_lib::lemma_seq_contains_after_push,
        vstd::seq_lib::lemma_seq_empty_contains_nothing,
    ;

    lemma_flat_map_where(
        markers,
        dropped(),
        command,
        |d: Dragged| d.timeout@.finished && command == CommandView::Reshuffle(d.window),
    );
}

/// A wait starts at nothing, is not over, and is for what it was started for.
pub proof fn law_wait_starts(duration: nat, message: Option<Seq<char>>)
    ensures
        TimeoutView::fresh(duration, message).elapsed == 0,
        TimeoutView::fresh(duration, message).duration == duration,
        !TimeoutView::fresh(duration, message).finished,
        TimeoutView::fresh(duration, message).message == message,
{
}

/// Each entry asks for at most one thing.
pub proof fn law_asks_once(waiting: Waiting, entry: Initializing, dragged: Dragged)
    ensures
        given_up()(waiting).len() <= 1,
        settled()(entry).len() <= 1,
        dropped()(dragged).len() <= 1,
{
}

} // verus!
