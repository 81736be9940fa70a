//! Displays that come, go and change.
use crate::commands::CommandView;
use crate::displays::{
    active_event, added, display_changes, display_moved, display_removed, gathered, known_display,
    orphan_timeout, orphaned, rearranged, removed, space_change, strips_of, DisplayEntry,
    GatheredDisplay, PresentDisplay, Rearrangement, StripEntry, WatchedDisplay,
};
use crate::events::Event;
use crate::laws::lookup::{law_known_display, law_present_index};
use crate::sequences::{lemma_first_where, lemma_first_where_is, lemma_flat_map_where};
use crate::text::decimal;
use crate::{DisplayId, Entity, WorkspaceId};
use vstd::prelude::*;

verus! {

/// A display gets a strip for each of its workspaces, in order, and the one that is shown is marked
/// and no other; where it cannot be told which is shown, it gets none.
pub proof fn law_gathered_strips(display: GatheredDisplay)
    ensures
        display.active_space is None ==> strips_of(display).len() == 0,
        display.active_space matches Some(space) ==> {
            &&& strips_of(display).len() == display.workspaces@.len()
            &&& forall|i: int|
                0 <= i < strips_of(display).len() ==> {
                    &&& (#[trigger] strips_of(display)[i]).0 == display.workspaces@[i]
                    &&& strips_of(display)[i].1 <==> display.workspaces@[i] == space
                }
        },
{
}

/// Every present display is spawned, once and in its place, and marked as active exactly where it
/// is; where it cannot be told which display is active, none is spawned.
pub proof fn law_displays_gathered(active: Option<DisplayId>, present: Seq<GatheredDisplay>, i: int)
    ensures
        active is None ==> gathered(active, present).len() == 0,
        active is Some ==> gathered(active, present).len() == present.len(),
        active is Some && 0 <= i < present.len() ==> {
            &&& gathered(active, present)[i].0 <==> present[i].id == active->0
            &&& gathered(active, present)[i].1 == strips_of(present[i])
        },
{
}

/// Another workspace is announced exactly where one is shown that was not noted; it is then noted,
/// so that showing it still is not announced again.
pub proof fn law_space_announced_once(
    current: WorkspaceId,
    shown: Option<WorkspaceId>,
    next: Option<WorkspaceId>,
)
    ensures
        ({
            let (event, noted) = space_change(current, shown);
            let (again, _) = space_change(noted, next);
            &&& event is Some <==> shown is Some && shown->0 != current
            &&& event is Some ==> event->0 is SpaceChanged
            &&& shown is Some ==> noted == shown->0
            &&& shown is None ==> noted == current
            &&& next == shown ==> again is None
        }),
{
}

/// A display that has become active is added where it is not known, and a change where it is known
/// and was not active; where it was active, or cannot be told, nothing has happened to it.
pub proof fn law_active_display(current: Option<DisplayId>, displays: Seq<WatchedDisplay>, k: int)
    ensures
        current is None ==> active_event(current, displays) is None,
        current matches Some(id) ==> {
            &&& (forall|j: int| 0 <= j < displays.len() ==> (#[trigger] displays[j]).id != id)
                ==> active_event(current, displays) == Some(Event::DisplayAdded { display_id: id })
            &&& 0 <= k < displays.len() && displays[k].id == id && (forall|j: int|
                0 <= j < k ==> (#[trigger] displays[j]).id != id) ==> active_event(
                current,
                displays,
            ) == if displays[k].active {
                None
            } else {
                Some(Event::DisplayChanged)
            }
        },
{
    if let Some(id) = current {
        let p = |d: WatchedDisplay| d.id == id;
        lemma_first_where(displays, p);
        if 0 <= k < displays.len() && displays[k].id == id && (forall|j: int|
            0 <= j < k ==> (#[trigger] displays[j]).id != id) {
            lemma_first_where_is(displays, p, k);
        }
    }
}

/// What has happened to the active display is announced first; all else that is announced is that
/// displays are gone.
pub proof fn law_changes_in_order(
    current: Option<DisplayId>,
    displays: Seq<WatchedDisplay>,
    present: Seq<DisplayId>,
    i: int,
)
    requires
        0 <= i < display_changes(current, displays, present).len(),
    ensures
        ({
            let changes = display_changes(current, displays, present);
            let event = active_event(current, displays);
            &&& current is Some
            &&& event is Some ==> changes[0] == CommandView::Trigger(event->0)
            &&& i > 0 || event is None ==> exists|k: int|
                {
                    &&& 0 <= k < displays.len()
                    &&& changes[i] == CommandView::Trigger(
                        Event::DisplayRemoved { display_id: (#[trigger] displays[k]).id },
                    )
                    &&& !present.contains(displays[k].id)
                }
        }),
{
    broadcast use
        vstd::seq_lib::lemma_seq_contains_after_push,
        vstd::seq_lib::lemma_seq_empty_contains_nothing,
    ;

    let changes = display_changes(current, displays, present);
    let event = active_event(current, displays);
    let f = removed(present);
    let tail = displays.flat_map(f);
    let skip: int = if event is Some {
        1
    } else {
        0
    };
    if i >= skip {
        let change = tail[i - skip];
        assert(changes[i] == change);
        assert(tail.contains(change));
        let p = |d: WatchedDisplay|
            !present.contains(d.id) && change == CommandView::Trigger(
                Event::DisplayRemoved { display_id: d.id },
            );
        lemma_flat_map_where(displays, f, change, p);
        let k = choose|k: int| 0 <= k < displays.len() && p(#[trigger] displays[k]);
        assert(changes[i] == CommandView::Trigger(
            Event::DisplayRemoved { display_id: displays[k].id },
        ));
    }
}

/// An added display is spawned once, with its workspaces, where it is present, and not otherwise.
pub proof fn law_display_added(id: DisplayId, present: Seq<PresentDisplay>)
    requires
        present.len() <= usize::MAX,
    ensures
        (forall|j: int| 0 <= j < present.len() ==> (#[trigger] present[j]).id != id) ==> added(
            id,
            present,
        ).len() == 0,
        (exists|j: int| 0 <= j < present.len() && (#[trigger] present[j]).id == id) ==> {
            let asked = added(id, present);
            &&& asked.len() == 1
            &&& asked[0] is SpawnDisplay
            &&& asked[0]->SpawnDisplay_present < present.len()
            &&& present[asked[0]->SpawnDisplay_present as int].id == id
            &&& present[asked[0]->SpawnDisplay_present as int].workspaces@ == asked[0]->workspaces
            &&& forall|j: int|
                0 <= j < asked[0]->SpawnDisplay_present ==> (#[trigger] present[j]).id != id
        },
{
    law_present_index(present, id);
}

/// A moved display takes over the measures of the present display of the same number, where it is
/// known and present, and nothing happens otherwise.
pub proof fn law_display_moved(
    id: DisplayId,
    displays: Seq<DisplayEntry>,
    present: Seq<PresentDisplay>,
)
    requires
        present.len() <= usize::MAX,
    ensures
        ({
            let asked = display_moved(id, displays, present);
            let known = exists|j: int| 0 <= j < displays.len() && (#[trigger] displays[j]).id == id;
            let there = exists|j: int| 0 <= j < present.len() && (#[trigger] present[j]).id == id;
            &&& !(known && there) ==> asked.len() == 0
            &&& known && there ==> {
                &&& asked.len() == 1
                &&& asked[0] is ReplaceDisplay
                &&& asked[0]->ReplaceDisplay_present < present.len()
                &&& present[asked[0]->ReplaceDisplay_present as int].id == id
                &&& forall|j: int|
                    0 <= j < asked[0]->ReplaceDisplay_present ==> (#[trigger] present[j]).id != id
                &&& exists|k: int|
                    {
                        &&& 0 <= k < displays.len()
                        &&& (#[trigger] displays[k]).id == id
                        &&& displays[k].entity == asked[0]->display
                        &&& forall|j: int| 0 <= j < k ==> (#[trigger] displays[j]).id != id
                    }
            }
        }),
{
    law_present_index(present, id);
    law_known_display(displays, id);
}

/// A strip without a display is waited for from now on, for thirty seconds; the message tells its
/// number and what it shows.
pub proof fn law_orphan_timeout(strip: StripEntry)
    ensures
        orphan_timeout(strip).elapsed == 0,
        orphan_timeout(strip).duration == 30_000_000_000,
        !orphan_timeout(strip).finished,
        orphan_timeout(strip).message == Some(
            "Orphaned strip "@ + decimal(strip.id as nat) + " ("@ + strip.label@
                + ") could not be re-inserted after 30s."@,
        ),
{
}

/// A removed display that is not known asks for nothing. Of a known one, exactly its strips are
/// waited for and taken away from it, and exactly it is despawned; nothing else is asked for.
pub proof fn law_display_removed(
    id: DisplayId,
    strips: Seq<StripEntry>,
    displays: Seq<DisplayEntry>,
    command: CommandView,
)
    ensures
        (forall|j: int| 0 <= j < displays.len() ==> (#[trigger] displays[j]).id != id)
            ==> display_removed(id, strips, displays).len() == 0,
        known_display(displays, id) matches Some(display) ==> (display_removed(
            id,
            strips,
            displays,
        ).contains(command) <==> match command {
            CommandView::InsertTimeout { entity, timeout } => exists|i: int|
                {
                    &&& 0 <= i < strips.len()
                    &&& (#[trigger] strips[i]).parent == display.entity
                    &&& strips[i].entity == entity
                    &&& timeout == orphan_timeout(strips[i])
                },
            CommandView::Detach { child, parent } => parent == display.entity && exists|i: int|
                {
                    &&& 0 <= i < strips.len()
                    &&& (#[trigger] strips[i]).parent == display.entity
                    &&& strips[i].entity == child
                },
            CommandView::Despawn(entity) => entity == display.entity,
            _ => false,
        }),
{
    broadcast use
        vstd::seq_lib::lemma_seq_contains_after_push,
        vstd::seq_lib::lemma_seq_empty_contains_nothing,
    ;

    law_known_display(displays, id);
    if let Some(display) = known_display(displays, id) {
        let p = |strip: StripEntry|
            strip.parent == display.entity && match command {
                CommandView::InsertTimeout { entity, timeout } => strip.entity == entity && timeout
                    == orphan_timeout(strip),
                CommandView::Detach { child, parent } => parent == display.entity && strip.entity
                    == child,
                _ => false,
            };
        lemma_flat_map_where(strips, orphaned(display.entity), command, p);
        if exists|i: int| 0 <= i < strips.len() && p(#[trigger] strips[i]) {
            let i = choose|i: int| 0 <= i < strips.len() && p(#[trigger] strips[i]);
            assert(strips[i].parent == display.entity);
        }
        match command {
            CommandView::InsertTimeout { entity, timeout } => {
                if exists|i: int|
                    {
                        &&& 0 <= i < strips.len()
                        &&& (#[trigger] strips[i]).parent == display.entity
                        &&& strips[i].entity == entity
                        &&& timeout == orphan_timeout(strips[i])
                    } {
                    let i = choose|i: int|
                        {
                            &&& 0 <= i < strips.len()
                            &&& (#[trigger] strips[i]).parent == display.entity
                            &&& strips[i].entity == entity
                            &&& timeout == orphan_timeout(strips[i])
                        };
                    assert(p(strips[i]));
                }
            },
            CommandView::Detach { child, parent } => {
                if parent == display.entity && exists|i: int|
                    {
                        &&& 0 <= i < strips.len()
                        &&& (#[trigger] strips[i]).parent == display.entity
                        &&& strips[i].entity == child
                    } {
                    let i = choose|i: int|
                        {
                            &&& 0 <= i < strips.len()
                            &&& (#[trigger] strips[i]).parent == display.entity
                            &&& strips[i].entity == child
                        };
                    assert(p(strips[i]));
                }
            },
            _ => {},
        }
    }
}

/// Whatever an event of a display added, removed or moved comes to, it ends with the announcement
/// that the displays have changed; before it stands what the display asks for. Other events ask for
/// nothing.
pub proof fn law_rearranged(
    rearrangement: Rearrangement,
    strips: Seq<StripEntry>,
    displays: Seq<DisplayEntry>,
)
    ensures
        ({
            let asked = rearranged(rearrangement, strips, displays);
            let event = rearrangement.event;
            let present = rearrangement.present@;
            let about = event is DisplayAdded || event is DisplayRemoved || event is DisplayMoved;
            &&& asked.len() > 0 <==> about
            &&& about ==> asked.last() == CommandView::Trigger(Event::DisplayChanged)
            &&& event matches Event::DisplayAdded { display_id } ==> asked.drop_last() == added(
                display_id,
                present,
            )
            &&& event matches Event::DisplayRemoved { display_id } ==> asked.drop_last()
                == display_removed(display_id, strips, displays)
            &&& event matches Event::DisplayMoved { display_id } ==> asked.drop_last()
                == display_moved(display_id, displays, present)
        }),
{
    let asked = rearranged(rearrangement, strips, displays);
    let present = rearrangement.present@;
    match rearrangement.event {
        Event::DisplayAdded { display_id } => {
            assert(asked.drop_last() =~= added(display_id, present));
        },
        Event::DisplayRemoved { display_id } => {
            assert(asked.drop_last() =~= display_removed(display_id, strips, displays));
        },
        Event::DisplayMoved { display_id } => {
            assert(asked.drop_last() =~= display_moved(display_id, displays, present));
        },
        _ => {},
    }
}

/// A display is announced to be gone at most once; a strip that loses its display is first waited
/// for and then taken away from it.
pub proof fn law_announced_once(
    present: Seq<DisplayId>,
    watched: WatchedDisplay,
    display: Entity,
    strip: StripEntry,
)
    ensures
        removed(present)(watched).len() <= 1,
        orphaned(display)(strip).len() == if strip.parent == display { 2nat } else { 0nat },
        strip.parent == display ==> orphaned(display)(strip)[0] is InsertTimeout && orphaned(
            display,
        )(strip)[1] is Detach,
{
}

} // verus!
