//! Looking things up finds the first that is meant, and nothing only where there is none.
use crate::displays::{known_display, present_index, DisplayEntry, PresentDisplay};
use crate::geometry::{display_of, placed_window, Display, PlacedWindow};
use crate::layout::{top_position, ColumnPosition};
use crate::orphans::{
    display_at, numbered_window, orphan_of, rated_window, DisplayEntity, Orphan, RatedWindow,
};
use crate::sequences::{first_where, lemma_first_where};
use crate::windows::{managed_window, window_of, WindowEntry};
use crate::{DisplayId, Entity, WindowId, WorkspaceId};
use vstd::prelude::*;

verus! {

/// Finds the window of a number.
pub proof fn law_window_of(windows: Seq<WindowEntry>, id: WindowId)
    ensures
        match window_of(windows, id) {
            Some(found) => exists|k: int|
                {
                    &&& 0 <= k < windows.len()
                    &&& #[trigger] windows[k] == found
                    &&& windows[k].id == id
                    &&& forall|j: int| 0 <= j < k ==> !((#[trigger] windows[j]).id == id)
                },
            None => forall|j: int| 0 <= j < windows.len() ==> !((#[trigger] windows[j]).id == id),
        },
{
    let p = |x: WindowEntry| x.id == id;
    lemma_first_where(windows, p);
    assert forall|j: int| 0 <= j < windows.len() && !p(#[trigger] windows[j]) implies !(windows[j].id == id) by {
    }
    if let Some(found) = window_of(windows, id) {
        let k = first_where(windows, p)->0;
        assert(windows[k] == found);
    }
}

/// Finds the managed window of a number.
pub proof fn law_managed_window(windows: Seq<WindowEntry>, id: WindowId)
    ensures
        match managed_window(windows, id) {
            Some(found) => exists|k: int|
                {
                    &&& 0 <= k < windows.len()
                    &&& #[trigger] windows[k] == found
                    &&& windows[k].id == id && windows[k].unmanaged is None
                    &&& forall|j: int| 0 <= j < k ==> !((#[trigger] windows[j]).id == id && windows[j].unmanaged is None)
                },
            None => forall|j: int| 0 <= j < windows.len() ==> !((#[trigger] windows[j]).id == id && windows[j].unmanaged is None),
        },
{
    let p = |x: WindowEntry| x.id == id && x.unmanaged is None;
    lemma_first_where(windows, p);
    assert forall|j: int| 0 <= j < windows.len() && !p(#[trigger] windows[j]) implies !(windows[j].id == id && windows[j].unmanaged is None) by {
    }
    if let Some(found) = managed_window(windows, id) {
        let k = first_where(windows, p)->0;
        assert(windows[k] == found);
    }
}

/// Finds the display of a number.
pub proof fn law_display_of<C>(displays: Seq<Display<C>>, id: DisplayId)
    ensures
        match display_of(displays, id) {
            Some(found) => exists|k: int|
                {
                    &&& 0 <= k < displays.len()
                    &&& #[trigger] displays[k] == found
                    &&& displays[k].id == id
                    &&& forall|j: int| 0 <= j < k ==> !((#[trigger] displays[j]).id == id)
                },
            None => forall|j: int| 0 <= j < displays.len() ==> !((#[trigger] displays[j]).id == id),
        },
{
    let p = |x: Display<C>| x.id == id;
    lemma_first_where(displays, p);
    assert forall|j: int| 0 <= j < displays.len() && !p(#[trigger] displays[j]) implies !(displays[j].id == id) by {
    }
    if let Some(found) = display_of(displays, id) {
        let k = first_where(displays, p)->0;
        assert(displays[k] == found);
    }
}

/// Finds the window of an entity.
pub proof fn law_placed_window<C>(windows: Seq<PlacedWindow<C>>, entity: Entity)
    ensures
        match placed_window(windows, entity) {
            Some(found) => exists|k: int|
                {
                    &&& 0 <= k < windows.len()
                    &&& #[trigger] windows[k] == found
                    &&& windows[k].entity == entity
                    &&& forall|j: int| 0 <= j < k ==> !((#[trigger] windows[j]).entity == entity)
                },
            None => forall|j: int| 0 <= j < windows.len() ==> !((#[trigger] windows[j]).entity == entity),
        },
{
    let p = |x: PlacedWindow<C>| x.entity == entity;
    lemma_first_where(windows, p);
    assert forall|j: int| 0 <= j < windows.len() && !p(#[trigger] windows[j]) implies !(windows[j].entity == entity) by {
    }
    if let Some(found) = placed_window(windows, entity) {
        let k = first_where(windows, p)->0;
        assert(windows[k] == found);
    }
}

/// Finds the column with a window at its top.
pub proof fn law_top_position<C>(positions: Seq<ColumnPosition<C>>, entity: Entity)
    ensures
        match top_position(positions, entity) {
            Some(found) => exists|k: int|
                {
                    &&& 0 <= k < positions.len()
                    &&& (#[trigger] positions[k]).position == found
                    &&& positions[k].top == Some(entity)
                    &&& forall|j: int| 0 <= j < k ==> !((#[trigger] positions[j]).top == Some(entity))
                },
            None => forall|j: int| 0 <= j < positions.len() ==> !((#[trigger] positions[j]).top == Some(entity)),
        },
{
    let p = |x: ColumnPosition<C>| x.top == Some(entity);
    lemma_first_where(positions, p);
    assert forall|j: int| 0 <= j < positions.len() && !p(#[trigger] positions[j]) implies !(positions[j].top == Some(entity)) by {
    }
    if let Some(found) = top_position(positions, entity) {
        let k = first_where(positions, p)->0;
        assert(positions[k].position == found);
    }
}

/// Finds the place of a present display.
pub proof fn law_present_index(present: Seq<PresentDisplay>, id: DisplayId)
    ensures
        match present_index(present, id) {
            Some(found) => {
                &&& 0 <= found < present.len()
                &&& present[found].id == id
                &&& forall|j: int| 0 <= j < found ==> !((#[trigger] present[j]).id == id)
            },
            None => forall|j: int| 0 <= j < present.len() ==> !((#[trigger] present[j]).id == id),
        },
{
    let p = |x: PresentDisplay| x.id == id;
    lemma_first_where(present, p);
    assert forall|j: int| 0 <= j < present.len() && !p(#[trigger] present[j]) implies !(present[j].id == id) by {
    }
}

/// Finds the known display of a number.
pub proof fn law_known_display(displays: Seq<DisplayEntry>, id: DisplayId)
    ensures
        match known_display(displays, id) {
            Some(found) => exists|k: int|
                {
                    &&& 0 <= k < displays.len()
                    &&& #[trigger] displays[k] == found
                    &&& displays[k].id == id
                    &&& forall|j: int| 0 <= j < k ==> !((#[trigger] displays[j]).id == id)
                },
            None => forall|j: int| 0 <= j < displays.len() ==> !((#[trigger] displays[j]).id == id),
        },
{
    let p = |x: DisplayEntry| x.id == id;
    lemma_first_where(displays, p);
    assert forall|j: int| 0 <= j < displays.len() && !p(#[trigger] displays[j]) implies !(displays[j].id == id) by {
    }
    if let Some(found) = known_display(displays, id) {
        let k = first_where(displays, p)->0;
        assert(displays[k] == found);
    }
}

/// Finds the window of an entity, with its share.
pub proof fn law_rated_window<C>(windows: Seq<RatedWindow<C>>, entity: Entity)
    ensures
        match rated_window(windows, entity) {
            Some(found) => exists|k: int|
                {
                    &&& 0 <= k < windows.len()
                    &&& #[trigger] windows[k] == found
                    &&& windows[k].entity == entity
                    &&& forall|j: int| 0 <= j < k ==> !((#[trigger] windows[j]).entity == entity)
                },
            None => forall|j: int| 0 <= j < windows.len() ==> !((#[trigger] windows[j]).entity == entity),
        },
{
    let p = |x: RatedWindow<C>| x.entity == entity;
    lemma_first_where(windows, p);
    assert forall|j: int| 0 <= j < windows.len() && !p(#[trigger] windows[j]) implies !(windows[j].entity == entity) by {
    }
    if let Some(found) = rated_window(windows, entity) {
        let k = first_where(windows, p)->0;
        assert(windows[k] == found);
    }
}

/// Finds the window of a number, with its share.
pub proof fn law_numbered_window<C>(windows: Seq<RatedWindow<C>>, id: WindowId)
    ensures
        match numbered_window(windows, id) {
            Some(found) => exists|k: int|
                {
                    &&& 0 <= k < windows.len()
                    &&& #[trigger] windows[k] == found
                    &&& windows[k].id == id
                    &&& forall|j: int| 0 <= j < k ==> !((#[trigger] windows[j]).id == id)
                },
            None => forall|j: int| 0 <= j < windows.len() ==> !((#[trigger] windows[j]).id == id),
        },
{
    let p = |x: RatedWindow<C>| x.id == id;
    lemma_first_where(windows, p);
    assert forall|j: int| 0 <= j < windows.len() && !p(#[trigger] windows[j]) implies !(windows[j].id == id) by {
    }
    if let Some(found) = numbered_window(windows, id) {
        let k = first_where(windows, p)->0;
        assert(windows[k] == found);
    }
}

/// Finds the display of an entity.
pub proof fn law_display_at<C>(displays: Seq<DisplayEntity<C>>, entity: Entity)
    ensures
        match display_at(displays, entity) {
            Some(found) => exists|k: int|
                {
                    &&& 0 <= k < displays.len()
                    &&& (#[trigger] displays[k]).display == found
                    &&& displays[k].entity == entity
                    &&& forall|j: int| 0 <= j < k ==> !((#[trigger] displays[j]).entity == entity)
                },
            None => forall|j: int| 0 <= j < displays.len() ==> !((#[trigger] displays[j]).entity == entity),
        },
{
    let p = |x: DisplayEntity<C>| x.entity == entity;
    lemma_first_where(displays, p);
    assert forall|j: int| 0 <= j < displays.len() && !p(#[trigger] displays[j]) implies !(displays[j].entity == entity) by {
    }
    if let Some(found) = display_at(displays, entity) {
        let k = first_where(displays, p)->0;
        assert(displays[k].display == found);
    }
}

/// Finds the orphan of a workspace.
pub proof fn law_orphan_of(orphans: Seq<Orphan>, id: WorkspaceId)
    ensures
        match orphan_of(orphans, id) {
            Some(found) => {
                &&& 0 <= found < orphans.len()
                &&& orphans[found].strip@.id == id
                &&& forall|j: int| 0 <= j < found ==> !((#[trigger] orphans[j]).strip@.id == id)
            },
            None => forall|j: int| 0 <= j < orphans.len() ==> !((#[trigger] orphans[j]).strip@.id == id),
        },
{
    let p = |x: Orphan| x.strip@.id == id;
    lemma_first_where(orphans, p);
    assert forall|j: int| 0 <= j < orphans.len() && !p(#[trigger] orphans[j]) implies !(orphans[j].strip@.id == id) by {
    }
}

} // verus!
