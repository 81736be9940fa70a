//! Strips that have lost their display, and how they find one again.
use crate::geometry::{Display, Placement};
use crate::scalar::Scalar;
use crate::sequences::{
    find_index, first_where, lemma_first_where, lemma_flat_map_contains, lemma_flat_map_ends,
    lemma_flat_map_split, lemma_flat_map_step,
};
use crate::strip::LayoutStrip;
use crate::windows::Unmanaged;
use crate::{Entity, WindowId, WorkspaceId};
use vstd::prelude::*;

verus! {

/// A strip without a display.
#[derive(Debug, PartialEq, Eq)]
pub struct Orphan {
    pub entity: Entity,
    pub strip: LayoutStrip,
}

/// A strip that a display has, and the windows that are reported to be on its workspace, where
/// they can be listed.
#[derive(Debug, PartialEq, Eq)]
pub struct AttachedStrip {
    pub entity: Entity,
    pub id: WorkspaceId,
    pub parent: Entity,
    pub reported: Option<Vec<WindowId>>,
}

/// A window, and the share of the display's width that it takes.
#[derive(Clone, Copy, Debug, PartialEq)]
pub struct RatedWindow<C> {
    pub entity: Entity,
    pub id: WindowId,
    pub unmanaged: Option<Unmanaged>,
    pub width_ratio: C,
}

/// A display and its entity.
#[derive(Clone, Copy, Debug, PartialEq)]
pub struct DisplayEntity<C> {
    pub entity: Entity,
    pub display: Display<C>,
}

/// A change of the world that brings the windows of an orphan back.
#[derive(Clone, Copy, Debug, PartialEq)]
pub enum Recovery<C> {
    /// Merge the windows of the orphan into the strip.
    Merge { orphan: Entity, into: Entity },
    /// Remove the orphan.
    Despawn(Entity),
    /// Move or resize a window.
    Place(Placement<C>),
}

/// The window of an entity.
pub open spec fn rated_window<C>(windows: Seq<RatedWindow<C>>, entity: Entity) -> Option<
    RatedWindow<C>,
> {
    match first_where(windows, |w: RatedWindow<C>| w.entity == entity) {
        Some(k) => Some(windows[k]),
        None => None,
    }
}

/// The first window of that number.
pub open spec fn numbered_window<C>(windows: Seq<RatedWindow<C>>, id: WindowId) -> Option<
    RatedWindow<C>,
> {
    match first_where(windows, |w: RatedWindow<C>| w.id == id) {
        Some(k) => Some(windows[k]),
        None => None,
    }
}

/// The display of an entity.
pub open spec fn display_at<C>(displays: Seq<DisplayEntity<C>>, entity: Entity) -> Option<
    Display<C>,
> {
    match first_where(displays, |d: DisplayEntity<C>| d.entity == entity) {
        Some(k) => Some(displays[k].display),
        None => None,
    }
}

/// The first orphan of that workspace.
pub open spec fn orphan_of(orphans: Seq<Orphan>, id: WorkspaceId) -> Option<int> {
    first_where(orphans, |o: Orphan| o.strip@.id == id)
}

fn get_rated<C: Scalar>(windows: &Vec<RatedWindow<C>>, entity: Entity) -> (found: Option<
    RatedWindow<C>,
>)
    ensures
        found == rated_window(windows@, entity),
{
    let test = |w: &RatedWindow<C>| -> (r: bool)
        ensures
            r == (w.entity == entity),
    {
        w.entity == entity
    };
    let found = find_index(windows, test, Ghost(|w: RatedWindow<C>| w.entity == entity));
    match found {
        Some(k) => Some(windows[k]),
        None => None,
    }
}

fn find_rated<C: Scalar>(windows: &Vec<RatedWindow<C>>, id: WindowId) -> (found: Option<
    RatedWindow<C>,
>)
    ensures
        found == numbered_window(windows@, id),
{
    let test = |w: &RatedWindow<C>| -> (r: bool)
        ensures
            r == (w.id == id),
    {
        w.id == id
    };
    let found = find_index(windows, test, Ghost(|w: RatedWindow<C>| w.id == id));
    match found {
        Some(k) => Some(windows[k]),
        None => None,
    }
}

fn get_display<C: Scalar>(displays: &Vec<DisplayEntity<C>>, entity: Entity) -> (found: Option<
    Display<C>,
>)
    ensures
        found == display_at(displays@, entity),
{
    let test = |d: &DisplayEntity<C>| -> (r: bool)
        ensures
            r == (d.entity == entity),
    {
        d.entity == entity
    };
    let found = find_index(displays, test, Ghost(|d: DisplayEntity<C>| d.entity == entity));
    match found {
        Some(k) => Some(displays[k].display),
        None => None,
    }
}

/// Finds the orphan of a workspace.
pub fn matching_orphan(orphans: &Vec<Orphan>, id: WorkspaceId) -> (index: Option<usize>)
    ensures
        match index {
            Some(k) => orphan_of(orphans@, id) == Some(k as int) && k < orphans@.len(),
            None => orphan_of(orphans@, id) is None,
        },
{
    let test = |o: &Orphan| -> (r: bool)
        ensures
            r == (o.strip@.id == id),
    {
        o.strip.id() == id
    };
    find_index(orphans, test, Ghost(|o: Orphan| o.strip@.id == id))
}

/// A window of a strip takes its share of the display's width, and all of its height.
pub open spec fn fitted<C: Scalar>(windows: Seq<RatedWindow<C>>, display: Display<C>) -> spec_fn(
    Entity,
) -> Seq<Recovery<C>> {
    |entity: Entity|
        match rated_window(windows, entity) {
            Some(window) => seq![
                Recovery::Place(
                    Placement::Resize {
                        entity,
                        width: display.bounds.size.width.product(window.width_ratio),
                        height: display.bounds.size.height,
                        display_id: display.id,
                    },
                ),
            ],
            None => Seq::empty(),
        }
}

/// Whether one of the entities is the window of that number.
pub open spec fn on_strip<C>(
    windows: Seq<RatedWindow<C>>,
    entities: Seq<Entity>,
    id: WindowId,
) -> bool {
    exists|i: int|
        0 <= i < entities.len() && (#[trigger] rated_window(windows, entities[i]) matches Some(
            window,
        ) && window.id == id)
}

/// A floating window that is not on the strip moves to the corner of the display.
pub open spec fn cornered<C: Scalar>(
    windows: Seq<RatedWindow<C>>,
    entities: Seq<Entity>,
    display: Display<C>,
) -> spec_fn(WindowId) -> Seq<Recovery<C>> {
    |id: WindowId|
        match numbered_window(windows, id) {
            Some(found) => match rated_window(windows, found.entity) {
                Some(window) => if window.unmanaged == Some(Unmanaged::Floating) && !on_strip(
                    windows,
                    entities,
                    id,
                ) {
                    seq![
                        Recovery::Place(
                            Placement::Reposition {
                                entity: window.entity,
                                x: C::integer(0),
                                y: C::integer(0),
                                display_id: display.id,
                            },
                        ),
                    ]
                } else {
                    Seq::empty()
                },
                None => Seq::empty(),
            },
            None => Seq::empty(),
        }
}

/// The windows that are reported; none where they could not be listed.
pub open spec fn reported_windows(strip: AttachedStrip) -> Seq<WindowId> {
    match strip.reported {
        Some(ids) => ids@,
        None => Seq::empty(),
    }
}

/// What it takes to bring the windows of an orphan back on a strip.
pub open spec fn reinserted<C: Scalar>(
    strip: AttachedStrip,
    orphan: Orphan,
    display: Display<C>,
    windows: Seq<RatedWindow<C>>,
) -> Seq<Recovery<C>> {
    let entities = orphan.strip@.windows();
    seq![
        Recovery::Merge { orphan: orphan.entity, into: strip.entity },
        Recovery::Despawn(orphan.entity),
    ] + entities.flat_map(fitted(windows, display)) + reported_windows(strip).flat_map(
        cornered(windows, entities, display),
    )
}

/// What it takes where a workspace has come back: where an orphan of it is left, and its strip is on
/// a known display, the windows of the orphan are brought back on the strip.
pub open spec fn recovered<C: Scalar>(
    orphans: Seq<Orphan>,
    displays: Seq<DisplayEntity<C>>,
    windows: Seq<RatedWindow<C>>,
) -> spec_fn(AttachedStrip) -> Seq<Recovery<C>> {
    |strip: AttachedStrip|
        match (orphan_of(orphans, strip.id), display_at(displays, strip.parent)) {
            (Some(k), Some(display)) => reinserted(strip, orphans[k], display, windows),
            _ => Seq::empty(),
        }
}

fn is_on_strip<C: Scalar>(
    windows: &Vec<RatedWindow<C>>,
    entities: &Vec<Entity>,
    id: WindowId,
) -> (found: bool)
    ensures
        found == on_strip(windows@, entities@, id),
{
    for i in 0..entities.len()
        invariant
            forall|j: int|
                0 <= j < i ==> !(#[trigger] rated_window(windows@, entities@[j]) matches Some(
                    window,
                ) && window.id == id),
    {
        if let Some(window) = get_rated(windows, entities[i]) {
            if window.id == id {
                assert(rated_window(windows@, entities@[i as int]) == Some(window));
                return true;
            }
        }
    }
    false
}

/// Brings the windows of an orphan back on a strip: they are merged into the strip, and the orphan
/// goes; they are fitted to the display, and the floating windows of the workspace move to its
/// corner.
pub fn reinsert<C: Scalar>(
    strip: &AttachedStrip,
    orphan: &Orphan,
    display: &Display<C>,
    windows: &Vec<RatedWindow<C>>,
) -> (r: Vec<Recovery<C>>)
    ensures
        r@ == reinserted(*strip, *orphan, *display, windows@),
{
    let mut r: Vec<Recovery<C>> = Vec::new();
    r.push(Recovery::Merge { orphan: orphan.entity, into: strip.entity });
    r.push(Recovery::Despawn(orphan.entity));
    let entities = orphan.strip.all_windows();

    let ghost start = r@;
    let ghost f = fitted(windows@, *display);
    proof {
        lemma_flat_map_ends(entities@, f);
        assert(start =~= start + entities@.take(0).flat_map(f));
    }
    for i in 0..entities.len()
        invariant
            f == fitted(windows@, *display),
            r@ == start + entities@.take(i as int).flat_map(f),
    {
        let ghost before = r@;
        proof {
            lemma_flat_map_step(entities@, f, i as int);
        }
        if let Some(window) = get_rated(windows, entities[i]) {
            r.push(
                Recovery::Place(
                    Placement::Resize {
                        entity: entities[i],
                        width: display.bounds.size.width.times(window.width_ratio),
                        height: display.bounds.size.height,
                        display_id: display.id,
                    },
                ),
            );
        }
        assert(r@ =~= before + f(entities@[i as int]));
        assert(r@ =~= start + entities@.take(i + 1).flat_map(f));
    }

    let ghost middle = r@;
    let ghost g = cornered(windows@, entities@, *display);
    match &strip.reported {
        None => {
            assert(reported_windows(*strip).flat_map(g) =~= Seq::empty()) by {
                lemma_flat_map_ends(reported_windows(*strip), g);
                assert(reported_windows(*strip).take(0) =~= reported_windows(*strip));
            }
            assert(r@ =~= reinserted(*strip, *orphan, *display, windows@));
        },
        Some(ids) => {
            proof {
                lemma_flat_map_ends(ids@, g);
                assert(middle =~= middle + ids@.take(0).flat_map(g));
            }
            for i in 0..ids.len()
                invariant
                    g == cornered(windows@, entities@, *display),
                    r@ == middle + ids@.take(i as int).flat_map(g),
            {
                let ghost before = r@;
                proof {
                    lemma_flat_map_step(ids@, g, i as int);
                }
                let id = ids[i];
                if let Some(found) = find_rated(windows, id) {
                    if let Some(window) = get_rated(windows, found.entity) {
                        let floating = match window.unmanaged {
                            Some(Unmanaged::Floating) => true,
                            _ => false,
                        };
                        if floating && !is_on_strip(windows, &entities, id) {
                            r.push(
                                Recovery::Place(
                                    Placement::Reposition {
                                        entity: window.entity,
                                        x: C::whole(0),
                                        y: C::whole(0),
                                        display_id: display.id,
                                    },
                                ),
                            );
                        }
                    }
                }
                assert(r@ =~= before + g(ids@[i as int]));
                assert(r@ =~= middle + ids@.take(i + 1).flat_map(g));
            }
        },
    }
    r
}

/// Whether the windows of a strip's workspace are to be listed: there is an orphan of the
/// workspace, and the strip is on a known display.
pub fn is_recoverable<C: Scalar>(
    strip: &AttachedStrip,
    orphans: &Vec<Orphan>,
    displays: &Vec<DisplayEntity<C>>,
) -> (r: bool)
    ensures
        r == (orphan_of(orphans@, strip.id) is Some && display_at(displays@, strip.parent) is Some),
{
    matching_orphan(orphans, strip.id).is_some() && get_display(displays, strip.parent).is_some()
}

/// Brings back the windows of the orphans whose workspaces have come back.
pub fn find_orphaned_workspaces<C: Scalar>(
    orphans: &Vec<Orphan>,
    strips: &Vec<AttachedStrip>,
    windows: &Vec<RatedWindow<C>>,
    displays: &Vec<DisplayEntity<C>>,
) -> (r: Vec<Recovery<C>>)
    ensures
        r@ == strips@.flat_map(recovered(orphans@, displays@, windows@)),
{
    let mut r: Vec<Recovery<C>> = Vec::new();
    let ghost f = recovered(orphans@, displays@, windows@);
    proof {
        lemma_flat_map_ends(strips@, f);
    }
    for i in 0..strips.len()
        invariant
            f == recovered(orphans@, displays@, windows@),
            r@ == strips@.take(i as int).flat_map(f),
    {
        let ghost before = r@;
        proof {
            lemma_flat_map_step(strips@, f, i as int);
        }
        if let Some(k) = matching_orphan(orphans, strips[i].id) {
            if let Some(display) = get_display(displays, strips[i].parent) {
                let mut recovery = reinsert(&strips[i], &orphans[k], &display, windows);
                r.append(&mut recovery);
            }
        }
        assert(r@ =~= before + f(strips@[i as int]));
    }
    r
}

/// An orphan whose workspace has come back on a known display is merged into the strip of that
/// workspace, and goes right after.
pub proof fn law_orphan_comes_back<C: Scalar>(
    orphans: Seq<Orphan>,
    strips: Seq<AttachedStrip>,
    windows: Seq<RatedWindow<C>>,
    displays: Seq<DisplayEntity<C>>,
    i: int,
)
    requires
        0 <= i < strips.len(),
        orphan_of(orphans, strips[i].id) is Some,
        display_at(displays, strips[i].parent) is Some,
    ensures
        ({
            let r = strips.flat_map(recovered(orphans, displays, windows));
            let k = orphan_of(orphans, strips[i].id)->0;
            &&& 0 <= k < orphans.len()
            &&& orphans[k].strip@.id == strips[i].id
            &&& exists|n: int|
                0 <= n < r.len() - 1 && #[trigger] r[n] == (Recovery::<C>::Merge {
                    orphan: orphans[k].entity,
                    into: strips[i].entity,
                }) && r[n + 1] == Recovery::<C>::Despawn(orphans[k].entity)
        }),
{
    let f = recovered(orphans, displays, windows);
    lemma_first_where(orphans, |o: Orphan| o.strip@.id == strips[i].id);
    let orphan = orphans[orphan_of(orphans, strips[i].id)->0];
    let own = f(strips[i]);
    let (before, after) = lemma_flat_map_split(strips, f, i);
    let r = strips.flat_map(f);
    let n = before.len() as int;
    assert(own[0] == (Recovery::<C>::Merge { orphan: orphan.entity, into: strips[i].entity }));
    assert(own[1] == Recovery::<C>::Despawn(orphan.entity));
    assert(r[n] == own[0]);
    assert(r[n + 1] == own[1]);
}

/// Only orphans go whose windows have come back; the strips that displays have stay.
pub proof fn law_only_merged_orphans_go<C: Scalar>(
    orphans: Seq<Orphan>,
    strips: Seq<AttachedStrip>,
    windows: Seq<RatedWindow<C>>,
    displays: Seq<DisplayEntity<C>>,
    entity: Entity,
)
    requires
        strips.flat_map(recovered(orphans, displays, windows)).contains(Recovery::Despawn(entity)),
    ensures
        exists|i: int|
            {
                &&& 0 <= i < strips.len()
                &&& orphan_of(orphans, (#[trigger] strips[i]).id) is Some
                &&& orphans[orphan_of(orphans, strips[i].id)->0].entity == entity
                &&& display_at(displays, strips[i].parent) is Some
            },
{
    let f = recovered(orphans, displays, windows);
    let gone = Recovery::<C>::Despawn(entity);
    lemma_flat_map_contains(strips, f, gone);
    let i = choose|i: int| 0 <= i < strips.len() && #[trigger] f(strips[i]).contains(gone);
    lemma_recovery_steps(strips[i], orphans, displays, windows, gone);
    assert(orphan_of(orphans, strips[i].id) is Some);
}

/// What is done for a strip is to merge the orphan of its workspace into it, to remove that orphan,
/// or to place windows.
pub proof fn lemma_recovery_steps<C: Scalar>(
    strip: AttachedStrip,
    orphans: Seq<Orphan>,
    displays: Seq<DisplayEntity<C>>,
    windows: Seq<RatedWindow<C>>,
    step: Recovery<C>,
)
    requires
        recovered(orphans, displays, windows)(strip).contains(step),
    ensures
        orphan_of(orphans, strip.id) is Some,
        display_at(displays, strip.parent) is Some,
        ({
            let orphan = orphans[orphan_of(orphans, strip.id)->0];
            match step {
                Recovery::Merge { orphan: merged, into } => merged == orphan.entity && into
                    == strip.entity,
                Recovery::Despawn(entity) => entity == orphan.entity,
                Recovery::Place(_) => true,
            }
        }),
{
    let orphan = orphans[orphan_of(orphans, strip.id)->0];
    let display = display_at(displays, strip.parent)->0;
    let own = recovered(orphans, displays, windows)(strip);
    let k = own.index_of(step);
    assert(own[k] == step);
    lemma_placements_follow(strip, orphan, display, windows, k);
}

/// After the merge and the removal of the orphan, windows are placed.
pub proof fn lemma_placements_follow<C: Scalar>(
    strip: AttachedStrip,
    orphan: Orphan,
    display: Display<C>,
    windows: Seq<RatedWindow<C>>,
    k: int,
)
    requires
        0 <= k < reinserted(strip, orphan, display, windows).len(),
    ensures
        k >= 2 ==> reinserted(strip, orphan, display, windows)[k] is Place,
{
    let all = reinserted(strip, orphan, display, windows);
    let entities = orphan.strip@.windows();
    let f = fitted(windows, display);
    let g = cornered(windows, entities, display);
    let fits = entities.flat_map(f);
    let corners = reported_windows(strip).flat_map(g);
    if k >= 2 + fits.len() {
        let step = corners[k - 2 - fits.len()];
        assert(all[k] == step);
        assert(corners.contains(step));
        lemma_flat_map_contains(reported_windows(strip), g, step);
        let i = choose|i: int|
            0 <= i < reported_windows(strip).len() && #[trigger] g(
                reported_windows(strip)[i],
            ).contains(step);
        assert(g(reported_windows(strip)[i])[0] == step);
    } else if k >= 2 {
        let step = fits[k - 2];
        assert(all[k] == step);
        assert(fits.contains(step));
        lemma_flat_map_contains(entities, f, step);
        let i = choose|i: int| 0 <= i < entities.len() && #[trigger] f(entities[i]).contains(step);
        assert(f(entities[i])[0] == step);
    }
}

/// Every window of an orphan that comes back takes its share of the display's width, and all of
/// its height.
pub proof fn law_windows_are_fitted<C: Scalar>(
    strip: AttachedStrip,
    orphan: Orphan,
    display: Display<C>,
    windows: Seq<RatedWindow<C>>,
    entity: Entity,
)
    requires
        orphan.strip@.windows().contains(entity),
        rated_window(windows, entity) is Some,
    ensures
        reinserted(strip, orphan, display, windows).contains(
            Recovery::Place(
                Placement::Resize {
                    entity,
                    width: display.bounds.size.width.product(
                        rated_window(windows, entity)->0.width_ratio,
                    ),
                    height: display.bounds.size.height,
                    display_id: display.id,
                },
            ),
        ),
{
    let entities = orphan.strip@.windows();
    let f = fitted(windows, display);
    let fit = f(entity)[0];
    let i = entities.index_of(entity);
    assert(f(entities[i])[0] == fit);
    assert(f(entities[i]).contains(fit));
    lemma_flat_map_contains(entities, f, fit);
    let fits = entities.flat_map(f);
    let k = fits.index_of(fit);
    assert(reinserted(strip, orphan, display, windows)[2 + k] == fit);
}

} // verus!
