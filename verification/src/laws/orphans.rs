//! Bringing orphans back.
use crate::geometry::{Display, Placement};
use crate::orphans::{
    cornered, display_at, fitted, numbered_window, orphan_of, rated_window, recovered, reinserted,
    reported_windows, AttachedStrip, DisplayEntity, Orphan, RatedWindow, Recovery,
};
use crate::scalar::Scalar;
use crate::sequences::{lemma_flat_map_ends, lemma_flat_map_where};
use crate::windows::Unmanaged;
use crate::{Entity, WindowId};
use vstd::prelude::*;

verus! {

/// Something is done for a strip exactly where an orphan of its workspace is left and its display
/// is known; and it is done with that orphan, on that display.
pub proof fn law_recovery_when<C: Scalar>(
    orphans: Seq<Orphan>,
    strips: Seq<AttachedStrip>,
    windows: Seq<RatedWindow<C>>,
    displays: Seq<DisplayEntity<C>>,
    step: Recovery<C>,
)
    ensures
        strips.flat_map(recovered(orphans, displays, windows)).contains(step) <==> exists|i: int|
            {
                &&& 0 <= i < strips.len()
                &&& orphan_of(orphans, (#[trigger] strips[i]).id) is Some
                &&& display_at(displays, strips[i].parent) is Some
                &&& reinserted(
                    strips[i],
                    orphans[orphan_of(orphans, strips[i].id)->0],
                    display_at(displays, strips[i].parent)->0,
                    windows,
                ).contains(step)
            },
{
    broadcast use vstd::seq_lib::lemma_seq_empty_contains_nothing;

    lemma_flat_map_where(
        strips,
        recovered(orphans, displays, windows),
        step,
        |strip: AttachedStrip|
            {
                &&& orphan_of(orphans, strip.id) is Some
                &&& display_at(displays, strip.parent) is Some
                &&& reinserted(
                    strip,
                    orphans[orphan_of(orphans, strip.id)->0],
                    display_at(displays, strip.parent)->0,
                    windows,
                ).contains(step)
            },
    );
}

/// First the orphan is merged into the strip, then it goes; nothing else is merged, and nothing
/// else goes.
pub proof fn law_orphan_merged<C: Scalar>(
    strip: AttachedStrip,
    orphan: Orphan,
    display: Display<C>,
    windows: Seq<RatedWindow<C>>,
    step: Recovery<C>,
)
    ensures
        ({
            let steps = reinserted(strip, orphan, display, windows);
            &&& steps.len() >= 2
            &&& steps[0] == (Recovery::<C>::Merge { orphan: orphan.entity, into: strip.entity })
            &&& steps[1] == Recovery::<C>::Despawn(orphan.entity)
            &&& step is Merge ==> (steps.contains(step) <==> step == steps[0])
            &&& step is Despawn ==> (steps.contains(step) <==> step == steps[1])
        }),
{
    broadcast use
        vstd::seq_lib::lemma_seq_concat_contains_all_elements,
        vstd::seq_lib::lemma_seq_contains_after_push,
        vstd::seq_lib::lemma_seq_empty_contains_nothing,
    ;

    let entities = orphan.strip@.windows();
    lemma_flat_map_where(
        entities,
        fitted(windows, display),
        step,
        |e: Entity| fitted(windows, display)(e).contains(step),
    );
    lemma_flat_map_where(
        reported_windows(strip),
        cornered(windows, entities, display),
        step,
        |id: WindowId| cornered(windows, entities, display)(id).contains(step),
    );
}

/// A window is resized exactly where it is on the orphan and known: to its share of the width of
/// the display, and to all of its height.
pub proof fn law_orphan_windows_resized<C: Scalar>(
    strip: AttachedStrip,
    orphan: Orphan,
    display: Display<C>,
    windows: Seq<RatedWindow<C>>,
    asked: Placement<C>,
)
    requires
        asked is Resize,
    ensures
        reinserted(strip, orphan, display, windows).contains(Recovery::Place(asked)) <==> {
            &&& orphan.strip@.windows().contains(asked->Resize_entity)
            &&& rated_window(windows, asked->Resize_entity) is Some
            &&& asked->width == display.bounds.size.width.product(
                rated_window(windows, asked->Resize_entity)->0.width_ratio,
            )
            &&& asked->height == display.bounds.size.height
            &&& asked->Resize_display_id == display.id
        },
{
    broadcast use
        vstd::seq_lib::lemma_seq_concat_contains_all_elements,
        vstd::seq_lib::lemma_seq_contains_after_push,
        vstd::seq_lib::lemma_seq_empty_contains_nothing,
    ;

    let step = Recovery::Place(asked);
    let entities = orphan.strip@.windows();
    let right = {
        &&& rated_window(windows, asked->Resize_entity) is Some
        &&& asked->width == display.bounds.size.width.product(
            rated_window(windows, asked->Resize_entity)->0.width_ratio,
        )
        &&& asked->height == display.bounds.size.height
        &&& asked->Resize_display_id == display.id
    };
    let p = |e: Entity| e == asked->Resize_entity && right;
    lemma_flat_map_where(entities, fitted(windows, display), step, p);
    if entities.contains(asked->Resize_entity) && right {
        assert(p(entities[entities.index_of(asked->Resize_entity)]));
    }
    lemma_flat_map_where(
        reported_windows(strip),
        cornered(windows, entities, display),
        step,
        |id: WindowId| false,
    );
}

/// A window is moved exactly where it is reported, floats and is not on the orphan: to the corner
/// of the display, from which places on it are counted, wherever the display lies.
pub proof fn law_floating_windows_moved<C: Scalar>(
    strip: AttachedStrip,
    orphan: Orphan,
    display: Display<C>,
    windows: Seq<RatedWindow<C>>,
    asked: Placement<C>,
)
    requires
        asked is Reposition,
    ensures
        reinserted(strip, orphan, display, windows).contains(Recovery::Place(asked)) <==> {
            &&& asked->x == C::integer(0)
            &&& asked->y == C::integer(0)
            &&& asked->Reposition_display_id == display.id
            &&& strip.reported is Some
            &&& exists|i: int|
                {
                    let id = strip.reported->0@[i];
                    let found = numbered_window(windows, id);
                    &&& 0 <= i < strip.reported->0@.len()
                    &&& (#[trigger] numbered_window(windows, strip.reported->0@[i])) is Some
                    &&& rated_window(windows, found->0.entity) is Some
                    &&& rated_window(windows, found->0.entity)->0.unmanaged == Some(
                        Unmanaged::Floating,
                    )
                    &&& rated_window(windows, found->0.entity)->0.entity
                        == asked->Reposition_entity
                    &&& forall|j: int|
                        0 <= j < orphan.strip@.windows().len() ==> !(#[trigger] rated_window(
                            windows,
                            orphan.strip@.windows()[j],
                        ) is Some && rated_window(windows, orphan.strip@.windows()[j])->0.id == id)
                }
        },
{
    broadcast use
        vstd::seq_lib::lemma_seq_concat_contains_all_elements,
        vstd::seq_lib::lemma_seq_contains_after_push,
        vstd::seq_lib::lemma_seq_empty_contains_nothing,
    ;

    let step = Recovery::Place(asked);
    let entities = orphan.strip@.windows();
    lemma_flat_map_where(entities, fitted(windows, display), step, |e: Entity| false);
    let there = {
        &&& asked->x == C::integer(0)
        &&& asked->y == C::integer(0)
        &&& asked->Reposition_display_id == display.id
    };
    let p = |id: WindowId|
        {
            let found = numbered_window(windows, id);
            &&& there
            &&& found is Some
            &&& rated_window(windows, found->0.entity) is Some
            &&& rated_window(windows, found->0.entity)->0.unmanaged == Some(Unmanaged::Floating)
            &&& rated_window(windows, found->0.entity)->0.entity == asked->Reposition_entity
            &&& forall|j: int|
                0 <= j < entities.len() ==> !(#[trigger] rated_window(
                    windows,
                    entities[j],
                ) is Some && rated_window(windows, entities[j])->0.id == id)
        };
    let ids = reported_windows(strip);
    lemma_flat_map_where(ids, cornered(windows, entities, display), step, p);
    if exists|i: int| 0 <= i < ids.len() && p(#[trigger] ids[i]) {
        let i = choose|i: int| 0 <= i < ids.len() && p(#[trigger] ids[i]);
        assert(numbered_window(windows, strip.reported->0@[i]) is Some);
    }
    if strip.reported is Some {
        assert forall|i: int| 0 <= i < ids.len() && #[trigger] numbered_window(
            windows,
            strip.reported->0@[i],
        ) is Some implies ids[i] == strip.reported->0@[i] by {}
    }
}

/// A window is resized or moved at most once for each time it is on the orphan or reported. First
/// the windows of the orphan are resized, in their order, and then the floating ones moved, in the
/// order in which they are reported.
pub proof fn law_placed_in_order<C: Scalar>(
    strip: AttachedStrip,
    orphan: Orphan,
    display: Display<C>,
    windows: Seq<RatedWindow<C>>,
    entity: Entity,
    id: WindowId,
)
    ensures
        fitted(windows, display)(entity).len() <= 1,
        cornered(windows, orphan.strip@.windows(), display)(id).len() <= 1,
        reinserted(strip, orphan, display, windows).skip(2) == orphan.strip@.windows().flat_map(
            fitted(windows, display),
        ) + (match strip.reported {
            Some(ids) => ids@.flat_map(cornered(windows, orphan.strip@.windows(), display)),
            None => Seq::empty(),
        }),
{
    let entities = orphan.strip@.windows();
    let fits = entities.flat_map(fitted(windows, display));
    let g = cornered(windows, entities, display);
    if strip.reported is None {
        lemma_flat_map_ends(reported_windows(strip), g);
        assert(reported_windows(strip).take(0) =~= reported_windows(strip));
    }
    assert(reinserted(strip, orphan, display, windows).skip(2) =~= fits + reported_windows(
        strip,
    ).flat_map(g));
}

} // verus!
