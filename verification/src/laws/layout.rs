//! Laying out, exposing and swiping.
use crate::commands::CommandView;
use crate::events::Event;
use crate::geometry::{
    placed_window, ActiveDisplay, Display, DockPosition, Frame, PlacedWindow, Placement, Point,
    Reposition, Resize, Size,
};
use crate::laws::lookup::{law_display_of, law_placed_window, law_top_position};
use crate::layout::{
    destination, dock_reach, entity_frame, exposed, fits, frame_updates, law_exposed_in_full,
    law_layout_settles, placements, reshuffled_offset, reshuffles, settled_origin, swiped_offset,
    swipes, top_position, usable_bounds, usable_height, Arrangement, ColumnPosition, Swipe,
};
use crate::scalar::{Scalar, ScalarMeaning};
use crate::sequences::{first_where, lemma_first_where, lemma_first_where_is, lemma_flat_map_where};
use crate::strip::{lemma_index_of, StripView};
use crate::windows::{window_of, WindowEntry};
use crate::Entity;
use vstd::prelude::*;

verus! {

/// The place that a window has, or is on its way to on a display.
pub open spec fn headed_origin<C>(window: PlacedWindow<C>, display: Display<C>) -> Point<C> {
    if window.reposition is Some && window.reposition->0.display_id == display.id {
        window.reposition->0.origin
    } else {
        window.frame.origin
    }
}

/// The size that a window has, or is on its way to on a display.
pub open spec fn headed_size<C>(window: PlacedWindow<C>, display: Display<C>) -> Size<C> {
    if window.resize is Some && window.resize->0.display_id == display.id {
        window.resize->0.size
    } else {
        window.frame.size
    }
}

/// The frame that counts is the one that a window is on its way to on the display, and its own
/// otherwise; only a window that is not known has none.
pub proof fn law_moving_frame<C: Scalar>(
    windows: Seq<PlacedWindow<C>>,
    display: Display<C>,
    entity: Entity,
)
    ensures
        entity_frame(windows, display, entity) is Some <==> exists|k: int|
            0 <= k < windows.len() && (#[trigger] windows[k]).entity == entity,
        placed_window(windows, entity) matches Some(window) ==> entity_frame(
            windows,
            display,
            entity,
        ) == Some(
            Frame { origin: headed_origin(window, display), size: headed_size(window, display) },
        ),
{
    law_placed_window(windows, entity);
}

/// In whole points: the menu bar, a dock at the bottom and the height that is left make up the
/// height of the display; the strip is laid out in that height, over the display's width.
pub proof fn law_usable_height(active: ActiveDisplay<i64>)
    requires
        fits(active.display.bounds.size.height - active.display.menubar_height),
        active.dock matches Some(DockPosition::Bottom(offset)) ==> fits(
            active.display.bounds.size.height - active.display.menubar_height - offset,
        ),
    ensures
        active.dock matches Some(DockPosition::Bottom(offset)) ==> usable_height(active) + offset
            + active.display.menubar_height == active.display.bounds.size.height,
        !(active.dock matches Some(DockPosition::Bottom(_))) ==> usable_height(active)
            + active.display.menubar_height == active.display.bounds.size.height,
        usable_bounds(active).origin == active.display.bounds.origin,
        usable_bounds(active).size.width == active.display.bounds.size.width,
        usable_bounds(active).size.height == usable_height(active),
{
}

/// How far down a laid out frame is moved: by the menu bar, where no display is above or more than
/// ten points of the frame show at either edge; else by a fourth of what the menu bar and a dock at
/// the bottom leave of the height.
pub open spec fn moved_down<C: Scalar>(active: ActiveDisplay<C>, frame: Frame<C>) -> C {
    let display = active.display;
    let above = active.others@.len() > 0 && active.others@[0].bounds.origin.y.less(
        display.bounds.origin.y,
    );
    let dock = if active.dock is Some && active.dock->0 is Bottom {
        active.dock->0->Bottom_0
    } else {
        C::integer(0)
    };
    let shows_left = C::integer(10).less(frame.origin.x.sum(frame.size.width));
    let shows_right = frame.origin.x.less(display.bounds.size.width.difference(C::integer(10)));
    if above && !(shows_left && shows_right) {
        display.bounds.size.height.difference(display.menubar_height).difference(dock).fourth()
    } else {
        display.menubar_height
    }
}

/// A laid out frame keeps its place sideways and is moved down.
pub proof fn law_settled_place<C: Scalar>(active: ActiveDisplay<C>, frame: Frame<C>)
    ensures
        settled_origin(active, frame).x == frame.origin.x,
        settled_origin(active, frame).y == frame.origin.y.sum(moved_down(active, frame)),
{
}

/// In whole points: a frame settles below the menu bar unless it is off the screen under a display
/// above; then it settles a fourth of the usable height down.
pub proof fn law_nudged_down(active: ActiveDisplay<i64>, frame: Frame<i64>)
    requires
        fits(active.display.bounds.size.height - active.display.menubar_height),
        active.dock matches Some(DockPosition::Bottom(offset)) ==> fits(
            active.display.bounds.size.height - active.display.menubar_height - offset,
        ),
        fits(active.display.bounds.size.width - 10),
        fits(frame.origin.x + frame.size.width),
        fits(frame.origin.y + active.display.menubar_height),
        fits(frame.origin.y + usable_height(active) as int / 4),
    ensures
        ({
            let settled = settled_origin(active, frame);
            let display = active.display.bounds;
            let hidden = frame.origin.x + frame.size.width <= 10 || frame.origin.x
                >= display.size.width - 10;
            let above = active.others@.len() > 0 && active.others@[0].bounds.origin.y
                < display.origin.y;
            &&& settled.x == frame.origin.x
            &&& settled.y - frame.origin.y == if hidden && above {
                usable_height(active) as int / 4
            } else {
                active.display.menubar_height as int
            }
        }),
{
}

/// A layout asks for a size exactly where a known window has, or is on its way to, another than the
/// one that the layout gives it; and then for the size of the layout, on the active display.
pub proof fn law_layout_resizes<C: Scalar>(
    layout: Seq<(Entity, Frame<C>)>,
    active: ActiveDisplay<C>,
    windows: Seq<PlacedWindow<C>>,
    asked: Placement<C>,
)
    requires
        asked is Resize,
    ensures
        layout.flat_map(placements(active, windows)).contains(asked) <==> exists|i: int|
            {
                &&& 0 <= i < layout.len()
                &&& (#[trigger] layout[i]).0 == asked->Resize_entity
                &&& layout[i].1.size.width == asked->width
                &&& layout[i].1.size.height == asked->height
                &&& active.display.id == asked->Resize_display_id
                &&& placed_window(windows, layout[i].0) is Some
                &&& !({
                    let now = headed_size(
                        placed_window(windows, layout[i].0)->0,
                        active.display,
                    );
                    now.width.equal(layout[i].1.size.width) && now.height.equal(
                        layout[i].1.size.height,
                    )
                })
            },
{
    broadcast use
        vstd::seq_lib::lemma_seq_concat_contains_all_elements,
        vstd::seq_lib::lemma_seq_contains_after_push,
        vstd::seq_lib::lemma_seq_empty_contains_nothing,
    ;

    lemma_flat_map_where(
        layout,
        placements(active, windows),
        asked,
        |laid: (Entity, Frame<C>)|
            {
                &&& laid.0 == asked->Resize_entity
                &&& laid.1.size.width == asked->width
                &&& laid.1.size.height == asked->height
                &&& active.display.id == asked->Resize_display_id
                &&& placed_window(windows, laid.0) is Some
                &&& !({
                    let now = headed_size(placed_window(windows, laid.0)->0, active.display);
                    now.width.equal(laid.1.size.width) && now.height.equal(laid.1.size.height)
                })
            },
    );
}

/// A layout asks for a place exactly where a known window has, or is on its way to, another than
/// the one where the layout settles it; and then for that place, on the active display.
pub proof fn law_layout_repositions<C: Scalar>(
    layout: Seq<(Entity, Frame<C>)>,
    active: ActiveDisplay<C>,
    windows: Seq<PlacedWindow<C>>,
    asked: Placement<C>,
)
    requires
        asked is Reposition,
    ensures
        layout.flat_map(placements(active, windows)).contains(asked) <==> exists|i: int|
            {
                &&& 0 <= i < layout.len()
                &&& (#[trigger] layout[i]).0 == asked->Reposition_entity
                &&& layout[i].1.origin.x == asked->x
                &&& layout[i].1.origin.y.sum(moved_down(active, layout[i].1)) == asked->y
                &&& active.display.id == asked->Reposition_display_id
                &&& placed_window(windows, layout[i].0) is Some
                &&& !({
                    let now = headed_origin(
                        placed_window(windows, layout[i].0)->0,
                        active.display,
                    );
                    now.x.equal(asked->x) && now.y.equal(asked->y)
                })
            },
{
    broadcast use
        vstd::seq_lib::lemma_seq_concat_contains_all_elements,
        vstd::seq_lib::lemma_seq_contains_after_push,
        vstd::seq_lib::lemma_seq_empty_contains_nothing,
    ;

    lemma_flat_map_where(
        layout,
        placements(active, windows),
        asked,
        |laid: (Entity, Frame<C>)|
            {
                &&& laid.0 == asked->Reposition_entity
                &&& laid.1.origin.x == asked->x
                &&& laid.1.origin.y.sum(moved_down(active, laid.1)) == asked->y
                &&& active.display.id == asked->Reposition_display_id
                &&& placed_window(windows, laid.0) is Some
                &&& !({
                    let now = headed_origin(placed_window(windows, laid.0)->0, active.display);
                    now.x.equal(asked->x) && now.y.equal(asked->y)
                })
            },
    );
}

/// A laid out window is asked at most once for a size, and then at most once for a place.
pub proof fn law_layout_asks_once<C: Scalar>(
    laid: (Entity, Frame<C>),
    active: ActiveDisplay<C>,
    windows: Seq<PlacedWindow<C>>,
)
    ensures
        ({
            let asked = placements(active, windows)(laid);
            &&& asked.len() <= 2
            &&& asked.len() == 2 ==> asked[0] is Resize && asked[1] is Reposition
        }),
{
}

/// The windows after requests were taken up: each is on its way to what it was asked for.
pub open spec fn taken_up(
    before: Seq<PlacedWindow<i64>>,
    asked: Seq<Placement<i64>>,
    display: Display<i64>,
    after: Seq<PlacedWindow<i64>>,
) -> bool {
    let display_id = display.id;
    &&& after.len() == before.len()
    &&& forall|k: int|
        0 <= k < before.len() ==> (#[trigger] after[k]).entity == before[k].entity && after[k].frame
            == before[k].frame
    &&& forall|k: int, width: i64, height: i64|
        0 <= k < before.len() && #[trigger] asked.contains(
            Placement::Resize { entity: before[k].entity, width, height, display_id },
        ) ==> after[k].resize == Some(Resize { size: Size { width, height }, display_id })
    &&& forall|k: int|
        0 <= k < before.len() && (forall|width: i64, height: i64|
            !#[trigger] asked.contains(
                Placement::Resize { entity: before[k].entity, width, height, display_id },
            )) ==> (#[trigger] after[k]).resize == before[k].resize
    &&& forall|k: int, x: i64, y: i64|
        0 <= k < before.len() && #[trigger] asked.contains(
            Placement::Reposition { entity: before[k].entity, x, y, display_id },
        ) ==> after[k].reposition == Some(Reposition { origin: Point { x, y }, display_id })
    &&& forall|k: int|
        0 <= k < before.len() && (forall|x: i64, y: i64|
            !#[trigger] asked.contains(
                Placement::Reposition { entity: before[k].entity, x, y, display_id },
            )) ==> (#[trigger] after[k]).reposition == before[k].reposition
}

/// In whole points: once the requests of a layout are taken up, the same layout asks for nothing
/// more.
pub proof fn law_layout_is_reached(
    layout: Seq<(Entity, Frame<i64>)>,
    active: ActiveDisplay<i64>,
    before: Seq<PlacedWindow<i64>>,
    after: Seq<PlacedWindow<i64>>,
)
    requires
        forall|i: int, j: int|
            0 <= i < j < layout.len() ==> (#[trigger] layout[i]).0 != (#[trigger] layout[j]).0,
        taken_up(before, layout.flat_map(placements(active, before)), active.display, after),
    ensures
        layout.flat_map(placements(active, after)) == Seq::<Placement<i64>>::empty(),
{
    let asked = layout.flat_map(placements(active, before));
    let display_id = active.display.id;
    law_layout_settles(layout, active, after);
    assert forall|i: int| #![trigger layout[i]] 0 <= i < layout.len() implies match entity_frame(
        after,
        active.display,
        layout[i].0,
    ) {
        Some(old) => old.size == layout[i].1.size && old.origin == settled_origin(
            active,
            layout[i].1,
        ),
        None => true,
    } by {
        let entity = layout[i].0;
        let frame = layout[i].1;
        let origin = settled_origin(active, frame);
        law_settled_place(active, frame);
        let p = |w: PlacedWindow<i64>| w.entity == entity;
        lemma_first_where(before, p);
        lemma_first_where(after, p);
        if let Some(k) = first_where(after, p) {
            assert(p(after[k]));
            assert(p(before[k]));
            assert forall|j: int| 0 <= j < k implies !p(#[trigger] before[j]) by {
                assert(!p(after[j]));
            }
            lemma_first_where_is(before, p, k);
            let old = before[k];
            assert(placed_window(before, entity) == Some(old));
            let size = frame.size;
            let resize = Placement::Resize {
                entity,
                width: size.width,
                height: size.height,
                display_id,
            };
            law_layout_resizes(layout, active, before, resize);
            if headed_size(old, active.display) != size {
                assert(asked.contains(resize));
            } else {
                assert forall|width: i64, height: i64|
                    !#[trigger] asked.contains(
                        Placement::Resize { entity: before[k].entity, width, height, display_id },
                    ) by {
                    law_layout_resizes(
                        layout,
                        active,
                        before,
                        Placement::Resize { entity, width, height, display_id },
                    );
                }
            }
            let reposition = Placement::Reposition { entity, x: origin.x, y: origin.y, display_id };
            law_layout_repositions(layout, active, before, reposition);
            if headed_origin(old, active.display) != origin {
                assert(asked.contains(reposition));
            } else {
                assert forall|x: i64, y: i64|
                    !#[trigger] asked.contains(
                        Placement::Reposition { entity: before[k].entity, x, y, display_id },
                    ) by {
                    law_layout_repositions(
                        layout,
                        active,
                        before,
                        Placement::Reposition { entity, x, y, display_id },
                    );
                }
            }
        }
    }
}

/// An exposed window has the size that it is being resized to, where there is one, and its own
/// otherwise; it has the height on the display that it is being moved to, where there is one, and
/// its own otherwise.
pub proof fn law_exposed_size<C: Scalar>(
    frame: Frame<C>,
    active: ActiveDisplay<C>,
    moving: Option<Reposition<C>>,
    resizing: Option<Resize<C>>,
    dock: Option<DockPosition<C>>,
)
    ensures
        resizing matches Some(marker) ==> exposed(frame, active, moving, resizing, dock).size
            == marker.size,
        resizing is None ==> exposed(frame, active, moving, resizing, dock).size == frame.size,
        moving matches Some(marker) ==> exposed(frame, active, moving, resizing, dock).origin.y
            == marker.origin.y,
        moving is None ==> exposed(frame, active, moving, resizing, dock).origin.y
            == frame.origin.y,
{
}

/// A window that is being moved is exposed where it goes, within the bounds of the other display of
/// that number, where there is one; any other is exposed where it is, within those of the active
/// display.
pub proof fn law_destination<C: Scalar>(
    frame: Frame<C>,
    active: ActiveDisplay<C>,
    moving: Option<Reposition<C>>,
)
    ensures
        moving is None ==> destination(frame, active, moving) == (
            frame.origin,
            active.display.bounds,
        ),
        moving matches Some(marker) ==> {
            &&& destination(frame, active, moving).0 == marker.origin
            &&& (forall|j: int|
                0 <= j < active.others@.len() ==> (#[trigger] active.others@[j]).id
                    != marker.display_id) ==> destination(frame, active, moving).1
                == active.display.bounds
            &&& forall|k: int|
                {
                    &&& 0 <= k < active.others@.len()
                    &&& (#[trigger] active.others@[k]).id == marker.display_id
                    &&& forall|j: int|
                        0 <= j < k ==> (#[trigger] active.others@[j]).id != marker.display_id
                } ==> destination(frame, active, moving).1 == active.others@[k].bounds
        },
{
    if let Some(marker) = moving {
        law_display_of(active.others@, marker.display_id);
        let p = |d: Display<C>| d.id == marker.display_id;
        assert forall|k: int|
            {
                &&& 0 <= k < active.others@.len()
                &&& (#[trigger] active.others@[k]).id == marker.display_id
                &&& forall|j: int|
                    0 <= j < k ==> (#[trigger] active.others@[j]).id != marker.display_id
            } implies destination(frame, active, moving).1 == active.others@[k].bounds by {
            lemma_first_where_is(active.others@, p, k);
        }
    }
}

/// In whole points: without a dock, a window whose right edge is off the display is moved back to
/// the display's right edge; else one whose left edge is off it is moved to the left edge; any
/// other stays.
pub proof fn law_exposed_sideways(
    frame: Frame<i64>,
    active: ActiveDisplay<i64>,
    moving: Option<Reposition<i64>>,
    resizing: Option<Resize<i64>>,
)
    requires
        ({
            let width = exposed(frame, active, moving, resizing, None).size.width;
            let (origin, bounds) = destination(frame, active, moving);
            fits(origin.x + width) && fits(bounds.size.width - width)
        }),
    ensures
        ({
            let after = exposed(frame, active, moving, resizing, None);
            let (origin, bounds) = destination(frame, active, moving);
            let right = origin.x + after.size.width;
            &&& right > bounds.size.width ==> after.origin.x + after.size.width
                == bounds.size.width
            &&& right <= bounds.size.width && origin.x < 0 ==> after.origin.x == 0
            &&& right <= bounds.size.width && origin.x >= 0 ==> after.origin.x == origin.x
        }),
{
}

/// Without a dock, a window whose right edge is beyond that of the display comes to stand before it;
/// else one whose left edge is before that of the display comes to stand at it; any other stays.
pub proof fn law_exposed_on_display<C: Scalar>(
    frame: Frame<C>,
    active: ActiveDisplay<C>,
    moving: Option<Reposition<C>>,
    resizing: Option<Resize<C>>,
)
    ensures
        ({
            let after = exposed(frame, active, moving, resizing, None);
            let (origin, bounds) = destination(frame, active, moving);
            let beyond = bounds.size.width.less(origin.x.sum(after.size.width));
            let before = origin.x.less(C::integer(0));
            &&& beyond ==> after.origin.x == bounds.size.width.difference(after.size.width)
            &&& !beyond && before ==> after.origin.x == C::integer(0)
            &&& !beyond && !before ==> after.origin.x == origin.x
        }),
{
}

/// What is left of the height of a display is without the menu bar, and without a dock at the
/// bottom, where there is one.
pub proof fn law_height_left<C: Scalar>(active: ActiveDisplay<C>)
    ensures
        ({
            let below = active.display.bounds.size.height.difference(
                active.display.menubar_height,
            );
            &&& active.dock matches Some(DockPosition::Bottom(offset)) ==> usable_height(active)
                == below.difference(offset)
            &&& !(active.dock matches Some(DockPosition::Bottom(_))) ==> usable_height(active)
                == below.difference(C::integer(0))
            &&& usable_bounds(active).origin == active.display.bounds.origin
            &&& usable_bounds(active).size.width == active.display.bounds.size.width
            &&& usable_bounds(active).size.height == usable_height(active)
        }),
{
}

/// The offset around a window is where its column begins, less where the window stands exposed on
/// the active display, with the dock of that display.
pub proof fn law_reshuffle_offset<C: Scalar>(
    entity: Entity,
    active: ActiveDisplay<C>,
    windows: Seq<PlacedWindow<C>>,
    strip: StripView,
    positions: Seq<ColumnPosition<C>>,
)
    requires
        reshuffled_offset(entity, active, windows, strip, positions) is Some,
    ensures
        ({
            let window = placed_window(windows, entity)->0;
            let column = strip.index_of(entity)->0;
            &&& 0 <= column < positions.len()
            &&& reshuffled_offset(entity, active, windows, strip, positions)->0
                == positions[column].position.difference(
                exposed(
                    window.frame,
                    active,
                    window.reposition,
                    window.resize,
                    active.dock,
                ).origin.x,
            )
        }),
{
    lemma_index_of(strip, entity);
}

/// The offset of a swipe is where the column begins, less where the window stands or is on its way
/// to, and the swiped part of the width of the display.
pub proof fn law_swipe_offset<C: Scalar>(
    swipe: Swipe<C>,
    active: ActiveDisplay<C>,
    windows: Seq<PlacedWindow<C>>,
    positions: Seq<ColumnPosition<C>>,
)
    requires
        swiped_offset(swipe, active, windows, positions) is Some,
    ensures
        swiped_offset(swipe, active, windows, positions)->0 == top_position(
            positions,
            swipe.entity,
        )->0.difference(
            headed_origin(placed_window(windows, swipe.entity)->0, active.display).x,
        ).sum(active.display.bounds.size.width.product(swipe.delta)),
{
    law_moving_frame(windows, active.display, swipe.entity);
}

/// The strip is laid out around a window exactly where the window is known, and is on the strip in
/// a column of which the position is known.
pub proof fn law_reshuffle_when<C: Scalar>(
    entity: Entity,
    active: ActiveDisplay<C>,
    windows: Seq<PlacedWindow<C>>,
    strip: StripView,
    positions: Seq<ColumnPosition<C>>,
)
    requires
        positions.len() == strip.columns.len(),
    ensures
        reshuffled_offset(entity, active, windows, strip, positions) is Some <==> (exists|k: int|
            0 <= k < windows.len() && (#[trigger] windows[k]).entity == entity)
            && strip.windows().contains(entity),
{
    law_placed_window(windows, entity);
    lemma_index_of(strip, entity);
}

/// In whole points: laid out around a window that fits beside the dock, the strip has the window's
/// column so far right that the window, in the size that it has or is being resized to, shows in
/// full, off the dock.
pub proof fn law_reshuffle_shows(
    entity: Entity,
    active: ActiveDisplay<i64>,
    windows: Seq<PlacedWindow<i64>>,
    strip: StripView,
    positions: Seq<ColumnPosition<i64>>,
    width: i64,
)
    requires
        reshuffled_offset(entity, active, windows, strip, positions) is Some,
        ({
            let window = placed_window(windows, entity)->0;
            let position = positions[strip.index_of(entity)->0].position;
            let (origin, bounds) = destination(window.frame, active, window.reposition);
            let (left, right) = dock_reach(active.dock);
            &&& width == if window.resize is Some {
                window.resize->0.size.width
            } else {
                window.frame.size.width
            }
            &&& 0 <= left
            &&& 0 <= right
            &&& 0 <= width
            &&& width + left + right <= bounds.size.width
            &&& fits(origin.x + width)
            &&& fits(
                position - exposed(
                    window.frame,
                    active,
                    window.reposition,
                    window.resize,
                    active.dock,
                ).origin.x,
            )
        }),
    ensures
        ({
            let window = placed_window(windows, entity)->0;
            let position = positions[strip.index_of(entity)->0].position;
            let bounds = destination(window.frame, active, window.reposition).1;
            let (left, right) = dock_reach(active.dock);
            let edge = position - reshuffled_offset(entity, active, windows, strip, positions)->0;
            left <= edge && edge + width <= bounds.size.width - right
        }),
{
    let window = placed_window(windows, entity)->0;
    law_exposed_size(window.frame, active, window.reposition, window.resize, active.dock);
    law_exposed_in_full(window.frame, active, window.reposition, window.resize, active.dock);
}

/// A wish to lay the strip out is taken up first; then the strip is moved at most once, by the
/// offset that belongs to the wish.
pub proof fn law_arrangement_steps<C: Scalar>(
    entity: Entity,
    swipe: Swipe<C>,
    active: ActiveDisplay<C>,
    windows: Seq<PlacedWindow<C>>,
    strip: StripView,
    positions: Seq<ColumnPosition<C>>,
)
    ensures
        ({
            let steps = reshuffles(active, windows, strip, positions)(entity);
            let offset = reshuffled_offset(entity, active, windows, strip, positions);
            &&& steps[0] == Arrangement::<C>::RemoveReshuffle(entity)
            &&& steps.len() == if offset is Some { 2nat } else { 1nat }
            &&& offset is Some ==> steps[1] == Arrangement::Arrange(offset->0)
        }),
        ({
            let steps = swipes(active, windows, positions)(swipe);
            let offset = swiped_offset(swipe, active, windows, positions);
            &&& steps[0] == Arrangement::<C>::RemoveSwipe(swipe.entity)
            &&& steps.len() == if offset is Some { 2nat } else { 1nat }
            &&& offset is Some ==> steps[1] == Arrangement::Arrange(offset->0)
        }),
{
}

/// In whole points: a swipe moves the strip from where the swiped window has it, by the swiped part
/// of the display's width, in the direction of the swipe.
pub proof fn law_swipe_shifts(
    entity: Entity,
    delta: i64,
    active: ActiveDisplay<i64>,
    windows: Seq<PlacedWindow<i64>>,
    positions: Seq<ColumnPosition<i64>>,
)
    requires
        top_position(positions, entity) is Some,
        placed_window(windows, entity) is Some,
        ({
            let window = placed_window(windows, entity)->0;
            let rest = top_position(positions, entity)->0 - headed_origin(
                window,
                active.display,
            ).x;
            let shift = active.display.bounds.size.width * delta;
            fits(rest) && fits(shift) && fits(rest + shift)
        }),
    ensures
        ({
            let window = placed_window(windows, entity)->0;
            let rest = top_position(positions, entity)->0 - headed_origin(
                window,
                active.display,
            ).x;
            let offset = swiped_offset(Swipe { entity, delta }, active, windows, positions);
            offset is Some && offset->0 - rest == active.display.bounds.size.width * delta
        }),
{
    law_moving_frame(windows, active.display, entity);
}

/// In whole points: swiping one way and the other moves the strip by opposite amounts from where it
/// stays when it is not swiped.
pub proof fn law_swipe_back(
    entity: Entity,
    forth: i64,
    back: i64,
    active: ActiveDisplay<i64>,
    windows: Seq<PlacedWindow<i64>>,
    positions: Seq<ColumnPosition<i64>>,
)
    requires
        forth + back == 0,
        top_position(positions, entity) is Some,
        placed_window(windows, entity) is Some,
        ({
            let window = placed_window(windows, entity)->0;
            let rest = top_position(positions, entity)->0 - headed_origin(
                window,
                active.display,
            ).x;
            let shift = active.display.bounds.size.width * forth;
            fits(rest) && fits(shift) && fits(-shift) && fits(rest + shift) && fits(rest - shift)
        }),
    ensures
        ({
            let there = swiped_offset(Swipe { entity, delta: forth }, active, windows, positions);
            let here = swiped_offset(Swipe { entity, delta: 0i64 }, active, windows, positions);
            let gone = swiped_offset(Swipe { entity, delta: back }, active, windows, positions);
            &&& there is Some && here is Some && gone is Some
            &&& there->0 - here->0 == here->0 - gone->0
        }),
{
    let width = active.display.bounds.size.width;
    assert(width * back == -(width * forth)) by (nonlinear_arith)
        requires
            forth + back == 0,
    ;
    assert(width * 0 == 0) by (nonlinear_arith);
    law_swipe_shifts(entity, forth, active, windows, positions);
    law_swipe_shifts(entity, 0, active, windows, positions);
    law_swipe_shifts(entity, back, active, windows, positions);
}

/// A swipe moves the strip exactly where the window is known and at the top of a column.
pub proof fn law_swipe_when<C: Scalar>(
    swipe: Swipe<C>,
    active: ActiveDisplay<C>,
    windows: Seq<PlacedWindow<C>>,
    positions: Seq<ColumnPosition<C>>,
)
    ensures
        swiped_offset(swipe, active, windows, positions) is Some <==> (exists|k: int|
            0 <= k < windows.len() && (#[trigger] windows[k]).entity == swipe.entity) && (exists|
            k: int,
        |
            0 <= k < positions.len() && (#[trigger] positions[k]).top == Some(swipe.entity)),
{
    law_moving_frame(windows, active.display, swipe.entity);
    law_top_position(positions, swipe.entity);
}

/// The frame of a window is read anew exactly where an event tells that the window was moved or
/// resized.
pub proof fn law_frames_updated(
    events: Seq<Event>,
    windows: Seq<WindowEntry>,
    strip: StripView,
    entity: Entity,
)
    ensures
        events.flat_map(frame_updates(windows, strip)).contains(CommandView::UpdateFrame(entity))
            <==> exists|i: int|
            {
                &&& 0 <= i < events.len()
                &&& (#[trigger] events[i]) is WindowMoved || events[i] is WindowResized
                &&& ({
                    let id = if events[i] is WindowMoved {
                        events[i]->WindowMoved_window_id
                    } else {
                        events[i]->WindowResized_window_id
                    };
                    window_of(windows, id) is Some && window_of(windows, id)->0.entity == entity
                })
            },
{
    broadcast use
        vstd::seq_lib::lemma_seq_contains_after_push,
        vstd::seq_lib::lemma_seq_empty_contains_nothing,
    ;

    lemma_flat_map_where(
        events,
        frame_updates(windows, strip),
        CommandView::UpdateFrame(entity),
        |event: Event|
            {
                &&& event is WindowMoved || event is WindowResized
                &&& ({
                    let id = if event is WindowMoved {
                        event->WindowMoved_window_id
                    } else {
                        event->WindowResized_window_id
                    };
                    window_of(windows, id) is Some && window_of(windows, id)->0.entity == entity
                })
            },
    );
}

/// The strip is laid out around a window exactly where an event tells that the window was resized,
/// and the window is on the strip.
pub proof fn law_resized_reshuffles(
    events: Seq<Event>,
    windows: Seq<WindowEntry>,
    strip: StripView,
    entity: Entity,
)
    ensures
        events.flat_map(frame_updates(windows, strip)).contains(CommandView::Reshuffle(entity))
            <==> strip.windows().contains(entity) && exists|i: int|
            {
                &&& 0 <= i < events.len()
                &&& (#[trigger] events[i]) is WindowResized
                &&& window_of(windows, events[i]->WindowResized_window_id) is Some
                &&& window_of(windows, events[i]->WindowResized_window_id)->0.entity == entity
            },
{
    broadcast use
        vstd::seq_lib::lemma_seq_contains_after_push,
        vstd::seq_lib::lemma_seq_empty_contains_nothing,
    ;

    lemma_index_of(strip, entity);
    let p = |event: Event|
        {
            &&& strip.windows().contains(entity)
            &&& event is WindowResized
            &&& window_of(windows, event->WindowResized_window_id) is Some
            &&& window_of(windows, event->WindowResized_window_id)->0.entity == entity
        };
    lemma_flat_map_where(
        events,
        frame_updates(windows, strip),
        CommandView::Reshuffle(entity),
        p,
    );
}

/// An event has a frame read anew at most once, and before the strip is laid out.
pub proof fn law_updates_in_order(windows: Seq<WindowEntry>, strip: StripView, event: Event)
    ensures
        ({
            let commands = frame_updates(windows, strip)(event);
            &&& commands.len() <= 2
            &&& commands.len() > 0 ==> commands[0] is UpdateFrame
            &&& commands.len() == 2 ==> commands[1] is Reshuffle
        }),
{
}

} // verus!
