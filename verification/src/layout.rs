//! Laying the windows of a strip out on the active display.
use crate::commands::{lemma_views_empty, lemma_views_push, views, Command, CommandView};
use crate::events::Event;
use crate::geometry::{
    display_of, find_display, find_window, placed_window, same_point, same_size, ActiveDisplay,
    Display, DockPosition, Frame, PlacedWindow, Placement, Point, Reposition, Resize, Size,
};
use crate::scalar::{Scalar, ScalarMeaning};
use crate::sequences::{
    find_index, first_where, lemma_flat_map_contains, lemma_flat_map_ends, lemma_flat_map_step,
};
use crate::strip::{lemma_index_of, LayoutStrip, StripView};
use crate::windows::{find, window_of, WindowEntry};
use crate::Entity;
use vstd::prelude::*;

verus! {

/// How many points of a window must show for it to count as visible.
pub const WINDOW_HIDDEN_THRESHOLD: i32 = 10;

/// The frame that a window has or is on its way to on a display.
pub open spec fn moving_frame<C: Scalar>(window: PlacedWindow<C>, display: Display<C>) -> Frame<C> {
    Frame {
        origin: match window.reposition {
            Some(reposition) => if reposition.display_id == display.id {
                reposition.origin
            } else {
                window.frame.origin
            },
            None => window.frame.origin,
        },
        size: match window.resize {
            Some(resize) => if resize.display_id == display.id {
                resize.size
            } else {
                window.frame.size
            },
            None => window.frame.size,
        },
    }
}

/// The frame that an entity's window has or is on its way to on a display.
pub open spec fn entity_frame<C: Scalar>(
    windows: Seq<PlacedWindow<C>>,
    display: Display<C>,
    entity: Entity,
) -> Option<Frame<C>> {
    match placed_window(windows, entity) {
        Some(window) => Some(moving_frame(window, display)),
        None => None,
    }
}

/// The frame of a window, taking into account where it is on its way to on the active display.
pub fn get_moving_window_frame<C: Scalar>(
    entity: Entity,
    active_display: &ActiveDisplay<C>,
    windows: &Vec<PlacedWindow<C>>,
) -> (frame: Option<Frame<C>>)
    ensures
        frame == entity_frame(windows@, active_display.display, entity),
{
    match find_window(windows, entity) {
        None => None,
        Some(window) => {
            let mut frame = window.frame;
            if let Some(reposition) = window.reposition {
                if reposition.display_id == active_display.display.id {
                    frame.origin = reposition.origin;
                }
            }
            if let Some(resize) = window.resize {
                if resize.display_id == active_display.display.id {
                    frame.size = resize.size;
                }
            }
            Some(frame)
        },
    }
}

/// The height that the menu bar and a dock at the bottom leave of the active display.
pub open spec fn usable_height<C: Scalar>(active: ActiveDisplay<C>) -> C {
    let dock = match active.dock {
        Some(DockPosition::Bottom(offset)) => offset,
        _ => C::integer(0),
    };
    active.display.bounds.size.height.difference(active.display.menubar_height).difference(dock)
}

/// The height that the menu bar and a dock at the bottom leave of the active display.
pub fn get_display_height<C: Scalar>(active_display: &ActiveDisplay<C>) -> (height: C)
    ensures
        height == usable_height(*active_display),
{
    let dock_size: C = match active_display.dock {
        Some(DockPosition::Bottom(offset)) => offset,
        _ => C::whole(0),
    };
    let display = &active_display.display;
    display.bounds.size.height.minus(display.menubar_height).minus(dock_size)
}

/// The part of the active display in which the strip is laid out.
pub open spec fn usable_bounds<C: Scalar>(active: ActiveDisplay<C>) -> Frame<C> {
    Frame {
        origin: active.display.bounds.origin,
        size: Size {
            width: active.display.bounds.size.width,
            height: usable_height(active),
        },
    }
}

/// The part of the active display in which the strip is laid out.
pub fn layout_bounds<C: Scalar>(active_display: &ActiveDisplay<C>) -> (bounds: Frame<C>)
    ensures
        bounds == usable_bounds(*active_display),
{
    let mut bounds = active_display.display.bounds;
    bounds.size.height = get_display_height(active_display);
    bounds
}

/// Whether the first of the other displays is located above the active one.
pub open spec fn display_above<C: Scalar>(active: ActiveDisplay<C>) -> bool {
    active.others@.len() > 0 && active.others@[0].bounds.origin.y.less(
        active.display.bounds.origin.y,
    )
}

/// Whether enough of a frame lies on a display of that width.
pub open spec fn shows<C: Scalar>(frame: Frame<C>, display_width: C) -> bool {
    let threshold = C::integer(WINDOW_HIDDEN_THRESHOLD);
    threshold.less(frame.origin.x.sum(frame.size.width)) && frame.origin.x.less(
        display_width.difference(threshold),
    )
}

/// Where a laid out frame comes to stand: below the menu bar; or, where it is off the screen and
/// could be drawn over to a display above, further down.
pub open spec fn settled_origin<C: Scalar>(active: ActiveDisplay<C>, frame: Frame<C>) -> Point<C> {
    let down = if !display_above(active) || shows(frame, active.display.bounds.size.width) {
        active.display.menubar_height
    } else {
        usable_height(active).fourth()
    };
    Point { x: frame.origin.x, y: frame.origin.y.sum(down) }
}

/// What a laid out window is asked to do: to take its size and its place, where it has or is on
/// its way to others.
pub open spec fn placements<C: Scalar>(
    active: ActiveDisplay<C>,
    windows: Seq<PlacedWindow<C>>,
) -> spec_fn((Entity, Frame<C>)) -> Seq<Placement<C>> {
    |laid: (Entity, Frame<C>)|
        match entity_frame(windows, active.display, laid.0) {
            Some(old) => {
                let origin = settled_origin(active, laid.1);
                (if same_size(old.size, laid.1.size) {
                    Seq::empty()
                } else {
                    seq![
                        Placement::Resize {
                            entity: laid.0,
                            width: laid.1.size.width,
                            height: laid.1.size.height,
                            display_id: active.display.id,
                        },
                    ]
                }) + (if same_point(old.origin, origin) {
                    Seq::empty()
                } else {
                    seq![
                        Placement::Reposition {
                            entity: laid.0,
                            x: origin.x,
                            y: origin.y,
                            display_id: active.display.id,
                        },
                    ]
                })
            },
            None => Seq::empty(),
        }
}

/// Gives the windows of the active strip the frames of a layout.
pub fn position_layout_windows<C: Scalar>(
    layout: &Vec<(Entity, Frame<C>)>,
    active_display: &ActiveDisplay<C>,
    windows: &Vec<PlacedWindow<C>>,
) -> (asked: Vec<Placement<C>>)
    ensures
        asked@ == layout@.flat_map(placements(*active_display, windows@)),
{
    let mut asked: Vec<Placement<C>> = Vec::new();
    let display = active_display.display;
    let display_bounds = layout_bounds(active_display);
    let display_width = display.bounds.size.width;
    let display_above = active_display.others.len() > 0
        && active_display.others[0].bounds.origin.y.below(display.bounds.origin.y);
    let threshold: C = C::whole(WINDOW_HIDDEN_THRESHOLD);
    let ghost f = placements(*active_display, windows@);
    proof {
        lemma_flat_map_ends(layout@, f);
    }
    for i in 0..layout.len()
        invariant
            f == placements(*active_display, windows@),
            display == active_display.display,
            display_bounds == usable_bounds(*active_display),
            display_width == display.bounds.size.width,
            display_above == self::display_above(*active_display),
            threshold == C::integer(WINDOW_HIDDEN_THRESHOLD),
            asked@ == layout@.take(i as int).flat_map(f),
    {
        let ghost before = asked@;
        proof {
            lemma_flat_map_step(layout@, f, i as int);
        }
        let (entity, mut frame) = layout[i];
        if let Some(old_frame) = get_moving_window_frame(entity, active_display, windows) {
            if !old_frame.size.same(&frame.size) {
                asked.push(
                    Placement::Resize {
                        entity,
                        width: frame.size.width,
                        height: frame.size.height,
                        display_id: display.id,
                    },
                );
            }
            // A window that is off the screen could be drawn over to the display above when it
            // moves; it is nudged down.
            let visible_window = !display_above || (threshold.below(
                frame.origin.x.plus(frame.size.width),
            ) && frame.origin.x.below(display_width.minus(threshold)));
            frame.origin.y =
            frame.origin.y.plus(
                if visible_window {
                    display.menubar_height
                } else {
                    display_bounds.size.height.quarter()
                },
            );
            if !old_frame.origin.same(&frame.origin) {
                asked.push(
                    Placement::Reposition {
                        entity,
                        x: frame.origin.x,
                        y: frame.origin.y,
                        display_id: display.id,
                    },
                );
            }
        }
        assert(asked@ =~= before + f(layout@[i as int]));
    }
    asked
}

/// The left edge of a frame that is pushed sideways onto the display.
pub open spec fn pushed_onto<C: Scalar>(x: C, width: C, display_width: C) -> C {
    if display_width.less(x.sum(width)) {
        display_width.difference(width)
    } else if x.less(C::integer(0)) {
        C::integer(0)
    } else {
        x
    }
}

/// The left edge of a frame that is pushed off a dock at the side.
pub open spec fn pushed_off_dock<C: Scalar>(
    x: C,
    width: C,
    display_width: C,
    dock: Option<DockPosition<C>>,
) -> C {
    match dock {
        Some(DockPosition::Left(offset)) => if x.less(offset) {
            offset
        } else {
            x
        },
        Some(DockPosition::Right(offset)) => {
            let free = display_width.difference(offset);
            if free.less(x.sum(width)) {
                free.difference(width)
            } else {
                x
            }
        },
        _ => x,
    }
}

/// The place that a window has or is on its way to, and the bounds of the display of that place.
pub open spec fn destination<C: Scalar>(
    frame: Frame<C>,
    active: ActiveDisplay<C>,
    moving: Option<Reposition<C>>,
) -> (Point<C>, Frame<C>) {
    match moving {
        Some(marker) => (
            marker.origin,
            match display_of(active.others@, marker.display_id) {
                Some(display) => display.bounds,
                None => active.display.bounds,
            },
        ),
        None => (frame.origin, active.display.bounds),
    }
}

/// The frame of a window, moved sideways so that it lies on its display and off the dock.
pub open spec fn exposed<C: Scalar>(
    frame: Frame<C>,
    active: ActiveDisplay<C>,
    moving: Option<Reposition<C>>,
    resizing: Option<Resize<C>>,
    dock: Option<DockPosition<C>>,
) -> Frame<C> {
    let (origin, bounds) = destination(frame, active, moving);
    let size = match resizing {
        Some(marker) => marker.size,
        None => frame.size,
    };
    let x = pushed_onto(origin.x, size.width, bounds.size.width);
    Frame {
        origin: Point {
            x: pushed_off_dock(x, size.width, bounds.size.width, dock),
            y: origin.y,
        },
        size,
    }
}

/// The frame of a window, moved sideways so that it lies on its display and off the dock.
pub fn expose_window<C: Scalar>(
    frame: &Frame<C>,
    active_display: &ActiveDisplay<C>,
    moving: Option<Reposition<C>>,
    resizing: Option<Resize<C>>,
    dock: Option<DockPosition<C>>,
) -> (r: Frame<C>)
    ensures
        r == exposed(*frame, *active_display, moving, resizing, dock),
{
    let mut origin = frame.origin;
    let mut bounds = active_display.display.bounds;
    if let Some(marker) = moving {
        origin = marker.origin;
        if let Some(display) = find_display(&active_display.others, marker.display_id) {
            bounds = display.bounds;
        }
    }
    let size = match resizing {
        Some(marker) => marker.size,
        None => frame.size,
    };
    if bounds.size.width.below(origin.x.plus(size.width)) {
        origin.x = bounds.size.width.minus(size.width);
    } else if origin.x.below(C::whole(0)) {
        origin.x = C::whole(0);
    }
    match dock {
        Some(DockPosition::Left(offset)) => {
            if origin.x.below(offset) {
                origin.x = offset;
            }
        },
        Some(DockPosition::Right(offset)) => {
            if bounds.size.width.minus(offset).below(origin.x.plus(size.width)) {
                origin.x = bounds.size.width.minus(offset).minus(size.width);
            }
        },
        _ => {},
    }
    Frame { origin, size }
}

/// A column of the active strip: the window at its top, and where the column begins on the strip.
#[derive(Clone, Copy, Debug, PartialEq)]
pub struct ColumnPosition<C> {
    pub top: Option<Entity>,
    pub position: C,
}

/// A window that is swiped sideways, by a part of the display's width.
#[derive(Clone, Copy, Debug, PartialEq)]
pub struct Swipe<C> {
    pub entity: Entity,
    pub delta: C,
}

/// A step of moving the active strip.
#[derive(Clone, Copy, Debug, PartialEq)]
pub enum Arrangement<C> {
    /// The swipe of the window has been taken up.
    RemoveSwipe(Entity),
    /// The wish to lay the strip out around the window has been taken up.
    RemoveReshuffle(Entity),
    /// The strip is to be laid out so that the place at this offset comes to the left edge.
    Arrange(C),
}

/// Where the column begins that a window is at the top of.
pub open spec fn top_position<C>(positions: Seq<ColumnPosition<C>>, entity: Entity) -> Option<C> {
    match first_where(positions, |p: ColumnPosition<C>| p.top == Some(entity)) {
        Some(k) => Some(positions[k].position),
        None => None,
    }
}

/// Finds where the column begins that a window is at the top of.
fn find_top_position<C: Scalar>(positions: &Vec<ColumnPosition<C>>, entity: Entity) -> (r: Option<
    C,
>)
    ensures
        r == top_position(positions@, entity),
{
    let test = |p: &ColumnPosition<C>| -> (r: bool)
        ensures
            r == (p.top == Some(entity)),
    {
        match p.top {
                Some(top) => top == entity,
                None => false,
            }
    };
    let found = find_index(positions, test, Ghost(|p: ColumnPosition<C>| p.top == Some(entity)));
    match found {
        Some(k) => Some(positions[k].position),
        None => None,
    }
}

/// The offset at which a swiped window's strip is laid out: the one at which it stands now, and
/// the swipe.
pub open spec fn swiped_offset<C: Scalar>(
    swipe: Swipe<C>,
    active: ActiveDisplay<C>,
    windows: Seq<PlacedWindow<C>>,
    positions: Seq<ColumnPosition<C>>,
) -> Option<C> {
    match (
        top_position(positions, swipe.entity),
        entity_frame(windows, active.display, swipe.entity),
    ) {
        (Some(position), Some(frame)) => Some(
            position.difference(frame.origin.x).sum(
                active.display.bounds.size.width.product(swipe.delta),
            ),
        ),
        _ => None,
    }
}

/// What a swipe asks for: it is taken up; and where the window is at the top of a column of the
/// active strip, the strip moves.
pub open spec fn swipes<C: Scalar>(
    active: ActiveDisplay<C>,
    windows: Seq<PlacedWindow<C>>,
    positions: Seq<ColumnPosition<C>>,
) -> spec_fn(Swipe<C>) -> Seq<Arrangement<C>> {
    |swipe: Swipe<C>|
        seq![Arrangement::<C>::RemoveSwipe(swipe.entity)] + (match swiped_offset(
            swipe,
            active,
            windows,
            positions,
        ) {
            Some(offset) => seq![Arrangement::Arrange(offset)],
            None => Seq::empty(),
        })
}

/// Moves the active strip as its windows are swiped.
pub fn window_swiper<C: Scalar>(
    sliding: &Vec<Swipe<C>>,
    active_display: &ActiveDisplay<C>,
    windows: &Vec<PlacedWindow<C>>,
    positions: &Vec<ColumnPosition<C>>,
) -> (steps: Vec<Arrangement<C>>)
    ensures
        steps@ == sliding@.flat_map(swipes(*active_display, windows@, positions@)),
{
    let mut steps: Vec<Arrangement<C>> = Vec::new();
    let viewport = layout_bounds(active_display);
    let ghost f = swipes(*active_display, windows@, positions@);
    proof {
        lemma_flat_map_ends(sliding@, f);
    }
    for i in 0..sliding.len()
        invariant
            f == swipes(*active_display, windows@, positions@),
            viewport == usable_bounds(*active_display),
            steps@ == sliding@.take(i as int).flat_map(f),
    {
        let ghost before = steps@;
        proof {
            lemma_flat_map_step(sliding@, f, i as int);
        }
        let swipe = sliding[i];
        steps.push(Arrangement::RemoveSwipe(swipe.entity));
        if let Some(position) = find_top_position(positions, swipe.entity) {
            if let Some(frame) = get_moving_window_frame(swipe.entity, active_display, windows) {
                let viewport_offset = position.minus(frame.origin.x);
                let shift = viewport.size.width.times(swipe.delta);
                steps.push(Arrangement::Arrange(viewport_offset.plus(shift)));
            }
        }
        assert(steps@ =~= before + f(sliding@[i as int]));
    }
    steps
}

/// The offset at which a strip is laid out around a window: the one at which the window stands
/// exposed.
pub open spec fn reshuffled_offset<C: Scalar>(
    entity: Entity,
    active: ActiveDisplay<C>,
    windows: Seq<PlacedWindow<C>>,
    strip: StripView,
    positions: Seq<ColumnPosition<C>>,
) -> Option<C> {
    match (placed_window(windows, entity), strip.index_of(entity)) {
        (Some(window), Some(index)) => if index < positions.len() {
            Some(
                positions[index].position.difference(
                    exposed(
                        window.frame,
                        active,
                        window.reposition,
                        window.resize,
                        active.dock,
                    ).origin.x,
                ),
            )
        } else {
            None
        },
        _ => None,
    }
}

/// What the wish to lay the strip out around a window asks for: it is taken up; and where the
/// window is on the active strip, the strip moves.
pub open spec fn reshuffles<C: Scalar>(
    active: ActiveDisplay<C>,
    windows: Seq<PlacedWindow<C>>,
    strip: StripView,
    positions: Seq<ColumnPosition<C>>,
) -> spec_fn(Entity) -> Seq<Arrangement<C>> {
    |entity: Entity|
        seq![Arrangement::<C>::RemoveReshuffle(entity)] + (match reshuffled_offset(
            entity,
            active,
            windows,
            strip,
            positions,
        ) {
            Some(offset) => seq![Arrangement::Arrange(offset)],
            None => Seq::empty(),
        })
}

/// Lays the active strip out around windows, so that they are exposed.
pub fn reshuffle_layout_strip<C: Scalar>(
    markers: &Vec<Entity>,
    active_display: &ActiveDisplay<C>,
    windows: &Vec<PlacedWindow<C>>,
    layout_strip: &LayoutStrip,
    positions: &Vec<ColumnPosition<C>>,
) -> (steps: Vec<Arrangement<C>>)
    ensures
        steps@ == markers@.flat_map(
            reshuffles(*active_display, windows@, layout_strip@, positions@),
        ),
{
    let mut steps: Vec<Arrangement<C>> = Vec::new();
    let ghost f = reshuffles(*active_display, windows@, layout_strip@, positions@);
    proof {
        lemma_flat_map_ends(markers@, f);
    }
    for i in 0..markers.len()
        invariant
            f == reshuffles(*active_display, windows@, layout_strip@, positions@),
            steps@ == markers@.take(i as int).flat_map(f),
    {
        let ghost before = steps@;
        proof {
            lemma_flat_map_step(markers@, f, i as int);
        }
        let entity = markers[i];
        steps.push(Arrangement::RemoveReshuffle(entity));
        if let Some(window) = find_window(windows, entity) {
            let frame = expose_window(
                &window.frame,
                active_display,
                window.reposition,
                window.resize,
                active_display.dock,
            );
            if let Some(index) = layout_strip.index_of(entity) {
                if index < positions.len() {
                    let abs_position = positions[index].position;
                    steps.push(Arrangement::Arrange(abs_position.minus(frame.origin.x)));
                }
            }
        }
        assert(steps@ =~= before + f(markers@[i as int]));
    }
    steps
}

/// What an event asks of the window it is about: its frame is read anew; and where it was resized
/// and is on the active strip, the strip is laid out around it.
pub open spec fn frame_updates(windows: Seq<WindowEntry>, strip: StripView) -> spec_fn(Event) -> Seq<
    CommandView,
> {
    |event: Event|
        match event {
            Event::WindowMoved { window_id } => match window_of(windows, window_id) {
                Some(window) => seq![CommandView::UpdateFrame(window.entity)],
                None => Seq::empty(),
            },
            Event::WindowResized { window_id } => match window_of(windows, window_id) {
                Some(window) => if strip.index_of(window.entity) is Some {
                    seq![
                        CommandView::UpdateFrame(window.entity),
                        CommandView::Reshuffle(window.entity),
                    ]
                } else {
                    seq![CommandView::UpdateFrame(window.entity)]
                },
                None => Seq::empty(),
            },
            _ => Seq::empty(),
        }
}

/// Takes up the frames of windows that were moved or resized. Windows that float or are on other
/// displays or workspaces do not move the strip.
pub fn window_update_frame(
    events: &Vec<Event>,
    windows: &Vec<WindowEntry>,
    active_strip: &LayoutStrip,
) -> (commands: Vec<Command>)
    ensures
        views(commands@) == events@.flat_map(frame_updates(windows@, active_strip@)),
{
    broadcast use lemma_views_push, lemma_views_empty;

    let mut commands: Vec<Command> = Vec::new();
    let ghost f = frame_updates(windows@, active_strip@);
    proof {
        lemma_flat_map_ends(events@, f);
    }
    for i in 0..events.len()
        invariant
            f == frame_updates(windows@, active_strip@),
            views(commands@) == events@.take(i as int).flat_map(f),
    {
        let ghost before = views(commands@);
        proof {
            lemma_flat_map_step(events@, f, i as int);
        }
        match events[i] {
            Event::WindowMoved { window_id } => {
                if let Some(window) = find(windows, window_id) {
                    commands.push(Command::UpdateFrame(window.entity));
                }
            },
            Event::WindowResized { window_id } => {
                if let Some(window) = find(windows, window_id) {
                    commands.push(Command::UpdateFrame(window.entity));
                    if active_strip.index_of(window.entity).is_some() {
                        commands.push(Command::Reshuffle(window.entity));
                    }
                }
            },
            _ => {},
        }
        assert(views(commands@) =~= before + f(events@[i as int]));
    }
    commands
}

/// Whether a sum or difference stays within the range of whole points.
pub open spec fn fits(v: int) -> bool {
    i64::MIN <= v <= i64::MAX
}

/// How far a dock reaches into the display from the left and from the right.
pub open spec fn dock_reach(dock: Option<DockPosition<i64>>) -> (int, int) {
    match dock {
        Some(DockPosition::Left(offset)) => (offset as int, 0),
        Some(DockPosition::Right(offset)) => (0, offset as int),
        _ => (0, 0),
    }
}

/// In whole points: a window that fits beside the dock is exposed in full, on its display and off
/// the dock; and one that was exposed already stays where it is.
pub proof fn law_exposed_in_full(
    frame: Frame<i64>,
    active: ActiveDisplay<i64>,
    moving: Option<Reposition<i64>>,
    resizing: Option<Resize<i64>>,
    dock: Option<DockPosition<i64>>,
)
    requires
        fits(
            destination(frame, active, moving).0.x + exposed(
                frame,
                active,
                moving,
                resizing,
                dock,
            ).size.width,
        ),
        0 <= dock_reach(dock).0,
        0 <= dock_reach(dock).1,
        0 <= exposed(frame, active, moving, resizing, dock).size.width,
        exposed(frame, active, moving, resizing, dock).size.width + dock_reach(dock).0
            + dock_reach(dock).1 <= destination(frame, active, moving).1.size.width,
    ensures
        ({
            let before = destination(frame, active, moving).0;
            let width = destination(frame, active, moving).1.size.width;
            let after = exposed(frame, active, moving, resizing, dock);
            let (left, right) = dock_reach(dock);
            &&& left <= after.origin.x
            &&& after.origin.x + after.size.width <= width - right
            &&& after.origin.y == before.y
            &&& left <= before.x && before.x + after.size.width <= width - right
                ==> after.origin.x == before.x
        }),
{
}

/// Next to a window exposed without a dock, one exposed with a dock differs in its left edge alone:
/// one at the left of the dock's edge comes to stand there, and one whose right edge is beyond that
/// of a dock at the right comes to stand before it. No other dock makes a difference.
pub proof fn law_dock_moves<C: Scalar>(
    frame: Frame<C>,
    active: ActiveDisplay<C>,
    moving: Option<Reposition<C>>,
    resizing: Option<Resize<C>>,
    dock: DockPosition<C>,
)
    ensures
        ({
            let free = exposed(frame, active, moving, resizing, None);
            let docked = exposed(frame, active, moving, resizing, Some(dock));
            let width = destination(frame, active, moving).1.size.width;
            &&& docked.size == free.size
            &&& docked.origin.y == free.origin.y
            &&& match dock {
                DockPosition::Left(offset) => docked.origin.x == if free.origin.x.less(offset) {
                    offset
                } else {
                    free.origin.x
                },
                DockPosition::Right(offset) => docked.origin.x == if width.difference(offset).less(
                    free.origin.x.sum(free.size.width),
                ) {
                    width.difference(offset).difference(free.size.width)
                } else {
                    free.origin.x
                },
                _ => docked == free,
            }
        }),
{
}

/// In whole points: a dock at the left is a lower bound of the left edge of an exposed window, and
/// one at the right an upper bound, by the window's width before the dock.
pub proof fn law_dock_bounds(
    frame: Frame<i64>,
    active: ActiveDisplay<i64>,
    moving: Option<Reposition<i64>>,
    resizing: Option<Resize<i64>>,
    dock: DockPosition<i64>,
)
    requires
        ({
            let free = exposed(frame, active, moving, resizing, None);
            let width = destination(frame, active, moving).1.size.width;
            match dock {
                DockPosition::Right(offset) => fits(width - offset) && fits(
                    width - offset - free.size.width,
                ) && fits(free.origin.x + free.size.width),
                _ => true,
            }
        }),
    ensures
        ({
            let free = exposed(frame, active, moving, resizing, None);
            let docked = exposed(frame, active, moving, resizing, Some(dock));
            let width = destination(frame, active, moving).1.size.width;
            &&& docked.size == free.size
            &&& docked.origin.y == free.origin.y
            &&& match dock {
                DockPosition::Left(offset) => docked.origin.x == if free.origin.x < offset {
                    offset as int
                } else {
                    free.origin.x as int
                },
                DockPosition::Right(offset) => docked.origin.x == if free.origin.x > width - offset
                    - free.size.width {
                    width - offset - free.size.width
                } else {
                    free.origin.x as int
                },
                _ => docked == free,
            }
        }),
{
}

/// In whole points: exposing a window twice is exposing it once, where it is no wider than the
/// display and the dock does not reach out of it.
pub proof fn law_exposed_once(
    frame: Frame<i64>,
    active: ActiveDisplay<i64>,
    dock: Option<DockPosition<i64>>,
)
    requires
        frame.size.width <= active.display.bounds.size.width,
        match dock {
            Some(DockPosition::Left(offset)) | Some(DockPosition::Right(offset)) => 0 <= offset,
            _ => true,
        },
    ensures
        exposed(exposed(frame, active, None, None, dock), active, None, None, dock) == exposed(
            frame,
            active,
            None,
            None,
            dock,
        ),
{
}

/// In whole points: laid out around a window, the strip has the window's column where the window
/// stands exposed.
pub proof fn law_reshuffle_exposes(
    entity: Entity,
    active: ActiveDisplay<i64>,
    windows: Seq<PlacedWindow<i64>>,
    strip: StripView,
    positions: Seq<ColumnPosition<i64>>,
)
    requires
        placed_window(windows, entity) is Some,
        strip.index_of(entity) is Some,
        strip.index_of(entity)->0 < positions.len(),
        ({
            let window = placed_window(windows, entity)->0;
            fits(
                positions[strip.index_of(entity)->0].position - exposed(
                    window.frame,
                    active,
                    window.reposition,
                    window.resize,
                    active.dock,
                ).origin.x,
            )
        }),
    ensures
        reshuffled_offset(entity, active, windows, strip, positions) is Some,
        ({
            let window = placed_window(windows, entity)->0;
            positions[strip.index_of(entity)->0].position.difference(
                reshuffled_offset(entity, active, windows, strip, positions)->0,
            ) == exposed(
                window.frame,
                active,
                window.reposition,
                window.resize,
                active.dock,
            ).origin.x
        }),
{
}

/// In whole points: a swipe of no length leaves the column of the swiped window where the window
/// is.
pub proof fn law_empty_swipe_stays(
    entity: Entity,
    active: ActiveDisplay<i64>,
    windows: Seq<PlacedWindow<i64>>,
    positions: Seq<ColumnPosition<i64>>,
)
    requires
        top_position(positions, entity) is Some,
        entity_frame(windows, active.display, entity) is Some,
        fits(
            top_position(positions, entity)->0 - entity_frame(
                windows,
                active.display,
                entity,
            )->0.origin.x,
        ),
    ensures
        swiped_offset(Swipe { entity, delta: 0i64 }, active, windows, positions) == Some(
            (top_position(positions, entity)->0 - entity_frame(
                windows,
                active.display,
                entity,
            )->0.origin.x) as i64,
        ),
{
    let width = active.display.bounds.size.width;
    assert(width * 0 == 0) by (nonlinear_arith);
}

/// A layout asks nothing exactly when every window of it that is known has, or is on its way to,
/// the size and the place that the layout gives it.
pub proof fn law_layout_settles<C: Scalar>(
    layout: Seq<(Entity, Frame<C>)>,
    active: ActiveDisplay<C>,
    windows: Seq<PlacedWindow<C>>,
)
    ensures
        layout.flat_map(placements(active, windows)) == Seq::<Placement<C>>::empty()
            <==> forall|i: int|
            #![trigger layout[i]]
            0 <= i < layout.len() ==> match entity_frame(windows, active.display, layout[i].0) {
                Some(old) => same_size(old.size, layout[i].1.size) && same_point(
                    old.origin,
                    settled_origin(active, layout[i].1),
                ),
                None => true,
            },
{
    let f = placements(active, windows);
    let all = layout.flat_map(f);
    if all == Seq::<Placement<C>>::empty() {
        assert forall|i: int| #![trigger layout[i]] 0 <= i < layout.len() implies f(layout[i]).len()
            == 0 by {
            if f(layout[i]).len() > 0 {
                let asked = f(layout[i])[0];
                lemma_flat_map_contains(layout, f, asked);
                assert(f(layout[i]).contains(asked));
                assert(all.contains(asked));
            }
        }
        assert forall|i: int| #![trigger layout[i]] 0 <= i < layout.len() implies match entity_frame(
            windows,
            active.display,
            layout[i].0,
        ) {
            Some(old) => same_size(old.size, layout[i].1.size) && same_point(
                old.origin,
                settled_origin(active, layout[i].1),
            ),
            None => true,
        } by {
            assert(f(layout[i]).len() == 0);
        }
    }
    if forall|i: int|
        #![trigger layout[i]]
        0 <= i < layout.len() ==> match entity_frame(windows, active.display, layout[i].0) {
            Some(old) => same_size(old.size, layout[i].1.size) && same_point(
                old.origin,
                settled_origin(active, layout[i].1),
            ),
            None => true,
        } {
        if all.len() > 0 {
            let asked = all[0];
            assert(all.contains(asked));
            lemma_flat_map_contains(layout, f, asked);
            let i = choose|i: int| 0 <= i < layout.len() && #[trigger] f(layout[i]).contains(asked);
            assert(f(layout[i]).len() == 0);
        }
        assert(all =~= Seq::<Placement<C>>::empty());
    }
}

/// The strip is laid out only around windows that are on it.
pub proof fn law_reshuffle_on_strip(
    events: Seq<Event>,
    windows: Seq<WindowEntry>,
    strip: StripView,
    entity: Entity,
)
    requires
        events.flat_map(frame_updates(windows, strip)).contains(CommandView::Reshuffle(entity)),
    ensures
        strip.windows().contains(entity),
{
    let f = frame_updates(windows, strip);
    let asked = CommandView::Reshuffle(entity);
    lemma_flat_map_contains(events, f, asked);
    let i = choose|i: int| 0 <= i < events.len() && #[trigger] f(events[i]).contains(asked);
    let k = f(events[i]).index_of(asked);
    assert(f(events[i])[k] == asked);
    lemma_index_of(strip, entity);
}

} // verus!
