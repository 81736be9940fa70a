//! Moving and resizing windows step by step.
use crate::geometry::{
    display_of, find_display, same_point, same_size, Display, Frame, Point, Reposition, Resize,
    Size,
};
use crate::scalar::{Scalar, ScalarMeaning};
use crate::sequences::{lemma_flat_map_ends, lemma_flat_map_step};
use crate::Entity;
use vstd::prelude::*;

verus! {

/// How far two coordinates are apart, as far as one step goes.
pub open spec fn stride<C: Scalar>(current: C, target: C, step: C) -> C {
    target.difference(current).absolute().minimum(step)
}

/// Whether two coordinates are less than one step apart.
pub open spec fn near<C: Scalar>(current: C, target: C, step: C) -> bool {
    stride(current, target, step).less(step)
}

/// A coordinate, one step nearer to the target.
pub open spec fn nearer<C: Scalar>(current: C, target: C, step: C) -> C {
    let stride = stride(current, target, step);
    current.sum(
        if target.less(current) {
            stride.negation()
        } else {
            stride
        },
    )
}

/// The step that windows take on a display.
pub open spec fn step_on<C: Scalar>(speed: C, seconds: C, display: Display<C>) -> C {
    speed.product(seconds).product(display.bounds.size.width).rounded_up()
}

/// A window on its way to a place.
#[derive(Clone, Copy, Debug, PartialEq)]
pub struct MovingWindow<C> {
    pub entity: Entity,
    pub current: Point<C>,
    pub target: Reposition<C>,
}

/// A place to put a window at, within the bounds of a display; `arrived` where the window is then no
/// longer on its way.
#[derive(Clone, Copy, Debug, PartialEq)]
pub struct Motion<C> {
    pub entity: Entity,
    pub x: C,
    pub y: C,
    pub bounds: Frame<C>,
    pub arrived: bool,
}

/// Whether a window is less than one step away from its place.
pub open spec fn arrives<C: Scalar>(current: Point<C>, target: Point<C>, step: C) -> bool {
    near(current.x, target.x, step) && near(current.y, target.y, step)
}

/// Where a window is put next: at its target, where it is less than one step away; otherwise one
/// step nearer in each direction. It never comes to lie over the menu bar.
pub open spec fn next_place<C: Scalar>(
    current: Point<C>,
    target: Point<C>,
    step: C,
    menubar_height: C,
) -> Point<C> {
    if arrives(current, target, step) {
        Point { x: target.x, y: target.y.maximum(menubar_height) }
    } else {
        Point {
            x: nearer(current.x, target.x, step),
            y: nearer(current.y, target.y, step).maximum(menubar_height),
        }
    }
}

/// Whether a window is no longer on its way after the next step: it was less than one step away
/// from its target, or is put on it.
pub open spec fn reaches<C: Scalar>(
    current: Point<C>,
    target: Point<C>,
    step: C,
    menubar_height: C,
) -> bool {
    arrives(current, target, step) || same_point(
        next_place(current, target, step, menubar_height),
        target,
    )
}

/// How a window moves: one step on the display of its target, where that display is there.
pub open spec fn motions<C: Scalar>(displays: Seq<Display<C>>, speed: C, seconds: C) -> spec_fn(
    MovingWindow<C>,
) -> Seq<Motion<C>> {
    |window: MovingWindow<C>|
        match display_of(displays, window.target.display_id) {
            Some(display) => {
                let step = step_on(speed, seconds, display);
                let place = next_place(
                    window.current,
                    window.target.origin,
                    step,
                    display.menubar_height,
                );
                seq![
                    Motion {
                        entity: window.entity,
                        x: place.x,
                        y: place.y,
                        bounds: display.bounds,
                        arrived: reaches(
                            window.current,
                            window.target.origin,
                            step,
                            display.menubar_height,
                        ),
                    },
                ]
            },
            None => Seq::empty(),
        }
}

/// Moves windows one step nearer to their places.
pub fn animate_windows<C: Scalar>(
    windows: &Vec<MovingWindow<C>>,
    displays: &Vec<Display<C>>,
    speed: C,
    seconds: C,
) -> (moves: Vec<Motion<C>>)
    ensures
        moves@ == windows@.flat_map(motions(displays@, speed, seconds)),
{
    let mut moves: Vec<Motion<C>> = Vec::new();
    let move_ratio = speed.times(seconds);
    let ghost f = motions(displays@, speed, seconds);
    proof {
        lemma_flat_map_ends(windows@, f);
    }
    for i in 0..windows.len()
        invariant
            f == motions(displays@, speed, seconds),
            move_ratio == speed.product(seconds),
            moves@ == windows@.take(i as int).flat_map(f),
    {
        let ghost before = moves@;
        proof {
            lemma_flat_map_step(windows@, f, i as int);
        }
        let window = windows[i];
        let origin = window.target.origin;
        if let Some(display) = find_display(displays, window.target.display_id) {
            let move_delta = move_ratio.times(display.bounds.size.width).ceiling();
            let current = window.current;
            let mut delta_x = origin.x.minus(current.x).magnitude().least(move_delta);
            let mut delta_y = origin.y.minus(current.y).magnitude().least(move_delta);
            if delta_x.below(move_delta) && delta_y.below(move_delta) {
                moves.push(
                    Motion {
                        entity: window.entity,
                        x: origin.x,
                        y: origin.y.greatest(display.menubar_height),
                        bounds: display.bounds,
                        arrived: true,
                    },
                );
            } else {
                if origin.x.below(current.x) {
                    delta_x = delta_x.negated();
                }
                if origin.y.below(current.y) {
                    delta_y = delta_y.negated();
                }
                let next = Point {
                    x: current.x.plus(delta_x),
                    y: current.y.plus(delta_y).greatest(display.menubar_height),
                };
                moves.push(
                    Motion {
                        entity: window.entity,
                        x: next.x,
                        y: next.y,
                        bounds: display.bounds,
                        arrived: next.same(&origin),
                    },
                );
            }
        }
        assert(moves@ =~= before + f(windows@[i as int]));
    }
    moves
}

/// A window on its way to a size.
#[derive(Clone, Copy, Debug, PartialEq)]
pub struct ResizingWindow<C> {
    pub entity: Entity,
    pub current: Size<C>,
    pub target: Resize<C>,
}

/// A size to give a window, within the bounds of a display; `arrived` where the window is then no
/// longer on its way.
#[derive(Clone, Copy, Debug, PartialEq)]
pub struct Growth<C> {
    pub entity: Entity,
    pub width: C,
    pub height: C,
    pub bounds: Frame<C>,
    pub arrived: bool,
}

/// Whether a window is less than one step away from its size.
pub open spec fn grown<C: Scalar>(current: Size<C>, target: Size<C>, step: C) -> bool {
    near(current.width, target.width, step) && near(current.height, target.height, step)
}

/// What size a window is given next: its target, where it is less than one step away; otherwise
/// one step nearer in each direction.
pub open spec fn next_size<C: Scalar>(current: Size<C>, target: Size<C>, step: C) -> Size<C> {
    if grown(current, target, step) {
        target
    } else {
        Size {
            width: nearer(current.width, target.width, step),
            height: nearer(current.height, target.height, step),
        }
    }
}

/// Whether a window is no longer on its way after the next step: it was less than one step away
/// from its target, or is given it.
pub open spec fn fills<C: Scalar>(current: Size<C>, target: Size<C>, step: C) -> bool {
    grown(current, target, step) || same_size(next_size(current, target, step), target)
}

/// How a window grows: one step on the display of its target, where that display is there.
pub open spec fn growths<C: Scalar>(displays: Seq<Display<C>>, speed: C, seconds: C) -> spec_fn(
    ResizingWindow<C>,
) -> Seq<Growth<C>> {
    |window: ResizingWindow<C>|
        match display_of(displays, window.target.display_id) {
            Some(display) => {
                let step = step_on(speed, seconds, display);
                let size = next_size(window.current, window.target.size, step);
                seq![
                    Growth {
                        entity: window.entity,
                        width: size.width,
                        height: size.height,
                        bounds: display.bounds,
                        arrived: fills(window.current, window.target.size, step),
                    },
                ]
            },
            None => Seq::empty(),
        }
}

/// Brings windows one step nearer to their sizes.
pub fn animate_resize_windows<C: Scalar>(
    windows: &Vec<ResizingWindow<C>>,
    displays: &Vec<Display<C>>,
    speed: C,
    seconds: C,
) -> (sizes: Vec<Growth<C>>)
    ensures
        sizes@ == windows@.flat_map(growths(displays@, speed, seconds)),
{
    let mut sizes: Vec<Growth<C>> = Vec::new();
    let move_ratio = speed.times(seconds);
    let ghost f = growths(displays@, speed, seconds);
    proof {
        lemma_flat_map_ends(windows@, f);
    }
    for i in 0..windows.len()
        invariant
            f == growths(displays@, speed, seconds),
            move_ratio == speed.product(seconds),
            sizes@ == windows@.take(i as int).flat_map(f),
    {
        let ghost before = sizes@;
        proof {
            lemma_flat_map_step(windows@, f, i as int);
        }
        let window = windows[i];
        let size = window.target.size;
        if let Some(display) = find_display(displays, window.target.display_id) {
            let move_delta = move_ratio.times(display.bounds.size.width).ceiling();
            let current = window.current;
            let mut delta_x = size.width.minus(current.width).magnitude().least(move_delta);
            let mut delta_y = size.height.minus(current.height).magnitude().least(move_delta);
            if delta_x.below(move_delta) && delta_y.below(move_delta) {
                sizes.push(
                    Growth {
                        entity: window.entity,
                        width: size.width,
                        height: size.height,
                        bounds: display.bounds,
                        arrived: true,
                    },
                );
            } else {
                if size.width.below(current.width) {
                    delta_x = delta_x.negated();
                }
                if size.height.below(current.height) {
                    delta_y = delta_y.negated();
                }
                let next = Size {
                    width: current.width.plus(delta_x),
                    height: current.height.plus(delta_y),
                };
                sizes.push(
                    Growth {
                        entity: window.entity,
                        width: next.width,
                        height: next.height,
                        bounds: display.bounds,
                        arrived: next.same(&size),
                    },
                );
            }
        }
        assert(sizes@ =~= before + f(windows@[i as int]));
    }
    sizes
}

/// How far two numbers are apart.
pub open spec fn distance(a: i64, b: i64) -> int {
    if a < b {
        b - a
    } else {
        a - b
    }
}

/// In whole points: a step never goes past the target. It takes a whole step off the distance, or
/// ends at the target.
proof fn lemma_nearer(current: i64, target: i64, step: i64)
    requires
        0 < step,
    ensures
        distance(nearer(current, target, step), target) == if distance(current, target) <= step {
            0
        } else {
            distance(current, target) - step
        },
        current <= target ==> current <= nearer(current, target, step) <= target,
        target <= current ==> target <= nearer(current, target, step) <= current,
        near(current, target, step) <==> distance(current, target) < step,
{
}

/// In whole points: no step puts a window over the menu bar.
pub proof fn law_below_menu_bar(
    current: Point<i64>,
    target: Point<i64>,
    step: i64,
    menubar_height: i64,
)
    ensures
        menubar_height <= next_place(current, target, step, menubar_height).y,
{
}

/// Where a window is after a number of steps.
pub open spec fn place_after(
    start: Point<i64>,
    target: Point<i64>,
    step: i64,
    menubar_height: i64,
    steps: nat,
) -> Point<i64>
    decreases steps,
{
    if steps == 0 {
        start
    } else {
        next_place(
            place_after(start, target, step, menubar_height, (steps - 1) as nat),
            target,
            step,
            menubar_height,
        )
    }
}

/// Where a window ends up: at its target; or below the menu bar, where the target is under it.
pub open spec fn resting_place(target: Point<i64>, menubar_height: i64) -> Point<i64> {
    Point { x: target.x, y: target.y.maximum(menubar_height) }
}

/// In whole points: no step takes a window further away from its place. Once `steps + 1` steps
/// cover more than the distance, the window is less than one step away after `steps` of them; so
/// the next puts it on its place and is told to be the last. Where the target is not under the menu
/// bar, it is enough that they cover the distance. And whenever a step is told to be the last, it
/// puts the window on its place. A target that is at least a step above the lower edge of the menu
/// bar is left out: from below the menu bar a window does not come near enough to it.
pub proof fn law_window_arrives(
    start: Point<i64>,
    target: Point<i64>,
    step: i64,
    menubar_height: i64,
    steps: nat,
)
    requires
        0 < step,
        menubar_height - target.y < step,
    ensures
        ({
            let goal = resting_place(target, menubar_height);
            let place = place_after(start, target, step, menubar_height, steps);
            let next = place_after(start, target, step, menubar_height, steps + 1);
            &&& distance(place.x, goal.x) <= distance(start.x, goal.x)
            &&& distance(place.y, goal.y) <= distance(start.y, goal.y)
            &&& (steps + 1) * step > distance(start.x, target.x) && (steps + 1) * step > distance(
                start.y,
                target.y,
            ) ==> arrives(place, target, step)
            &&& menubar_height <= target.y && (steps + 1) * step >= distance(start.x, target.x) && (
            steps + 1) * step >= distance(start.y, target.y) ==> reaches(
                place,
                target,
                step,
                menubar_height,
            )
            &&& reaches(place, target, step, menubar_height) ==> next == goal
        }),
{
    lemma_place_after(start, target, step, menubar_height, steps);
    lemma_way_left(start, target, step, menubar_height, steps);
    let place = place_after(start, target, step, menubar_height, steps);
    lemma_nearer(place.x, target.x, step);
    lemma_nearer(place.y, target.y, step);
    assert((steps + 1) * step == steps * step + step) by (nonlinear_arith);
}

/// Each step takes a whole step off the way to the target, until the window is at its place.
proof fn lemma_way_left(
    start: Point<i64>,
    target: Point<i64>,
    step: i64,
    menubar_height: i64,
    steps: nat,
)
    requires
        0 < step,
    ensures
        ({
            let goal = resting_place(target, menubar_height);
            let place = place_after(start, target, step, menubar_height, steps);
            &&& place.x == goal.x || distance(place.x, target.x) <= distance(start.x, target.x)
                - steps * step
            &&& place.y == goal.y || distance(place.y, target.y) <= distance(start.y, target.y)
                - steps * step
        }),
    decreases steps,
{
    if steps > 0 {
        let less = (steps - 1) as nat;
        lemma_way_left(start, target, step, menubar_height, less);
        lemma_place_after(start, target, step, menubar_height, less);
        let place = place_after(start, target, step, menubar_height, less);
        lemma_nearer(place.x, target.x, step);
        lemma_nearer(place.y, target.y, step);
        assert(steps * step == less * step + step) by (nonlinear_arith)
            requires
                steps == less + 1,
        ;
    } else {
        assert(steps * step == 0) by (nonlinear_arith)
            requires
                steps == 0,
        ;
    }
}

proof fn lemma_place_after(
    start: Point<i64>,
    target: Point<i64>,
    step: i64,
    menubar_height: i64,
    steps: nat,
)
    requires
        0 < step,
    ensures
        ({
            let goal = resting_place(target, menubar_height);
            let place = place_after(start, target, step, menubar_height, steps);
            &&& distance(place.x, goal.x) <= distance(start.x, goal.x)
            &&& distance(place.y, goal.y) <= distance(start.y, goal.y)
        }),
    decreases steps,
{
    if steps > 0 {
        let less = (steps - 1) as nat;
        lemma_place_after(start, target, step, menubar_height, less);
        let place = place_after(start, target, step, menubar_height, less);
        lemma_nearer(place.x, target.x, step);
        lemma_nearer(place.y, target.y, step);
    }
}

/// What size a window has after a number of steps.
pub open spec fn size_after(start: Size<i64>, target: Size<i64>, step: i64, steps: nat) -> Size<i64>
    decreases steps,
{
    if steps == 0 {
        start
    } else {
        next_size(size_after(start, target, step, (steps - 1) as nat), target, step)
    }
}

/// In whole points: no step takes a window further away from its size. Once `steps + 1` steps cover
/// more than the distance, the window is less than one step away after `steps` of them; and where
/// they cover the distance, the next step is told to be the last. Whenever a step is told to be the
/// last, it gives the window its size.
pub proof fn law_window_grows(start: Size<i64>, target: Size<i64>, step: i64, steps: nat)
    requires
        0 < step,
    ensures
        ({
            let size = size_after(start, target, step, steps);
            let next = size_after(start, target, step, steps + 1);
            &&& distance(size.width, target.width) <= distance(start.width, target.width)
            &&& distance(size.height, target.height) <= distance(start.height, target.height)
            &&& (steps + 1) * step > distance(start.width, target.width) && (steps + 1) * step
                > distance(start.height, target.height) ==> grown(size, target, step)
            &&& (steps + 1) * step >= distance(start.width, target.width) && (steps + 1) * step
                >= distance(start.height, target.height) ==> fills(size, target, step)
            &&& fills(size, target, step) ==> next == target
        }),
{
    lemma_size_after(start, target, step, steps);
    let size = size_after(start, target, step, steps);
    lemma_nearer(size.width, target.width, step);
    lemma_nearer(size.height, target.height, step);
    assert((steps + 1) * step == steps * step + step) by (nonlinear_arith);
}

proof fn lemma_size_after(start: Size<i64>, target: Size<i64>, step: i64, steps: nat)
    requires
        0 < step,
    ensures
        ({
            let size = size_after(start, target, step, steps);
            &&& distance(size.width, target.width) <= distance(start.width, target.width)
            &&& distance(size.height, target.height) <= distance(start.height, target.height)
            &&& distance(size.width, target.width) == 0 || distance(size.width, target.width)
                <= distance(start.width, target.width) - steps * step
            &&& distance(size.height, target.height) == 0 || distance(size.height, target.height)
                <= distance(start.height, target.height) - steps * step
        }),
    decreases steps,
{
    if steps > 0 {
        let less = (steps - 1) as nat;
        lemma_size_after(start, target, step, less);
        let size = size_after(start, target, step, less);
        lemma_nearer(size.width, target.width, step);
        lemma_nearer(size.height, target.height, step);
        assert(steps * step == less * step + step) by (nonlinear_arith)
            requires
                steps == less + 1,
        ;
    } else {
        assert(steps * step == 0) by (nonlinear_arith)
            requires
                steps == 0,
        ;
    }
}

} // verus!
