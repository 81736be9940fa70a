//! Moving and resizing step by step.
use crate::animation::{distance, growths, motions, Growth, Motion, MovingWindow, ResizingWindow};
use crate::geometry::Display;
use crate::layout::fits;
use crate::scalar::{Scalar, ScalarMeaning};
use crate::sequences::{lemma_first_where_is, lemma_first_where_none};
use crate::DisplayId;
use vstd::prelude::*;

verus! {

/// Whether a display is the first of that number.
pub open spec fn is_display<C>(displays: Seq<Display<C>>, id: DisplayId, k: int) -> bool {
    &&& 0 <= k < displays.len()
    &&& displays[k].id == id
    &&& forall|j: int| 0 <= j < k ==> (#[trigger] displays[j]).id != id
}

/// One step towards a target, which is not passed.
pub open spec fn stepped(current: int, target: int, step: int) -> int {
    if target - current > step {
        current + step
    } else if current - target > step {
        current - step
    } else {
        target
    }
}

/// A window moves on the display of its target alone: once, as that window, within the bounds of
/// the first display of that number; and not at all where there is none.
pub proof fn law_motion_on_target_display<C: Scalar>(
    window: MovingWindow<C>,
    displays: Seq<Display<C>>,
    speed: C,
    seconds: C,
)
    ensures
        (forall|j: int|
            0 <= j < displays.len() ==> (#[trigger] displays[j]).id != window.target.display_id)
            ==> motions(displays, speed, seconds)(window) == Seq::<Motion<C>>::empty(),
        forall|k: int| #[trigger]
            is_display(displays, window.target.display_id, k) ==> {
                let made = motions(displays, speed, seconds)(window);
                &&& made.len() == 1
                &&& made[0].entity == window.entity
                &&& made[0].bounds == displays[k].bounds
            },
{
    let p = |d: Display<C>| d.id == window.target.display_id;
    if forall|j: int|
        0 <= j < displays.len() ==> (#[trigger] displays[j]).id != window.target.display_id {
        lemma_first_where_none(displays, p);
    }
    assert forall|k: int| #[trigger]
        is_display(displays, window.target.display_id, k) implies ({
        let made = motions(displays, speed, seconds)(window);
        &&& made.len() == 1
        &&& made[0].entity == window.entity
        &&& made[0].bounds == displays[k].bounds
    }) by {
        lemma_first_where_is(displays, p, k);
    }
}

/// The step is a part of the width of the target's display, rounded up. A window that is less than
/// it away in both directions is given its place and is no longer on its way.
pub proof fn law_motion_ends<C: Scalar>(
    window: MovingWindow<C>,
    displays: Seq<Display<C>>,
    speed: C,
    seconds: C,
    k: int,
)
    requires
        is_display(displays, window.target.display_id, k),
        ({
            let step = speed.product(seconds).product(displays[k].bounds.size.width).rounded_up();
            let target = window.target.origin;
            &&& target.x.difference(window.current.x).absolute().minimum(step).less(step)
            &&& target.y.difference(window.current.y).absolute().minimum(step).less(step)
        }),
    ensures
        ({
            let made = motions(displays, speed, seconds)(window)[0];
            &&& made.arrived
            &&& made.x == window.target.origin.x
            &&& made.y == window.target.origin.y.maximum(displays[k].menubar_height)
        }),
{
    lemma_first_where_is(displays, |d: Display<C>| d.id == window.target.display_id, k);
}

/// In whole points: a window moves one step towards its target in each direction, does not pass
/// it, and never over the menu bar of that display; and it is no longer on its way exactly where it was less than one step away or is on
/// its target.
pub proof fn law_motion_step(
    window: MovingWindow<i64>,
    displays: Seq<Display<i64>>,
    speed: i64,
    seconds: i64,
    k: int,
)
    requires
        is_display(displays, window.target.display_id, k),
        fits(speed * seconds),
        fits((speed * seconds) * displays[k].bounds.size.width),
        0 <= (speed * seconds) * displays[k].bounds.size.width,
    ensures
        ({
            let step = (speed * seconds) * displays[k].bounds.size.width;
            let made = motions(displays, speed, seconds)(window)[0];
            let target = window.target.origin;
            &&& made.x == stepped(
                window.current.x as int,
                target.x as int,
                step,
            )
            &&& made.y == if stepped(
                window.current.y as int,
                window.target.origin.y as int,
                step,
            ) < displays[k].menubar_height {
                displays[k].menubar_height as int
            } else {
                stepped(window.current.y as int, window.target.origin.y as int, step)
            }
            &&& made.arrived <==> (distance(window.current.x, target.x) < step && distance(
                window.current.y,
                target.y,
            ) < step) || (made.x == target.x && made.y == target.y)
        }),
{
    lemma_first_where_is(displays, |d: Display<i64>| d.id == window.target.display_id, k);
    let ratio = (speed * seconds) as i64;
    assert(speed.product(seconds) == ratio);
    let step = ((speed * seconds) * displays[k].bounds.size.width) as i64;
    assert(ratio.product(displays[k].bounds.size.width) == step);
}

/// A window is resized on the display of its target alone: once, as that window, within the bounds of
/// the first display of that number; and not at all where there is none.
pub proof fn law_growth_on_target_display<C: Scalar>(
    window: ResizingWindow<C>,
    displays: Seq<Display<C>>,
    speed: C,
    seconds: C,
)
    ensures
        (forall|j: int|
            0 <= j < displays.len() ==> (#[trigger] displays[j]).id != window.target.display_id)
            ==> growths(displays, speed, seconds)(window) == Seq::<Growth<C>>::empty(),
        forall|k: int| #[trigger]
            is_display(displays, window.target.display_id, k) ==> {
                let made = growths(displays, speed, seconds)(window);
                &&& made.len() == 1
                &&& made[0].entity == window.entity
                &&& made[0].bounds == displays[k].bounds
            },
{
    let p = |d: Display<C>| d.id == window.target.display_id;
    if forall|j: int|
        0 <= j < displays.len() ==> (#[trigger] displays[j]).id != window.target.display_id {
        lemma_first_where_none(displays, p);
    }
    assert forall|k: int| #[trigger]
        is_display(displays, window.target.display_id, k) implies ({
        let made = growths(displays, speed, seconds)(window);
        &&& made.len() == 1
        &&& made[0].entity == window.entity
        &&& made[0].bounds == displays[k].bounds
    }) by {
        lemma_first_where_is(displays, p, k);
    }
}

/// The step is a part of the width of the target's display, rounded up. A window that is less than
/// it away in both directions is given its size and is no longer on its way.
pub proof fn law_growth_ends<C: Scalar>(
    window: ResizingWindow<C>,
    displays: Seq<Display<C>>,
    speed: C,
    seconds: C,
    k: int,
)
    requires
        is_display(displays, window.target.display_id, k),
        ({
            let step = speed.product(seconds).product(displays[k].bounds.size.width).rounded_up();
            let target = window.target.size;
            &&& target.width.difference(window.current.width).absolute().minimum(step).less(step)
            &&& target.height.difference(window.current.height).absolute().minimum(step).less(step)
        }),
    ensures
        ({
            let made = growths(displays, speed, seconds)(window)[0];
            &&& made.arrived
            &&& made.width == window.target.size.width
            &&& made.height == window.target.size.height
        }),
{
    lemma_first_where_is(displays, |d: Display<C>| d.id == window.target.display_id, k);
}

/// In whole points: a window is resized one step towards its target in each direction, does not pass
/// it; and it is no longer on its way exactly where it was less than one step away or is on
/// its target.
pub proof fn law_growth_step(
    window: ResizingWindow<i64>,
    displays: Seq<Display<i64>>,
    speed: i64,
    seconds: i64,
    k: int,
)
    requires
        is_display(displays, window.target.display_id, k),
        fits(speed * seconds),
        fits((speed * seconds) * displays[k].bounds.size.width),
        0 <= (speed * seconds) * displays[k].bounds.size.width,
    ensures
        ({
            let step = (speed * seconds) * displays[k].bounds.size.width;
            let made = growths(displays, speed, seconds)(window)[0];
            let target = window.target.size;
            &&& made.width == stepped(
                window.current.width as int,
                target.width as int,
                step,
            )
            &&& made.height == stepped(
                window.current.height as int,
                window.target.size.height as int,
                step,
            )
            &&& made.arrived <==> (distance(window.current.width, target.width) < step && distance(
                window.current.height,
                target.height,
            ) < step) || (made.width == target.width && made.height == target.height)
        }),
{
    lemma_first_where_is(displays, |d: Display<i64>| d.id == window.target.display_id, k);
    let ratio = (speed * seconds) as i64;
    assert(speed.product(seconds) == ratio);
    let step = ((speed * seconds) * displays[k].bounds.size.width) as i64;
    assert(ratio.product(displays[k].bounds.size.width) == step);
}

/// A window that is not that near moves one step towards its target in each direction, or the whole
/// way where it is shorter; and it is no longer on its way exactly where it is then on its target.
pub proof fn law_motion_goes_on<C: Scalar>(
    window: MovingWindow<C>,
    displays: Seq<Display<C>>,
    speed: C,
    seconds: C,
    k: int,
)
    requires
        is_display(displays, window.target.display_id, k),
        ({
            let step = speed.product(seconds).product(displays[k].bounds.size.width).rounded_up();
            let target = window.target.origin;
            !(target.x.difference(window.current.x).absolute().minimum(step).less(step)
                && target.y.difference(window.current.y).absolute().minimum(step).less(step))
        }),
    ensures
        ({
            let step = speed.product(seconds).product(displays[k].bounds.size.width).rounded_up();
            let made = motions(displays, speed, seconds)(window)[0];
            let now = window.current;
            let target = window.target.origin;
            let way_a = target.x.difference(now.x).absolute().minimum(step);
            let way_b = target.y.difference(now.y).absolute().minimum(step);
            &&& target.x.less(now.x) ==> made.x == now.x.sum(way_a.negation())
            &&& !target.x.less(now.x) ==> made.x == now.x.sum(way_a)
            &&& target.y.less(now.y) ==> made.y == now.y.sum(way_b.negation())
                .maximum(displays[k].menubar_height)
            &&& !target.y.less(now.y) ==> made.y == now.y.sum(way_b)
                .maximum(displays[k].menubar_height)
            &&& made.arrived <==> made.x.equal(target.x) && made.y.equal(target.y)
        }),
{
    lemma_first_where_is(displays, |d: Display<C>| d.id == window.target.display_id, k);
}

/// A window that is not that near is resized one step towards its target in each direction, or the whole
/// way where it is shorter; and it is no longer on its way exactly where it is then on its target.
pub proof fn law_growth_goes_on<C: Scalar>(
    window: ResizingWindow<C>,
    displays: Seq<Display<C>>,
    speed: C,
    seconds: C,
    k: int,
)
    requires
        is_display(displays, window.target.display_id, k),
        ({
            let step = speed.product(seconds).product(displays[k].bounds.size.width).rounded_up();
            let target = window.target.size;
            !(target.width.difference(window.current.width).absolute().minimum(step).less(step)
                && target.height.difference(window.current.height).absolute().minimum(step).less(step))
        }),
    ensures
        ({
            let step = speed.product(seconds).product(displays[k].bounds.size.width).rounded_up();
            let made = growths(displays, speed, seconds)(window)[0];
            let now = window.current;
            let target = window.target.size;
            let way_a = target.width.difference(now.width).absolute().minimum(step);
            let way_b = target.height.difference(now.height).absolute().minimum(step);
            &&& target.width.less(now.width) ==> made.width == now.width.sum(way_a.negation())
            &&& !target.width.less(now.width) ==> made.width == now.width.sum(way_a)
            &&& target.height.less(now.height) ==> made.height == now.height.sum(way_b.negation())
            &&& !target.height.less(now.height) ==> made.height == now.height.sum(way_b)
            &&& made.arrived <==> made.width.equal(target.width) && made.height.equal(target.height)
        }),
{
    lemma_first_where_is(displays, |d: Display<C>| d.id == window.target.display_id, k);
}

} // verus!
