//! Where things are on the displays.
use crate::scalar::Scalar;
use crate::sequences::{find_index, first_where};
use crate::{DisplayId, Entity};
use vstd::prelude::*;

verus! {

/// A place.
#[derive(Clone, Copy, Debug, PartialEq)]
pub struct Point<C> {
    pub x: C,
    pub y: C,
}

/// A width and a height.
#[derive(Clone, Copy, Debug, PartialEq)]
pub struct Size<C> {
    pub width: C,
    pub height: C,
}

/// A rectangle.
#[derive(Clone, Copy, Debug, PartialEq)]
pub struct Frame<C> {
    pub origin: Point<C>,
    pub size: Size<C>,
}

/// Two places are the same where their coordinates are.
pub open spec fn same_point<C: Scalar>(a: Point<C>, b: Point<C>) -> bool {
    a.x.equal(b.x) && a.y.equal(b.y)
}

/// Two sizes are the same where their measures are.
pub open spec fn same_size<C: Scalar>(a: Size<C>, b: Size<C>) -> bool {
    a.width.equal(b.width) && a.height.equal(b.height)
}

impl<C: Scalar> Point<C> {
    /// Whether two places are the same.
    pub fn same(&self, other: &Point<C>) -> (r: bool)
        ensures
            r == same_point(*self, *other),
    {
        self.x.same(other.x) && self.y.same(other.y)
    }
}

impl<C: Scalar> Size<C> {
    /// Whether two sizes are the same.
    pub fn same(&self, other: &Size<C>) -> (r: bool)
        ensures
            r == same_size(*self, *other),
    {
        self.width.same(other.width) && self.height.same(other.height)
    }
}

/// A display.
#[derive(Clone, Copy, Debug, PartialEq)]
pub struct Display<C> {
    pub id: DisplayId,
    pub bounds: Frame<C>,
    pub menubar_height: C,
}

/// The edge at which the dock stands, and how far it reaches into the display.
#[derive(Clone, Copy, Debug, PartialEq)]
pub enum DockPosition<C> {
    Left(C),
    Right(C),
    Bottom(C),
    Hidden,
}

/// The display that is in use, and the others.
#[derive(Debug, PartialEq)]
pub struct ActiveDisplay<C> {
    pub display: Display<C>,
    pub dock: Option<DockPosition<C>>,
    pub others: Vec<Display<C>>,
}

/// Where a window is to move.
#[derive(Clone, Copy, Debug, PartialEq)]
pub struct Reposition<C> {
    pub origin: Point<C>,
    pub display_id: DisplayId,
}

/// What size a window is to take.
#[derive(Clone, Copy, Debug, PartialEq)]
pub struct Resize<C> {
    pub size: Size<C>,
    pub display_id: DisplayId,
}

/// A window with its frame, and where it is on its way to.
#[derive(Clone, Copy, Debug, PartialEq)]
pub struct PlacedWindow<C> {
    pub entity: Entity,
    pub frame: Frame<C>,
    pub reposition: Option<Reposition<C>>,
    pub resize: Option<Resize<C>>,
}

/// A window to be moved or resized.
#[derive(Clone, Copy, Debug, PartialEq)]
pub enum Placement<C> {
    Resize { entity: Entity, width: C, height: C, display_id: DisplayId },
    Reposition { entity: Entity, x: C, y: C, display_id: DisplayId },
}

/// The first display of that number.
pub open spec fn display_of<C>(displays: Seq<Display<C>>, id: DisplayId) -> Option<Display<C>> {
    match first_where(displays, |d: Display<C>| d.id == id) {
        Some(k) => Some(displays[k]),
        None => None,
    }
}

/// Finds the display of a number.
pub fn find_display<C: Scalar>(displays: &Vec<Display<C>>, id: DisplayId) -> (found: Option<
    Display<C>,
>)
    ensures
        found == display_of(displays@, id),
{
    let test = |d: &Display<C>| -> (r: bool)
        ensures
            r == (d.id == id),
    {
        d.id == id
    };
    let found = find_index(displays, test, Ghost(|d: Display<C>| d.id == id));
    match found {
        Some(k) => Some(displays[k]),
        None => None,
    }
}

/// The window of an entity.
pub open spec fn placed_window<C>(windows: Seq<PlacedWindow<C>>, entity: Entity) -> Option<
    PlacedWindow<C>,
> {
    match first_where(windows, |w: PlacedWindow<C>| w.entity == entity) {
        Some(k) => Some(windows[k]),
        None => None,
    }
}

/// Finds the window of an entity.
pub fn find_window<C: Scalar>(windows: &Vec<PlacedWindow<C>>, entity: Entity) -> (found: Option<
    PlacedWindow<C>,
>)
    ensures
        found == placed_window(windows@, entity),
{
    let test = |w: &PlacedWindow<C>| -> (r: bool)
        ensures
            r == (w.entity == entity),
    {
        w.entity == entity
    };
    let found = find_index(windows, test, Ghost(|w: PlacedWindow<C>| w.entity == entity));
    match found {
        Some(k) => Some(windows[k]),
        None => None,
    }
}

} // verus!
