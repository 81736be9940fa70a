//! The windows that are known.
use crate::sequences::{find_index, first_where};
use crate::{Entity, WindowId};
use vstd::prelude::*;

verus! {

/// Why a window is not managed.
#[derive(Clone, Copy, Debug, PartialEq, Eq, Structural)]
pub enum Unmanaged {
    Floating,
    Minimized,
}

/// A window that is known.
#[derive(Clone, Copy, Debug, PartialEq, Eq, Structural)]
pub struct WindowEntry {
    pub entity: Entity,
    pub id: WindowId,
    /// Why the window is not managed; `None` where it is.
    pub unmanaged: Option<Unmanaged>,
    /// Whether the window is minimized on the screen.
    pub minimized: bool,
}

/// The first window of that number.
pub open spec fn window_of(windows: Seq<WindowEntry>, id: WindowId) -> Option<WindowEntry> {
    match first_where(windows, |w: WindowEntry| w.id == id) {
        Some(k) => Some(windows[k]),
        None => None,
    }
}

/// The first managed window of that number.
pub open spec fn managed_window(windows: Seq<WindowEntry>, id: WindowId) -> Option<WindowEntry> {
    match first_where(windows, |w: WindowEntry| w.id == id && w.unmanaged is None) {
        Some(k) => Some(windows[k]),
        None => None,
    }
}

/// Finds the window of a number.
pub fn find(windows: &Vec<WindowEntry>, id: WindowId) -> (found: Option<WindowEntry>)
    ensures
        found == window_of(windows@, id),
{
    let test = |w: &WindowEntry| -> (r: bool)
        ensures
            r == (w.id == id),
    {
        w.id == id
    };
    let found = find_index(windows, test, Ghost(|w: WindowEntry| w.id == id));
    match found {
        Some(k) => Some(windows[k]),
        None => None,
    }
}

/// Finds the managed window of a number.
pub fn find_managed(windows: &Vec<WindowEntry>, id: WindowId) -> (found: Option<WindowEntry>)
    ensures
        found == managed_window(windows@, id),
{
    let test = |w: &WindowEntry| -> (r: bool)
        ensures
            r == (w.id == id && w.unmanaged is None),
    {
        w.id == id && w.unmanaged.is_none()
    };
    let found = find_index(windows, test, Ghost(|w: WindowEntry| w.id == id && w.unmanaged is None));
    match found {
        Some(k) => Some(windows[k]),
        None => None,
    }
}

} // verus!
