//! What happens to the window manager.
use crate::{DisplayId, WindowId};
use vstd::prelude::*;

verus! {

/// An event, with as much of it as the systems look at.
#[derive(Clone, Copy, Debug, PartialEq, Eq, Structural)]
pub enum Event {
    /// The program is to end.
    Exit,
    /// Every process that was running at the start has been announced.
    ProcessesLoaded,
    /// The configuration that was read at the start.
    InitialConfig,
    /// A process was launched.
    ApplicationLaunched,
    /// The user gave a command.
    Command,
    /// A window was created; `readable` tells whether a window could be made of its element.
    WindowCreated { readable: bool },
    /// Another workspace is shown.
    SpaceChanged,
    WindowTitleChanged { window_id: WindowId },
    MenuClosed { window_id: WindowId },
    DisplayResized { display_id: DisplayId },
    DisplayConfigured { display_id: DisplayId },
    SystemWoke,
    WindowMoved { window_id: WindowId },
    WindowResized { window_id: WindowId },
    DisplayAdded { display_id: DisplayId },
    DisplayRemoved { display_id: DisplayId },
    DisplayMoved { display_id: DisplayId },
    /// Another display became the active one, or the displays changed.
    DisplayChanged,
    /// Any other event.
    Other,
}

} // verus!
