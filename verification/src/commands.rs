//! What the systems ask of the world.
use crate::events::Event;
use crate::timeouts::{Timeout, TimeoutView};
use crate::{Entity, WindowId, WorkspaceId};
use vstd::prelude::*;

verus! {

/// A change of the world that a system asks for.
#[derive(Debug, PartialEq, Eq)]
pub enum Command {
    /// Hand an event to the window manager.
    Trigger(Event),
    /// Spawn the application of a process that was already running, as its child.
    SpawnApplication { process: Entity },
    /// Spawn the application of a process that was just launched, as its child, to be given up
    /// when the time is over.
    SpawnFreshApplication { process: Entity, timeout: Timeout },
    /// Spawn the windows that an application or a search has come up with.
    SpawnWindows { source: Entity },
    /// Spawn those windows of an application that are not known yet.
    SpawnNewWindows { application: Entity, windows: Vec<WindowId> },
    /// Start searching for the windows of an application that are not on the screen.
    StartSearch { application: Entity, offscreen: Vec<WindowId> },
    /// The process or application was there before and has now been seen.
    RemoveExisting(Entity),
    /// The process or application is no longer new.
    RemoveFresh(Entity),
    /// Stop waiting for the entity.
    RemoveTimeout(Entity),
    /// Start waiting for the entity.
    InsertTimeout { entity: Entity, timeout: Timeout },
    /// The window is minimized and not to be managed.
    MarkMinimized(Entity),
    /// Give the focus to the window.
    Focus(Entity),
    /// The start-up is over.
    FinishInitializing,
    /// Remove an entity.
    Despawn(Entity),
    /// Take a child away from its parent.
    Detach { child: Entity, parent: Entity },
    /// Spawn a new strip for each of the workspaces, and one of the present displays as their
    /// parent.
    SpawnDisplay { present: usize, workspaces: Vec<WorkspaceId> },
    /// Take over the measures of one of the present displays.
    ReplaceDisplay { display: Entity, present: usize },
    /// Read the frame of the window anew.
    UpdateFrame(Entity),
    /// Lay the strip out anew around the window.
    Reshuffle(Entity),
}

/// What a command asks for.
pub enum CommandView {
    Trigger(Event),
    SpawnApplication { process: Entity },
    SpawnFreshApplication { process: Entity, timeout: TimeoutView },
    SpawnWindows { source: Entity },
    SpawnNewWindows { application: Entity, windows: Seq<WindowId> },
    StartSearch { application: Entity, offscreen: Seq<WindowId> },
    RemoveExisting(Entity),
    RemoveFresh(Entity),
    RemoveTimeout(Entity),
    InsertTimeout { entity: Entity, timeout: TimeoutView },
    MarkMinimized(Entity),
    Focus(Entity),
    FinishInitializing,
    Despawn(Entity),
    Detach { child: Entity, parent: Entity },
    SpawnDisplay { present: usize, workspaces: Seq<WorkspaceId> },
    ReplaceDisplay { display: Entity, present: usize },
    UpdateFrame(Entity),
    Reshuffle(Entity),
}

impl View for Command {
    type V = CommandView;

    open spec fn view(&self) -> CommandView {
        match *self {
            Command::Trigger(event) => CommandView::Trigger(event),
            Command::SpawnApplication { process } => CommandView::SpawnApplication { process },
            Command::SpawnFreshApplication { process, timeout } => {
                CommandView::SpawnFreshApplication { process, timeout: timeout@ }
            },
            Command::SpawnWindows { source } => CommandView::SpawnWindows { source },
            Command::SpawnNewWindows { application, windows } => {
                CommandView::SpawnNewWindows { application, windows: windows@ }
            },
            Command::StartSearch { application, offscreen } => {
                CommandView::StartSearch { application, offscreen: offscreen@ }
            },
            Command::RemoveExisting(entity) => CommandView::RemoveExisting(entity),
            Command::RemoveFresh(entity) => CommandView::RemoveFresh(entity),
            Command::RemoveTimeout(entity) => CommandView::RemoveTimeout(entity),
            Command::InsertTimeout { entity, timeout } => {
                CommandView::InsertTimeout { entity, timeout: timeout@ }
            },
            Command::MarkMinimized(entity) => CommandView::MarkMinimized(entity),
            Command::Focus(entity) => CommandView::Focus(entity),
            Command::FinishInitializing => CommandView::FinishInitializing,
            Command::Despawn(entity) => CommandView::Despawn(entity),
            Command::Detach { child, parent } => CommandView::Detach { child, parent },
            Command::SpawnDisplay { present, workspaces } => {
                CommandView::SpawnDisplay { present, workspaces: workspaces@ }
            },
            Command::ReplaceDisplay { display, present } => {
                CommandView::ReplaceDisplay { display, present }
            },
            Command::UpdateFrame(entity) => CommandView::UpdateFrame(entity),
            Command::Reshuffle(entity) => CommandView::Reshuffle(entity),
        }
    }
}

/// What a list of commands asks for, in order.
pub open spec fn views(commands: Seq<Command>) -> Seq<CommandView> {
    commands.map_values(|c: Command| c@)
}

/// One command more asks for one thing more.
pub broadcast proof fn lemma_views_push(commands: Seq<Command>, command: Command)
    ensures
        #[trigger] views(commands.push(command)) == views(commands).push(command@),
{
    assert(views(commands.push(command)) =~= views(commands).push(command@));
}

/// No commands ask for nothing.
pub broadcast proof fn lemma_views_empty()
    ensures
        #[trigger] views(Seq::<Command>::empty()) == Seq::<CommandView>::empty(),
{
    assert(views(Seq::<Command>::empty()) =~= Seq::<CommandView>::empty());
}

} // verus!
