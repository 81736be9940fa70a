//! Displays that come, go and change.
use crate::commands::{lemma_views_empty, lemma_views_push, views, Command, CommandView};
use crate::events::Event;
use crate::sequences::{
    find_index, first_where, holds, lemma_flat_map_contains, lemma_flat_map_ends,
    lemma_flat_map_step,
};
use crate::text::{decimal, to_decimal};
use crate::timeouts::{Span, Timeout, TimeoutView, NANOS_PER_SEC};
use crate::{DisplayId, Entity, WorkspaceId};
use vstd::prelude::*;
use vstd::string::StringExecFns;

verus! {

/// A display that is present at the start, with its workspaces, and the workspace that is shown
/// when its turn comes, where that can be told.
#[derive(Debug, PartialEq, Eq)]
pub struct GatheredDisplay {
    pub id: DisplayId,
    pub workspaces: Vec<WorkspaceId>,
    pub active_space: Option<WorkspaceId>,
}

/// A display to be spawned: its dock is located, and a strip is spawned as its child for each of
/// the workspaces.
#[derive(Debug, PartialEq, Eq)]
pub struct SpawnedDisplay {
    /// Whether the display is the active one.
    pub active: bool,
    /// The workspaces, and whether each is the one that is shown.
    pub strips: Vec<(WorkspaceId, bool)>,
}

/// The strips of a display, of which the one that is shown is marked; none where it cannot be told
/// which is.
pub open spec fn strips_of(display: GatheredDisplay) -> Seq<(WorkspaceId, bool)> {
    match display.active_space {
        Some(space) => display.workspaces@.map_values(|id: WorkspaceId| (id, id == space)),
        None => Seq::empty(),
    }
}

/// The displays to be spawned: whether each is the active one, and its strips.
pub open spec fn gathered(active: Option<DisplayId>, present: Seq<GatheredDisplay>) -> Seq<
    (bool, Seq<(WorkspaceId, bool)>),
> {
    match active {
        Some(id) => present.map_values(
            |display: GatheredDisplay| (display.id == id, strips_of(display)),
        ),
        None => Seq::empty(),
    }
}

/// Spawns all displays that are present, marking the active one and the workspace that is shown;
/// none where it cannot be told which display is active.
pub fn gather_displays(active_display_id: Option<DisplayId>, present: &Vec<GatheredDisplay>) -> (r: Vec<
    SpawnedDisplay,
>)
    ensures
        r@.map_values(|d: SpawnedDisplay| (d.active, d.strips@)) == gathered(
            active_display_id,
            present@,
        ),
        r@.len() == if active_display_id is Some {
            present@.len()
        } else {
            0
        },
        forall|i: int|
            #![trigger r@[i]]
            0 <= i < r@.len() ==> {
                &&& r@[i].active == (active_display_id == Some(present@[i].id))
                &&& r@[i].strips@ == strips_of(present@[i])
            },
{
    let mut r: Vec<SpawnedDisplay> = Vec::new();
    if let Some(active_id) = active_display_id {
        for i in 0..present.len()
            invariant
                active_display_id == Some(active_id),
                r@.len() == i,
                forall|j: int|
                    #![trigger r@[j]]
                    0 <= j < r@.len() ==> {
                        &&& r@[j].active == (active_display_id == Some(present@[j].id))
                        &&& r@[j].strips@ == strips_of(present@[j])
                    },
        {
            let display = &present[i];
            let active = display.id == active_id;
            let mut strips: Vec<(WorkspaceId, bool)> = Vec::new();
            if let Some(space) = display.active_space {
                let ghost g = |id: WorkspaceId| (id, id == space);
                for j in 0..display.workspaces.len()
                    invariant
                        g == (|id: WorkspaceId| (id, id == space)),
                        strips@ == display.workspaces@.take(j as int).map_values(g),
                {
                    let id = display.workspaces[j];
                    strips.push((id, id == space));
                    assert(strips@ =~= display.workspaces@.take(j + 1).map_values(g));
                }
                assert(display.workspaces@.take(display.workspaces@.len() as int)
                    =~= display.workspaces@);
            }
            r.push(SpawnedDisplay { active, strips });
        }
    }
    assert(r@.map_values(|d: SpawnedDisplay| (d.active, d.strips@)) =~= gathered(
        active_display_id,
        present@,
    ));
    r
}

/// A display that is known, and whether it is the active one.
#[derive(Clone, Copy, Debug, PartialEq, Eq, Structural)]
pub struct WatchedDisplay {
    pub id: DisplayId,
    pub active: bool,
}

/// What has happened to the active display: it has changed to another, or to one that is not
/// known.
pub open spec fn active_event(current: Option<DisplayId>, displays: Seq<WatchedDisplay>) -> Option<
    Event,
> {
    match current {
        None => None,
        Some(id) => match first_where(displays, |d: WatchedDisplay| d.id == id) {
            Some(k) => if displays[k].active {
                None
            } else {
                Some(Event::DisplayChanged)
            },
            None => Some(Event::DisplayAdded { display_id: id }),
        },
    }
}

/// A display that is not present was removed.
pub open spec fn removed(present: Seq<DisplayId>) -> spec_fn(WatchedDisplay) -> Seq<CommandView> {
    |display: WatchedDisplay|
        if present.contains(display.id) {
            Seq::empty()
        } else {
            seq![CommandView::Trigger(Event::DisplayRemoved { display_id: display.id })]
        }
}

/// What has happened to the displays: what has happened to the active one, and which are gone.
pub open spec fn display_changes(
    current: Option<DisplayId>,
    displays: Seq<WatchedDisplay>,
    present: Seq<DisplayId>,
) -> Seq<CommandView> {
    match current {
        None => Seq::empty(),
        Some(_) => (match active_event(current, displays) {
            Some(event) => seq![CommandView::Trigger(event)],
            None => Seq::empty(),
        }) + displays.flat_map(removed(present)),
    }
}

/// Tells what has happened to the active display.
pub fn active_display_change(current: Option<DisplayId>, displays: &Vec<WatchedDisplay>) -> (event:
    Option<Event>)
    ensures
        event == active_event(current, displays@),
{
    match current {
        None => None,
        Some(id) => {
            let test = |d: &WatchedDisplay| -> (r: bool)
                ensures
                    r == (d.id == id),
            {
                d.id == id
            };
            let found = find_index(displays, test, Ghost(|d: WatchedDisplay| d.id == id));
            match found {
                Some(k) => if displays[k].active {
                    None
                } else {
                    Some(Event::DisplayChanged)
                },
                None => Some(Event::DisplayAdded { display_id: id }),
            }
        },
    }
}

/// Announces changes of the displays: when the active display has changed, or is not known; and
/// which displays are gone.
pub fn display_changes_watcher(
    current: Option<DisplayId>,
    displays: &Vec<WatchedDisplay>,
    present: &Vec<DisplayId>,
) -> (commands: Vec<Command>)
    ensures
        views(commands@) == display_changes(current, displays@, present@),
{
    broadcast use lemma_views_push, lemma_views_empty;

    let mut commands: Vec<Command> = Vec::new();
    if current.is_none() {
        return commands;
    }
    if let Some(event) = active_display_change(current, displays) {
        commands.push(Command::Trigger(event));
    }
    let ghost first = views(commands@);
    let ghost f = removed(present@);
    proof {
        lemma_flat_map_ends(displays@, f);
        assert(first =~= match active_event(current, displays@) {
            Some(event) => seq![CommandView::Trigger(event)],
            None => Seq::empty(),
        });
        assert(first =~= first + displays@.take(0).flat_map(f));
    }
    for i in 0..displays.len()
        invariant
            f == removed(present@),
            views(commands@) == first + displays@.take(i as int).flat_map(f),
    {
        let ghost before = views(commands@);
        proof {
            lemma_flat_map_step(displays@, f, i as int);
        }
        let display_id = displays[i].id;
        let test = |id: &DisplayId| -> (r: bool)
            ensures
                r == (*id == display_id),
        {
            *id == display_id
        };
        let is_present = holds(present, test, Ghost(display_id));
        if !is_present {
            commands.push(Command::Trigger(Event::DisplayRemoved { display_id }));
        }
        assert(views(commands@) =~= before + f(displays@[i as int]));
        assert(before + f(displays@[i as int]) =~= first + displays@.take(i + 1).flat_map(f));
    }
    commands
}

/// Whenever it can be told which display is active, exactly the displays that are known and not
/// present are announced to be gone.
pub proof fn law_removed_displays(
    current: Option<DisplayId>,
    displays: Seq<WatchedDisplay>,
    present: Seq<DisplayId>,
    id: DisplayId,
)
    ensures
        display_changes(current, displays, present).contains(
            CommandView::Trigger(Event::DisplayRemoved { display_id: id }),
        ) <==> current is Some && !present.contains(id) && exists|i: int|
            0 <= i < displays.len() && #[trigger] displays[i].id == id,
{
    let gone = CommandView::Trigger(Event::DisplayRemoved { display_id: id });
    let f = removed(present);
    let all = display_changes(current, displays, present);
    lemma_flat_map_contains(displays, f, gone);
    if current is Some {
        let first = match active_event(current, displays) {
            Some(event) => seq![CommandView::Trigger(event)],
            None => Seq::empty(),
        };
        let tail = displays.flat_map(f);
        assert(all == first + tail);
        if all.contains(gone) {
            let k = all.index_of(gone);
            assert(k >= first.len());
            assert(tail[k - first.len()] == gone);
            assert(tail.contains(gone));
            let i = choose|i: int| 0 <= i < displays.len() && #[trigger] f(displays[i]).contains(gone);
            assert(f(displays[i])[0] == gone);
            assert(displays[i].id == id);
        }
        if !present.contains(id) && exists|i: int|
            0 <= i < displays.len() && #[trigger] displays[i].id == id {
            let i = choose|i: int| 0 <= i < displays.len() && #[trigger] displays[i].id == id;
            assert(f(displays[i])[0] == gone);
            assert(f(displays[i]).contains(gone));
            let k = tail.index_of(gone);
            assert(all[first.len() + k] == gone);
        }
    }
}

/// What is announced when a workspace is shown, or it cannot be told which, and which is noted.
pub open spec fn space_change(current: WorkspaceId, shown: Option<WorkspaceId>) -> (
    Option<Event>,
    WorkspaceId,
) {
    match shown {
        Some(space) => (
            if space != current {
                Some(Event::SpaceChanged)
            } else {
                None
            },
            space,
        ),
        None => (None, current),
    }
}

/// Announces that another workspace is shown, and takes note of it.
pub fn workspace_change_watcher(current_space: &mut WorkspaceId, shown: Option<WorkspaceId>) -> (event:
    Option<Event>)
    ensures
        (event, *final(current_space)) == space_change(*old(current_space), shown),
        event == match shown {
            Some(space) => if space != *old(current_space) {
                Some(Event::SpaceChanged)
            } else {
                None
            },
            None => None,
        },
        *final(current_space) == match shown {
            Some(space) => space,
            None => *old(current_space),
        },
{
    if let Some(space) = shown {
        if *current_space != space {
            *current_space = space;
            return Some(Event::SpaceChanged);
        }
    }
    None
}

/// How long a strip may stay without a display, in seconds.
pub const ORPHANED_SPACES_TIMEOUT_SEC: u64 = 30;

/// A display that is present, with its workspaces.
#[derive(Debug, PartialEq, Eq)]
pub struct PresentDisplay {
    pub id: DisplayId,
    pub workspaces: Vec<WorkspaceId>,
}

/// A display that is known.
#[derive(Clone, Copy, Debug, PartialEq, Eq, Structural)]
pub struct DisplayEntry {
    pub entity: Entity,
    pub id: DisplayId,
}

/// A strip of a display that is known.
#[derive(Debug, PartialEq, Eq)]
pub struct StripEntry {
    pub entity: Entity,
    pub id: WorkspaceId,
    /// The display of the strip.
    pub parent: Entity,
    /// The strip in words.
    pub label: String,
}

/// The first present display of that number.
pub open spec fn present_index(present: Seq<PresentDisplay>, id: DisplayId) -> Option<int> {
    first_where(present, |d: PresentDisplay| d.id == id)
}

/// The first known display of that number.
pub open spec fn known_display(displays: Seq<DisplayEntry>, id: DisplayId) -> Option<DisplayEntry> {
    match first_where(displays, |d: DisplayEntry| d.id == id) {
        Some(k) => Some(displays[k]),
        None => None,
    }
}

fn find_present(present: &Vec<PresentDisplay>, id: DisplayId) -> (index: Option<usize>)
    ensures
        match index {
            Some(k) => present_index(present@, id) == Some(k as int) && k < present@.len(),
            None => present_index(present@, id) is None,
        },
{
    let test = |d: &PresentDisplay| -> (r: bool)
        ensures
            r == (d.id == id),
    {
        d.id == id
    };
    find_index(present, test, Ghost(|d: PresentDisplay| d.id == id))
}

fn find_known(displays: &Vec<DisplayEntry>, id: DisplayId) -> (display: Option<DisplayEntry>)
    ensures
        display == known_display(displays@, id),
{
    let test = |d: &DisplayEntry| -> (r: bool)
        ensures
            r == (d.id == id),
    {
        d.id == id
    };
    let found = find_index(displays, test, Ghost(|d: DisplayEntry| d.id == id));
    match found {
        Some(k) => Some(displays[k]),
        None => None,
    }
}

/// What a display that was added asks for: it is spawned with a new strip for each workspace.
pub open spec fn added(display_id: DisplayId, present: Seq<PresentDisplay>) -> Seq<CommandView> {
    match present_index(present, display_id) {
        Some(k) => seq![
            CommandView::SpawnDisplay {
                present: k as usize,
                workspaces: present[k].workspaces@,
            },
        ],
        None => Seq::empty(),
    }
}

/// Spawns a display that was added, where it is present.
pub fn add_display(display_id: DisplayId, present: &Vec<PresentDisplay>) -> (commands: Vec<Command>)
    ensures
        views(commands@) == added(display_id, present@),
{
    broadcast use lemma_views_push, lemma_views_empty;

    let mut commands: Vec<Command> = Vec::new();
    if let Some(k) = find_present(present, display_id) {
        let workspaces = present[k].workspaces.clone();
        assert(workspaces@ =~= present@[k as int].workspaces@);
        commands.push(Command::SpawnDisplay { present: k, workspaces });
    }
    assert(views(commands@) =~= added(display_id, present@));
    commands
}

/// The wait for a strip to find a display again.
pub open spec fn orphan_timeout(strip: StripEntry) -> TimeoutView {
    TimeoutView::fresh(
        ORPHANED_SPACES_TIMEOUT_SEC as nat * NANOS_PER_SEC as nat,
        Some(
            "Orphaned strip "@ + decimal(strip.id as nat) + " ("@ + strip.label@
                + ") could not be re-inserted after 30s."@,
        ),
    )
}

/// What the strips of a display that was removed ask for: they are waited for, and taken away from
/// the display.
pub open spec fn orphaned(display: Entity) -> spec_fn(StripEntry) -> Seq<CommandView> {
    |strip: StripEntry|
        if strip.parent == display {
            seq![
                CommandView::InsertTimeout {
                    entity: strip.entity,
                    timeout: orphan_timeout(strip),
                },
                CommandView::Detach { child: strip.entity, parent: display },
            ]
        } else {
            Seq::empty()
        }
}

/// What a display that was removed asks for.
pub open spec fn display_removed(
    display_id: DisplayId,
    strips: Seq<StripEntry>,
    displays: Seq<DisplayEntry>,
) -> Seq<CommandView> {
    match known_display(displays, display_id) {
        Some(display) => strips.flat_map(orphaned(display.entity)).push(
            CommandView::Despawn(display.entity),
        ),
        None => Seq::empty(),
    }
}

fn start_orphan_timeout(strip: &StripEntry) -> (timeout: Timeout)
    ensures
        timeout@ == orphan_timeout(*strip),
{
    let message = String::from_str("Orphaned strip ").concat(to_decimal(strip.id).as_str()).concat(
        " (",
    ).concat(strip.label.as_str()).concat(") could not be re-inserted after 30s.");
    Timeout::new(Span::from_secs(ORPHANED_SPACES_TIMEOUT_SEC), Some(message))
}

/// Removes a display. Its strips are kept for a while, without a display.
pub fn remove_display(
    display_id: DisplayId,
    strips: &Vec<StripEntry>,
    displays: &Vec<DisplayEntry>,
) -> (commands: Vec<Command>)
    ensures
        views(commands@) == display_removed(display_id, strips@, displays@),
{
    broadcast use lemma_views_push, lemma_views_empty;

    let mut commands: Vec<Command> = Vec::new();
    if let Some(display) = find_known(displays, display_id) {
        let ghost f = orphaned(display.entity);
        proof {
            lemma_flat_map_ends(strips@, f);
        }
        for i in 0..strips.len()
            invariant
                f == orphaned(display.entity),
                views(commands@) == strips@.take(i as int).flat_map(f),
        {
            let ghost before = views(commands@);
            proof {
                lemma_flat_map_step(strips@, f, i as int);
            }
            let strip = &strips[i];
            if strip.parent == display.entity {
                let timeout = start_orphan_timeout(strip);
                commands.push(Command::InsertTimeout { entity: strip.entity, timeout });
                commands.push(
                    Command::Detach { child: strip.entity, parent: display.entity },
                );
            }
            assert(views(commands@) =~= before + f(strips@[i as int]));
        }
        commands.push(Command::Despawn(display.entity));
    }
    commands
}

/// What a display that was moved asks for: its measures are taken over.
pub open spec fn display_moved(
    display_id: DisplayId,
    displays: Seq<DisplayEntry>,
    present: Seq<PresentDisplay>,
) -> Seq<CommandView> {
    match (known_display(displays, display_id), present_index(present, display_id)) {
        (Some(display), Some(k)) => seq![
            CommandView::ReplaceDisplay { display: display.entity, present: k as usize },
        ],
        _ => Seq::empty(),
    }
}

/// Takes over the measures of a display that was moved, where it is known and present.
pub fn move_display(
    display_id: DisplayId,
    displays: &Vec<DisplayEntry>,
    present: &Vec<PresentDisplay>,
) -> (commands: Vec<Command>)
    ensures
        views(commands@) == display_moved(display_id, displays@, present@),
{
    broadcast use lemma_views_push, lemma_views_empty;

    let mut commands: Vec<Command> = Vec::new();
    if let Some(display) = find_known(displays, display_id) {
        if let Some(k) = find_present(present, display_id) {
            commands.push(Command::ReplaceDisplay { display: display.entity, present: k });
        }
    }
    assert(views(commands@) =~= display_moved(display_id, displays@, present@));
    commands
}

/// An event, and the displays that are present when it is handled.
#[derive(Debug, PartialEq, Eq)]
pub struct Rearrangement {
    pub event: Event,
    pub present: Vec<PresentDisplay>,
}

/// What an event asks of the displays. Whatever became of it, the displays have changed.
pub open spec fn rearranged(
    rearrangement: Rearrangement,
    strips: Seq<StripEntry>,
    displays: Seq<DisplayEntry>,
) -> Seq<CommandView> {
    let changed = CommandView::Trigger(Event::DisplayChanged);
    match rearrangement.event {
        Event::DisplayAdded { display_id } => added(display_id, rearrangement.present@).push(
            changed,
        ),
        Event::DisplayRemoved { display_id } => display_removed(display_id, strips, displays).push(
            changed,
        ),
        Event::DisplayMoved { display_id } => display_moved(
            display_id,
            displays,
            rearrangement.present@,
        ).push(changed),
        _ => Seq::empty(),
    }
}

/// Follows, event by event, how displays are added, removed and moved.
pub fn displays_rearranged(
    events: &Vec<Rearrangement>,
    strips: &Vec<StripEntry>,
    displays: &Vec<DisplayEntry>,
) -> (r: Vec<Vec<Command>>)
    ensures
        r@.len() == events@.len(),
        forall|i: int|
            #![trigger r@[i]]
            0 <= i < r@.len() ==> views(r@[i]@) == rearranged(events@[i], strips@, displays@),
{
    broadcast use lemma_views_push, lemma_views_empty;

    let mut r: Vec<Vec<Command>> = Vec::new();
    for i in 0..events.len()
        invariant
            r@.len() == i,
            forall|j: int|
                #![trigger r@[j]]
                0 <= j < r@.len() ==> views(r@[j]@) == rearranged(events@[j], strips@, displays@),
    {
        let present = &events[i].present;
        let commands = match events[i].event {
            Event::DisplayAdded { display_id } => {
                let mut commands = add_display(display_id, present);
                commands.push(Command::Trigger(Event::DisplayChanged));
                commands
            },
            Event::DisplayRemoved { display_id } => {
                let mut commands = remove_display(display_id, strips, displays);
                commands.push(Command::Trigger(Event::DisplayChanged));
                commands
            },
            Event::DisplayMoved { display_id } => {
                let mut commands = move_display(display_id, displays, present);
                commands.push(Command::Trigger(Event::DisplayChanged));
                commands
            },
            _ => Vec::new(),
        };
        r.push(commands);
    }
    r
}

/// When a known display is removed, it goes last; before, each of its strips, and no other, is
/// taken away from it, so that none goes with it.
pub proof fn law_strips_outlive_display(
    display_id: DisplayId,
    strips: Seq<StripEntry>,
    displays: Seq<DisplayEntry>,
    strip: int,
)
    requires
        known_display(displays, display_id) is Some,
        0 <= strip < strips.len(),
    ensures
        ({
            let display = known_display(displays, display_id)->0.entity;
            let commands = display_removed(display_id, strips, displays);
            let before = commands.drop_last();
            &&& commands.len() > 0
            &&& commands.last() == CommandView::Despawn(display)
            &&& !before.contains(CommandView::Despawn(display))
            &&& strips[strip].parent == display ==> {
                &&& before.contains(
                    CommandView::Detach { child: strips[strip].entity, parent: display },
                )
                &&& before.contains(
                    CommandView::InsertTimeout {
                        entity: strips[strip].entity,
                        timeout: orphan_timeout(strips[strip]),
                    },
                )
            }
            &&& forall|child: Entity, parent: Entity| #[trigger]
                before.contains(CommandView::Detach { child, parent }) ==> parent == display
                    && exists|i: int|
                    0 <= i < strips.len() && #[trigger] strips[i].entity == child
                        && strips[i].parent == display
        }),
{
    let display = known_display(displays, display_id)->0.entity;
    let commands = display_removed(display_id, strips, displays);
    let f = orphaned(display);
    let before = strips.flat_map(f);
    assert(commands.drop_last() =~= before);
    let gone = CommandView::Despawn(display);
    lemma_flat_map_contains(strips, f, gone);
    if before.contains(gone) {
        let i = choose|i: int| 0 <= i < strips.len() && #[trigger] f(strips[i]).contains(gone);
        let k = f(strips[i]).index_of(gone);
        assert(f(strips[i])[k] == gone);
    }
    if strips[strip].parent == display {
        let detach = CommandView::Detach { child: strips[strip].entity, parent: display };
        let wait = CommandView::InsertTimeout {
            entity: strips[strip].entity,
            timeout: orphan_timeout(strips[strip]),
        };
        lemma_flat_map_contains(strips, f, detach);
        lemma_flat_map_contains(strips, f, wait);
        assert(f(strips[strip])[0] == wait);
        assert(f(strips[strip])[1] == detach);
        assert(f(strips[strip]).contains(wait));
        assert(f(strips[strip]).contains(detach));
    }
    assert forall|child: Entity, parent: Entity| #[trigger]
        before.contains(CommandView::Detach { child, parent }) implies parent == display && exists|
        i: int,
    |
        0 <= i < strips.len() && #[trigger] strips[i].entity == child && strips[i].parent
            == display by {
        let detach = CommandView::Detach { child, parent };
        lemma_flat_map_contains(strips, f, detach);
        let i = choose|i: int| 0 <= i < strips.len() && #[trigger] f(strips[i]).contains(detach);
        let k = f(strips[i]).index_of(detach);
        assert(f(strips[i])[k] == detach);
        assert(strips[i].entity == child);
    }
}

} // verus!
