//! Taking over what is there when the window manager starts.
use crate::commands::{lemma_views_empty, lemma_views_push, views, Command, CommandView};
use crate::sequences::{
    first_where, lemma_first_where_is, lemma_first_where_none, lemma_flat_map_contains,
    lemma_flat_map_ends, lemma_flat_map_step, lemma_flatten_contains,
};
use crate::strip::{law_refresh_shows_windows, refreshed, LayoutStrip, StripView};
use crate::windows::{find_managed, managed_window, WindowEntry};
use crate::{Entity, WindowId};
use vstd::prelude::*;

verus! {

/// A process that was already running, and whether an application could be made of it.
#[derive(Clone, Copy, Debug, PartialEq, Eq, Structural)]
pub struct ExistingProcess {
    pub entity: Entity,
    pub created: bool,
}

/// What the processes that come before the first failure ask for.
pub open spec fn taken_over() -> spec_fn(ExistingProcess) -> Seq<CommandView> {
    |process: ExistingProcess|
        seq![
            CommandView::SpawnApplication { process: process.entity },
            CommandView::RemoveExisting(process.entity),
        ]
}

/// The processes before the first of which no application could be made.
pub open spec fn before_failure(processes: Seq<ExistingProcess>) -> Seq<ExistingProcess> {
    match first_where(processes, |p: ExistingProcess| !p.created) {
        Some(k) => processes.take(k),
        None => processes,
    }
}

/// Spawns the applications of the processes that were already running, up to the first of which
/// none could be made.
pub fn add_existing_process(processes: &Vec<ExistingProcess>) -> (commands: Vec<Command>)
    ensures
        views(commands@) == before_failure(processes@).flat_map(taken_over()),
{
    broadcast use lemma_views_push, lemma_views_empty;

    let mut commands: Vec<Command> = Vec::new();
    let ghost failed = |p: ExistingProcess| !p.created;
    proof {
        lemma_flat_map_ends(processes@, taken_over());
    }
    for i in 0..processes.len()
        invariant
            failed == (|p: ExistingProcess| !p.created),
            forall|j: int| 0 <= j < i ==> !failed(#[trigger] processes@[j]),
            views(commands@) == processes@.take(i as int).flat_map(taken_over()),
    {
        if !processes[i].created {
            proof {
                lemma_first_where_is(processes@, failed, i as int);
            }
            return commands;
        }
        let ghost before = views(commands@);
        proof {
            lemma_flat_map_step(processes@, taken_over(), i as int);
        }
        commands.push(Command::SpawnApplication { process: processes[i].entity });
        commands.push(Command::RemoveExisting(processes[i].entity));
        assert(views(commands@) =~= before + taken_over()(processes@[i as int]));
    }
    proof {
        lemma_first_where_none(processes@, failed);
    }
    commands
}

/// An application that was already running.
#[derive(Debug, PartialEq, Eq)]
pub struct ExistingApplication {
    pub entity: Entity,
    /// Whether the application can be observed.
    pub observed: bool,
    /// The windows that are not on the screen, where the windows could be listed.
    pub offscreen: Option<Vec<WindowId>>,
}

impl ExistingApplication {
    /// Whether the windows of the application are taken over.
    pub open spec fn listed(self) -> bool {
        self.observed && self.offscreen is Some
    }
}

/// What an application asks for: its windows, where it can be observed and they could be listed;
/// and in any case a search for those that are not on the screen.
pub open spec fn application_taken_over() -> spec_fn(ExistingApplication) -> Seq<CommandView> {
    |app: ExistingApplication|
        (if app.listed() {
            seq![CommandView::SpawnWindows { source: app.entity }]
        } else {
            Seq::empty()
        }) + seq![
            CommandView::RemoveExisting(app.entity),
            CommandView::StartSearch {
                application: app.entity,
                offscreen: if app.listed() {
                    app.offscreen->0@
                } else {
                    Seq::empty()
                },
            },
        ]
}

/// Takes over the windows of the applications that were already running.
pub fn add_existing_application(apps: &Vec<ExistingApplication>) -> (commands: Vec<Command>)
    ensures
        views(commands@) == apps@.flat_map(application_taken_over()),
{
    broadcast use lemma_views_push, lemma_views_empty;

    let mut commands: Vec<Command> = Vec::new();
    proof {
        lemma_flat_map_ends(apps@, application_taken_over());
    }
    for i in 0..apps.len()
        invariant
            views(commands@) == apps@.take(i as int).flat_map(application_taken_over()),
    {
        let ghost before = views(commands@);
        proof {
            lemma_flat_map_step(apps@, application_taken_over(), i as int);
        }
        let app = &apps[i];
        let mut offscreen: Vec<WindowId> = Vec::new();
        if app.observed {
            if let Some(found) = &app.offscreen {
                commands.push(Command::SpawnWindows { source: app.entity });
                offscreen = found.clone();
                assert(offscreen@ =~= found@);
            }
        }
        commands.push(Command::RemoveExisting(app.entity));
        commands.push(Command::StartSearch { application: app.entity, offscreen });
        assert(views(commands@) =~= before + application_taken_over()(apps@[i as int]));
    }
    commands
}

/// A search for windows that are not on the screen.
#[derive(Clone, Copy, Debug, PartialEq, Eq, Structural)]
pub struct Search {
    pub entity: Entity,
    pub finished: bool,
}

/// A workspace at the end of the start-up.
#[derive(Debug, PartialEq, Eq)]
pub struct Workspace {
    pub strip: LayoutStrip,
    /// Whether the workspace is shown on the active display.
    pub active: bool,
    /// The windows on the workspace, where they could be listed.
    pub reported: Option<Vec<WindowId>>,
}

/// How far the start-up is.
#[derive(Clone, Copy, Debug, PartialEq, Eq, Structural)]
pub enum SetupStage {
    /// Processes or applications that were already running are still being taken over.
    Adding,
    /// Windows that are not on the screen are still being searched for.
    Searching,
    /// Every window has been found.
    Refreshing,
}

/// How far the start-up is.
pub open spec fn stage(pending: bool, searches: Seq<Search>) -> SetupStage {
    if pending {
        SetupStage::Adding
    } else if searches.len() > 0 {
        SetupStage::Searching
    } else {
        SetupStage::Refreshing
    }
}

/// What a search asks for when it is done.
pub open spec fn reaped() -> spec_fn(Search) -> Seq<CommandView> {
    |search: Search|
        if search.finished {
            seq![
                CommandView::SpawnWindows { source: search.entity },
                CommandView::Despawn(search.entity),
            ]
        } else {
            Seq::empty()
        }
}

/// A reported window that is managed but minimized is to be marked as such.
pub open spec fn minimized(windows: Seq<WindowEntry>) -> spec_fn(WindowId) -> Seq<CommandView> {
    |id: WindowId|
        match managed_window(windows, id) {
            Some(window) => if window.minimized {
                seq![CommandView::MarkMinimized(window.entity)]
            } else {
                Seq::empty()
            },
            None => Seq::empty(),
        }
}

/// A reported window that is managed and not minimized is to be shown.
pub open spec fn visible(windows: Seq<WindowEntry>) -> spec_fn(WindowId) -> Seq<Entity> {
    |id: WindowId|
        match managed_window(windows, id) {
            Some(window) => if window.minimized {
                Seq::empty()
            } else {
                seq![window.entity]
            },
            None => Seq::empty(),
        }
}

/// The strip of a workspace after the start-up.
pub open spec fn setup_strip(
    strip: StripView,
    reported: Option<Vec<WindowId>>,
    windows: Seq<WindowEntry>,
) -> StripView {
    match reported {
        Some(ids) => StripView {
            columns: refreshed(strip.columns, ids@.flat_map(visible(windows))),
            ..strip
        },
        None => strip,
    }
}

/// What a workspace asks for at the end of the start-up: its minimized windows are marked, and
/// where it is the active one, its first window gets the focus.
pub open spec fn refresh_commands(windows: Seq<WindowEntry>) -> spec_fn(Workspace) -> Seq<
    CommandView,
> {
    |workspace: Workspace|
        match workspace.reported {
            Some(ids) => ids@.flat_map(minimized(windows)) + (if workspace.active {
                match setup_strip(workspace.strip@, workspace.reported, windows).first() {
                    Some(window) => seq![CommandView::Focus(window)],
                    None => Seq::empty(),
                }
            } else {
                Seq::empty()
            }),
            None => Seq::empty(),
        }
}

/// What the end of the start-up asks for.
pub open spec fn finish_commands(
    pending: bool,
    searches: Seq<Search>,
    workspaces: Seq<Workspace>,
    windows: Seq<WindowEntry>,
) -> Seq<CommandView> {
    match stage(pending, searches) {
        SetupStage::Adding => Seq::empty(),
        SetupStage::Searching => searches.flat_map(reaped()),
        SetupStage::Refreshing => workspaces.flat_map(refresh_commands(windows)).push(
            CommandView::FinishInitializing,
        ),
    }
}

/// How far the start-up is: whether processes are pending, and which searches there are.
pub fn setup_stage(pending: bool, searches: &Vec<Search>) -> (r: SetupStage)
    ensures
        r == stage(pending, searches@),
{
    if pending {
        SetupStage::Adding
    } else if searches.len() > 0 {
        SetupStage::Searching
    } else {
        SetupStage::Refreshing
    }
}

/// Spawns the windows that the finished searches have found.
fn reap_searches(searches: &Vec<Search>) -> (commands: Vec<Command>)
    ensures
        views(commands@) == searches@.flat_map(reaped()),
{
    broadcast use lemma_views_push, lemma_views_empty;

    let mut commands: Vec<Command> = Vec::new();
    proof {
        lemma_flat_map_ends(searches@, reaped());
    }
    for i in 0..searches.len()
        invariant
            views(commands@) == searches@.take(i as int).flat_map(reaped()),
    {
        let ghost before = views(commands@);
        proof {
            lemma_flat_map_step(searches@, reaped(), i as int);
        }
        if searches[i].finished {
            commands.push(Command::SpawnWindows { source: searches[i].entity });
            commands.push(Command::Despawn(searches[i].entity));
        }
        assert(views(commands@) =~= before + reaped()(searches@[i as int]));
    }
    commands
}

/// Makes the strip of a workspace show the windows that were reported, appending to the commands
/// what the workspace asks for.
fn refresh_workspace(
    workspace: &mut Workspace,
    windows: &Vec<WindowEntry>,
    commands: &mut Vec<Command>,
)
    ensures
        final(workspace).strip@ == setup_strip(
            old(workspace).strip@,
            old(workspace).reported,
            windows@,
        ),
        final(workspace).active == old(workspace).active,
        final(workspace).reported == old(workspace).reported,
        views(final(commands)@) == views(old(commands)@) + refresh_commands(windows@)(
            *old(workspace),
        ),
{
    broadcast use lemma_views_push, lemma_views_empty;

    let ghost start = *workspace;
    let ghost asked = views(commands@);
    let mut shown: Vec<Entity> = Vec::new();
    match &workspace.reported {
        None => {
            assert(views(commands@) =~= asked + refresh_commands(windows@)(start));
            return;
        },
        Some(ids) => {
            proof {
                lemma_flat_map_ends(ids@, minimized(windows@));
                lemma_flat_map_ends(ids@, visible(windows@));
                assert(asked =~= asked + ids@.take(0).flat_map(minimized(windows@)));
            }
            for i in 0..ids.len()
                invariant
                    views(commands@) == asked + ids@.take(i as int).flat_map(minimized(windows@)),
                    shown@ == ids@.take(i as int).flat_map(visible(windows@)),
            {
                let ghost before = views(commands@);
                let ghost shown_before = shown@;
                proof {
                    lemma_flat_map_step(ids@, minimized(windows@), i as int);
                    lemma_flat_map_step(ids@, visible(windows@), i as int);
                }
                if let Some(window) = find_managed(windows, ids[i]) {
                    if window.minimized {
                        commands.push(Command::MarkMinimized(window.entity));
                    } else {
                        shown.push(window.entity);
                    }
                }
                assert(views(commands@) =~= before + minimized(windows@)(ids@[i as int]));
                assert(shown@ =~= shown_before + visible(windows@)(ids@[i as int]));
                assert(before + minimized(windows@)(ids@[i as int]) =~= asked + ids@.take(
                    i + 1,
                ).flat_map(minimized(windows@)));
            }
        },
    }
    let ghost ids = start.reported->0;
    let ghost marked = views(commands@);
    workspace.strip.refresh(&shown);
    if workspace.active {
        if let Some(window) = workspace.strip.first() {
            commands.push(Command::Focus(window));
        }
    }
    proof {
        assert(marked == asked + ids@.flat_map(minimized(windows@)));
        assert(views(commands@) =~= asked + refresh_commands(windows@)(start));
    }
}

/// Finishes the start-up once every window is there: the strips take up the windows of their
/// workspaces, keeping the order of those they show already, and the first window of the active
/// workspace gets the focus.
pub fn finish_setup(
    pending: bool,
    searches: &Vec<Search>,
    workspaces: &mut Vec<Workspace>,
    windows: &Vec<WindowEntry>,
) -> (commands: Vec<Command>)
    ensures
        views(commands@) == finish_commands(pending, searches@, old(workspaces)@, windows@),
        stage(pending, searches@) != SetupStage::Refreshing ==> final(workspaces)@ == old(
            workspaces,
        )@,
        stage(pending, searches@) == SetupStage::Refreshing ==> {
            &&& final(workspaces)@.len() == old(workspaces)@.len()
            &&& forall|i: int|
                #![trigger final(workspaces)@[i]]
                0 <= i < final(workspaces)@.len() ==> {
                    &&& final(workspaces)@[i].strip@ == setup_strip(
                        old(workspaces)@[i].strip@,
                        old(workspaces)@[i].reported,
                        windows@,
                    )
                    &&& final(workspaces)@[i].active == old(workspaces)@[i].active
                    &&& final(workspaces)@[i].reported == old(workspaces)@[i].reported
                }
        },
{
    broadcast use lemma_views_push, lemma_views_empty;

    let ghost start = workspaces@;
    match setup_stage(pending, searches) {
        SetupStage::Adding => Vec::new(),
        SetupStage::Searching => reap_searches(searches),
        SetupStage::Refreshing => {
            let mut commands: Vec<Command> = Vec::new();
            let count = workspaces.len();
            proof {
                lemma_flat_map_ends(start, refresh_commands(windows@));
            }
            for i in 0..count
                invariant
                    count == start.len(),
                    workspaces@.len() == start.len(),
                    views(commands@) == start.take(i as int).flat_map(refresh_commands(windows@)),
                    forall|j: int|
                        #![trigger workspaces@[j]]
                        0 <= j < i ==> {
                            &&& workspaces@[j].strip@ == setup_strip(
                                start[j].strip@,
                                start[j].reported,
                                windows@,
                            )
                            &&& workspaces@[j].active == start[j].active
                            &&& workspaces@[j].reported == start[j].reported
                        },
                    forall|j: int|
                        #![trigger workspaces@[j]]
                        i <= j < count ==> workspaces@[j] == start[j],
            {
                proof {
                    lemma_flat_map_step(start, refresh_commands(windows@), i as int);
                }
                refresh_workspace(&mut workspaces[i], windows, &mut commands);
            }
            commands.push(Command::FinishInitializing);
            commands
        },
    }
}

/// The start-up is over exactly when nothing is left to be taken over or searched for.
pub proof fn law_setup_ends(
    pending: bool,
    searches: Seq<Search>,
    workspaces: Seq<Workspace>,
    windows: Seq<WindowEntry>,
)
    ensures
        finish_commands(pending, searches, workspaces, windows).contains(
            CommandView::FinishInitializing,
        ) <==> !pending && searches.len() == 0,
{
    let commands = finish_commands(pending, searches, workspaces, windows);
    let end = CommandView::FinishInitializing;
    match stage(pending, searches) {
        SetupStage::Adding => {},
        SetupStage::Searching => {
            lemma_flat_map_contains(searches, reaped(), end);
            assert forall|i: int| 0 <= i < searches.len() implies !(#[trigger] reaped()(
                searches[i],
            )).contains(end) by {};
        },
        SetupStage::Refreshing => {
            assert(commands[commands.len() - 1] == end);
        },
    }
}

/// After the start-up the strip of a workspace shows the managed windows that were reported for it
/// and are not minimized, and no others.
pub proof fn law_setup_shows_reported(
    strip: StripView,
    reported: Vec<WindowId>,
    windows: Seq<WindowEntry>,
    entity: Entity,
)
    ensures
        setup_strip(strip, Some(reported), windows).windows().contains(entity) <==> exists|i: int|
            {
                &&& 0 <= i < reported@.len()
                &&& (#[trigger] managed_window(windows, reported@[i])) is Some
                &&& !managed_window(windows, reported@[i])->0.minimized
                &&& managed_window(windows, reported@[i])->0.entity == entity
            },
{
    let f = visible(windows);
    law_refresh_shows_windows(strip.columns, reported@.flat_map(f), entity);
    lemma_flat_map_contains(reported@, f, entity);
    if exists|i: int| 0 <= i < reported@.len() && #[trigger] f(reported@[i]).contains(entity) {
        let i = choose|i: int| 0 <= i < reported@.len() && #[trigger] f(reported@[i]).contains(entity);
        assert(managed_window(windows, reported@[i]) is Some);
    }
    if exists|i: int|
        {
            &&& 0 <= i < reported@.len()
            &&& (#[trigger] managed_window(windows, reported@[i])) is Some
            &&& !managed_window(windows, reported@[i])->0.minimized
            &&& managed_window(windows, reported@[i])->0.entity == entity
        } {
        let i = choose|i: int|
            {
                &&& 0 <= i < reported@.len()
                &&& (#[trigger] managed_window(windows, reported@[i])) is Some
                &&& !managed_window(windows, reported@[i])->0.minimized
                &&& managed_window(windows, reported@[i])->0.entity == entity
            };
        assert(f(reported@[i])[0] == entity);
        assert(f(reported@[i]).contains(entity));
    }
}

/// The focus goes only to a window that the strip of an active workspace shows.
pub proof fn law_focus_is_shown(
    workspaces: Seq<Workspace>,
    windows: Seq<WindowEntry>,
    entity: Entity,
)
    requires
        finish_commands(false, Seq::empty(), workspaces, windows).contains(
            CommandView::Focus(entity),
        ),
    ensures
        exists|i: int|
            {
                &&& 0 <= i < workspaces.len()
                &&& (#[trigger] workspaces[i]).active
                &&& setup_strip(
                    workspaces[i].strip@,
                    workspaces[i].reported,
                    windows,
                ).windows().contains(entity)
            },
{
    let f = refresh_commands(windows);
    let focus = CommandView::Focus(entity);
    let inner = workspaces.flat_map(f);
    let all = inner.push(CommandView::FinishInitializing);
    let k = all.index_of(focus);
    assert(inner[k] == focus);
    assert(inner.contains(focus));
    lemma_flat_map_contains(workspaces, f, focus);
    let i = choose|i: int| 0 <= i < workspaces.len() && #[trigger] f(workspaces[i]).contains(focus);
    let workspace = workspaces[i];
    let ids = workspace.reported->0@;
    let marks = ids.flat_map(minimized(windows));
    assert(!marks.contains(focus)) by {
        lemma_flat_map_contains(ids, minimized(windows), focus);
    }
    let j = f(workspace).index_of(focus);
    if j < marks.len() {
        assert(marks[j] == focus);
        assert(marks.contains(focus));
    }
    let strip = setup_strip(workspace.strip@, workspace.reported, windows);
    lemma_first_is_shown(strip);
    assert(workspaces[i].active);
}

/// The first window of a strip is one of its windows.
proof fn lemma_first_is_shown(strip: StripView)
    ensures
        strip.first() matches Some(window) ==> strip.windows().contains(window),
{
    if let Some(window) = strip.first() {
        lemma_flatten_contains(strip.columns, window);
        assert(strip.columns[0][0] == window);
        assert(strip.columns[0].contains(window));
    }
}

} // verus!
