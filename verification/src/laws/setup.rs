//! The start-up.
use crate::commands::CommandView;
use crate::sequences::{
    first_where, lemma_filter_same, lemma_first_where, lemma_flat_map_contains,
    lemma_flat_map_ends, lemma_flat_map_step, lemma_flat_map_where,
};
use crate::setup::{
    application_taken_over, before_failure, finish_commands, minimized, reaped, refresh_commands,
    setup_strip, taken_over, visible, ExistingApplication, ExistingProcess, Search, Workspace,
};
use crate::strip::{law_refresh_keeps_order, law_refresh_shows_windows, StripView};
use crate::windows::{managed_window, WindowEntry};
use crate::{Entity, WindowId};
use vstd::prelude::*;

verus! {

/// The processes are taken over in order, up to the first of which no application could be made:
/// of each the application is spawned, and then it no longer counts as one that was there before.
pub proof fn law_existing_processes(processes: Seq<ExistingProcess>, n: int)
    requires
        0 <= n <= processes.len(),
        forall|i: int| 0 <= i < n ==> (#[trigger] processes[i]).created,
        n < processes.len() ==> !processes[n].created,
    ensures
        ({
            let commands = before_failure(processes).flat_map(taken_over());
            &&& commands.len() == 2 * n
            &&& forall|i: int|
                0 <= i < n ==> {
                    &&& commands[2 * i] == (CommandView::SpawnApplication {
                        process: (#[trigger] processes[i]).entity,
                    })
                    &&& commands[2 * i + 1] == CommandView::RemoveExisting(processes[i].entity)
                }
        }),
{
    let p = |x: ExistingProcess| !x.created;
    lemma_first_where(processes, p);
    let good = before_failure(processes);
    assert(good =~= processes.take(n)) by {
        if n < processes.len() {
            assert(p(processes[n]));
        }
        match first_where(processes, p) {
            Some(k) => {
                if k < n {
                    assert(processes[k].created);
                }
            },
            None => {},
        }
    }
    lemma_pairs(processes, n);
}

proof fn lemma_pairs(processes: Seq<ExistingProcess>, n: int)
    requires
        0 <= n <= processes.len(),
    ensures
        ({
            let commands = processes.take(n).flat_map(taken_over());
            &&& commands.len() == 2 * n
            &&& forall|i: int|
                0 <= i < n ==> {
                    &&& commands[2 * i] == (CommandView::SpawnApplication {
                        process: (#[trigger] processes[i]).entity,
                    })
                    &&& commands[2 * i + 1] == CommandView::RemoveExisting(processes[i].entity)
                }
        }),
    decreases n,
{
    lemma_flat_map_ends(processes, taken_over());
    if n > 0 {
        lemma_pairs(processes, n - 1);
        lemma_flat_map_step(processes, taken_over(), n - 1);
    }
}

/// Every application that was there before is seen, and searched for windows that are not on the
/// screen: for those that were listed, where it can be observed and could list them. Exactly in
/// that case its windows are spawned. Nothing else is asked for.
pub proof fn law_existing_applications(apps: Seq<ExistingApplication>, command: CommandView)
    ensures
        apps.flat_map(application_taken_over()).contains(command) <==> exists|i: int|
            {
                let app = apps[i];
                &&& 0 <= i < apps.len()
                &&& match command {
                    CommandView::SpawnWindows { source } => source == (#[trigger] apps[i]).entity
                        && app.observed && app.offscreen is Some,
                    CommandView::RemoveExisting(entity) => entity == app.entity,
                    CommandView::StartSearch { application, offscreen } => application == app.entity
                        && offscreen == if app.observed && app.offscreen is Some {
                        app.offscreen->0@
                    } else {
                        Seq::empty()
                    },
                    _ => false,
                }
            },
{
    broadcast use
        vstd::seq_lib::lemma_seq_concat_contains_all_elements,
        vstd::seq_lib::lemma_seq_contains_after_push,
        vstd::seq_lib::lemma_seq_empty_contains_nothing,
    ;

    lemma_flat_map_where(
        apps,
        application_taken_over(),
        command,
        |app: ExistingApplication|
            match command {
                CommandView::SpawnWindows { source } => source == app.entity && app.observed
                    && app.offscreen is Some,
                CommandView::RemoveExisting(entity) => entity == app.entity,
                CommandView::StartSearch { application, offscreen } => application == app.entity
                    && offscreen == if app.observed && app.offscreen is Some {
                    app.offscreen->0@
                } else {
                    Seq::empty()
                },
                _ => false,
            },
    );
}

/// While something is left to be taken over, nothing is asked for.
pub proof fn law_setup_waits(
    searches: Seq<Search>,
    workspaces: Seq<Workspace>,
    windows: Seq<WindowEntry>,
)
    ensures
        finish_commands(true, searches, workspaces, windows).len() == 0,
{
}

/// While there are searches, exactly the finished ones are reaped: the windows that they found are
/// spawned, and they go.
pub proof fn law_searches_reaped(
    searches: Seq<Search>,
    workspaces: Seq<Workspace>,
    windows: Seq<WindowEntry>,
    command: CommandView,
)
    requires
        searches.len() > 0,
    ensures
        finish_commands(false, searches, workspaces, windows).contains(command) <==> exists|i: int|
            {
                &&& 0 <= i < searches.len()
                &&& (#[trigger] searches[i]).finished
                &&& command == (CommandView::SpawnWindows { source: searches[i].entity })
                    || command == CommandView::Despawn(searches[i].entity)
            },
{
    broadcast use
        vstd::seq_lib::lemma_seq_contains_after_push,
        vstd::seq_lib::lemma_seq_empty_contains_nothing,
    ;

    lemma_flat_map_where(
        searches,
        reaped(),
        command,
        |s: Search|
            s.finished && (command == (CommandView::SpawnWindows { source: s.entity }) || command
                == CommandView::Despawn(s.entity)),
    );
}

/// When everything has been found, exactly the reported windows are marked that are managed and
/// minimized.
pub proof fn law_minimized_marked(
    workspaces: Seq<Workspace>,
    windows: Seq<WindowEntry>,
    entity: Entity,
)
    ensures
        finish_commands(false, Seq::empty(), workspaces, windows).contains(
            CommandView::MarkMinimized(entity),
        ) <==> exists|i: int, j: int|
            {
                let ids = workspaces[i].reported->0@;
                let window = managed_window(windows, ids[j]);
                &&& 0 <= i < workspaces.len()
                &&& workspaces[i].reported is Some
                &&& 0 <= j < ids.len()
                &&& #[trigger] managed_window(windows, workspaces[i].reported->0@[j]) is Some
                &&& window->0.minimized
                &&& window->0.entity == entity
            },
{
    broadcast use
        vstd::seq_lib::lemma_seq_concat_contains_all_elements,
        vstd::seq_lib::lemma_seq_contains_after_push,
        vstd::seq_lib::lemma_seq_empty_contains_nothing,
    ;

    let mark = CommandView::MarkMinimized(entity);
    let q = |id: WindowId|
        {
            let window = managed_window(windows, id);
            window is Some && window->0.minimized && window->0.entity == entity
        };
    let p = |w: Workspace|
        w.reported is Some && exists|j: int|
            0 <= j < w.reported->0@.len() && q(#[trigger] w.reported->0@[j]);
    assert forall|i: int| 0 <= i < workspaces.len() implies refresh_commands(windows)(
        #[trigger] workspaces[i],
    ).contains(mark) == p(workspaces[i]) by {
        if workspaces[i].reported is Some {
            lemma_flat_map_where(workspaces[i].reported->0@, minimized(windows), mark, q);
        }
    }
    lemma_flat_map_where(workspaces, refresh_commands(windows), mark, p);
    if exists|i: int| 0 <= i < workspaces.len() && p(#[trigger] workspaces[i]) {
        let i = choose|i: int| 0 <= i < workspaces.len() && p(#[trigger] workspaces[i]);
        let j = choose|j: int|
            0 <= j < workspaces[i].reported->0@.len() && q(
                #[trigger] workspaces[i].reported->0@[j],
            );
        assert(managed_window(windows, workspaces[i].reported->0@[j]) is Some);
    }
    if exists|i: int, j: int|
        {
            let ids = workspaces[i].reported->0@;
            let window = managed_window(windows, ids[j]);
            &&& 0 <= i < workspaces.len()
            &&& workspaces[i].reported is Some
            &&& 0 <= j < ids.len()
            &&& #[trigger] managed_window(windows, workspaces[i].reported->0@[j]) is Some
            &&& window->0.minimized
            &&& window->0.entity == entity
        } {
        let (i, j) = choose|i: int, j: int|
            {
                let ids = workspaces[i].reported->0@;
                let window = managed_window(windows, ids[j]);
                &&& 0 <= i < workspaces.len()
                &&& workspaces[i].reported is Some
                &&& 0 <= j < ids.len()
                &&& #[trigger] managed_window(windows, workspaces[i].reported->0@[j]) is Some
                &&& window->0.minimized
                &&& window->0.entity == entity
            };
        assert(q(workspaces[i].reported->0@[j]));
        assert(p(workspaces[i]));
    }
}

/// When everything has been found, the focus goes exactly to the first window that the strip of an
/// active workspace then shows, where the windows of the workspace could be listed.
pub proof fn law_first_window_focused(
    workspaces: Seq<Workspace>,
    windows: Seq<WindowEntry>,
    entity: Entity,
)
    ensures
        finish_commands(false, Seq::empty(), workspaces, windows).contains(
            CommandView::Focus(entity),
        ) <==> exists|i: int|
            {
                let columns = setup_strip(
                    workspaces[i].strip@,
                    workspaces[i].reported,
                    windows,
                ).columns;
                &&& 0 <= i < workspaces.len()
                &&& (#[trigger] workspaces[i]).active
                &&& workspaces[i].reported is Some
                &&& columns.len() > 0
                &&& columns[0].len() > 0
                &&& columns[0][0] == entity
            },
{
    broadcast use
        vstd::seq_lib::lemma_seq_concat_contains_all_elements,
        vstd::seq_lib::lemma_seq_contains_after_push,
        vstd::seq_lib::lemma_seq_empty_contains_nothing,
    ;

    let focus = CommandView::Focus(entity);
    let p = |w: Workspace|
        {
            let columns = setup_strip(w.strip@, w.reported, windows).columns;
            &&& w.active
            &&& w.reported is Some
            &&& columns.len() > 0
            &&& columns[0].len() > 0
            &&& columns[0][0] == entity
        };
    assert forall|i: int| 0 <= i < workspaces.len() implies refresh_commands(windows)(
        #[trigger] workspaces[i],
    ).contains(focus) == p(workspaces[i]) by {
        if workspaces[i].reported is Some {
            lemma_flat_map_where(
                workspaces[i].reported->0@,
                minimized(windows),
                focus,
                |id: WindowId| false,
            );
        }
    }
    lemma_flat_map_where(workspaces, refresh_commands(windows), focus, p);
}

/// When everything has been found, windows are marked or focused, and last the start-up is over;
/// nothing else is asked for.
pub proof fn law_setup_finishes(
    workspaces: Seq<Workspace>,
    windows: Seq<WindowEntry>,
    i: int,
)
    requires
        0 <= i < finish_commands(false, Seq::empty(), workspaces, windows).len(),
    ensures
        ({
            let commands = finish_commands(false, Seq::empty(), workspaces, windows);
            &&& commands[i] is FinishInitializing <==> i == commands.len() - 1
            &&& i < commands.len() - 1 ==> commands[i] is MarkMinimized || commands[i] is Focus
        }),
{
    broadcast use
        vstd::seq_lib::lemma_seq_concat_contains_all_elements,
        vstd::seq_lib::lemma_seq_contains_after_push,
        vstd::seq_lib::lemma_seq_empty_contains_nothing,
    ;

    let commands = finish_commands(false, Seq::empty(), workspaces, windows);
    let f = refresh_commands(windows);
    let inner = workspaces.flat_map(f);
    if i < commands.len() - 1 {
        let command = inner[i];
        assert(commands[i] == command);
        assert(inner.contains(command));
        lemma_flat_map_contains(workspaces, f, command);
        let w = choose|w: int| 0 <= w < workspaces.len() && #[trigger] f(workspaces[w]).contains(
            command,
        );
        if workspaces[w].reported is Some {
            let ids = workspaces[w].reported->0@;
            lemma_flat_map_where(
                ids,
                minimized(windows),
                command,
                |id: WindowId| minimized(windows)(id).contains(command),
            );
        }
    }
}

/// A strip whose windows could not be listed stays as it is. Any other keeps its workspace, and the
/// order of the windows that stay; in particular, a strip of which all windows stay, keeps them in
/// front.
pub proof fn law_setup_keeps_order(
    strip: StripView,
    reported: Option<Vec<WindowId>>,
    windows: Seq<WindowEntry>,
)
    ensures
        reported is None ==> setup_strip(strip, reported, windows) == strip,
        setup_strip(strip, reported, windows).id == strip.id,
        reported is Some ==> strip.windows().filter(
            |e: Entity| setup_strip(strip, reported, windows).windows().contains(e),
        ).is_prefix_of(setup_strip(strip, reported, windows).windows()),
{
    if let Some(ids) = reported {
        let shown = ids@.flat_map(visible(windows));
        law_refresh_keeps_order(strip.columns, shown);
        let p = |e: Entity| shown.contains(e);
        let q = |e: Entity| setup_strip(strip, reported, windows).windows().contains(e);
        assert forall|i: int| 0 <= i < strip.windows().len() implies p(
            #[trigger] strip.windows()[i],
        ) == q(strip.windows()[i]) by {
            law_refresh_shows_windows(strip.columns, shown, strip.windows()[i]);
        }
        lemma_filter_same(strip.windows(), p, q);
    }
}

/// A finished search is reaped once: first its windows are spawned, then it goes. A reported window
/// is marked or shown at most once. The windows of an application are spawned before it counts as
/// seen, and it is searched last.
pub proof fn law_taken_over_once(
    search: Search,
    windows: Seq<WindowEntry>,
    id: WindowId,
    app: ExistingApplication,
)
    ensures
        reaped()(search).len() == if search.finished { 2nat } else { 0nat },
        search.finished ==> reaped()(search)[0] is SpawnWindows && reaped()(search)[1] is Despawn,
        minimized(windows)(id).len() + visible(windows)(id).len() <= 1,
        ({
            let commands = application_taken_over()(app);
            let n = commands.len();
            &&& n == if app.observed && app.offscreen is Some { 3nat } else { 2nat }
            &&& commands[n - 1] is StartSearch
            &&& commands[n - 2] is RemoveExisting
        }),
{
}

/// A workspace has its minimized windows marked in the order in which they are reported, and then
/// at most one window focused.
pub proof fn law_workspace_order(workspace: Workspace, windows: Seq<WindowEntry>, i: int)
    requires
        workspace.reported is Some,
        0 <= i < refresh_commands(windows)(workspace).len(),
    ensures
        ({
            let commands = refresh_commands(windows)(workspace);
            let marks = workspace.reported->0@.flat_map(minimized(windows));
            &&& marks.len() <= commands.len() <= marks.len() + 1
            &&& i < marks.len() ==> commands[i] == marks[i] && commands[i] is MarkMinimized
            &&& i >= marks.len() ==> commands[i] is Focus
        }),
{
    broadcast use
        vstd::seq_lib::lemma_seq_contains_after_push,
        vstd::seq_lib::lemma_seq_empty_contains_nothing,
    ;

    let marks = workspace.reported->0@.flat_map(minimized(windows));
    if i < marks.len() {
        let mark = marks[i];
        assert(marks.contains(mark));
        lemma_flat_map_where(
            workspace.reported->0@,
            minimized(windows),
            mark,
            |id: WindowId| minimized(windows)(id).contains(mark),
        );
    }
}

} // verus!
