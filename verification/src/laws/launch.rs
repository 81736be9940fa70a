//! Processes and applications as they are launched.
use crate::commands::CommandView;
use crate::launch::{
    law_only_unknown_spawned, unknown_windows, windows_launched, LaunchRun, LaunchedApplication,
    LaunchedProcess,
};
use crate::sequences::{lemma_filter_all, lemma_flat_map_where};
use crate::WindowId;
use vstd::prelude::*;

verus! {

/// Whether a process is the first of its serial number.
pub open spec fn comes_first(processes: Seq<LaunchedProcess>, i: int) -> bool {
    &&& 0 <= i < processes.len()
    &&& forall|j: int| 0 <= j < i ==> (#[trigger] processes[j]).psn != processes[i].psn
}

/// Whether no application could be made of a process that needed one.
pub open spec fn fails(process: LaunchedProcess) -> bool {
    process.ready && !process.children && process.application is None
}

/// A run ends exactly where a process needs an application and none can be made of it; until then,
/// exactly the serial numbers of the processes are known.
pub proof fn law_run_fails(processes: Seq<LaunchedProcess>, psn: u64)
    ensures
        LaunchRun::over(processes).failed <==> exists|i: int| #[trigger]
            comes_first(processes, i) && fails(processes[i]),
        !LaunchRun::over(processes).failed ==> (LaunchRun::over(processes).seen.contains(psn)
            <==> exists|i: int| 0 <= i < processes.len() && (#[trigger] processes[i]).psn == psn),
    decreases processes.len(),
{
    if processes.len() > 0 {
        let init = processes.drop_last();
        let last = processes.last();
        let n = init.len() as int;
        assert(processes[n] == last);
        law_run_fails(init, psn);
        law_run_fails(init, last.psn);
        assert(forall|i: int| 0 <= i < n ==> init[i] == processes[i]);
        assert forall|i: int| 0 <= i < n implies comes_first(init, i) == #[trigger] comes_first(
            processes,
            i,
        ) by {
            assert(init[i] == processes[i]);
            if comes_first(init, i) {
                assert forall|j: int| 0 <= j < i implies (#[trigger] processes[j]).psn
                    != processes[i].psn by {
                    assert(init[j] == processes[j]);
                }
            }
            if comes_first(processes, i) {
                assert forall|j: int| 0 <= j < i implies (#[trigger] init[j]).psn
                    != init[i].psn by {
                    assert(init[j] == processes[j]);
                }
            }
        }
        if LaunchRun::over(init).failed {
            let i = choose|i: int| #[trigger] comes_first(init, i) && fails(init[i]);
            assert(comes_first(processes, i));
            assert(fails(processes[i]));
        } else {
            let seen = exists|i: int| 0 <= i < init.len() && (#[trigger] init[i]).psn == last.psn;
            assert(comes_first(processes, n) <==> !seen) by {
                if seen {
                    let i = choose|i: int|
                        0 <= i < init.len() && (#[trigger] init[i]).psn == last.psn;
                    assert(processes[i].psn == last.psn);
                } else {
                    assert forall|j: int| 0 <= j < n implies (#[trigger] processes[j]).psn
                        != processes[n].psn by {
                        assert(init[j] == processes[j]);
                    }
                }
            }
            assert forall|i: int| #[trigger] comes_first(processes, i) && fails(
                processes[i],
            ) implies i == n by {
                if i < n {
                    assert(comes_first(init, i));
                    assert(fails(init[i]));
                }
            }
            if !LaunchRun::over(processes).failed {
                if exists|i: int| 0 <= i < init.len() && (#[trigger] init[i]).psn == psn {
                    let i = choose|i: int| 0 <= i < init.len() && (#[trigger] init[i]).psn == psn;
                    assert(processes[i].psn == psn);
                }
                if exists|i: int| 0 <= i < processes.len() && (#[trigger] processes[i]).psn == psn {
                    let i = choose|i: int|
                        0 <= i < processes.len() && (#[trigger] processes[i]).psn == psn;
                    if i < n {
                        assert(init[i].psn == psn);
                    }
                }
            }
        }
    }
}

/// What one process more asks for. Nothing, where its serial number was there before, where the run
/// has ended, or where it is not ready. Where it has its application, it is no longer new.
/// Otherwise its application is spawned, where it could be made and can be observed, and is waited
/// for from now on, for five seconds.
pub proof fn law_process_launched(processes: Seq<LaunchedProcess>, process: LaunchedProcess)
    ensures
        ({
            let before = LaunchRun::over(processes).commands;
            let after = LaunchRun::over(processes.push(process)).commands;
            let seen = exists|i: int|
                0 <= i < processes.len() && (#[trigger] processes[i]).psn == process.psn;
            let ended = exists|i: int| #[trigger]
                comes_first(processes, i) && fails(processes[i]);
            if seen || ended || !process.ready {
                after == before
            } else if process.children {
                after == before.push(CommandView::RemoveFresh(process.entity))
            } else if process.application is None || !process.observed {
                after == before
            } else {
                &&& after.len() == before.len() + 1
                &&& after.drop_last() == before
                &&& after.last() is SpawnFreshApplication
                &&& after.last()->SpawnFreshApplication_process == process.entity
                &&& ({
                    let timeout = after.last()->SpawnFreshApplication_timeout;
                    &&& timeout.elapsed == 0
                    &&& timeout.duration == 5_000_000_000
                    &&& !timeout.finished
                    &&& timeout.message == Some(
                        process.application->0@ + " did not become observable in 5s."@,
                    )
                })
            }
        }),
        LaunchRun::over(Seq::empty()).commands.len() == 0,
{
    law_run_fails(processes, process.psn);
    assert(processes.push(process).drop_last() =~= processes);
    let before = LaunchRun::over(processes).commands;
    let after = LaunchRun::over(processes.push(process)).commands;
    if after.len() > before.len() {
        assert(after.drop_last() =~= before);
    }
}

/// The windows to be spawned are those listed that are not known, in order: where none is known,
/// all; and what is listed first comes first.
pub proof fn law_unknown_in_order(
    first: Seq<WindowId>,
    second: Seq<WindowId>,
    known: Seq<WindowId>,
)
    ensures
        unknown_windows(first + second, known) == unknown_windows(first, known) + unknown_windows(
            second,
            known,
        ),
        (forall|i: int| 0 <= i < first.len() ==> !known.contains(#[trigger] first[i]))
            ==> unknown_windows(first, known) == first,
        (forall|i: int| 0 <= i < first.len() ==> known.contains(#[trigger] first[i]))
            ==> unknown_windows(first, known).len() == 0,
{
    let p = |id: WindowId| !known.contains(id);
    Seq::filter_distributes_over_add(first, second, p);
    if forall|i: int| 0 <= i < first.len() ==> !known.contains(#[trigger] first[i]) {
        lemma_filter_all(first, p);
    }
    if forall|i: int| 0 <= i < first.len() ==> known.contains(#[trigger] first[i]) {
        if unknown_windows(first, known).len() > 0 {
            let id = unknown_windows(first, known)[0];
            assert(unknown_windows(first, known).contains(id));
            law_only_unknown_spawned(first, known, id);
            let k = first.index_of(id);
            assert(known.contains(first[k]));
        }
    }
}

/// Every application is no longer new; and exactly those that list a window that is not known have
/// the unknown ones spawned. Nothing else is asked for.
pub proof fn law_applications_launched(
    apps: Seq<LaunchedApplication>,
    known: Seq<WindowId>,
    command: CommandView,
)
    ensures
        apps.flat_map(windows_launched(known)).contains(command) <==> exists|i: int|
            {
                &&& 0 <= i < apps.len()
                &&& match command {
                    CommandView::RemoveFresh(entity) => entity == (#[trigger] apps[i]).entity,
                    CommandView::SpawnNewWindows { application, windows } => {
                        &&& application == apps[i].entity
                        &&& windows == unknown_windows(apps[i].windows@, known)
                        &&& windows.len() > 0
                    },
                    _ => false,
                }
            },
{
    broadcast use
        vstd::seq_lib::lemma_seq_contains_after_push,
        vstd::seq_lib::lemma_seq_empty_contains_nothing,
    ;

    lemma_flat_map_where(
        apps,
        windows_launched(known),
        command,
        |app: LaunchedApplication|
            match command {
                CommandView::RemoveFresh(entity) => entity == app.entity,
                CommandView::SpawnNewWindows { application, windows } => {
                    &&& application == app.entity
                    &&& windows == unknown_windows(app.windows@, known)
                    &&& windows.len() > 0
                },
                _ => false,
            },
    );
}

/// An application is no longer new before its windows are spawned.
pub proof fn law_application_order(app: LaunchedApplication, known: Seq<WindowId>)
    ensures
        windows_launched(known)(app).len() <= 2,
        windows_launched(known)(app)[0] == CommandView::RemoveFresh(app.entity),
        windows_launched(known)(app).len() == 2 ==> windows_launched(known)(app)[1]
            is SpawnNewWindows,
{
}

} // verus!
