//! Taking over processes and applications as they are launched.
use crate::commands::{lemma_views_empty, lemma_views_push, views, Command, CommandView};
use crate::sequences::{
    holds, lemma_filter_contains, lemma_filter_step, lemma_flat_map_ends, lemma_flat_map_step,
};
use crate::timeouts::{Span, Timeout, TimeoutView, NANOS_PER_SEC};
use crate::{Entity, WindowId};
use std::collections::HashSet;
use vstd::prelude::*;
use vstd::string::StringExecFns;

verus! {

/// How long a launched application may take until it can be observed, in seconds.
pub const APP_OBSERVABLE_TIMEOUT_SEC: u64 = 5;

/// A process that was launched, and what it answers when it is asked.
#[derive(Debug, PartialEq, Eq)]
pub struct LaunchedProcess {
    pub entity: Entity,
    /// The serial number of the process.
    pub psn: u64,
    /// Whether the process has its application already.
    pub children: bool,
    /// Whether the process is ready.
    pub ready: bool,
    /// What the application that is made of the process calls itself, where one can be made.
    pub application: Option<String>,
    /// Whether the application can be observed.
    pub observed: bool,
}

/// How the processes have been gone through: which serial numbers were seen, what is asked for, and
/// whether a failure has put an end to it.
pub struct LaunchRun {
    pub seen: Set<u64>,
    pub commands: Seq<CommandView>,
    pub failed: bool,
}

/// The wait for an application to become observable.
pub open spec fn observable_timeout(name: Seq<char>) -> TimeoutView {
    TimeoutView::fresh(
        APP_OBSERVABLE_TIMEOUT_SEC as nat * NANOS_PER_SEC as nat,
        Some(name + " did not become observable in 5s."@),
    )
}

/// What becomes of a process that is seen for the first time.
#[derive(Clone, Copy, Debug, PartialEq, Eq, Structural)]
pub enum LaunchStep {
    /// It is waited for.
    Skip,
    /// It has its application, and is no longer new.
    Settled,
    /// An application is to be made of it.
    Create,
}

/// What becomes of a process that is seen for the first time.
pub open spec fn launch_step(ready: bool, children: bool) -> LaunchStep {
    if !ready {
        LaunchStep::Skip
    } else if children {
        LaunchStep::Settled
    } else {
        LaunchStep::Create
    }
}

impl LaunchRun {
    /// Before the first process.
    pub open spec fn start() -> LaunchRun {
        LaunchRun { seen: Set::empty(), commands: Seq::empty(), failed: false }
    }

    /// After one process more. One that has been seen is passed over; one that is not ready is
    /// waited for; one that has its application is no longer new; of any other an application is
    /// made, which is waited for where it can be observed. Where none can be made, the run ends.
    pub open spec fn next(self, process: LaunchedProcess) -> LaunchRun {
        if self.failed || self.seen.contains(process.psn) {
            self
        } else {
            let seen = self.seen.insert(process.psn);
            match launch_step(process.ready, process.children) {
                LaunchStep::Skip => LaunchRun { seen, ..self },
                LaunchStep::Settled => LaunchRun {
                    seen,
                    commands: self.commands.push(CommandView::RemoveFresh(process.entity)),
                    ..self
                },
                LaunchStep::Create => match process.application {
                    None => LaunchRun { seen, failed: true, ..self },
                    Some(name) => if process.observed {
                        LaunchRun {
                            seen,
                            commands: self.commands.push(
                                CommandView::SpawnFreshApplication {
                                    process: process.entity,
                                    timeout: observable_timeout(name@),
                                },
                            ),
                            ..self
                        }
                    } else {
                        LaunchRun { seen, ..self }
                    },
                },
            }
        }
    }

    /// After all of the processes.
    pub open spec fn over(processes: Seq<LaunchedProcess>) -> LaunchRun
        decreases processes.len(),
    {
        if processes.len() == 0 {
            LaunchRun::start()
        } else {
            LaunchRun::over(processes.drop_last()).next(processes.last())
        }
    }
}

/// The serial numbers of the processes that were seen in one run.
#[derive(Debug)]
pub struct Launcher {
    seen: HashSet<u64>,
}

impl View for Launcher {
    type V = Set<u64>;

    closed spec fn view(&self) -> Set<u64> {
        self.seen@
    }
}

impl Launcher {
    /// Nothing has been seen.
    pub fn new() -> (launcher: Launcher)
        ensures
            launcher@ == Set::<u64>::empty(),
    {
        Launcher { seen: HashSet::new() }
    }

    /// Takes note of a process; tells whether it is seen for the first time.
    pub fn notice(&mut self, psn: u64) -> (first: bool)
        ensures
            first == !old(self)@.contains(psn),
            final(self)@ == old(self)@.insert(psn),
    {
        broadcast use vstd::std_specs::hash::group_hash_axioms;

        self.seen.insert(psn)
    }
}

/// Tells what becomes of a process that is seen for the first time.
pub fn process_step(ready: bool, children: bool) -> (step: LaunchStep)
    ensures
        step == launch_step(ready, children),
{
    if !ready {
        LaunchStep::Skip
    } else if children {
        LaunchStep::Settled
    } else {
        LaunchStep::Create
    }
}

/// What is asked for an application that was made of a process: where it can be observed, it is
/// spawned and waited for.
pub fn application_step(process: Entity, observed: bool, name: &String) -> (command: Option<Command>)
    ensures
        match command {
            Some(command) => observed && command@ == (CommandView::SpawnFreshApplication {
                process,
                timeout: observable_timeout(name@),
            }),
            None => !observed,
        },
{
    if observed {
        let message = name.clone().concat(" did not become observable in 5s.");
        let timeout = Timeout::new(Span::from_secs(APP_OBSERVABLE_TIMEOUT_SEC), Some(message));
        Some(Command::SpawnFreshApplication { process, timeout })
    } else {
        None
    }
}

/// Takes over the processes that were launched. Each serial number is looked at once.
pub fn add_launched_process(processes: &Vec<LaunchedProcess>) -> (commands: Vec<Command>)
    ensures
        views(commands@) == LaunchRun::over(processes@).commands,
{
    broadcast use lemma_views_push, lemma_views_empty;

    let mut launcher = Launcher::new();
    let mut commands: Vec<Command> = Vec::new();
    assert(processes@.take(0).len() == 0);
    for i in 0..processes.len()
        invariant
            launcher@ == LaunchRun::over(processes@.take(i as int)).seen,
            views(commands@) == LaunchRun::over(processes@.take(i as int)).commands,
            !LaunchRun::over(processes@.take(i as int)).failed,
    {
        let process = &processes[i];
        let ghost now = processes@.take(i + 1);
        proof {
            assert(now.drop_last() =~= processes@.take(i as int));
            assert(now.last() == processes@[i as int]);
        }
        if launcher.notice(process.psn) {
            match process_step(process.ready, process.children) {
                LaunchStep::Skip => {},
                LaunchStep::Settled => {
                    commands.push(Command::RemoveFresh(process.entity));
                },
                LaunchStep::Create => {
                    match &process.application {
                        None => {
                            proof {
                                lemma_over_failed(processes@, i + 1);
                            }
                            return commands;
                        },
                        Some(name) => {
                            if let Some(command) = application_step(
                                process.entity,
                                process.observed,
                                name,
                            ) {
                                commands.push(command);
                            }
                        },
                    }
                },
            }
        } else {
            assert(launcher@ =~= LaunchRun::over(processes@.take(i as int)).seen);
        }
    }
    assert(processes@.take(processes@.len() as int) =~= processes@);
    commands
}

/// After a failure nothing more happens.
proof fn lemma_over_failed(processes: Seq<LaunchedProcess>, n: int)
    requires
        0 <= n <= processes.len(),
        LaunchRun::over(processes.take(n)).failed,
    ensures
        LaunchRun::over(processes) == LaunchRun::over(processes.take(n)),
    decreases processes.len() - n,
{
    if n < processes.len() {
        let now = processes.take(n + 1);
        assert(now.drop_last() =~= processes.take(n));
        lemma_over_failed(processes, n + 1);
    } else {
        assert(processes.take(n) =~= processes);
    }
}

/// A process whose serial number was seen in the run asks for nothing.
pub proof fn law_each_process_once(
    processes: Seq<LaunchedProcess>,
    earlier: int,
    process: LaunchedProcess,
)
    requires
        0 <= earlier < processes.len(),
        processes[earlier].psn == process.psn,
    ensures
        LaunchRun::over(processes.push(process)).commands == LaunchRun::over(processes).commands,
{
    assert(processes.push(process).drop_last() =~= processes);
    lemma_seen(processes, earlier);
}

/// Unless the run has ended, the serial numbers of all processes were seen.
proof fn lemma_seen(processes: Seq<LaunchedProcess>, i: int)
    requires
        0 <= i < processes.len(),
    ensures
        LaunchRun::over(processes).failed || LaunchRun::over(processes).seen.contains(
            processes[i].psn,
        ),
    decreases processes.len(),
{
    let init = processes.drop_last();
    if i < init.len() {
        assert(init[i] == processes[i]);
        lemma_seen(init, i);
    }
}

/// An application that was launched, and the windows it lists.
#[derive(Debug, PartialEq, Eq)]
pub struct LaunchedApplication {
    pub entity: Entity,
    pub windows: Vec<WindowId>,
}

/// The windows that are not among the known ones.
pub open spec fn unknown_windows(windows: Seq<WindowId>, known: Seq<WindowId>) -> Seq<WindowId> {
    windows.filter(|id: WindowId| !known.contains(id))
}

/// What a launched application asks for: it is no longer new; and where it lists windows that are
/// not known, these are spawned.
pub open spec fn windows_launched(known: Seq<WindowId>) -> spec_fn(LaunchedApplication) -> Seq<
    CommandView,
> {
    |app: LaunchedApplication|
        {
            let windows = unknown_windows(app.windows@, known);
            if windows.len() > 0 {
                seq![
                    CommandView::RemoveFresh(app.entity),
                    CommandView::SpawnNewWindows { application: app.entity, windows },
                ]
            } else {
                seq![CommandView::RemoveFresh(app.entity)]
            }
        }
}

fn is_known(known: &Vec<WindowId>, id: WindowId) -> (found: bool)
    ensures
        found == known@.contains(id),
{
    let test = |other: &WindowId| -> (r: bool)
        ensures
            r == (*other == id),
    {
        *other == id
    };
    holds(known, test, Ghost(id))
}

/// Spawns the windows of the applications that were launched, leaving out those that are known.
pub fn add_launched_application(apps: &Vec<LaunchedApplication>, known: &Vec<WindowId>) -> (commands:
    Vec<Command>)
    ensures
        views(commands@) == apps@.flat_map(windows_launched(known@)),
{
    broadcast use lemma_views_push, lemma_views_empty;

    let mut commands: Vec<Command> = Vec::new();
    let ghost f = windows_launched(known@);
    proof {
        lemma_flat_map_ends(apps@, f);
    }
    for i in 0..apps.len()
        invariant
            f == windows_launched(known@),
            views(commands@) == apps@.take(i as int).flat_map(f),
    {
        let ghost before = views(commands@);
        proof {
            lemma_flat_map_step(apps@, f, i as int);
        }
        let app = &apps[i];
        let listed = &app.windows;
        let mut create_windows: Vec<WindowId> = Vec::new();
        let ghost p = |id: WindowId| !known@.contains(id);
        proof {
            reveal(Seq::filter);
            assert(create_windows@ =~= listed@.take(0).filter(p));
        }
        for j in 0..listed.len()
            invariant
                p == (|id: WindowId| !known@.contains(id)),
                create_windows@ == listed@.take(j as int).filter(p),
        {
            proof {
                lemma_filter_step(listed@, p, j as int);
            }
            if !is_known(known, listed[j]) {
                create_windows.push(listed[j]);
            }
        }
        assert(listed@.take(listed@.len() as int) =~= listed@);
        commands.push(Command::RemoveFresh(app.entity));
        if create_windows.len() > 0 {
            commands.push(
                Command::SpawnNewWindows { application: app.entity, windows: create_windows },
            );
        }
        assert(views(commands@) =~= before + f(apps@[i as int]));
    }
    commands
}

/// No window that is known is spawned again, and every other that is listed is spawned.
pub proof fn law_only_unknown_spawned(windows: Seq<WindowId>, known: Seq<WindowId>, id: WindowId)
    ensures
        unknown_windows(windows, known).contains(id) <==> windows.contains(id) && !known.contains(
            id,
        ),
{
    lemma_filter_contains(windows, |id: WindowId| !known.contains(id), id);
}

} // verus!
