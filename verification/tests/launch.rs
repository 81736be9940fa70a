use window_systems::commands::Command;
use window_systems::launch::{
    add_launched_application, add_launched_process, application_step, process_step,
    LaunchStep, LaunchedApplication, LaunchedProcess, Launcher,
};
use window_systems::timeouts::{Span, Timeout};

fn process(entity: u64, psn: u64) -> LaunchedProcess {
    LaunchedProcess {
        entity,
        psn,
        children: false,
        ready: true,
        application: Some(String::from("Mail")),
        observed: true,
    }
}

fn waited_for(process: u64, name: &str) -> Command {
    let message = format!("{} did not become observable in 5s.", name);
    Command::SpawnFreshApplication {
        process,
        timeout: Timeout::new(Span::from_secs(5), Some(message)),
    }
}

#[test]
fn a_launched_process_becomes_an_application() {
    assert_eq!(add_launched_process(&vec![process(1, 100)]), vec![waited_for(1, "Mail")]);
}

#[test]
fn a_process_is_looked_at_once() {
    let processes = vec![process(1, 100), process(2, 100), process(3, 101)];
    assert_eq!(
        add_launched_process(&processes),
        vec![waited_for(1, "Mail"), waited_for(3, "Mail")]
    );
}

#[test]
fn a_process_that_is_not_ready_is_still_noticed() {
    let mut late = process(1, 100);
    late.ready = false;
    assert_eq!(add_launched_process(&vec![late, process(2, 100)]), vec![]);
}

#[test]
fn a_process_with_its_application_is_no_longer_new() {
    let mut settled = process(1, 100);
    settled.children = true;
    assert_eq!(add_launched_process(&vec![settled]), vec![Command::RemoveFresh(1)]);
}

#[test]
fn a_failure_ends_the_run() {
    let mut failing = process(2, 101);
    failing.application = None;
    let processes = vec![process(1, 100), failing, process(3, 102)];
    assert_eq!(add_launched_process(&processes), vec![waited_for(1, "Mail")]);
}

#[test]
fn an_application_that_cannot_be_observed_is_dropped() {
    let mut hidden = process(1, 100);
    hidden.observed = false;
    assert_eq!(
        add_launched_process(&vec![hidden, process(2, 101)]),
        vec![waited_for(2, "Mail")]
    );
}

#[test]
fn the_steps_of_a_launch() {
    let mut launcher = Launcher::new();
    assert!(launcher.notice(5));
    assert!(!launcher.notice(5));
    assert!(launcher.notice(6));
    assert_eq!(process_step(false, true), LaunchStep::Skip);
    assert_eq!(process_step(true, true), LaunchStep::Settled);
    assert_eq!(process_step(true, false), LaunchStep::Create);
    assert_eq!(application_step(4, false, &String::from("Mail")), None);
    assert_eq!(
        application_step(4, true, &String::from("Notes")),
        Some(waited_for(4, "Notes"))
    );
}

#[test]
fn only_unknown_windows_are_spawned() {
    let apps = vec![
        LaunchedApplication { entity: 1, windows: vec![10, 11, 12] },
        LaunchedApplication { entity: 2, windows: vec![11] },
        LaunchedApplication { entity: 3, windows: vec![] },
        LaunchedApplication { entity: 4, windows: vec![20] },
    ];
    assert_eq!(
        add_launched_application(&apps, &vec![11, 13]),
        vec![
            Command::RemoveFresh(1),
            Command::SpawnNewWindows { application: 1, windows: vec![10, 12] },
            Command::RemoveFresh(2),
            Command::RemoveFresh(3),
            Command::RemoveFresh(4),
            Command::SpawnNewWindows { application: 4, windows: vec![20] },
        ]
    );
}
