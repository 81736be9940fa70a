use window_systems::commands::Command;
use window_systems::setup::{
    add_existing_application, add_existing_process, finish_setup, setup_stage, ExistingApplication,
    ExistingProcess, Search, SetupStage, Workspace,
};
use window_systems::strip::LayoutStrip;
use window_systems::windows::{find, find_managed, Unmanaged, WindowEntry};

fn window(entity: u64, id: i32) -> WindowEntry {
    WindowEntry { entity, id, unmanaged: None, minimized: false }
}

#[test]
fn existing_processes_up_to_the_first_failure() {
    let processes = vec![
        ExistingProcess { entity: 1, created: true },
        ExistingProcess { entity: 2, created: false },
        ExistingProcess { entity: 3, created: true },
    ];
    assert_eq!(
        add_existing_process(&processes),
        vec![Command::SpawnApplication { process: 1 }, Command::RemoveExisting(1)]
    );
}

#[test]
fn existing_processes_without_failure() {
    let processes = vec![
        ExistingProcess { entity: 1, created: true },
        ExistingProcess { entity: 2, created: true },
    ];
    assert_eq!(
        add_existing_process(&processes),
        vec![
            Command::SpawnApplication { process: 1 },
            Command::RemoveExisting(1),
            Command::SpawnApplication { process: 2 },
            Command::RemoveExisting(2),
        ]
    );
}

#[test]
fn existing_applications_are_searched_in_any_case() {
    let apps = vec![
        ExistingApplication { entity: 1, observed: true, offscreen: Some(vec![7, 8]) },
        ExistingApplication { entity: 2, observed: false, offscreen: Some(vec![9]) },
        ExistingApplication { entity: 3, observed: true, offscreen: None },
    ];
    assert_eq!(
        add_existing_application(&apps),
        vec![
            Command::SpawnWindows { source: 1 },
            Command::RemoveExisting(1),
            Command::StartSearch { application: 1, offscreen: vec![7, 8] },
            Command::RemoveExisting(2),
            Command::StartSearch { application: 2, offscreen: vec![] },
            Command::RemoveExisting(3),
            Command::StartSearch { application: 3, offscreen: vec![] },
        ]
    );
}

#[test]
fn setup_waits_for_pending_processes() {
    let searches = vec![Search { entity: 5, finished: true }];
    let mut workspaces = vec![Workspace {
        strip: LayoutStrip::from_columns(1, vec![vec![1]]),
        active: true,
        reported: Some(vec![]),
    }];
    assert_eq!(setup_stage(true, &searches), SetupStage::Adding);
    assert_eq!(finish_setup(true, &searches, &mut workspaces, &vec![]), vec![]);
    assert_eq!(workspaces[0].strip.all_windows(), vec![1]);
}

#[test]
fn setup_reaps_finished_searches() {
    let searches =
        vec![Search { entity: 5, finished: false }, Search { entity: 6, finished: true }];
    let mut workspaces = vec![];
    assert_eq!(setup_stage(false, &searches), SetupStage::Searching);
    assert_eq!(
        finish_setup(false, &searches, &mut workspaces, &vec![]),
        vec![Command::SpawnWindows { source: 6 }, Command::Despawn(6)]
    );
}

#[test]
fn setup_refreshes_and_focuses() {
    let windows = vec![
        window(11, 1),
        window(12, 2),
        WindowEntry { entity: 13, id: 3, unmanaged: Some(Unmanaged::Floating), minimized: false },
        WindowEntry { entity: 14, id: 4, unmanaged: None, minimized: true },
        window(15, 5),
    ];
    let mut workspaces = vec![
        Workspace {
            strip: LayoutStrip::from_columns(1, vec![vec![12], vec![15]]),
            active: true,
            reported: Some(vec![1, 2, 3, 4, 99]),
        },
        Workspace {
            strip: LayoutStrip::from_columns(2, vec![vec![11]]),
            active: true,
            reported: None,
        },
        Workspace { strip: LayoutStrip::new(3), active: false, reported: Some(vec![5]) },
    ];
    assert_eq!(setup_stage(false, &vec![]), SetupStage::Refreshing);
    assert_eq!(
        finish_setup(false, &vec![], &mut workspaces, &windows),
        vec![Command::MarkMinimized(14), Command::Focus(12), Command::FinishInitializing]
    );
    assert_eq!(workspaces[0].strip, LayoutStrip::from_columns(1, vec![vec![12], vec![11]]));
    assert_eq!(workspaces[1].strip.all_windows(), vec![11]);
    assert_eq!(workspaces[2].strip.all_windows(), vec![15]);
}

#[test]
fn setup_of_an_empty_active_workspace_focuses_nothing() {
    let mut workspaces =
        vec![Workspace { strip: LayoutStrip::new(1), active: true, reported: Some(vec![]) }];
    assert_eq!(
        finish_setup(false, &vec![], &mut workspaces, &vec![]),
        vec![Command::FinishInitializing]
    );
}

#[test]
fn windows_are_found_by_number() {
    let floating =
        WindowEntry { entity: 1, id: 7, unmanaged: Some(Unmanaged::Floating), minimized: false };
    let windows = vec![floating, window(2, 7), window(3, 8)];
    assert_eq!(find(&windows, 7), Some(floating));
    assert_eq!(find_managed(&windows, 7), Some(window(2, 7)));
    assert_eq!(find(&windows, 9), None);
    assert_eq!(find_managed(&windows, 9), None);
}
