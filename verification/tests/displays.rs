use window_systems::commands::Command;
use window_systems::displays::{
    active_display_change, add_display, display_changes_watcher, displays_rearranged,
    gather_displays, move_display, remove_display, workspace_change_watcher, DisplayEntry,
    GatheredDisplay, PresentDisplay, Rearrangement, SpawnedDisplay, StripEntry, WatchedDisplay,
};
use window_systems::events::Event;
use window_systems::text::to_decimal;
use window_systems::timeouts::{Span, Timeout};

fn gathered(id: u32, workspaces: Vec<u64>, active_space: Option<u64>) -> GatheredDisplay {
    GatheredDisplay { id, workspaces, active_space }
}

#[test]
fn displays_are_gathered() {
    let present =
        vec![gathered(1, vec![10, 11], Some(11)), gathered(2, vec![20], Some(11))];
    assert_eq!(
        gather_displays(Some(2), &present),
        vec![
            SpawnedDisplay { active: false, strips: vec![(10, false), (11, true)] },
            SpawnedDisplay { active: true, strips: vec![(20, false)] },
        ]
    );
}

#[test]
fn no_displays_without_an_active_one() {
    assert_eq!(gather_displays(None, &vec![gathered(1, vec![10], Some(10))]), vec![]);
}

#[test]
fn all_displays_are_gathered_where_the_shown_workspace_is_unknown() {
    let present = vec![
        gathered(1, vec![10], Some(10)),
        gathered(2, vec![20], None),
        gathered(3, vec![30], Some(10)),
    ];
    assert_eq!(
        gather_displays(Some(3), &present),
        vec![
            SpawnedDisplay { active: false, strips: vec![(10, true)] },
            SpawnedDisplay { active: false, strips: vec![] },
            SpawnedDisplay { active: true, strips: vec![(30, false)] },
        ]
    );
}

#[test]
fn changes_of_the_active_display_are_announced() {
    let displays =
        vec![WatchedDisplay { id: 1, active: true }, WatchedDisplay { id: 2, active: false }];
    assert_eq!(active_display_change(None, &displays), None);
    assert_eq!(active_display_change(Some(1), &displays), None);
    assert_eq!(active_display_change(Some(2), &displays), Some(Event::DisplayChanged));
    assert_eq!(
        active_display_change(Some(3), &displays),
        Some(Event::DisplayAdded { display_id: 3 })
    );
}

#[test]
fn removed_displays_are_announced() {
    let displays =
        vec![WatchedDisplay { id: 1, active: true }, WatchedDisplay { id: 2, active: false }];
    assert_eq!(
        display_changes_watcher(Some(2), &displays, &vec![2]),
        vec![
            Command::Trigger(Event::DisplayChanged),
            Command::Trigger(Event::DisplayRemoved { display_id: 1 }),
        ]
    );
    assert_eq!(
        display_changes_watcher(Some(3), &displays, &vec![3, 1, 2]),
        vec![Command::Trigger(Event::DisplayAdded { display_id: 3 })]
    );
    assert_eq!(
        display_changes_watcher(Some(1), &displays, &vec![1]),
        vec![Command::Trigger(Event::DisplayRemoved { display_id: 2 })]
    );
    assert_eq!(display_changes_watcher(Some(1), &displays, &vec![2, 1]), vec![]);
    assert_eq!(display_changes_watcher(None, &displays, &vec![]), vec![]);
}

#[test]
fn changes_of_the_workspace_are_announced_once() {
    let mut space = 0;
    assert_eq!(workspace_change_watcher(&mut space, Some(4)), Some(Event::SpaceChanged));
    assert_eq!(space, 4);
    assert_eq!(workspace_change_watcher(&mut space, Some(4)), None);
    assert_eq!(workspace_change_watcher(&mut space, None), None);
    assert_eq!(space, 4);
}

fn present() -> Vec<PresentDisplay> {
    vec![
        PresentDisplay { id: 1, workspaces: vec![10] },
        PresentDisplay { id: 2, workspaces: vec![20, 21] },
    ]
}

fn known() -> Vec<DisplayEntry> {
    vec![DisplayEntry { entity: 100, id: 1 }, DisplayEntry { entity: 200, id: 3 }]
}

fn strips() -> Vec<StripEntry> {
    vec![
        StripEntry { entity: 5, id: 10, parent: 100, label: String::from("a") },
        StripEntry { entity: 6, id: 20, parent: 200, label: String::from("b") },
        StripEntry { entity: 7, id: 12345, parent: 100, label: String::from("c, d") },
    ]
}

fn orphaned(entity: u64, message: &str) -> Vec<Command> {
    vec![
        Command::InsertTimeout {
            entity,
            timeout: Timeout::new(Span::from_secs(30), Some(String::from(message))),
        },
        Command::Detach { child: entity, parent: 100 },
    ]
}

fn removal_of_first() -> Vec<Command> {
    let mut commands =
        orphaned(5, "Orphaned strip 10 (a) could not be re-inserted after 30s.");
    commands.extend(orphaned(
        7,
        "Orphaned strip 12345 (c, d) could not be re-inserted after 30s.",
    ));
    commands.push(Command::Despawn(100));
    commands
}

#[test]
fn an_added_display_is_spawned() {
    assert_eq!(
        add_display(2, &present()),
        vec![Command::SpawnDisplay { present: 1, workspaces: vec![20, 21] }]
    );
    assert_eq!(add_display(9, &present()), vec![]);
}

#[test]
fn a_removed_display_leaves_its_strips() {
    assert_eq!(remove_display(1, &strips(), &known()), removal_of_first());
    assert_eq!(remove_display(9, &strips(), &known()), vec![]);
}

#[test]
fn a_moved_display_is_replaced() {
    assert_eq!(
        move_display(1, &known(), &present()),
        vec![Command::ReplaceDisplay { display: 100, present: 0 }]
    );
    assert_eq!(move_display(3, &known(), &present()), vec![]);
    assert_eq!(move_display(2, &known(), &present()), vec![]);
}

#[test]
fn rearranged_displays_have_changed() {
    let event = |event| Rearrangement { event, present: present() };
    let events = vec![
        event(Event::DisplayAdded { display_id: 1 }),
        event(Event::SpaceChanged),
        event(Event::DisplayRemoved { display_id: 1 }),
        event(Event::DisplayMoved { display_id: 1 }),
        event(Event::DisplayAdded { display_id: 9 }),
    ];
    let changed = || Command::Trigger(Event::DisplayChanged);
    let mut removal = removal_of_first();
    removal.push(changed());
    assert_eq!(
        displays_rearranged(&events, &strips(), &known()),
        vec![
            vec![Command::SpawnDisplay { present: 0, workspaces: vec![10] }, changed()],
            vec![],
            removal,
            vec![Command::ReplaceDisplay { display: 100, present: 0 }, changed()],
            vec![changed()],
        ]
    );
}

#[test]
fn numbers_in_decimal() {
    assert_eq!(to_decimal(0), "0");
    assert_eq!(to_decimal(9), "9");
    assert_eq!(to_decimal(10), "10");
    assert_eq!(to_decimal(1234567890), "1234567890");
    assert_eq!(to_decimal(u64::MAX), "18446744073709551615");
}
