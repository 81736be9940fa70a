use window_systems::commands::Command;
use window_systems::displays::{
    add_display, remove_display, DisplayEntry, PresentDisplay, StripEntry,
};
use window_systems::geometry::{Display, Frame, Placement, Point, Size};
use window_systems::orphans::{
    find_orphaned_workspaces, is_recoverable, matching_orphan, AttachedStrip, DisplayEntity, Orphan,
    RatedWindow, Recovery,
};
use window_systems::strip::LayoutStrip;
use window_systems::windows::Unmanaged;

fn display(id: u32, width: i64, height: i64) -> Display<i64> {
    Display {
        id,
        bounds: Frame { origin: Point { x: 0, y: 0 }, size: Size { width, height } },
        menubar_height: 20,
    }
}

fn rated(entity: u64, id: i32, unmanaged: Option<Unmanaged>, width_ratio: i64) -> RatedWindow<i64> {
    RatedWindow { entity, id, unmanaged, width_ratio }
}

fn orphan(entity: u64, id: u64, columns: Vec<Vec<u64>>) -> Orphan {
    Orphan { entity, strip: LayoutStrip::from_columns(id, columns) }
}

#[test]
fn an_orphan_comes_back() {
    let orphans = vec![orphan(50, 9, vec![]), orphan(51, 7, vec![vec![1, 2], vec![3]])];
    let strips = vec![
        AttachedStrip { entity: 60, id: 8, parent: 200, reported: Some(vec![31]) },
        AttachedStrip {
            entity: 61,
            id: 7,
            parent: 200,
            reported: Some(vec![11, 31, 32, 33, 77, 13]),
        },
    ];
    let windows = vec![
        rated(1, 11, Some(Unmanaged::Floating), 2),
        rated(2, 12, None, 3),
        rated(31, 31, Some(Unmanaged::Floating), 1),
        rated(32, 32, Some(Unmanaged::Minimized), 1),
        rated(33, 33, None, 1),
        rated(34, 34, Some(Unmanaged::Floating), 1),
    ];
    let displays = vec![
        DisplayEntity { entity: 100, display: display(1, 10, 10) },
        DisplayEntity { entity: 200, display: display(4, 1000, 800) },
    ];
    assert_eq!(
        find_orphaned_workspaces(&orphans, &strips, &windows, &displays),
        vec![
            Recovery::Merge { orphan: 51, into: 61 },
            Recovery::Despawn(51),
            Recovery::Place(Placement::Resize { entity: 1, width: 2000, height: 800, display_id: 4 }),
            Recovery::Place(Placement::Resize { entity: 2, width: 3000, height: 800, display_id: 4 }),
            Recovery::Place(Placement::Reposition { entity: 31, x: 0, y: 0, display_id: 4 }),
        ]
    );
}

#[test]
fn an_orphan_stays_where_its_display_is_unknown() {
    let orphans = vec![orphan(51, 7, vec![])];
    let strips = vec![AttachedStrip { entity: 61, id: 7, parent: 300, reported: Some(vec![]) }];
    let displays = vec![DisplayEntity { entity: 200, display: display(4, 1000, 800) }];
    assert_eq!(find_orphaned_workspaces(&orphans, &strips, &vec![], &displays), vec![]);
    assert!(!is_recoverable(&strips[0], &orphans, &displays));
}

#[test]
fn an_orphan_comes_back_without_a_listing() {
    let orphans = vec![orphan(51, 7, vec![]), orphan(52, 7, vec![])];
    let strips = vec![AttachedStrip { entity: 61, id: 7, parent: 200, reported: None }];
    let displays = vec![DisplayEntity { entity: 200, display: display(4, 1000, 800) }];
    assert_eq!(matching_orphan(&orphans, 7), Some(0));
    assert_eq!(matching_orphan(&orphans, 8), None);
    assert!(is_recoverable(&strips[0], &orphans, &displays));
    assert_eq!(
        find_orphaned_workspaces(&orphans, &strips, &vec![], &displays),
        vec![Recovery::Merge { orphan: 51, into: 61 }, Recovery::Despawn(51)]
    );
}

#[test]
fn the_removal_of_a_display_is_undone() {
    let columns = vec![vec![1, 2], vec![3]];
    let entries = vec![StripEntry { entity: 51, id: 7, parent: 100, label: String::from("s") }];
    let known = vec![DisplayEntry { entity: 100, id: 3 }];
    let removal = remove_display(3, &entries, &known);
    assert_eq!(removal.len(), 3);
    assert!(matches!(removal[0], Command::InsertTimeout { entity: 51, .. }));
    assert_eq!(removal[1], Command::Detach { child: 51, parent: 100 });
    assert_eq!(removal[2], Command::Despawn(100));

    let present = vec![PresentDisplay { id: 3, workspaces: vec![7] }];
    assert_eq!(
        add_display(3, &present),
        vec![Command::SpawnDisplay { present: 0, workspaces: vec![7] }]
    );

    let orphans = vec![orphan(51, 7, columns.clone())];
    let attached = vec![AttachedStrip { entity: 61, id: 7, parent: 200, reported: None }];
    let displays = vec![DisplayEntity { entity: 200, display: display(3, 1000, 800) }];
    assert_eq!(
        find_orphaned_workspaces(&orphans, &attached, &vec![], &displays),
        vec![Recovery::Merge { orphan: 51, into: 61 }, Recovery::Despawn(51)]
    );
    let mut strip = LayoutStrip::new(7);
    strip.merge(&orphans[0].strip);
    assert_eq!(strip, LayoutStrip::from_columns(7, columns));
}
