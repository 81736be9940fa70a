use window_systems::animation::{
    animate_resize_windows, animate_windows, Growth, Motion, MovingWindow, ResizingWindow,
};
use window_systems::commands::Command;
use window_systems::events::Event;
use window_systems::geometry::{
    find_display, find_window, ActiveDisplay, Display, DockPosition, Frame, PlacedWindow, Placement,
    Point, Reposition, Resize, Size,
};
use window_systems::layout::{
    expose_window, get_display_height, get_moving_window_frame, layout_bounds,
    position_layout_windows, reshuffle_layout_strip, window_swiper, window_update_frame,
    Arrangement, ColumnPosition, Swipe,
};
use window_systems::scalar::{Scalar, ScalarMeaning};
use window_systems::strip::LayoutStrip;
use window_systems::windows::WindowEntry;

#[derive(Clone, Copy, Debug, PartialEq)]
struct Px(f64);

impl ScalarMeaning for Px {
    fn sum(self, other: Px) -> Px {
        Px(self.0 + other.0)
    }
    fn difference(self, other: Px) -> Px {
        Px(self.0 - other.0)
    }
    fn product(self, other: Px) -> Px {
        Px(self.0 * other.0)
    }
    fn fourth(self) -> Px {
        Px(self.0 / 4.0)
    }
    fn negation(self) -> Px {
        Px(-self.0)
    }
    fn absolute(self) -> Px {
        Px(self.0.abs())
    }
    fn minimum(self, other: Px) -> Px {
        Px(self.0.min(other.0))
    }
    fn maximum(self, other: Px) -> Px {
        Px(self.0.max(other.0))
    }
    fn rounded_up(self) -> Px {
        Px(self.0.ceil())
    }
    fn less(self, other: Px) -> bool {
        self.0 < other.0
    }
    fn equal(self, other: Px) -> bool {
        self.0 == other.0
    }
    fn integer(n: i32) -> Px {
        Px(f64::from(n))
    }
}

impl Scalar for Px {
    fn plus(self, other: Px) -> Px {
        self.sum(other)
    }
    fn minus(self, other: Px) -> Px {
        self.difference(other)
    }
    fn times(self, other: Px) -> Px {
        self.product(other)
    }
    fn quarter(self) -> Px {
        self.fourth()
    }
    fn negated(self) -> Px {
        self.negation()
    }
    fn magnitude(self) -> Px {
        self.absolute()
    }
    fn least(self, other: Px) -> Px {
        self.minimum(other)
    }
    fn greatest(self, other: Px) -> Px {
        self.maximum(other)
    }
    fn ceiling(self) -> Px {
        self.rounded_up()
    }
    fn below(self, other: Px) -> bool {
        self.less(other)
    }
    fn same(self, other: Px) -> bool {
        self.equal(other)
    }
    fn whole(n: i32) -> Px {
        Px::integer(n)
    }
}

fn frame<C>(x: C, y: C, width: C, height: C) -> Frame<C> {
    Frame { origin: Point { x, y }, size: Size { width, height } }
}

fn active(dock: Option<DockPosition<i64>>, others: Vec<Display<i64>>) -> ActiveDisplay<i64> {
    ActiveDisplay {
        display: Display { id: 1, bounds: frame(0, 0, 1000, 800), menubar_height: 30 },
        dock,
        others,
    }
}

fn other() -> Display<i64> {
    Display { id: 2, bounds: frame(500, -900, 2000, 900), menubar_height: 0 }
}

fn placed(entity: u64, frame: Frame<i64>) -> PlacedWindow<i64> {
    PlacedWindow { entity, frame, reposition: None, resize: None }
}

fn to(x: i64, y: i64, display_id: u32) -> Option<Reposition<i64>> {
    Some(Reposition { origin: Point { x, y }, display_id })
}

fn sized(width: i64, height: i64, display_id: u32) -> Option<Resize<i64>> {
    Some(Resize { size: Size { width, height }, display_id })
}

#[test]
fn whole_points_saturate() {
    assert_eq!(i64::MAX.plus(1), i64::MAX);
    assert_eq!(i64::MIN.minus(1), i64::MIN);
    assert_eq!(i64::MAX.times(-2), i64::MIN);
    assert_eq!(i64::MIN.negated(), i64::MAX);
    assert_eq!(i64::MIN.magnitude(), i64::MAX);
    assert_eq!(7i64.quarter(), 1);
    assert_eq!((-7i64).quarter(), -2);
    assert_eq!(3i64.least(4), 3);
    assert_eq!(3i64.greatest(4), 4);
    assert_eq!(5i64.ceiling(), 5);
    assert!(3i64.below(4));
    assert!(3i64.same(3));
    assert_eq!(<i64 as Scalar>::whole(-3), -3);
}

#[test]
fn displays_and_windows_are_found() {
    let displays = vec![other(), active(None, vec![]).display];
    assert_eq!(find_display(&displays, 2), Some(other()));
    assert_eq!(find_display(&displays, 3), None);
    let windows = vec![placed(4, frame(1, 2, 3, 4))];
    assert_eq!(find_window(&windows, 4), Some(windows[0]));
    assert_eq!(find_window(&windows, 5), None);
}

#[test]
fn the_frame_of_a_moving_window() {
    let display = active(None, vec![]);
    let mut window = placed(4, frame(1, 2, 3, 4));
    window.reposition = to(10, 20, 1);
    window.resize = sized(30, 40, 2);
    assert_eq!(
        get_moving_window_frame(4, &display, &vec![window]),
        Some(frame(10, 20, 3, 4))
    );
    window.reposition = to(10, 20, 2);
    window.resize = sized(30, 40, 1);
    assert_eq!(
        get_moving_window_frame(4, &display, &vec![window]),
        Some(frame(1, 2, 30, 40))
    );
    assert_eq!(get_moving_window_frame(5, &display, &vec![window]), None);
}

#[test]
fn the_height_between_menu_bar_and_dock() {
    assert_eq!(get_display_height(&active(None, vec![])), 770);
    assert_eq!(get_display_height(&active(Some(DockPosition::Bottom(70)), vec![])), 700);
    assert_eq!(get_display_height(&active(Some(DockPosition::Left(70)), vec![])), 770);
    assert_eq!(
        layout_bounds(&active(Some(DockPosition::Bottom(70)), vec![])),
        frame(0, 0, 1000, 700)
    );
}

#[test]
fn a_layout_moves_and_resizes_what_differs() {
    let display = active(None, vec![]);
    let windows = vec![
        placed(1, frame(0, 30, 400, 770)),
        placed(2, frame(0, 30, 400, 770)),
        placed(3, frame(0, 30, 100, 770)),
    ];
    let layout = vec![
        (1, frame(0, 0, 400, 770)),
        (2, frame(400, 0, 400, 770)),
        (3, frame(0, 0, 200, 770)),
        (9, frame(0, 0, 1, 1)),
    ];
    assert_eq!(
        position_layout_windows(&layout, &display, &windows),
        vec![
            Placement::Reposition { entity: 2, x: 400, y: 30, display_id: 1 },
            Placement::Resize { entity: 3, width: 200, height: 770, display_id: 1 },
        ]
    );
}

#[test]
fn hidden_windows_are_nudged_down_below_another_display() {
    let windows =
        vec![placed(1, frame(0, 0, 400, 770)), placed(2, frame(0, 0, 400, 770))];
    let layout = vec![(1, frame(-390, 0, 400, 770)), (2, frame(989, 0, 400, 770))];
    assert_eq!(
        position_layout_windows(&layout, &active(None, vec![other()]), &windows),
        vec![
            Placement::Reposition { entity: 1, x: -390, y: 192, display_id: 1 },
            Placement::Reposition { entity: 2, x: 989, y: 30, display_id: 1 },
        ]
    );
    assert_eq!(
        position_layout_windows(&layout, &active(None, vec![]), &windows)[0],
        Placement::Reposition { entity: 1, x: -390, y: 30, display_id: 1 }
    );
}

#[test]
fn a_display_straight_above_counts_as_above() {
    let display = ActiveDisplay {
        display: Display { id: 1, bounds: frame(0, 0, 1000, 825), menubar_height: 25 },
        dock: None,
        others: vec![Display { id: 2, bounds: frame(0, -900, 1000, 900), menubar_height: 25 }],
    };
    let windows = vec![placed(1, frame(0, 25, 300, 800))];
    let layout = vec![(1, frame(-295, 0, 300, 800))];
    assert_eq!(
        position_layout_windows(&layout, &display, &windows),
        vec![Placement::Reposition { entity: 1, x: -295, y: 200, display_id: 1 }]
    );
}

#[test]
fn a_display_beside_or_below_is_not_above() {
    let windows = vec![placed(1, frame(0, 0, 400, 770))];
    let layout = vec![(1, frame(-390, 0, 400, 770))];
    for origin in [Point { x: 1000, y: 0 }, Point { x: 0, y: 800 }] {
        let mut beside = other();
        beside.bounds.origin = origin;
        assert_eq!(
            position_layout_windows(&layout, &active(None, vec![beside]), &windows),
            vec![Placement::Reposition { entity: 1, x: -390, y: 30, display_id: 1 }]
        );
    }
}

#[test]
fn a_settled_layout_asks_nothing() {
    let display = active(None, vec![]);
    let mut window = placed(1, frame(7, 7, 7, 7));
    window.reposition = to(100, 30, 1);
    window.resize = sized(400, 770, 1);
    let layout = vec![(1, frame(100, 0, 400, 770))];
    assert_eq!(position_layout_windows(&layout, &display, &vec![window]), vec![]);
}

#[test]
fn windows_are_exposed() {
    let display = active(None, vec![other()]);
    let expose = |frame: Frame<i64>, dock| expose_window(&frame, &display, None, None, dock);
    assert_eq!(expose(frame(900, 5, 300, 9), None), frame(700, 5, 300, 9));
    assert_eq!(expose(frame(-20, 5, 300, 9), None), frame(0, 5, 300, 9));
    assert_eq!(expose(frame(50, 5, 300, 9), None), frame(50, 5, 300, 9));
    assert_eq!(
        expose(frame(-20, 5, 300, 9), Some(DockPosition::Left(60))),
        frame(60, 5, 300, 9)
    );
    assert_eq!(
        expose(frame(900, 5, 300, 9), Some(DockPosition::Right(60))),
        frame(640, 5, 300, 9)
    );
    assert_eq!(
        expose(frame(900, 5, 300, 9), Some(DockPosition::Bottom(60))),
        frame(700, 5, 300, 9)
    );
    assert_eq!(expose(frame(900, 5, 300, 9), Some(DockPosition::Hidden)), frame(700, 5, 300, 9));
}

#[test]
fn a_dock_bounds_an_exposed_window() {
    let display = active(None, vec![]);
    let expose = |x, width, dock| {
        expose_window(&frame(x, 5, width, 9), &display, None, None, dock).origin.x
    };
    for x in [-500, 0, 30, 500, 680, 900] {
        let free = expose(x, 300, None);
        assert_eq!(expose(x, 300, Some(DockPosition::Left(60))), free.max(60));
        assert_eq!(expose(x, 300, Some(DockPosition::Right(60))), free.min(640));
        assert_eq!(expose(x, 300, Some(DockPosition::Bottom(60))), free);
    }
}

#[test]
fn exposing_twice_is_exposing_once() {
    let display = active(None, vec![]);
    let docks = [
        None,
        Some(DockPosition::Left(60)),
        Some(DockPosition::Right(60)),
        Some(DockPosition::Left(900)),
        Some(DockPosition::Right(900)),
        Some(DockPosition::Hidden),
    ];
    for dock in docks {
        for x in [-500, 0, 30, 500, 900] {
            let once = expose_window(&frame(x, 5, 300, 9), &display, None, None, dock);
            assert_eq!(expose_window(&once, &display, None, None, dock), once);
        }
    }
}

#[test]
fn exposing_twice_is_exposing_once_at_the_ends_of_the_range() {
    let display = active(None, vec![]);
    for dock in [None, Some(DockPosition::Left(60)), Some(DockPosition::Right(i64::MAX))] {
        for x in [i64::MIN, i64::MAX] {
            let once = expose_window(&frame(x, 5, 300, 9), &display, None, None, dock);
            assert_eq!(expose_window(&once, &display, None, None, dock), once);
        }
    }
}

#[test]
fn a_dock_bounds_a_fractional_window() {
    let display = ActiveDisplay {
        display: Display {
            id: 1,
            bounds: frame(Px(0.0), Px(0.0), Px(1000.5), Px(800.0)),
            menubar_height: Px(30.0),
        },
        dock: None,
        others: vec![],
    };
    let expose = |x: f64, dock| {
        let start = frame(Px(x), Px(5.0), Px(300.25), Px(9.0));
        expose_window(&start, &display, None, None, dock).origin.x
    };
    assert_eq!(expose(-20.0, Some(DockPosition::Left(Px(60.5)))), Px(60.5));
    assert_eq!(expose(900.0, None), Px(700.25));
    assert_eq!(expose(900.0, Some(DockPosition::Right(Px(60.5)))), Px(639.75));
    assert_eq!(expose(900.0, Some(DockPosition::Bottom(Px(60.5)))), Px(700.25));
}

#[test]
fn a_moving_window_is_exposed_where_it_goes() {
    let display = active(None, vec![other()]);
    let start = frame(0, 0, 300, 9);
    assert_eq!(
        expose_window(&start, &display, to(1500, 4, 2), sized(600, 8, 2), None),
        frame(1400, 4, 600, 8)
    );
    assert_eq!(
        expose_window(&start, &display, to(1500, 4, 3), None, None),
        frame(700, 4, 300, 9)
    );
}

fn columns() -> Vec<ColumnPosition<i64>> {
    vec![
        ColumnPosition { top: Some(1), position: 0 },
        ColumnPosition { top: Some(2), position: 400 },
        ColumnPosition { top: None, position: 900 },
    ]
}

#[test]
fn a_swipe_moves_the_strip() {
    let windows = vec![placed(1, frame(-100, 30, 400, 770)), placed(2, frame(300, 30, 400, 770))];
    let sliding = vec![
        Swipe { entity: 2, delta: 3 },
        Swipe { entity: 3, delta: 1 },
        Swipe { entity: 1, delta: 0 },
    ];
    assert_eq!(
        window_swiper(&sliding, &active(None, vec![]), &windows, &columns()),
        vec![
            Arrangement::RemoveSwipe(2),
            Arrangement::Arrange(3100),
            Arrangement::RemoveSwipe(3),
            Arrangement::RemoveSwipe(1),
            Arrangement::Arrange(100),
        ]
    );
}

#[test]
fn the_strip_is_laid_out_around_a_window() {
    let strip = LayoutStrip::from_columns(1, vec![vec![1], vec![2, 3]]);
    let windows = vec![
        placed(1, frame(-100, 30, 400, 770)),
        placed(3, frame(800, 30, 500, 770)),
        placed(4, frame(0, 30, 400, 770)),
    ];
    let markers = vec![1, 3, 4, 5];
    assert_eq!(
        reshuffle_layout_strip(&markers, &active(None, vec![]), &windows, &strip, &columns()),
        vec![
            Arrangement::RemoveReshuffle(1),
            Arrangement::Arrange(0),
            Arrangement::RemoveReshuffle(3),
            Arrangement::Arrange(-100),
            Arrangement::RemoveReshuffle(4),
            Arrangement::RemoveReshuffle(5),
        ]
    );
}

#[test]
fn frames_are_read_anew() {
    let window = |entity, id| WindowEntry { entity, id, unmanaged: None, minimized: false };
    let windows = vec![window(1, 11), window(2, 12)];
    let strip = LayoutStrip::from_columns(1, vec![vec![1]]);
    let events = vec![
        Event::WindowMoved { window_id: 11 },
        Event::WindowResized { window_id: 11 },
        Event::WindowResized { window_id: 12 },
        Event::WindowResized { window_id: 13 },
        Event::SpaceChanged,
    ];
    assert_eq!(
        window_update_frame(&events, &windows, &strip),
        vec![
            Command::UpdateFrame(1),
            Command::UpdateFrame(1),
            Command::Reshuffle(1),
            Command::UpdateFrame(2),
        ]
    );
}

fn moving(current: (i64, i64), target: (i64, i64), display_id: u32) -> Vec<MovingWindow<i64>> {
    vec![MovingWindow {
        entity: 4,
        current: Point { x: current.0, y: current.1 },
        target: Reposition { origin: Point { x: target.0, y: target.1 }, display_id },
    }]
}

fn narrow() -> Vec<Display<i64>> {
    vec![Display { id: 1, bounds: frame(0, 0, 10, 800), menubar_height: 30 }]
}

#[test]
fn a_window_moves_step_by_step() {
    let step = |x, y, arrived| {
        vec![Motion { entity: 4, x, y, bounds: frame(0, 0, 10, 800), arrived }]
    };
    assert_eq!(animate_windows(&moving((0, 100), (25, 45), 1), &narrow(), 1, 1), step(10, 90, false));
    assert_eq!(animate_windows(&moving((10, 90), (25, 45), 1), &narrow(), 1, 1), step(20, 80, false));
    assert_eq!(animate_windows(&moving((25, 54), (25, 45), 1), &narrow(), 1, 1), step(25, 45, true));
    assert_eq!(animate_windows(&moving((25, 55), (25, 45), 1), &narrow(), 1, 1), step(25, 45, true));
    assert_eq!(animate_windows(&moving((25, 36), (25, 28), 1), &narrow(), 1, 1), step(25, 30, true));
    assert_eq!(animate_windows(&moving((25, 30), (25, 0), 1), &narrow(), 1, 1), step(25, 30, false));
    assert_eq!(animate_windows(&moving((0, 0), (1, 1), 2), &narrow(), 1, 1), vec![]);
    assert_eq!(animate_windows(&moving((5, 40), (5, 40), 1), &narrow(), 1, 0), step(5, 40, true));
}

#[test]
fn a_window_grows_step_by_step() {
    let window = |current: (i64, i64), target: (i64, i64)| {
        vec![ResizingWindow {
            entity: 4,
            current: Size { width: current.0, height: current.1 },
            target: Resize { size: Size { width: target.0, height: target.1 }, display_id: 1 },
        }]
    };
    let step = |width, height, arrived| {
        vec![Growth { entity: 4, width, height, bounds: frame(0, 0, 10, 800), arrived }]
    };
    assert_eq!(
        animate_resize_windows(&window((100, 100), (300, 95)), &narrow(), 2, 1),
        step(120, 95, false)
    );
    assert_eq!(
        animate_resize_windows(&window((300, 10), (290, 0)), &narrow(), 2, 1),
        step(290, 0, true)
    );
    assert_eq!(
        animate_resize_windows(&window((300, 100), (320, 95)), &narrow(), 2, 1),
        step(320, 95, true)
    );
}

#[test]
fn a_window_arrives_in_as_many_steps_as_cover_the_distance() {
    for (distance, expected) in [(0, 1), (1, 1), (9, 1), (10, 1), (11, 2), (25, 3), (30, 3)] {
        let mut place = (distance, 100);
        let mut calls = 0;
        loop {
            calls += 1;
            let step = animate_windows(&moving(place, (0, 100), 1), &narrow(), 1, 1)[0];
            place = (step.x, step.y);
            if step.arrived {
                break;
            }
        }
        assert_eq!(place, (0, 100));
        assert_eq!(calls, expected);
    }
}

#[test]
fn a_window_one_step_away_arrives() {
    let bounds = frame(Px(0.0), Px(0.0), Px(1000.0), Px(800.0));
    let displays = vec![Display { id: 1, bounds, menubar_height: Px(25.0) }];
    let windows = vec![MovingWindow {
        entity: 4,
        current: Point { x: Px(0.0), y: Px(100.0) },
        target: Reposition { origin: Point { x: Px(250.0), y: Px(100.0) }, display_id: 1 },
    }];
    assert_eq!(
        animate_windows(&windows, &displays, Px(4.0), Px(0.0625)),
        vec![Motion { entity: 4, x: Px(250.0), y: Px(100.0), bounds, arrived: true }]
    );
}

#[test]
fn fractions_of_points_move_too() {
    let px = |x: f64, y: f64, width: f64, height: f64| frame(Px(x), Px(y), Px(width), Px(height));
    let displays =
        vec![Display { id: 1, bounds: px(0.0, 0.0, 1000.0, 800.0), menubar_height: Px(30.5) }];
    let windows = vec![MovingWindow {
        entity: 4,
        current: Point { x: Px(0.5), y: Px(30.5) },
        target: Reposition { origin: Point { x: Px(100.25), y: Px(20.0) }, display_id: 1 },
    }];
    let moves = animate_windows(&windows, &displays, Px(4.0), Px(0.0101));
    assert_eq!(
        moves,
        vec![Motion {
            entity: 4,
            x: Px(41.5),
            y: Px(30.5),
            bounds: px(0.0, 0.0, 1000.0, 800.0),
            arrived: false,
        }]
    );
    let display = ActiveDisplay {
        display: displays[0],
        dock: Some(DockPosition::Bottom(Px(9.5))),
        others: vec![],
    };
    assert_eq!(get_display_height(&display), Px(760.0));
}
