use window_systems::dispatch::{
    dispatch_toplevel_triggers, gather_initial_processes, gather_step, pump_events, pump_step,
    Dispatch, Initial, InitialAction, InitialEvent, PumpAction, Pumped, Receipt,
};
use window_systems::events::Event;

#[test]
fn events_are_dispatched() {
    let events = vec![
        Event::Command,
        Event::WindowCreated { readable: true },
        Event::WindowCreated { readable: false },
        Event::SpaceChanged,
        Event::WindowTitleChanged { window_id: 1 },
        Event::MenuClosed { window_id: 1 },
        Event::DisplayResized { display_id: 1 },
        Event::DisplayConfigured { display_id: 1 },
        Event::SystemWoke,
        Event::WindowMoved { window_id: 1 },
        Event::Other,
    ];
    assert_eq!(
        dispatch_toplevel_triggers(&events, false),
        vec![
            Dispatch::RunCommand,
            Dispatch::SpawnWindow,
            Dispatch::Ignore,
            Dispatch::Forward,
            Dispatch::Ignore,
            Dispatch::Ignore,
            Dispatch::Ignore,
            Dispatch::Ignore,
            Dispatch::Ignore,
            Dispatch::Forward,
            Dispatch::Forward,
        ]
    );
}

#[test]
fn polling_stops_when_notifications_arrive() {
    let events = vec![Event::SpaceChanged, Event::DisplayChanged];
    assert_eq!(
        dispatch_toplevel_triggers(&events, true),
        vec![Dispatch::StopPollingAndForward, Dispatch::Forward]
    );
}

#[test]
fn events_are_drained_until_there_is_none() {
    let mut timeout = 40;
    let receipts = vec![
        Receipt::Received(Event::SpaceChanged),
        Receipt::Received(Event::Other),
        Receipt::TimedOut,
        Receipt::Received(Event::Exit),
    ];
    assert_eq!(
        pump_events(&mut timeout, &receipts),
        Pumped { forwarded: 2, end: PumpAction::Wait }
    );
    assert_eq!(timeout, 2);
}

#[test]
fn the_wait_grows_up_to_a_limit() {
    let mut timeout = 0;
    for expected in 1..=501 {
        assert_eq!(pump_step(&mut timeout, Receipt::TimedOut), PumpAction::Wait);
        assert_eq!(timeout, expected);
    }
    assert_eq!(pump_step(&mut timeout, Receipt::TimedOut), PumpAction::Wait);
    assert_eq!(timeout, 501);
    assert_eq!(pump_step(&mut timeout, Receipt::Received(Event::Other)), PumpAction::Forward);
    assert_eq!(timeout, 1);
}

#[test]
fn exit_and_disconnection_end_the_program() {
    let mut timeout = 7;
    assert_eq!(
        pump_events(&mut timeout, &vec![Receipt::Received(Event::Exit)]),
        Pumped { forwarded: 0, end: PumpAction::Exit }
    );
    assert_eq!(
        pump_events(&mut timeout, &vec![Receipt::Disconnected]),
        Pumped { forwarded: 0, end: PumpAction::Exit }
    );
    assert_eq!(timeout, 7);
    assert_eq!(
        pump_events(&mut timeout, &vec![Receipt::Received(Event::Other)]),
        Pumped { forwarded: 1, end: PumpAction::Forward }
    );
    assert_eq!(timeout, 1);
}

fn announced(event: Event) -> InitialEvent {
    InitialEvent { event, observable: true }
}

#[test]
fn initial_processes_come_latest_first() {
    let events = vec![
        announced(Event::ApplicationLaunched),
        announced(Event::InitialConfig),
        InitialEvent { event: Event::ApplicationLaunched, observable: false },
        announced(Event::Other),
        announced(Event::ApplicationLaunched),
        announced(Event::InitialConfig),
        announced(Event::ProcessesLoaded),
        announced(Event::ApplicationLaunched),
        announced(Event::InitialConfig),
    ];
    assert_eq!(
        gather_initial_processes(&events),
        Initial { config: Some(5), spawn: vec![4, 0] }
    );
}

#[test]
fn an_exit_ends_the_start() {
    let events = vec![announced(Event::Exit), announced(Event::ApplicationLaunched)];
    assert_eq!(gather_initial_processes(&events), Initial { config: None, spawn: vec![] });
}

#[test]
fn what_initial_events_are_for() {
    assert_eq!(gather_step(Event::ProcessesLoaded), InitialAction::Stop);
    assert_eq!(gather_step(Event::Exit), InitialAction::Stop);
    assert_eq!(gather_step(Event::ApplicationLaunched), InitialAction::Launch);
    assert_eq!(gather_step(Event::InitialConfig), InitialAction::Configure);
    assert_eq!(gather_step(Event::SpaceChanged), InitialAction::Stray);
}
