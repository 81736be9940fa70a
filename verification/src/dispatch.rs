//! Receiving events and handing them on.
use crate::events::Event;
use crate::sequences::{
    find_index, first_where, lemma_first_where, lemma_first_where_is, lemma_first_where_none,
};
use vstd::prelude::*;

verus! {

/// What becomes of an event.
#[derive(Clone, Copy, Debug, PartialEq, Eq, Structural)]
pub enum Dispatch {
    /// The user's command is carried out.
    RunCommand,
    /// The window that was made of the event's element is spawned.
    SpawnWindow,
    /// Notifications arrive after all: polling for changes stops, and the window manager gets the
    /// event.
    StopPollingAndForward,
    /// The window manager gets the event.
    Forward,
    /// Nothing.
    Ignore,
}

/// What becomes of an event, where changes are polled for or not.
pub open spec fn dispatched(event: Event, polling: bool) -> Dispatch {
    match event {
        Event::Command => Dispatch::RunCommand,
        Event::WindowCreated { readable } => if readable {
            Dispatch::SpawnWindow
        } else {
            Dispatch::Ignore
        },
        Event::SpaceChanged => if polling {
            Dispatch::StopPollingAndForward
        } else {
            Dispatch::Forward
        },
        Event::WindowTitleChanged { .. }
        | Event::MenuClosed { .. }
        | Event::DisplayResized { .. }
        | Event::DisplayConfigured { .. }
        | Event::SystemWoke => Dispatch::Ignore,
        _ => Dispatch::Forward,
    }
}

/// Decides what becomes of an event.
fn dispatch(event: Event, polling: bool) -> (r: Dispatch)
    ensures
        r == dispatched(event, polling),
{
    match event {
        Event::Command => Dispatch::RunCommand,
        Event::WindowCreated { readable } => if readable {
            Dispatch::SpawnWindow
        } else {
            Dispatch::Ignore
        },
        Event::SpaceChanged => if polling {
            Dispatch::StopPollingAndForward
        } else {
            Dispatch::Forward
        },
        Event::WindowTitleChanged { .. }
        | Event::MenuClosed { .. }
        | Event::DisplayResized { .. }
        | Event::DisplayConfigured { .. }
        | Event::SystemWoke => Dispatch::Ignore,
        _ => Dispatch::Forward,
    }
}

/// Decides, event by event, what becomes of them. `polling` tells whether changes of workspaces
/// and displays are polled for.
pub fn dispatch_toplevel_triggers(events: &Vec<Event>, polling: bool) -> (r: Vec<Dispatch>)
    ensures
        r@ == events@.map_values(|event: Event| dispatched(event, polling)),
{
    let mut r: Vec<Dispatch> = Vec::new();
    for i in 0..events.len()
        invariant
            r@ == events@.take(i as int).map_values(|event: Event| dispatched(event, polling)),
    {
        r.push(dispatch(events[i], polling));
        assert(r@ =~= events@.take(i + 1).map_values(|event: Event| dispatched(event, polling)));
    }
    assert(events@.take(events@.len() as int) =~= events@);
    r
}

/// Polling stops only when a change of the workspace has been announced while it was going on;
/// every such event is still handed on.
pub proof fn law_polling_stops_on_notice(event: Event, polling: bool)
    ensures
        dispatched(event, polling) == Dispatch::StopPollingAndForward <==> polling && event
            == Event::SpaceChanged,
        !polling && event == Event::SpaceChanged ==> dispatched(event, polling)
            == Dispatch::Forward,
{
}

/// The time to wait for events that is exceeded by one step at most, in milliseconds.
pub const LOOP_MAX_TIMEOUT_MS: u32 = 500;

/// How much longer to wait when nothing happens, in milliseconds.
pub const LOOP_TIMEOUT_STEP: u32 = 1;

/// What asking for the next event came to.
#[derive(Clone, Copy, Debug, PartialEq, Eq, Structural)]
pub enum Receipt {
    Received(Event),
    /// There was none in time.
    TimedOut,
    /// There will be no more.
    Disconnected,
}

/// What is done with a receipt.
#[derive(Clone, Copy, Debug, PartialEq, Eq, Structural)]
pub enum PumpAction {
    /// The event is handed on, and the next one asked for.
    Forward,
    /// The program ends.
    Exit,
    /// The events are drained for now.
    Wait,
}

/// What is done with a receipt.
pub open spec fn pumped(receipt: Receipt) -> PumpAction {
    match receipt {
        Receipt::Received(Event::Exit) | Receipt::Disconnected => PumpAction::Exit,
        Receipt::Received(_) => PumpAction::Forward,
        Receipt::TimedOut => PumpAction::Wait,
    }
}

/// How long to wait for events after a receipt: shortest after an event; a little longer each time
/// there is none, up to a limit.
pub open spec fn next_timeout(timeout: u32, receipt: Receipt) -> u32 {
    match pumped(receipt) {
        PumpAction::Forward => LOOP_TIMEOUT_STEP,
        PumpAction::Exit => timeout,
        PumpAction::Wait => if timeout < LOOP_MAX_TIMEOUT_MS {
            (timeout + LOOP_TIMEOUT_STEP) as u32
        } else {
            (LOOP_MAX_TIMEOUT_MS + LOOP_TIMEOUT_STEP) as u32
        },
    }
}

/// Takes one receipt.
pub fn pump_step(timeout: &mut u32, receipt: Receipt) -> (action: PumpAction)
    ensures
        action == pumped(receipt),
        *final(timeout) == next_timeout(*old(timeout), receipt),
{
    match receipt {
        Receipt::Received(Event::Exit) | Receipt::Disconnected => PumpAction::Exit,
        Receipt::Received(_) => {
            *timeout = LOOP_TIMEOUT_STEP;
            PumpAction::Forward
        },
        Receipt::TimedOut => {
            let bounded: u32 = if *timeout < LOOP_MAX_TIMEOUT_MS {
                *timeout
            } else {
                LOOP_MAX_TIMEOUT_MS
            };
            *timeout = bounded + LOOP_TIMEOUT_STEP;
            PumpAction::Wait
        },
    }
}

/// What draining the events came to.
#[derive(Clone, Copy, Debug, PartialEq, Eq, Structural)]
pub struct Pumped {
    /// How many events, from the first receipt on, are handed on.
    pub forwarded: usize,
    /// What ended the draining; `Forward` where the receipts did not.
    pub end: PumpAction,
}

/// How many events are handed on before the draining ends.
pub open spec fn forwarded(receipts: Seq<Receipt>) -> int {
    match first_where(receipts, |r: Receipt| pumped(r) != PumpAction::Forward) {
        Some(k) => k,
        None => receipts.len() as int,
    }
}

/// How long to wait for events after draining them.
pub open spec fn drained_timeout(timeout: u32, receipts: Seq<Receipt>) -> u32 {
    let k = forwarded(receipts);
    let busy = if k > 0 {
        LOOP_TIMEOUT_STEP
    } else {
        timeout
    };
    if k < receipts.len() {
        next_timeout(busy, receipts[k])
    } else {
        busy
    }
}

/// Drains the events: hands them on until there is none in time or the program is to end.
pub fn pump_events(timeout: &mut u32, receipts: &Vec<Receipt>) -> (r: Pumped)
    ensures
        r.forwarded == forwarded(receipts@),
        r.end == if forwarded(receipts@) < receipts@.len() {
            pumped(receipts@[forwarded(receipts@)])
        } else {
            PumpAction::Forward
        },
        *final(timeout) == drained_timeout(*old(timeout), receipts@),
{
    let ghost p = |r: Receipt| pumped(r) != PumpAction::Forward;
    for i in 0..receipts.len()
        invariant
            p == (|r: Receipt| pumped(r) != PumpAction::Forward),
            forall|j: int| 0 <= j < i ==> !p(#[trigger] receipts@[j]),
            *timeout == if i > 0 {
                LOOP_TIMEOUT_STEP
            } else {
                *old(timeout)
            },
    {
        let end = pump_step(timeout, receipts[i]);
        if end != PumpAction::Forward {
            proof {
                lemma_first_where_is(receipts@, p, i as int);
            }
            return Pumped { forwarded: i, end };
        }
    }
    proof {
        lemma_first_where_none(receipts@, p);
    }
    Pumped { forwarded: receipts.len(), end: PumpAction::Forward }
}

/// Once within its limits, the time to wait stays within them, whatever is received.
pub proof fn law_timeout_bounded(timeout: u32, receipts: Seq<Receipt>)
    requires
        timeout <= LOOP_MAX_TIMEOUT_MS + LOOP_TIMEOUT_STEP,
    ensures
        drained_timeout(timeout, receipts) <= LOOP_MAX_TIMEOUT_MS + LOOP_TIMEOUT_STEP,
{
}

/// The time to wait after a number of drains in which nothing was received.
pub open spec fn idle_timeout(timeout: u32, drains: nat) -> u32
    decreases drains,
{
    if drains == 0 {
        timeout
    } else {
        drained_timeout(idle_timeout(timeout, (drains - 1) as nat), seq![Receipt::TimedOut])
    }
}

/// While nothing happens, the time to wait grows by one step with each drain, up to the limit; and
/// an event brings it back to one step before the drain ends.
pub proof fn law_back_off(timeout: u32, drains: nat, event: Event)
    requires
        timeout <= LOOP_MAX_TIMEOUT_MS + LOOP_TIMEOUT_STEP,
        event != Event::Exit,
    ensures
        idle_timeout(timeout, drains) == if timeout + drains * LOOP_TIMEOUT_STEP
            <= LOOP_MAX_TIMEOUT_MS + LOOP_TIMEOUT_STEP {
            timeout + drains * LOOP_TIMEOUT_STEP
        } else {
            LOOP_MAX_TIMEOUT_MS + LOOP_TIMEOUT_STEP
        },
        drained_timeout(timeout, seq![Receipt::Received(event), Receipt::TimedOut])
            == LOOP_TIMEOUT_STEP + LOOP_TIMEOUT_STEP,
    decreases drains,
{
    let p = |r: Receipt| pumped(r) != PumpAction::Forward;
    let idle = seq![Receipt::TimedOut];
    lemma_first_where_is(idle, p, 0);
    let busy = seq![Receipt::Received(event), Receipt::TimedOut];
    lemma_first_where_is(busy, p, 1);
    if drains > 0 {
        law_back_off(timeout, (drains - 1) as nat, event);
    }
}

/// An event received at the start, and whether the process it launched can be observed.
#[derive(Clone, Copy, Debug, PartialEq, Eq, Structural)]
pub struct InitialEvent {
    pub event: Event,
    pub observable: bool,
}

/// What an event at the start is for.
#[derive(Clone, Copy, Debug, PartialEq, Eq, Structural)]
pub enum InitialAction {
    /// Everything has been announced.
    Stop,
    /// A process was running already.
    Launch,
    /// The configuration.
    Configure,
    /// Out of place.
    Stray,
}

/// What an event at the start is for.
pub open spec fn initial_action(event: Event) -> InitialAction {
    match event {
        Event::ProcessesLoaded | Event::Exit => InitialAction::Stop,
        Event::ApplicationLaunched => InitialAction::Launch,
        Event::InitialConfig => InitialAction::Configure,
        _ => InitialAction::Stray,
    }
}

/// Tells what an event at the start is for.
pub fn gather_step(event: Event) -> (action: InitialAction)
    ensures
        action == initial_action(event),
{
    match event {
        Event::ProcessesLoaded | Event::Exit => InitialAction::Stop,
        Event::ApplicationLaunched => InitialAction::Launch,
        Event::InitialConfig => InitialAction::Configure,
        _ => InitialAction::Stray,
    }
}

/// Whether an event ends the start.
pub open spec fn is_stop(event: InitialEvent) -> bool {
    initial_action(event.event) == InitialAction::Stop
}

/// Whether one of the events ends the start.
pub open spec fn stops(events: Seq<InitialEvent>) -> bool {
    exists|i: int| 0 <= i < events.len() && is_stop(#[trigger] events[i])
}

/// The events before the one that ends the start.
pub open spec fn announced(events: Seq<InitialEvent>) -> Seq<InitialEvent>
    recommends
        stops(events),
{
    match first_where(events, |e: InitialEvent| is_stop(e)) {
        Some(k) => events.take(k),
        None => events,
    }
}

/// The last configuration among events.
pub open spec fn last_config(events: Seq<InitialEvent>) -> Option<usize>
    decreases events.len(),
{
    if events.len() == 0 {
        None
    } else if initial_action(events.last().event) == InitialAction::Configure {
        Some((events.len() - 1) as usize)
    } else {
        last_config(events.drop_last())
    }
}

/// Whether an event announces a process that can be observed.
pub open spec fn spawns(event: InitialEvent) -> bool {
    initial_action(event.event) == InitialAction::Launch && event.observable
}

/// The processes among events that can be observed, the latest first.
pub open spec fn latest_first(events: Seq<InitialEvent>) -> Seq<usize>
    decreases events.len(),
{
    if events.len() == 0 {
        Seq::empty()
    } else if spawns(events.last()) {
        seq![(events.len() - 1) as usize] + latest_first(events.drop_last())
    } else {
        latest_first(events.drop_last())
    }
}

/// What the start comes to, by the places of the events.
#[derive(Clone, Debug, PartialEq, Eq)]
pub struct Initial {
    /// The configuration to be used.
    pub config: Option<usize>,
    /// The processes to be taken over, in order.
    pub spawn: Vec<usize>,
}

/// How many events come before the one that ends the start.
fn count_announced(events: &Vec<InitialEvent>) -> (count: usize)
    requires
        stops(events@),
    ensures
        count < events@.len(),
        is_stop(events@[count as int]),
        events@.take(count as int) == announced(events@),
{
    let ghost p = |e: InitialEvent| is_stop(e);
    proof {
        lemma_first_where(events@, p);
        let i = choose|i: int| 0 <= i < events@.len() && is_stop(#[trigger] events@[i]);
        assert(p(events@[i]));
    }
    let test = |e: &InitialEvent| -> (r: bool)
        ensures
            r == is_stop(*e),
    {
        gather_step(e.event) == InitialAction::Stop
    };
    match find_index(events, test, Ghost(p)) {
        Some(k) => k,
        None => events.len(),
    }
}

/// Gathers what is announced at the start, up to its end: the last configuration is used, and the
/// processes that can be observed are taken over, the latest first. The events do not run out before
/// the end of the start.
pub fn gather_initial_processes(events: &Vec<InitialEvent>) -> (initial: Initial)
    requires
        stops(events@),
    ensures
        initial.config == last_config(announced(events@)),
        initial.spawn@ == latest_first(announced(events@)),
{
    let count = count_announced(events);
    let mut config: Option<usize> = None;
    for i in 0..count
        invariant
            count <= events@.len(),
            config == last_config(events@.take(i as int)),
    {
        proof {
            let now = events@.take(i + 1);
            assert(now.drop_last() =~= events@.take(i as int));
            assert(now.last() == events@[i as int]);
        }
        if gather_step(events[i].event) == InitialAction::Configure {
            config = Some(i);
        }
    }
    let ghost all = announced(events@);
    let mut spawn: Vec<usize> = Vec::new();
    let mut left: usize = count;
    proof {
        assert(all.take(count as int) =~= all);
        assert(spawn@ + latest_first(all) =~= latest_first(all));
    }
    while left > 0
        invariant
            left <= count <= events@.len(),
            all == events@.take(count as int),
            spawn@ + latest_first(all.take(left as int)) == latest_first(all),
        decreases left,
    {
        let ghost now = all.take(left as int);
        let ghost before = spawn@;
        left = left - 1;
        let e = events[left];
        proof {
            assert(now.drop_last() =~= all.take(left as int));
            assert(now.last() == e);
        }
        if gather_step(e.event) == InitialAction::Launch && e.observable {
            spawn.push(left);
            assert(spawn@ + latest_first(all.take(left as int)) =~= before + latest_first(now));
        }
    }
    proof {
        assert(all.take(0).len() == 0);
        assert(spawn@ + Seq::<usize>::empty() =~= spawn@);
    }
    Initial { config, spawn }
}

/// A process is taken over exactly when it was announced before the end of the start and can be
/// observed; none is taken over twice, and later ones come first.
pub proof fn law_initial_processes(events: Seq<InitialEvent>, i: usize)
    requires
        events.len() <= usize::MAX,
    ensures
        latest_first(events).contains(i) <==> i < events.len() && spawns(events[i as int]),
        forall|a: int, b: int|
            0 <= a < b < latest_first(events).len() ==> latest_first(events)[a] > latest_first(
                events,
            )[b],
    decreases events.len(),
{
    if events.len() > 0 {
        let init = events.drop_last();
        let rest = latest_first(init);
        let all = latest_first(events);
        law_initial_processes(init, i);
        assert forall|k: int| 0 <= k < rest.len() implies #[trigger] rest[k] < init.len() by {
            law_initial_processes(init, rest[k]);
            assert(rest.contains(rest[k]));
        }
        if spawns(events.last()) {
            let first = (events.len() - 1) as usize;
            assert(all == seq![first] + rest);
            assert(all[0] == first);
            if rest.contains(i) {
                let k = rest.index_of(i);
                assert(all[k + 1] == i);
            }
            if all.contains(i) {
                let k = all.index_of(i);
                if k > 0 {
                    assert(rest[k - 1] == i);
                }
            }
        }
    }
}

} // verus!
