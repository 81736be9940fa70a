//! Receiving events and handing them on.
use crate::dispatch::{
    announced, dispatched, drained_timeout, forwarded, initial_action, is_stop, last_config,
    latest_first, law_initial_processes, pumped, stops, Dispatch, InitialAction, InitialEvent,
    PumpAction, Receipt,
};
use crate::events::Event;
use crate::sequences::lemma_first_where;
use vstd::prelude::*;

verus! {

/// A command is run; a window is spawned where it can be read; a change of the workspace is handed
/// on in any case; notices that nothing depends on are dropped; every other event is handed on.
pub proof fn law_dispatch(event: Event, polling: bool)
    ensures
        dispatched(event, polling) == Dispatch::RunCommand <==> event is Command,
        dispatched(event, polling) == Dispatch::SpawnWindow <==> event == (Event::WindowCreated {
            readable: true,
        }),
        dispatched(event, polling) == Dispatch::StopPollingAndForward <==> polling
            && event is SpaceChanged,
        dispatched(event, polling) == Dispatch::Ignore <==> {
            ||| event == (Event::WindowCreated { readable: false })
            ||| event is WindowTitleChanged
            ||| event is MenuClosed
            ||| event is DisplayResized
            ||| event is DisplayConfigured
            ||| event is SystemWoke
        },
{
}

/// Events are handed on up to the first receipt that is none or tells the program to end; that
/// receipt ends the draining: with the program, where it is an exit or nothing more will come, and
/// for now otherwise.
pub proof fn law_events_drained(receipts: Seq<Receipt>)
    ensures
        0 <= forwarded(receipts) <= receipts.len(),
        forall|i: int|
            0 <= i < forwarded(receipts) ==> (#[trigger] receipts[i]) is Received && receipts[i]
                != Receipt::Received(Event::Exit),
        forwarded(receipts) < receipts.len() ==> {
            let end = receipts[forwarded(receipts)];
            &&& end is TimedOut || end is Disconnected || end == Receipt::Received(Event::Exit)
            &&& pumped(end) == PumpAction::Wait <==> end is TimedOut
            &&& pumped(end) == PumpAction::Exit <==> end is Disconnected || end
                == Receipt::Received(Event::Exit)
        },
{
    let p = |r: Receipt| pumped(r) != PumpAction::Forward;
    lemma_first_where(receipts, p);
    assert forall|i: int| 0 <= i < forwarded(receipts) implies (#[trigger] receipts[i]) is Received
        && receipts[i] != Receipt::Received(Event::Exit) by {
        assert(!p(receipts[i]));
    }
}

/// After a drain in which events were handed on, the time to wait is one step, and one more where
/// there was none in time at the end. After one in which none was, it is a step longer, from no
/// more than the limit on, where there was none in time; and the same where the program ends.
pub proof fn law_drained_timeout(timeout: u32, receipts: Seq<Receipt>)
    ensures
        ({
            let k = forwarded(receipts);
            let idle = k < receipts.len() && receipts[k] is TimedOut;
            drained_timeout(timeout, receipts) == if k > 0 {
                if idle {
                    2int
                } else {
                    1int
                }
            } else if idle {
                if timeout < 500 {
                    timeout + 1
                } else {
                    501int
                }
            } else {
                timeout as int
            }
        }),
{
    law_events_drained(receipts);
}

/// What an event at the start is for.
pub proof fn law_initial_action(event: Event)
    ensures
        initial_action(event) == InitialAction::Stop <==> event is ProcessesLoaded || event is Exit,
        initial_action(event) == InitialAction::Launch <==> event is ApplicationLaunched,
        initial_action(event) == InitialAction::Configure <==> event is InitialConfig,
{
}

/// What counts of the start are the events before the first that ends it.
pub proof fn law_announced(events: Seq<InitialEvent>)
    requires
        stops(events),
    ensures
        announced(events).len() < events.len(),
        forall|i: int|
            0 <= i < announced(events).len() ==> {
                &&& (#[trigger] announced(events)[i]) == events[i]
                &&& !(events[i].event is ProcessesLoaded)
                &&& !(events[i].event is Exit)
            },
        ({
            let end = events[announced(events).len() as int].event;
            end is ProcessesLoaded || end is Exit
        }),
{
    let p = |e: InitialEvent| is_stop(e);
    lemma_first_where(events, p);
    let i = choose|i: int| 0 <= i < events.len() && is_stop(#[trigger] events[i]);
    assert(p(events[i]));
    assert forall|i: int| 0 <= i < announced(events).len() implies {
        &&& (#[trigger] announced(events)[i]) == events[i]
        &&& !(events[i].event is ProcessesLoaded)
        &&& !(events[i].event is Exit)
    } by {
        assert(!p(events[i]));
    }
}

/// The configuration that is used is the last one.
pub proof fn law_last_config(events: Seq<InitialEvent>)
    requires
        events.len() <= usize::MAX,
    ensures
        last_config(events) is None <==> forall|i: int|
            0 <= i < events.len() ==> !((#[trigger] events[i]).event is InitialConfig),
        last_config(events) matches Some(k) ==> {
            &&& k < events.len()
            &&& events[k as int].event is InitialConfig
            &&& forall|i: int|
                k < i < events.len() ==> !((#[trigger] events[i]).event is InitialConfig)
        },
    decreases events.len(),
{
    if events.len() > 0 {
        let init = events.drop_last();
        law_last_config(init);
        assert(forall|i: int| 0 <= i < init.len() ==> init[i] == events[i]);
        assert(events[events.len() - 1] == events.last());
        if last_config(init) is None && !(events.last().event is InitialConfig) {
            assert forall|i: int| 0 <= i < events.len() implies !((
            #[trigger] events[i]).event is InitialConfig) by {
                if i < init.len() {
                    assert(init[i] == events[i]);
                }
            }
        } else if last_config(init) is Some && !(events.last().event is InitialConfig) {
            let k = last_config(init)->0;
            assert(init[k as int] == events[k as int]);
            assert forall|i: int| k < i < events.len() implies !((
            #[trigger] events[i]).event is InitialConfig) by {
                if i < init.len() {
                    assert(init[i] == events[i]);
                }
            }
        } else {
            assert(events[events.len() - 1].event is InitialConfig);
        }
    }
}

/// A process is taken over exactly when it is launched by one of the events and can be observed.
pub proof fn law_processes_taken_over(events: Seq<InitialEvent>, i: usize)
    requires
        events.len() <= usize::MAX,
    ensures
        latest_first(events).contains(i) <==> i < events.len()
            && events[i as int].event is ApplicationLaunched && events[i as int].observable,
{
    law_initial_processes(events, i);
}

} // verus!
