//! Entities that are given up when they take too long.
use crate::commands::{lemma_views_empty, lemma_views_push, views, Command, CommandView};
use crate::sequences::{lemma_flat_map_ends, lemma_flat_map_step};
use crate::Entity;
use vstd::prelude::*;

verus! {

/// Nanoseconds in a second.
pub const NANOS_PER_SEC: u32 = 1_000_000_000;

/// A length of time. It is viewed as a number of nanoseconds.
#[derive(Clone, Copy, Debug, PartialEq, Eq, Structural)]
pub struct Span {
    secs: u64,
    nanos: u32,
}

impl View for Span {
    type V = nat;

    closed spec fn view(&self) -> nat {
        self.secs as nat * NANOS_PER_SEC as nat + self.nanos as nat
    }
}

/// The longest span.
pub open spec fn longest() -> nat {
    u64::MAX as nat * NANOS_PER_SEC as nat + (NANOS_PER_SEC - 1) as nat
}

impl Span {
    #[verifier::type_invariant]
    spec fn well_formed(self) -> bool {
        self.nanos < NANOS_PER_SEC
    }

    /// No time at all.
    pub fn zero() -> (span: Span)
        ensures
            span@ == 0,
    {
        Span { secs: 0, nanos: 0 }
    }

    /// Whole seconds.
    pub fn from_secs(secs: u64) -> (span: Span)
        ensures
            span@ == secs * NANOS_PER_SEC,
    {
        Span { secs, nanos: 0 }
    }

    /// Seconds and the nanoseconds beyond them, which must be less than a second.
    pub fn new(secs: u64, nanos: u32) -> (span: Option<Span>)
        ensures
            span is Some <==> nanos < NANOS_PER_SEC,
            span matches Some(span) ==> span@ == secs * NANOS_PER_SEC + nanos,
    {
        if nanos < NANOS_PER_SEC {
            Some(Span { secs, nanos })
        } else {
            None
        }
    }

    /// The whole seconds.
    pub fn secs(&self) -> (secs: u64)
        ensures
            secs == self@ / NANOS_PER_SEC as nat,
    {
        proof {
            use_type_invariant(self);
            vstd::arithmetic::div_mod::lemma_fundamental_div_mod_converse(
                self@ as int,
                NANOS_PER_SEC as int,
                self.secs as int,
                self.nanos as int,
            );
        }
        self.secs
    }

    /// The nanoseconds beyond the whole seconds.
    pub fn nanos(&self) -> (nanos: u32)
        ensures
            nanos == self@ % NANOS_PER_SEC as nat,
    {
        proof {
            use_type_invariant(self);
            vstd::arithmetic::div_mod::lemma_fundamental_div_mod_converse(
                self@ as int,
                NANOS_PER_SEC as int,
                self.secs as int,
                self.nanos as int,
            );
        }
        self.nanos
    }
}

/// The sum of two spans, as far as a span can hold it.
pub open spec fn passed(elapsed: nat, delta: nat) -> nat {
    if elapsed + delta > longest() {
        longest()
    } else {
        elapsed + delta
    }
}

/// Lets time pass on `bevy::time::Timer`, by its `tick`. The timer runs once, is not paused, has
/// the given duration, has not finished and stands at `elapsed`. What is claimed: the timer adds
/// the time, saturating at the longest span; it finishes when the sum is at least the duration,
/// and then stands at the duration; otherwise it stands at the sum.
#[verifier::external_body]
fn tick_timer(elapsed: Span, duration: Span, delta: Span) -> (r: (Span, bool))
    ensures
        r.1 == (passed(elapsed@, delta@) >= duration@),
        r.0@ == if r.1 {
            duration@
        } else {
            passed(elapsed@, delta@)
        },
{
    let mut timer = bevy::time::Timer::new(
        std::time::Duration::new(duration.secs, duration.nanos),
        bevy::time::TimerMode::Once,
    );
    timer.set_elapsed(std::time::Duration::new(elapsed.secs, elapsed.nanos));
    timer.tick(std::time::Duration::new(delta.secs, delta.nanos));
    let stand = timer.elapsed();
    (Span { secs: stand.as_secs(), nanos: stand.subsec_nanos() }, timer.is_finished())
}

/// How long an entity is waited for, and what to say when the wait was in vain.
#[derive(Clone, Debug, PartialEq, Eq)]
pub struct Timeout {
    pub elapsed: Span,
    pub duration: Span,
    pub finished: bool,
    pub message: Option<String>,
}

/// What a timeout is.
pub struct TimeoutView {
    pub elapsed: nat,
    pub duration: nat,
    pub finished: bool,
    pub message: Option<Seq<char>>,
}

impl TimeoutView {
    /// A wait that starts now.
    pub open spec fn fresh(duration: nat, message: Option<Seq<char>>) -> TimeoutView {
        TimeoutView { elapsed: 0, duration, finished: false, message }
    }

    /// The timeout after some time. One that has finished stays as it is.
    pub open spec fn ticked(self, delta: nat) -> TimeoutView {
        if self.finished {
            self
        } else if passed(self.elapsed, delta) >= self.duration {
            TimeoutView { elapsed: self.duration, finished: true, ..self }
        } else {
            TimeoutView { elapsed: passed(self.elapsed, delta), ..self }
        }
    }

    /// The timeout after a run for each of the deltas.
    pub open spec fn after(self, deltas: Seq<nat>) -> TimeoutView
        decreases deltas.len(),
    {
        if deltas.len() == 0 {
            self
        } else {
            self.after(deltas.drop_last()).ticked(deltas.last())
        }
    }
}

impl View for Timeout {
    type V = TimeoutView;

    open spec fn view(&self) -> TimeoutView {
        TimeoutView {
            elapsed: self.elapsed@,
            duration: self.duration@,
            finished: self.finished,
            message: match self.message {
                Some(message) => Some(message@),
                None => None,
            },
        }
    }
}

impl Timeout {
    /// A wait that starts now.
    pub fn new(duration: Span, message: Option<String>) -> (timeout: Timeout)
        ensures
            timeout@ == TimeoutView::fresh(
                duration@,
                match message {
                    Some(message) => Some(message@),
                    None => None,
                },
            ),
    {
        Timeout { elapsed: Span::zero(), duration, finished: false, message }
    }

    /// Lets time pass.
    pub fn tick(&mut self, delta: Span)
        ensures
            final(self)@ == old(self)@.ticked(delta@),
    {
        if !self.finished {
            let (elapsed, finished) = tick_timer(self.elapsed, self.duration, delta);
            self.elapsed = elapsed;
            self.finished = finished;
        }
    }
}

/// The sum of spans.
pub open spec fn total(deltas: Seq<nat>) -> nat
    decreases deltas.len(),
{
    if deltas.len() == 0 {
        0
    } else {
        total(deltas.drop_last()) + deltas.last()
    }
}

/// A wait is over after the first run by which the times passed add up to its duration, and not
/// before.
pub proof fn law_timeout_counts_time(timeout: TimeoutView, deltas: Seq<nat>)
    requires
        timeout.elapsed == 0,
        !timeout.finished,
        timeout.duration <= longest(),
        deltas.len() > 0,
    ensures
        timeout.after(deltas).finished <==> total(deltas) >= timeout.duration,
{
    lemma_after(timeout, deltas);
}

proof fn lemma_after(timeout: TimeoutView, deltas: Seq<nat>)
    requires
        timeout.elapsed == 0,
        !timeout.finished,
        timeout.duration <= longest(),
    ensures
        timeout.after(deltas).duration == timeout.duration,
        timeout.after(deltas).finished <==> deltas.len() > 0 && total(deltas) >= timeout.duration,
        !timeout.after(deltas).finished ==> timeout.after(deltas).elapsed == total(deltas),
    decreases deltas.len(),
{
    if deltas.len() > 0 {
        lemma_after(timeout, deltas.drop_last());
        if deltas.len() == 1 {
            assert(total(deltas.drop_last()) == 0);
        }
    }
}

/// A wait that is over stays over, whatever time passes.
pub proof fn law_timeout_stays_finished(timeout: TimeoutView, deltas: Seq<nat>)
    requires
        timeout.finished,
    ensures
        timeout.after(deltas) == timeout,
    decreases deltas.len(),
{
    if deltas.len() > 0 {
        law_timeout_stays_finished(timeout, deltas.drop_last());
    }
}

/// An entity that is waited for.
#[derive(Clone, Debug, PartialEq, Eq)]
pub struct Waiting {
    pub entity: Entity,
    pub timeout: Timeout,
}

/// What the ticker asks for: an entity goes when the wait for it is over.
pub open spec fn given_up() -> spec_fn(Waiting) -> Seq<CommandView> {
    |waiting: Waiting|
        if waiting.timeout@.finished {
            seq![CommandView::Despawn(waiting.entity)]
        } else {
            Seq::empty()
        }
}

/// An entity is given up in the run that follows the one by which the times passed have added up
/// to the duration of the wait, and not before.
pub proof fn law_given_up_when_due(waiting: Waiting, start: TimeoutView, deltas: Seq<nat>)
    requires
        start.elapsed == 0,
        !start.finished,
        start.duration <= longest(),
        waiting.timeout@ == start.after(deltas),
    ensures
        given_up()(waiting) == if deltas.len() > 0 && total(deltas) >= start.duration {
            seq![CommandView::Despawn(waiting.entity)]
        } else {
            Seq::empty()
        },
{
    lemma_after(start, deltas);
}

/// Lets time pass for every entity that is waited for, and gives those up for which the wait was
/// already over.
pub fn timeout_ticker(timers: &mut Vec<Waiting>, delta: Span) -> (commands: Vec<Command>)
    ensures
        views(commands@) == old(timers)@.flat_map(given_up()),
        final(timers)@.len() == old(timers)@.len(),
        forall|i: int|
            #![trigger final(timers)@[i]]
            0 <= i < final(timers)@.len() ==> final(timers)@[i].entity == old(timers)@[i].entity
                && final(timers)@[i].timeout@ == old(timers)@[i].timeout@.ticked(delta@),
{
    broadcast use lemma_views_push, lemma_views_empty;

    let ghost start = timers@;
    let count = timers.len();
    let mut commands: Vec<Command> = Vec::new();
    proof {
        lemma_flat_map_ends(start, given_up());
    }
    for i in 0..count
        invariant
            count == start.len(),
            timers@.len() == start.len(),
            views(commands@) == start.take(i as int).flat_map(given_up()),
            forall|j: int|
                #![trigger timers@[j]]
                0 <= j < i ==> timers@[j].entity == start[j].entity && timers@[j].timeout@
                    == start[j].timeout@.ticked(delta@),
            forall|j: int| #![trigger timers@[j]] i <= j < count ==> timers@[j] == start[j],
    {
        let ghost before = views(commands@);
        proof {
            lemma_flat_map_step(start, given_up(), i as int);
        }
        if timers[i].timeout.finished {
            commands.push(Command::Despawn(timers[i].entity));
            assert(views(commands@) =~= before + given_up()(start[i as int]));
        } else {
            timers[i].timeout.tick(delta);
            assert(views(commands@) =~= before + given_up()(start[i as int]));
        }
    }
    commands
}

/// A process or application with a timeout.
#[derive(Clone, Copy, Debug, PartialEq, Eq, Structural)]
pub struct Initializing {
    pub entity: Entity,
    pub fresh: bool,
}

/// What the clean-up asks for: the wait ends for what is no longer new.
pub open spec fn settled() -> spec_fn(Initializing) -> Seq<CommandView> {
    |entry: Initializing|
        if entry.fresh {
            Seq::empty()
        } else {
            seq![CommandView::RemoveTimeout(entry.entity)]
        }
}

/// Ends the wait for the processes and applications that were ready in time.
pub fn fresh_marker_cleanup(cleanup: &Vec<Initializing>) -> (commands: Vec<Command>)
    ensures
        views(commands@) == cleanup@.flat_map(settled()),
{
    broadcast use lemma_views_push, lemma_views_empty;

    let mut commands: Vec<Command> = Vec::new();
    proof {
        lemma_flat_map_ends(cleanup@, settled());
    }
    for i in 0..cleanup.len()
        invariant
            views(commands@) == cleanup@.take(i as int).flat_map(settled()),
    {
        let ghost before = views(commands@);
        proof {
            lemma_flat_map_step(cleanup@, settled(), i as int);
        }
        if !cleanup[i].fresh {
            commands.push(Command::RemoveTimeout(cleanup[i].entity));
        }
        assert(views(commands@) =~= before + settled()(cleanup@[i as int]));
    }
    commands
}

/// A window that was dragged; the drag is over when its timeout has finished.
#[derive(Clone, Debug, PartialEq, Eq)]
pub struct Dragged {
    pub window: Entity,
    pub timeout: Timeout,
}

/// What the end of a drag asks for: the strip is laid out anew around the window.
pub open spec fn dropped() -> spec_fn(Dragged) -> Seq<CommandView> {
    |dragged: Dragged|
        if dragged.timeout@.finished {
            seq![CommandView::Reshuffle(dragged.window)]
        } else {
            Seq::empty()
        }
}

/// Lays the strip out anew around each window whose drag is over.
pub fn reposition_dragged_window(markers: &Vec<Dragged>) -> (commands: Vec<Command>)
    ensures
        views(commands@) == markers@.flat_map(dropped()),
{
    broadcast use lemma_views_push, lemma_views_empty;

    let mut commands: Vec<Command> = Vec::new();
    proof {
        lemma_flat_map_ends(markers@, dropped());
    }
    for i in 0..markers.len()
        invariant
            views(commands@) == markers@.take(i as int).flat_map(dropped()),
    {
        let ghost before = views(commands@);
        proof {
            lemma_flat_map_step(markers@, dropped(), i as int);
        }
        if markers[i].timeout.finished {
            commands.push(Command::Reshuffle(markers[i].window));
        }
        assert(views(commands@) =~= before + dropped()(markers@[i as int]));
    }
    commands
}

} // verus!
