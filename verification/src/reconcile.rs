//! The reconciliation loop's decisions.
//!
//! One tick of the daemon resolves the current public address, compares it
//! against the in-memory belief of what the provider has on record, updates
//! the provider when they diverge, and persists the confirmed value when disk
//! lags behind. The loop itself performs I/O and so lives outside the library;
//! everything it decides is here, as a state machine stepped by events. The
//! driver performs the action `step` returns and feeds the outcome back in as
//! the next event.
//!
//! The machine keeps the two facts the design turns on decoupled: `belief`
//! moves only on a confirmed provider update, `persisted` only on a confirmed
//! write, so a failed write leaves the belief ahead of disk and a later tick
//! re-persists without re-updating.

use vstd::prelude::*;

use crate::addr::Ipv4;

verus! {

/// Where a tick stands.
#[derive(Clone, Copy, PartialEq, Eq, Structural, Debug)]
pub enum Phase {
    /// Waiting for the next tick.
    Idle,
    /// A resolver call is outstanding.
    Resolving,
    /// An update call for `current` is outstanding.
    Updating { current: Ipv4 },
    /// A write of `current` to the state file is outstanding.
    Persisting { current: Ipv4 },
}

/// What the outside world reports to the machine.
#[derive(Clone, Copy, PartialEq, Eq, Structural, Debug)]
pub enum Event {
    /// The tick timer fired.
    TimerFired,
    /// The resolver answered with the current public address.
    Resolved { addr: Ipv4 },
    /// The resolver call failed, whatever the cause.
    ResolveFailed,
    /// The provider confirmed the update.
    UpdateAccepted,
    /// The update call failed: rejected by the provider or not delivered.
    UpdateRejected,
    /// The state file was replaced with the new document.
    PersistSucceeded,
    /// The state file could not be written; the old document stands.
    PersistFailed,
}

/// What the machine asks the outside world to do next.
#[derive(Clone, Copy, PartialEq, Eq, Structural, Debug)]
pub enum Action {
    /// Ask the resolver for the current public address.
    Resolve,
    /// Ask the provider to set `addr`.
    Update { addr: Ipv4 },
    /// Write `addr` to the state file.
    Persist { addr: Ipv4 },
    /// The tick is over; wait for the timer.
    Wait,
}

/// The machine: the two remembered facts, and where the tick stands.
#[derive(Clone, Copy, PartialEq, Eq, Structural, Debug)]
pub struct Reconciler {
    /// The last address the provider confirmed, as far as this process knows.
    pub belief: Option<Ipv4>,
    /// The last address the state file records.
    pub persisted: Option<Ipv4>,
    /// Where the current tick stands.
    pub phase: Phase,
}

/// Which events can arrive in which phase.
pub open spec fn event_fits(phase: Phase, event: Event) -> bool {
    match event {
        Event::TimerFired => phase is Idle,
        Event::Resolved { .. } => phase is Resolving,
        Event::ResolveFailed => phase is Resolving,
        Event::UpdateAccepted => phase is Updating,
        Event::UpdateRejected => phase is Updating,
        Event::PersistSucceeded => phase is Persisting,
        Event::PersistFailed => phase is Persisting,
    }
}

/// The transition relation: the machine after the event, and the action asked
/// of the driver.
pub open spec fn spec_step(s: Reconciler, event: Event) -> (Reconciler, Action) {
    match event {
        Event::TimerFired => (Reconciler { phase: Phase::Resolving, ..s }, Action::Resolve),
        Event::Resolved { addr } => if s.belief != Some(addr) {
            (
                Reconciler { phase: Phase::Updating { current: addr }, ..s },
                Action::Update { addr },
            )
        } else if s.persisted != Some(addr) {
            (
                Reconciler { phase: Phase::Persisting { current: addr }, ..s },
                Action::Persist { addr },
            )
        } else {
            (Reconciler { phase: Phase::Idle, ..s }, Action::Wait)
        },
        Event::ResolveFailed => (Reconciler { phase: Phase::Idle, ..s }, Action::Wait),
        Event::UpdateAccepted => match s.phase {
            Phase::Updating { current } => if s.persisted != Some(current) {
                (
                    Reconciler {
                        belief: Some(current),
                        phase: Phase::Persisting { current },
                        ..s
                    },
                    Action::Persist { addr: current },
                )
            } else {
                (Reconciler { belief: Some(current), phase: Phase::Idle, ..s }, Action::Wait)
            },
            _ => (s, Action::Wait),
        },
        Event::UpdateRejected => (Reconciler { phase: Phase::Idle, ..s }, Action::Wait),
        Event::PersistSucceeded => match s.phase {
            Phase::Persisting { current } => (
                Reconciler { persisted: Some(current), phase: Phase::Idle, ..s },
                Action::Wait,
            ),
            _ => (s, Action::Wait),
        },
        Event::PersistFailed => (Reconciler { phase: Phase::Idle, ..s }, Action::Wait),
    }
}

/// Compares two optional addresses.
fn opt_addr_eq(x: &Option<Ipv4>, y: &Option<Ipv4>) -> (r: bool)
    ensures
        r == (*x == *y),
{
    match (x, y) {
        (None, None) => true,
        (Some(a), Some(b)) => a == b,
        _ => false,
    }
}

impl Reconciler {
    /// A fresh machine: the belief is seeded from what disk records.
    pub fn new(persisted: Option<Ipv4>) -> (r: Reconciler)
        ensures
            r.belief == persisted,
            r.persisted == persisted,
            r.phase is Idle,
    {
        Reconciler { belief: persisted, persisted, phase: Phase::Idle }
    }

    /// Advances the machine by one event and says what to do next.
    pub fn step(&mut self, event: Event) -> (r: Action)
        requires
            event_fits(old(self).phase, event),
        ensures
            *final(self) == spec_step(*old(self), event).0,
            r == spec_step(*old(self), event).1,
    {
        match event {
            Event::TimerFired => {
                self.phase = Phase::Resolving;
                Action::Resolve
            },
            Event::Resolved { addr } => {
                if !opt_addr_eq(&self.belief, &Some(addr)) {
                    self.phase = Phase::Updating { current: addr };
                    Action::Update { addr }
                } else if !opt_addr_eq(&self.persisted, &Some(addr)) {
                    self.phase = Phase::Persisting { current: addr };
                    Action::Persist { addr }
                } else {
                    self.phase = Phase::Idle;
                    Action::Wait
                }
            },
            Event::ResolveFailed => {
                self.phase = Phase::Idle;
                Action::Wait
            },
            Event::UpdateAccepted => {
                match self.phase {
                    Phase::Updating { current } => {
                        self.belief = Some(current);
                        if !opt_addr_eq(&self.persisted, &Some(current)) {
                            self.phase = Phase::Persisting { current };
                            Action::Persist { addr: current }
                        } else {
                            self.phase = Phase::Idle;
                            Action::Wait
                        }
                    },
                    _ => Action::Wait,
                }
            },
            Event::UpdateRejected => {
                self.phase = Phase::Idle;
                Action::Wait
            },
            Event::PersistSucceeded => {
                match self.phase {
                    Phase::Persisting { current } => {
                        self.persisted = Some(current);
                        self.phase = Phase::Idle;
                        Action::Wait
                    },
                    _ => Action::Wait,
                }
            },
            Event::PersistFailed => {
                self.phase = Phase::Idle;
                Action::Wait
            },
        }
    }

    /// Whether `event` can arrive now; the driver checks this before `step`.
    pub fn accepts(&self, event: Event) -> (r: bool)
        ensures
            r == event_fits(self.phase, event),
    {
        match event {
            Event::TimerFired => matches!(self.phase, Phase::Idle),
            Event::Resolved { .. } => matches!(self.phase, Phase::Resolving),
            Event::ResolveFailed => matches!(self.phase, Phase::Resolving),
            Event::UpdateAccepted => matches!(self.phase, Phase::Updating { .. }),
            Event::UpdateRejected => matches!(self.phase, Phase::Updating { .. }),
            Event::PersistSucceeded => matches!(self.phase, Phase::Persisting { .. }),
            Event::PersistFailed => matches!(self.phase, Phase::Persisting { .. }),
        }
    }
}

/// The machine's standing invariant: an outstanding write is always for the
/// address the provider last confirmed (the belief), and an outstanding update
/// is always for an address the belief does not yet hold.
pub open spec fn wf(s: Reconciler) -> bool {
    &&& (s.phase matches Phase::Persisting { current } ==> s.belief == Some(current))
    &&& (s.phase matches Phase::Updating { current } ==> s.belief != Some(current))
}

/// No speculative persistence: from a well-formed state, every step keeps the
/// machine well-formed, a write is only ever asked for the confirmed belief,
/// and whenever the persisted value moves it moves to the belief.
pub proof fn lemma_no_speculative_persistence(s: Reconciler, event: Event)
    requires
        wf(s),
        event_fits(s.phase, event),
    ensures
        wf(spec_step(s, event).0),
        spec_step(s, event).1 matches Action::Persist { addr } ==> spec_step(s, event).0.belief
            == Some(addr),
        spec_step(s, event).0.persisted != s.persisted ==> spec_step(s, event).0.persisted
            == spec_step(s, event).0.belief,
{
}

/// The machine after a whole sequence of events.
pub open spec fn run(s: Reconciler, events: Seq<Event>) -> Reconciler
    decreases events.len(),
{
    if events.len() == 0 {
        s
    } else {
        run(spec_step(s, events[0]).0, events.drop_first())
    }
}

/// Whether each event of the sequence fits the phase it arrives in.
pub open spec fn events_fit(s: Reconciler, events: Seq<Event>) -> bool
    decreases events.len(),
{
    events.len() == 0 || (event_fits(s.phase, events[0]) && events_fit(
        spec_step(s, events[0]).0,
        events.drop_first(),
    ))
}

/// Whether any step of the sequence asks the driver for a provider update.
pub open spec fn issues_update(s: Reconciler, events: Seq<Event>) -> bool
    decreases events.len(),
{
    events.len() != 0 && ((spec_step(s, events[0]).1 is Update) || issues_update(
        spec_step(s, events[0]).0,
        events.drop_first(),
    ))
}

/// Whether every resolver answer in the sequence reports `addr`.
pub open spec fn resolves_to(events: Seq<Event>, addr: Ipv4) -> bool {
    forall|i: int|
        0 <= i < events.len() ==> ((#[trigger] events[i]) matches Event::Resolved { addr: a }
            ==> a == addr)
}

/// Idempotence: as long as the resolved address always equals the standing
/// belief, a run of the loop — however many ticks, whatever the persistence
/// outcomes — never issues a provider update, and the belief never moves.
pub proof fn lemma_no_update_while_belief_matches(s: Reconciler, addr: Ipv4, events: Seq<Event>)
    requires
        s.belief == Some(addr),
        !(s.phase is Updating),
        events_fit(s, events),
        resolves_to(events, addr),
    ensures
        !issues_update(s, events),
        run(s, events).belief == Some(addr),
    decreases events.len(),
{
    if events.len() > 0 {
        let e = events[0];
        let s1 = spec_step(s, e).0;
        assert(e matches Event::Resolved { addr: a } ==> a == addr);
        assert(resolves_to(events.drop_first(), addr)) by {
            assert forall|i: int|
                0 <= i < events.drop_first().len() ==> ((#[trigger] events.drop_first()[i])
                    matches Event::Resolved { addr: a } ==> a == addr) by {
                if 0 <= i < events.drop_first().len() {
                    assert(events.drop_first()[i] == events[i + 1]);
                }
            }
        }
        lemma_no_update_while_belief_matches(s1, addr, events.drop_first());
    }
}

/// Drift detection: when the resolved address differs from the belief, the
/// machine issues an update with exactly that address; if the provider
/// accepts, the belief becomes that address, and when the following write
/// succeeds, so does the persisted value. A rejected update moves nothing.
pub proof fn lemma_drift_detected(s: Reconciler, addr: Ipv4)
    requires
        s.phase is Resolving,
        s.belief != Some(addr),
    ensures
        spec_step(s, Event::Resolved { addr }).1 == (Action::Update { addr }),
        ({
            let s1 = spec_step(s, Event::Resolved { addr }).0;
            let s2 = spec_step(s1, Event::UpdateAccepted).0;
            &&& s1.belief == s.belief
            &&& s1.persisted == s.persisted
            &&& s2.belief == Some(addr)
            &&& s2.persisted == s.persisted
            &&& (s.persisted != Some(addr) ==> {
                &&& spec_step(s1, Event::UpdateAccepted).1 == (Action::Persist { addr })
                &&& spec_step(s2, Event::PersistSucceeded).0.persisted == Some(addr)
                &&& spec_step(s2, Event::PersistSucceeded).0.belief == Some(addr)
            })
            &&& (s.persisted == Some(addr) ==> spec_step(s1, Event::UpdateAccepted).1
                == Action::Wait && s2.phase is Idle)
        }),
{
}

/// Provider rejection does not corrupt state: a rejected or undelivered
/// update leaves belief and persisted value untouched and ends the tick.
pub proof fn lemma_rejection_preserves_state(s: Reconciler)
    requires
        s.phase is Updating,
    ensures
        spec_step(s, Event::UpdateRejected).0.belief == s.belief,
        spec_step(s, Event::UpdateRejected).0.persisted == s.persisted,
        spec_step(s, Event::UpdateRejected).0.phase is Idle,
        spec_step(s, Event::UpdateRejected).1 == Action::Wait,
{
}

/// Decoupled persistence: when the belief already matches the resolved
/// address but disk lags, the machine asks only for a write — no provider
/// update — and a successful write brings the persisted value level with the
/// belief. A failed write moves nothing.
pub proof fn lemma_persistence_lag(s: Reconciler, addr: Ipv4)
    requires
        s.phase is Resolving,
        s.belief == Some(addr),
        s.persisted != Some(addr),
    ensures
        spec_step(s, Event::Resolved { addr }).1 == (Action::Persist { addr }),
        !(spec_step(s, Event::Resolved { addr }).1 is Update),
        ({
            let s1 = spec_step(s, Event::Resolved { addr }).0;
            &&& s1.belief == Some(addr)
            &&& s1.persisted == s.persisted
            &&& spec_step(s1, Event::PersistSucceeded).0.persisted == Some(addr)
            &&& spec_step(s1, Event::PersistSucceeded).0.belief == Some(addr)
            &&& spec_step(s1, Event::PersistFailed).0.persisted == s.persisted
            &&& spec_step(s1, Event::PersistFailed).0.belief == Some(addr)
        }),
{
}

/// Resolver failure isolation: a failed resolver call ends the tick with no
/// update, no write, and both remembered facts unchanged.
pub proof fn lemma_resolver_failure_isolated(s: Reconciler)
    requires
        s.phase is Resolving,
    ensures
        spec_step(s, Event::ResolveFailed).0.belief == s.belief,
        spec_step(s, Event::ResolveFailed).0.persisted == s.persisted,
        spec_step(s, Event::ResolveFailed).0.phase is Idle,
        spec_step(s, Event::ResolveFailed).1 == Action::Wait,
{
}

} // verus!
