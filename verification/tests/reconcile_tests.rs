use rnccd::addr::Ipv4;
use rnccd::reconcile::{Action, Event, Phase, Reconciler};

fn ip(a: u8, b: u8, c: u8, d: u8) -> Ipv4 {
    Ipv4 { a, b, c, d }
}

#[test]
fn seeds_belief_from_disk() {
    let r = Reconciler::new(Some(ip(1, 2, 3, 4)));
    assert_eq!(r.belief, Some(ip(1, 2, 3, 4)));
    assert_eq!(r.persisted, Some(ip(1, 2, 3, 4)));
    assert_eq!(r.phase, Phase::Idle);
}

#[test]
fn idempotent_ticks_never_update() {
    // Address stable and equal to the belief: many ticks, no update call.
    let a = ip(10, 0, 0, 1);
    let mut r = Reconciler::new(Some(a));
    for _ in 0..3 {
        assert_eq!(r.step(Event::TimerFired), Action::Resolve);
        assert_eq!(r.step(Event::Resolved { addr: a }), Action::Wait);
        assert_eq!(r.belief, Some(a));
        assert_eq!(r.persisted, Some(a));
        assert_eq!(r.phase, Phase::Idle);
    }
}

#[test]
fn drift_updates_then_persists() {
    // Resolved address differs from the belief: update, then persist.
    let a0 = ip(10, 0, 0, 1);
    let a1 = ip(10, 0, 0, 2);
    let mut r = Reconciler::new(Some(a0));
    assert_eq!(r.step(Event::TimerFired), Action::Resolve);
    assert_eq!(r.step(Event::Resolved { addr: a1 }), Action::Update { addr: a1 });
    // Nothing moves until the provider confirms.
    assert_eq!(r.belief, Some(a0));
    assert_eq!(r.persisted, Some(a0));
    assert_eq!(r.step(Event::UpdateAccepted), Action::Persist { addr: a1 });
    assert_eq!(r.belief, Some(a1));
    assert_eq!(r.persisted, Some(a0));
    assert_eq!(r.step(Event::PersistSucceeded), Action::Wait);
    assert_eq!(r.persisted, Some(a1));
    assert_eq!(r.phase, Phase::Idle);
}

#[test]
fn first_update_from_unknown_belief() {
    let a1 = ip(198, 51, 100, 7);
    let mut r = Reconciler::new(None);
    assert_eq!(r.step(Event::TimerFired), Action::Resolve);
    assert_eq!(r.step(Event::Resolved { addr: a1 }), Action::Update { addr: a1 });
    assert_eq!(r.step(Event::UpdateAccepted), Action::Persist { addr: a1 });
    assert_eq!(r.step(Event::PersistSucceeded), Action::Wait);
    assert_eq!(r.belief, Some(a1));
    assert_eq!(r.persisted, Some(a1));
}

#[test]
fn rejection_leaves_state_untouched() {
    // The provider's rejection body abandons the tick: belief and persisted
    // value stand exactly as before.
    let a0 = ip(10, 0, 0, 1);
    let a1 = ip(10, 0, 0, 2);
    let mut r = Reconciler::new(Some(a0));
    r.step(Event::TimerFired);
    assert_eq!(r.step(Event::Resolved { addr: a1 }), Action::Update { addr: a1 });
    assert_eq!(r.step(Event::UpdateRejected), Action::Wait);
    assert_eq!(r.belief, Some(a0));
    assert_eq!(r.persisted, Some(a0));
    assert_eq!(r.phase, Phase::Idle);
}

#[test]
fn persistence_lag_persists_without_update() {
    // Belief already at the new address, disk still behind after a failed
    // write: the next tick only writes, it never calls the provider.
    let a0 = ip(10, 0, 0, 1);
    let a1 = ip(10, 0, 0, 2);
    let mut r = Reconciler::new(Some(a0));
    r.step(Event::TimerFired);
    r.step(Event::Resolved { addr: a1 });
    assert_eq!(r.step(Event::UpdateAccepted), Action::Persist { addr: a1 });
    assert_eq!(r.step(Event::PersistFailed), Action::Wait);
    assert_eq!(r.belief, Some(a1));
    assert_eq!(r.persisted, Some(a0));
    // next tick, same address
    assert_eq!(r.step(Event::TimerFired), Action::Resolve);
    assert_eq!(r.step(Event::Resolved { addr: a1 }), Action::Persist { addr: a1 });
    assert_eq!(r.step(Event::PersistSucceeded), Action::Wait);
    assert_eq!(r.belief, Some(a1));
    assert_eq!(r.persisted, Some(a1));
}

#[test]
fn resolver_failure_abandons_tick() {
    let a0 = ip(10, 0, 0, 1);
    let mut r = Reconciler::new(Some(a0));
    r.step(Event::TimerFired);
    assert_eq!(r.step(Event::ResolveFailed), Action::Wait);
    assert_eq!(r.belief, Some(a0));
    assert_eq!(r.persisted, Some(a0));
    assert_eq!(r.phase, Phase::Idle);
}

#[test]
fn accepts_gates_events_by_phase() {
    let mut r = Reconciler::new(None);
    assert!(r.accepts(Event::TimerFired));
    assert!(!r.accepts(Event::Resolved { addr: ip(1, 2, 3, 4) }));
    assert!(!r.accepts(Event::UpdateAccepted));
    r.step(Event::TimerFired);
    assert!(!r.accepts(Event::TimerFired));
    assert!(r.accepts(Event::Resolved { addr: ip(1, 2, 3, 4) }));
    assert!(r.accepts(Event::ResolveFailed));
}
