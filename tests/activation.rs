use shrug::activation::{
    ActionOutcome, EndpointAction, Gate, GateError, GatePhase, GateStep, MemoryEndpoint, Occupancy, Role,
    MAX_REBIND_ROUNDS,
};

#[test]
fn first_start_is_primary_and_second_is_secondary() {
    let mut e = MemoryEndpoint::new();
    assert_eq!(e.acquire(), Ok(Role::Primary));
    assert_eq!(e.occupancy, Occupancy::Listening);
    assert_eq!(e.acquire(), Ok(Role::Secondary));
}

#[test]
fn abandoned_endpoint_is_reclaimed() {
    let mut e = MemoryEndpoint::new();
    assert_eq!(e.acquire(), Ok(Role::Primary));
    e.abandon();
    assert_eq!(e.occupancy, Occupancy::Abandoned);
    assert_eq!(e.acquire(), Ok(Role::Primary));
    assert_eq!(e.occupancy, Occupancy::Listening);
    assert_eq!(e.acquire(), Ok(Role::Secondary));
}

#[test]
fn primary_receives_exactly_one_show() {
    let mut e = MemoryEndpoint::new();
    assert_eq!(e.acquire(), Ok(Role::Primary));
    assert_eq!(e.pending_shows, 0);
    assert_eq!(e.acquire(), Ok(Role::Secondary));
    assert_eq!(e.take_shows(), 1);
    assert_eq!(e.take_shows(), 0);
}

#[test]
fn show_requests_coalesce_at_the_bound() {
    let mut e = MemoryEndpoint { occupancy: Occupancy::Listening, pending_shows: u64::MAX };
    assert_eq!(e.acquire(), Ok(Role::Secondary));
    assert_eq!(e.pending_shows, u64::MAX);
}

#[test]
fn endpoint_actions() {
    let mut e = MemoryEndpoint::new();
    assert_eq!(e.perform(EndpointAction::Notify), ActionOutcome::NotFound);
    assert_eq!(e.perform(EndpointAction::RemoveStale), ActionOutcome::NotFound);
    assert_eq!(e.perform(EndpointAction::Bind), ActionOutcome::Succeeded);
    assert_eq!(e.perform(EndpointAction::Bind), ActionOutcome::AddressInUse);
    assert_eq!(e.perform(EndpointAction::RemoveStale), ActionOutcome::OwnerAlive);
    assert_eq!(e.occupancy, Occupancy::Listening);
    assert_eq!(e.take_shows(), 1);
    e.abandon();
    assert_eq!(e.perform(EndpointAction::Notify), ActionOutcome::ConnectionRefused);
    assert_eq!(e.perform(EndpointAction::RemoveStale), ActionOutcome::Succeeded);
    assert_eq!(e.occupancy, Occupancy::Unbound);
}

fn gate(phase: GatePhase, rounds: u64) -> Gate {
    Gate { phase, rounds }
}

#[test]
fn gate_paths_to_each_role() {
    let g = Gate::start();
    assert_eq!(g, gate(GatePhase::Binding, 0));
    assert_eq!(g.action(), EndpointAction::Bind);
    assert_eq!(g.advance(ActionOutcome::Succeeded), GateStep::Finished(Role::Primary));
    assert_eq!(
        g.advance(ActionOutcome::AddressInUse),
        GateStep::Continue(gate(GatePhase::Notifying, 0))
    );
    let n = gate(GatePhase::Notifying, 0);
    assert_eq!(n.action(), EndpointAction::Notify);
    assert_eq!(n.advance(ActionOutcome::Succeeded), GateStep::Finished(Role::Secondary));
    assert_eq!(
        n.advance(ActionOutcome::ConnectionRefused),
        GateStep::Continue(gate(GatePhase::Reclaiming, 0))
    );
    assert_eq!(n.advance(ActionOutcome::NotFound), GateStep::Continue(gate(GatePhase::Rebinding, 0)));
    let c = gate(GatePhase::Reclaiming, 0);
    assert_eq!(c.action(), EndpointAction::RemoveStale);
    assert_eq!(c.advance(ActionOutcome::Succeeded), GateStep::Continue(gate(GatePhase::Rebinding, 0)));
    assert_eq!(c.advance(ActionOutcome::NotFound), GateStep::Continue(gate(GatePhase::Rebinding, 0)));
    assert_eq!(c.advance(ActionOutcome::OwnerAlive), GateStep::Finished(Role::Secondary));
    let r = gate(GatePhase::Rebinding, 0);
    assert_eq!(r.action(), EndpointAction::Bind);
    assert_eq!(r.advance(ActionOutcome::Succeeded), GateStep::Finished(Role::Primary));
    assert_eq!(
        r.advance(ActionOutcome::AddressInUse),
        GateStep::Continue(gate(GatePhase::Notifying, 1))
    );
}

#[test]
fn gate_errors() {
    assert_eq!(
        gate(GatePhase::Binding, 0).advance(ActionOutcome::OtherFailure),
        GateStep::Fatal(GateError::BindFailed)
    );
    assert_eq!(
        gate(GatePhase::Notifying, 0).advance(ActionOutcome::OtherFailure),
        GateStep::Fatal(GateError::NotifyFailed)
    );
    assert_eq!(
        gate(GatePhase::Reclaiming, 0).advance(ActionOutcome::OtherFailure),
        GateStep::Fatal(GateError::ReclaimFailed)
    );
    assert_eq!(
        gate(GatePhase::Rebinding, 0).advance(ActionOutcome::OtherFailure),
        GateStep::Fatal(GateError::RebindFailed)
    );
    assert_eq!(
        gate(GatePhase::Rebinding, MAX_REBIND_ROUNDS).advance(ActionOutcome::AddressInUse),
        GateStep::Fatal(GateError::RebindFailed)
    );
}

/// One step of a start on `e`: `Ok` with the next state, or `Err` with the result.
fn step(g: Gate, e: &mut MemoryEndpoint) -> Result<Gate, Result<Role, GateError>> {
    let outcome = e.perform(g.action());
    match g.advance(outcome) {
        GateStep::Continue(next) => Ok(next),
        GateStep::Finished(role) => Err(Ok(role)),
        GateStep::Fatal(err) => Err(Err(err)),
    }
}

#[test]
fn racing_reclaims_make_one_primary_and_one_secondary() {
    let mut e = MemoryEndpoint::new();
    assert_eq!(e.acquire(), Ok(Role::Primary));
    e.abandon();
    let a = Gate::start();
    let b = Gate::start();
    let a = step(a, &mut e).unwrap();
    let b = step(b, &mut e).unwrap();
    let a = step(a, &mut e).unwrap();
    let b = step(b, &mut e).unwrap();
    assert_eq!(a.phase, GatePhase::Reclaiming);
    assert_eq!(b.phase, GatePhase::Reclaiming);
    let a = step(a, &mut e).unwrap();
    let b = step(b, &mut e).unwrap();
    assert_eq!(b.phase, GatePhase::Rebinding);
    assert_eq!(step(a, &mut e), Err(Ok(Role::Primary)));
    let b = step(b, &mut e).unwrap();
    assert_eq!(b, gate(GatePhase::Notifying, 1));
    assert_eq!(step(b, &mut e), Err(Ok(Role::Secondary)));
    assert_eq!(e.occupancy, Occupancy::Listening);
    assert_eq!(e.take_shows(), 1);
}

#[test]
fn late_reclaim_finds_the_new_owner() {
    let mut e = MemoryEndpoint::new();
    assert_eq!(e.acquire(), Ok(Role::Primary));
    e.abandon();
    let a = Gate::start();
    let b = Gate::start();
    let a = step(a, &mut e).unwrap();
    let b = step(b, &mut e).unwrap();
    let a = step(a, &mut e).unwrap();
    let b = step(b, &mut e).unwrap();
    let a = step(a, &mut e).unwrap();
    assert_eq!(step(a, &mut e), Err(Ok(Role::Primary)));
    assert_eq!(step(b, &mut e), Err(Ok(Role::Secondary)));
    assert_eq!(e.occupancy, Occupancy::Listening);
    assert_eq!(e.take_shows(), 1);
}
