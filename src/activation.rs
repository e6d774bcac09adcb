//! Single-instance activation.
//!
//! A process takes one of two roles by way of a named endpoint: it binds the
//! endpoint and becomes the primary, or, finding it bound, notifies its owner
//! and becomes a secondary. An endpoint left behind by a dead owner is
//! removed and bound once more; a start that loses a race for it ends as a
//! secondary of the winner. The decisions are a pure step function over
//! the outcome of each endpoint action; whoever holds the endpoint performs
//! the actions. `MemoryEndpoint` is an endpoint held in memory.

use vstd::prelude::*;

verus! {

/// The role a process takes.
#[derive(Clone, Copy, Debug, PartialEq, Eq, Structural)]
pub enum Role {
    /// Holds the endpoint and listens on it.
    Primary,
    /// Notified the primary; starts nothing.
    Secondary,
}

/// Why acquisition failed.
#[derive(Clone, Copy, Debug, PartialEq, Eq, Structural)]
pub enum GateError {
    /// Binding failed for another reason than the endpoint being in use.
    BindFailed,
    /// Notifying the owner failed for another reason than a stale endpoint.
    NotifyFailed,
    /// The stale endpoint could not be removed.
    ReclaimFailed,
    /// Binding after removing the stale endpoint failed.
    RebindFailed,
}

/// An action on the endpoint.
#[derive(Clone, Copy, Debug, PartialEq, Eq, Structural)]
pub enum EndpointAction {
    /// Bind the endpoint and listen on it.
    Bind,
    /// Connect to the endpoint's owner, asking it to show itself.
    Notify,
    /// Remove the endpoint if its owner is gone, checking that and removing
    /// it as one step.
    RemoveStale,
}

/// The outcome of an endpoint action.
#[derive(Clone, Copy, Debug, PartialEq, Eq, Structural)]
pub enum ActionOutcome {
    Succeeded,
    /// The endpoint is bound already.
    AddressInUse,
    /// The endpoint exists, but nobody listens on it.
    ConnectionRefused,
    /// The endpoint does not exist.
    NotFound,
    /// The endpoint was not removed: its owner is alive, and the check that
    /// found it so reached the owner as a show request.
    OwnerAlive,
    /// Any other failure.
    OtherFailure,
}

/// Which action is in flight.
#[derive(Clone, Copy, Debug, PartialEq, Eq, Structural)]
pub enum GatePhase {
    Binding,
    Notifying,
    Reclaiming,
    Rebinding,
}

/// How many times a rebind that finds the endpoint taken may go back to
/// notifying its new owner.
pub const MAX_REBIND_ROUNDS: u64 = 3;

/// Where acquisition stands: the action in flight, and how many times a
/// rebind has gone back to notifying.
#[derive(Clone, Copy, Debug, PartialEq, Eq, Structural)]
pub struct Gate {
    pub phase: GatePhase,
    pub rounds: u64,
}

/// What follows an outcome.
#[derive(Clone, Copy, Debug, PartialEq, Eq, Structural)]
pub enum GateStep {
    /// Perform the action of this state next.
    Continue(Gate),
    /// Acquisition is over with this role.
    Finished(Role),
    /// Acquisition failed.
    Fatal(GateError),
}

/// The state that acquisition starts in.
pub open spec fn gate_start() -> Gate {
    Gate { phase: GatePhase::Binding, rounds: 0 }
}

pub open spec fn phase_action(phase: GatePhase) -> EndpointAction {
    match phase {
        GatePhase::Binding => EndpointAction::Bind,
        GatePhase::Notifying => EndpointAction::Notify,
        GatePhase::Reclaiming => EndpointAction::RemoveStale,
        GatePhase::Rebinding => EndpointAction::Bind,
    }
}

/// The decision table.
/// - A bind that succeeds makes a primary; one that finds the endpoint in use
///   leads to notifying its owner.
/// - A notify that succeeds makes a secondary. One that is refused means the
///   owner is gone, and the endpoint is reclaimed. One that finds no endpoint
///   (another start removed it) leads to binding again.
/// - A reclaim that removed the endpoint, or found it gone already, leads to
///   binding again; one that found a live owner, and so reached it, makes a
///   secondary.
/// - A rebind that succeeds makes a primary; one that finds the endpoint
///   taken (another start bound it first) goes back to notifying, at most
///   `MAX_REBIND_ROUNDS` times.
/// - Every other outcome is fatal.
pub open spec fn gate_step(g: Gate, outcome: ActionOutcome) -> GateStep {
    match g.phase {
        GatePhase::Binding => match outcome {
            ActionOutcome::Succeeded => GateStep::Finished(Role::Primary),
            ActionOutcome::AddressInUse => GateStep::Continue(
                Gate { phase: GatePhase::Notifying, rounds: g.rounds },
            ),
            _ => GateStep::Fatal(GateError::BindFailed),
        },
        GatePhase::Notifying => match outcome {
            ActionOutcome::Succeeded => GateStep::Finished(Role::Secondary),
            ActionOutcome::ConnectionRefused => GateStep::Continue(
                Gate { phase: GatePhase::Reclaiming, rounds: g.rounds },
            ),
            ActionOutcome::NotFound => GateStep::Continue(
                Gate { phase: GatePhase::Rebinding, rounds: g.rounds },
            ),
            _ => GateStep::Fatal(GateError::NotifyFailed),
        },
        GatePhase::Reclaiming => match outcome {
            ActionOutcome::Succeeded => GateStep::Continue(
                Gate { phase: GatePhase::Rebinding, rounds: g.rounds },
            ),
            ActionOutcome::NotFound => GateStep::Continue(
                Gate { phase: GatePhase::Rebinding, rounds: g.rounds },
            ),
            ActionOutcome::OwnerAlive => GateStep::Finished(Role::Secondary),
            _ => GateStep::Fatal(GateError::ReclaimFailed),
        },
        GatePhase::Rebinding => match outcome {
            ActionOutcome::Succeeded => GateStep::Finished(Role::Primary),
            ActionOutcome::AddressInUse => if g.rounds < MAX_REBIND_ROUNDS {
                GateStep::Continue(Gate { phase: GatePhase::Notifying, rounds: (g.rounds + 1) as u64 })
            } else {
                GateStep::Fatal(GateError::RebindFailed)
            },
            _ => GateStep::Fatal(GateError::RebindFailed),
        },
    }
}

pub open spec fn phase_rank(phase: GatePhase) -> nat {
    match phase {
        GatePhase::Binding => 3,
        GatePhase::Notifying => 2,
        GatePhase::Reclaiming => 1,
        GatePhase::Rebinding => 0,
    }
}

/// A bound on the steps left from a state.
pub open spec fn gate_rank(g: Gate) -> nat {
    if g.rounds <= MAX_REBIND_ROUNDS {
        ((MAX_REBIND_ROUNDS - g.rounds) * 4 + phase_rank(g.phase)) as nat
    } else {
        phase_rank(g.phase)
    }
}

pub proof fn lemma_step_descends(g: Gate, outcome: ActionOutcome)
    ensures
        gate_step(g, outcome) matches GateStep::Continue(next) ==> gate_rank(next) < gate_rank(g),
{
}

impl Gate {
    /// The state that acquisition starts in.
    pub fn start() -> (r: Gate)
        ensures
            r == gate_start(),
    {
        Gate { phase: GatePhase::Binding, rounds: 0 }
    }

    /// The action to perform in this state.
    pub fn action(&self) -> (r: EndpointAction)
        ensures
            r == phase_action(self.phase),
    {
        match self.phase {
            GatePhase::Binding => EndpointAction::Bind,
            GatePhase::Notifying => EndpointAction::Notify,
            GatePhase::Reclaiming => EndpointAction::RemoveStale,
            GatePhase::Rebinding => EndpointAction::Bind,
        }
    }

    /// What follows `outcome` of this state's action.
    pub fn advance(&self, outcome: ActionOutcome) -> (r: GateStep)
        ensures
            r == gate_step(*self, outcome),
    {
        let rounds = self.rounds;
        match self.phase {
            GatePhase::Binding => match outcome {
                ActionOutcome::Succeeded => GateStep::Finished(Role::Primary),
                ActionOutcome::AddressInUse => GateStep::Continue(
                    Gate { phase: GatePhase::Notifying, rounds },
                ),
                _ => GateStep::Fatal(GateError::BindFailed),
            },
            GatePhase::Notifying => match outcome {
                ActionOutcome::Succeeded => GateStep::Finished(Role::Secondary),
                ActionOutcome::ConnectionRefused => GateStep::Continue(
                    Gate { phase: GatePhase::Reclaiming, rounds },
                ),
                ActionOutcome::NotFound => GateStep::Continue(
                    Gate { phase: GatePhase::Rebinding, rounds },
                ),
                _ => GateStep::Fatal(GateError::NotifyFailed),
            },
            GatePhase::Reclaiming => match outcome {
                ActionOutcome::Succeeded => GateStep::Continue(
                    Gate { phase: GatePhase::Rebinding, rounds },
                ),
                ActionOutcome::NotFound => GateStep::Continue(
                    Gate { phase: GatePhase::Rebinding, rounds },
                ),
                ActionOutcome::OwnerAlive => GateStep::Finished(Role::Secondary),
                _ => GateStep::Fatal(GateError::ReclaimFailed),
            },
            GatePhase::Rebinding => match outcome {
                ActionOutcome::Succeeded => GateStep::Finished(Role::Primary),
                ActionOutcome::AddressInUse => if rounds < MAX_REBIND_ROUNDS {
                    GateStep::Continue(Gate { phase: GatePhase::Notifying, rounds: rounds + 1 })
                } else {
                    GateStep::Fatal(GateError::RebindFailed)
                },
                _ => GateStep::Fatal(GateError::RebindFailed),
            },
        }
    }
}

/// Who holds an endpoint.
#[derive(Clone, Copy, Debug, PartialEq, Eq, Structural)]
pub enum Occupancy {
    /// Nobody: the endpoint does not exist.
    Unbound,
    /// A live owner listens on it.
    Listening,
    /// It exists, but its owner died without removing it.
    Abandoned,
}

/// An endpoint held in memory, with the show requests that its listening
/// owner has received and not yet taken.
#[derive(Clone, Copy, Debug, PartialEq, Eq, Structural)]
pub struct MemoryEndpoint {
    pub occupancy: Occupancy,
    pub pending_shows: u64,
}

/// One more show request; at the bound, requests coalesce.
pub open spec fn one_more(n: u64) -> u64 {
    if n < u64::MAX {
        (n + 1) as u64
    } else {
        n
    }
}

/// The outcome of `action` on `e`, and the endpoint after it.
pub open spec fn perform_on(e: MemoryEndpoint, action: EndpointAction) -> (ActionOutcome, MemoryEndpoint) {
    match action {
        EndpointAction::Bind => match e.occupancy {
            Occupancy::Unbound => (
                ActionOutcome::Succeeded,
                MemoryEndpoint { occupancy: Occupancy::Listening, pending_shows: 0 },
            ),
            _ => (ActionOutcome::AddressInUse, e),
        },
        EndpointAction::Notify => match e.occupancy {
            Occupancy::Listening => (
                ActionOutcome::Succeeded,
                MemoryEndpoint { occupancy: Occupancy::Listening, pending_shows: one_more(e.pending_shows) },
            ),
            Occupancy::Abandoned => (ActionOutcome::ConnectionRefused, e),
            Occupancy::Unbound => (ActionOutcome::NotFound, e),
        },
        EndpointAction::RemoveStale => match e.occupancy {
            Occupancy::Abandoned => (
                ActionOutcome::Succeeded,
                MemoryEndpoint { occupancy: Occupancy::Unbound, pending_shows: 0 },
            ),
            Occupancy::Unbound => (ActionOutcome::NotFound, e),
            Occupancy::Listening => (
                ActionOutcome::OwnerAlive,
                MemoryEndpoint { occupancy: Occupancy::Listening, pending_shows: one_more(e.pending_shows) },
            ),
        },
    }
}

/// Acquisition on `e` from state `g` on: the result and the endpoint after it.
pub open spec fn drive(g: Gate, e: MemoryEndpoint) -> (Result<Role, GateError>, MemoryEndpoint)
    decreases gate_rank(g),
{
    let (outcome, next_e) = perform_on(e, phase_action(g.phase));
    match gate_step(g, outcome) {
        GateStep::Continue(next) => drive(next, next_e),
        GateStep::Finished(role) => (Ok(role), next_e),
        GateStep::Fatal(err) => (Err(err), next_e),
    }
}

/// Acquisition on `e`, from the start.
pub open spec fn acquire_on(e: MemoryEndpoint) -> (Result<Role, GateError>, MemoryEndpoint) {
    drive(gate_start(), e)
}

/// The endpoint after its owner dies without removing it.
pub open spec fn abandoned(e: MemoryEndpoint) -> MemoryEndpoint {
    match e.occupancy {
        Occupancy::Listening => MemoryEndpoint { occupancy: Occupancy::Abandoned, pending_shows: 0 },
        _ => e,
    }
}

/// What acquisition does on each kind of endpoint: an unbound or abandoned
/// one makes a listening primary with no pending request; a listening one
/// makes a secondary and gives its owner one more show request.
pub proof fn lemma_acquire_outcomes(e: MemoryEndpoint)
    ensures
        e.occupancy != Occupancy::Listening ==> acquire_on(e) == (
        Ok::<Role, GateError>(Role::Primary),
        MemoryEndpoint { occupancy: Occupancy::Listening, pending_shows: 0 },
        ),
        e.occupancy == Occupancy::Listening ==> acquire_on(e) == (
        Ok::<Role, GateError>(Role::Secondary),
        MemoryEndpoint { occupancy: Occupancy::Listening, pending_shows: one_more(e.pending_shows) },
        ),
{
    reveal_with_fuel(drive, 4);
}

/// On an unbound endpoint the first acquisition makes a primary and a second
/// one makes a secondary.
pub proof fn lemma_second_start_is_secondary(e: MemoryEndpoint)
    requires
        e.occupancy == Occupancy::Unbound,
    ensures
        acquire_on(e).0 == Ok::<Role, GateError>(Role::Primary),
        acquire_on(acquire_on(e).1).0 == Ok::<Role, GateError>(Role::Secondary),
{
    lemma_acquire_outcomes(e);
    lemma_acquire_outcomes(acquire_on(e).1);
}

/// A primary that dies without removing its endpoint leaves it to be
/// reclaimed: the next acquisition makes a primary, not an error.
pub proof fn lemma_abandoned_endpoint_is_reclaimed(e: MemoryEndpoint)
    requires
        e.occupancy == Occupancy::Listening,
    ensures
        acquire_on(abandoned(e)).0 == Ok::<Role, GateError>(Role::Primary),
        acquire_on(abandoned(e)).1.occupancy == Occupancy::Listening,
{
    lemma_acquire_outcomes(abandoned(e));
}

/// Two starts on an unbound endpoint leave the primary exactly one show
/// request.
pub proof fn lemma_second_start_shows_once(e: MemoryEndpoint)
    requires
        e.occupancy == Occupancy::Unbound,
    ensures
        acquire_on(acquire_on(e).1).1.pending_shows == 1,
{
    lemma_acquire_outcomes(e);
    lemma_acquire_outcomes(acquire_on(e).1);
}

/// One start among several on the same endpoint.
pub enum Start {
    /// Still acquiring, in this state.
    Acquiring(Gate),
    /// Done, with this result.
    Done(Result<Role, GateError>),
}

/// A start takes one step on `e`: the start and the endpoint after it.
pub open spec fn start_step(s: Start, e: MemoryEndpoint) -> (Start, MemoryEndpoint) {
    match s {
        Start::Acquiring(g) => {
            let (outcome, next_e) = perform_on(e, phase_action(g.phase));
            let next = match gate_step(g, outcome) {
                GateStep::Continue(n) => Start::Acquiring(n),
                GateStep::Finished(role) => Start::Done(Ok(role)),
                GateStep::Fatal(err) => Start::Done(Err(err)),
            };
            (next, next_e)
        },
        Start::Done(_) => (s, e),
    }
}

/// Two starts `a` and `b` on `e`, whose steps come in the order `schedule`
/// gives (`true`: `a` steps): the two starts and the endpoint after it.
pub open spec fn interleave(a: Start, b: Start, e: MemoryEndpoint, schedule: Seq<bool>) -> (
    Start,
    Start,
    MemoryEndpoint,
)
    decreases schedule.len(),
{
    if schedule.len() == 0 {
        (a, b, e)
    } else if schedule[0] {
        let (a2, e2) = start_step(a, e);
        interleave(a2, b, e2, schedule.drop_first())
    } else {
        let (b2, e2) = start_step(b, e);
        interleave(a, b2, e2, schedule.drop_first())
    }
}

pub open spec fn is_primary(s: Start) -> bool {
    s == Start::Done(Ok(Role::Primary))
}

pub open spec fn has_failed(s: Start) -> bool {
    s matches Start::Done(Err(_))
}

/// What holds of one start along a run in which nobody abandons the
/// endpoint.
spec fn start_sound(s: Start, e: MemoryEndpoint) -> bool {
    match s {
        Start::Acquiring(g) => g.rounds <= 1 && (g.phase == GatePhase::Rebinding
            ==> e.occupancy != Occupancy::Abandoned && g.rounds == 0) && (g.rounds >= 1
            ==> g.phase == GatePhase::Notifying && e.occupancy == Occupancy::Listening),
        Start::Done(r) => r is Ok,
    }
}

/// What holds of two starts along such a run; `alive`: the endpoint had a
/// live owner from the beginning.
spec fn pair_sound(a: Start, b: Start, e: MemoryEndpoint, alive: bool) -> bool {
    &&& start_sound(a, e)
    &&& start_sound(b, e)
    &&& !(is_primary(a) && is_primary(b))
    &&& (is_primary(a) || is_primary(b)) ==> e.occupancy == Occupancy::Listening
    &&& alive ==> e.occupancy == Occupancy::Listening && !is_primary(a) && !is_primary(b)
}

proof fn lemma_step_keeps_pair_sound(a: Start, b: Start, e: MemoryEndpoint, alive: bool)
    requires
        pair_sound(a, b, e, alive),
    ensures
        pair_sound(start_step(a, e).0, b, start_step(a, e).1, alive),
        pair_sound(a, start_step(b, e).0, start_step(b, e).1, alive),
{
}

proof fn lemma_interleave_keeps_pair_sound(
    a: Start,
    b: Start,
    e: MemoryEndpoint,
    schedule: Seq<bool>,
    alive: bool,
)
    requires
        pair_sound(a, b, e, alive),
    ensures
        pair_sound(
            interleave(a, b, e, schedule).0,
            interleave(a, b, e, schedule).1,
            interleave(a, b, e, schedule).2,
            alive,
        ),
    decreases schedule.len(),
{
    if schedule.len() > 0 {
        lemma_step_keeps_pair_sound(a, b, e, alive);
        if schedule[0] {
            let (a2, e2) = start_step(a, e);
            lemma_interleave_keeps_pair_sound(a2, b, e2, schedule.drop_first(), alive);
        } else {
            let (b2, e2) = start_step(b, e);
            lemma_interleave_keeps_pair_sound(a, b2, e2, schedule.drop_first(), alive);
        }
    }
}

/// Two starts racing on one endpoint, in any interleaving of their steps:
/// at most one becomes primary, neither fails, and where the endpoint had a
/// live owner neither becomes primary.
pub proof fn lemma_two_starts_race(e: MemoryEndpoint, schedule: Seq<bool>)
    ensures
        ({
            let (a, b, _) = interleave(
                Start::Acquiring(gate_start()),
                Start::Acquiring(gate_start()),
                e,
                schedule,
            );
            &&& !(is_primary(a) && is_primary(b))
            &&& !has_failed(a) && !has_failed(b)
            &&& e.occupancy == Occupancy::Listening ==> !is_primary(a) && !is_primary(b)
        }),
{
    let alive = e.occupancy == Occupancy::Listening;
    let s = Start::Acquiring(gate_start());
    lemma_interleave_keeps_pair_sound(s, s, e, schedule, alive);
}

impl MemoryEndpoint {
    /// An endpoint that nobody holds.
    pub fn new() -> (r: MemoryEndpoint)
        ensures
            r == (MemoryEndpoint { occupancy: Occupancy::Unbound, pending_shows: 0 }),
    {
        MemoryEndpoint { occupancy: Occupancy::Unbound, pending_shows: 0 }
    }

    /// Performs `action` on the endpoint.
    pub fn perform(&mut self, action: EndpointAction) -> (r: ActionOutcome)
        ensures
            (r, *final(self)) == perform_on(*old(self), action),
    {
        match action {
            EndpointAction::Bind => match self.occupancy {
                Occupancy::Unbound => {
                    *self = MemoryEndpoint { occupancy: Occupancy::Listening, pending_shows: 0 };
                    ActionOutcome::Succeeded
                },
                _ => ActionOutcome::AddressInUse,
            },
            EndpointAction::Notify => match self.occupancy {
                Occupancy::Listening => {
                    if self.pending_shows < u64::MAX {
                        self.pending_shows = self.pending_shows + 1;
                    }
                    ActionOutcome::Succeeded
                },
                Occupancy::Abandoned => ActionOutcome::ConnectionRefused,
                Occupancy::Unbound => ActionOutcome::NotFound,
            },
            EndpointAction::RemoveStale => match self.occupancy {
                Occupancy::Abandoned => {
                    *self = MemoryEndpoint { occupancy: Occupancy::Unbound, pending_shows: 0 };
                    ActionOutcome::Succeeded
                },
                Occupancy::Unbound => ActionOutcome::NotFound,
                Occupancy::Listening => {
                    if self.pending_shows < u64::MAX {
                        self.pending_shows = self.pending_shows + 1;
                    }
                    ActionOutcome::OwnerAlive
                },
            },
        }
    }

    /// The owner dies without removing the endpoint.
    pub fn abandon(&mut self)
        ensures
            *final(self) == abandoned(*old(self)),
    {
        if self.occupancy == Occupancy::Listening {
            *self = MemoryEndpoint { occupancy: Occupancy::Abandoned, pending_shows: 0 };
        }
    }

    /// Hands the owner its pending show requests.
    pub fn take_shows(&mut self) -> (r: u64)
        ensures
            r == old(self).pending_shows,
            *final(self) == (MemoryEndpoint { occupancy: old(self).occupancy, pending_shows: 0 }),
    {
        let r = self.pending_shows;
        self.pending_shows = 0;
        r
    }

    /// Takes a role by way of this endpoint, running the decision table
    /// against it.
    pub fn acquire(&mut self) -> (r: Result<Role, GateError>)
        ensures
            (r, *final(self)) == acquire_on(*old(self)),
            old(self).occupancy != Occupancy::Listening ==> r == Ok::<Role, GateError>(Role::Primary)
                && final(self).occupancy == Occupancy::Listening && final(self).pending_shows == 0,
            old(self).occupancy == Occupancy::Listening ==> r == Ok::<Role, GateError>(Role::Secondary)
                && final(self).occupancy == Occupancy::Listening && final(self).pending_shows
                == one_more(old(self).pending_shows),
    {
        let ghost start = *self;
        let mut g = Gate::start();
        loop
            invariant
                start == *old(self),
                drive(g, *self) == acquire_on(start),
            decreases gate_rank(g),
        {
            let ghost before = *self;
            let outcome = self.perform(g.action());
            proof {
                lemma_acquire_outcomes(start);
                lemma_step_descends(g, outcome);
                assert(drive(g, before) == match gate_step(g, outcome) {
                    GateStep::Continue(next) => drive(next, *self),
                    GateStep::Finished(role) => (Ok(role), *self),
                    GateStep::Fatal(err) => (Err(err), *self),
                });
            }
            match g.advance(outcome) {
                GateStep::Continue(next) => {
                    g = next;
                },
                GateStep::Finished(role) => {
                    return Ok(role);
                },
                GateStep::Fatal(err) => {
                    return Err(err);
                },
            }
        }
    }
}

} // verus!
