//! The election: one handler for each state of a member.

use vstd::prelude::*;
use crate::census::{lemma_candidate, lemma_leader, CensusEntry, CensusView};
use crate::error::{BldrError, BldrResult};
use crate::state_machine::{MachineView, StateMachine};
use crate::topology::{State, Worker, WorkerView};

verus! {

/// How long a member waits before it looks at an undecided election again.
pub const ELECTION_POLL: u32 = 10;

/// What a tick leaves behind: the worker after it, and its verdict, which is
/// the next state with the time to wait before the next tick, or the failure
/// that ends the run.
#[verifier::ext_equal]
pub struct Tick<T> {
    pub worker: WorkerView<T>,
    pub verdict: BldrResult<(State, u32)>,
}

/// The tick that changes nothing and fails because the member's own entry is
/// missing from its census.
pub open spec fn missing<T>(worker: WorkerView<T>) -> Tick<T> {
    Tick { worker, verdict: Err(BldrError::CensusNotFound) }
}

/// The tick that leaves `census` behind and moves on to `next` at once.
pub open spec fn proceed<T>(worker: WorkerView<T>, census: CensusView, next: State) -> Tick<T> {
    Tick { worker: WorkerView { census, ..worker }, verdict: Ok((next, 0u32)) }
}

/// A member that looks for its place in the cluster raises the in-event
/// flag and withdraws what it had declared of itself. Where a leader is in
/// sight it goes on to follow, else it starts an election.
pub open spec fn determine_viability<T>(worker: WorkerView<T>) -> Tick<T> {
    let raised = worker.census.with_in_event(true);
    match raised.me_entry() {
        Some(me) => {
            let census = raised.with_me(CensusEntry { follower: None, leader: None, ..me });
            proceed(
                worker,
                census,
                if census.has_leader() {
                    State::BecomeFollower
                } else {
                    State::StartElection
                },
            )
        },
        None => missing(WorkerView { census: raised, ..worker }),
    }
}

/// Raises the in-event flag and clears the member's own leader and follower
/// flags, then looks for a leader.
pub fn state_determine_viability<T>(worker: &mut Worker<T>) -> (verdict: BldrResult<(State, u32)>)
    ensures
        (Tick { worker: final(worker)@, verdict }) == determine_viability(old(worker)@),
{
    worker.census.set_in_event(true);
    match worker.census.me_mut() {
        Ok(ce) => {
            ce.follower(None);
            ce.leader(None);
        },
        Err(e) => {
            return Err(e);
        },
    }
    if worker.census.has_leader() {
        Ok((State::BecomeFollower, 0))
    } else {
        Ok((State::StartElection, 0))
    }
}

/// A member that starts an election joins it, and votes for the candidate
/// it prefers once it has joined.
pub open spec fn start_election<T>(worker: WorkerView<T>) -> Tick<T> {
    match worker.census.me_entry() {
        Some(me) => {
            let joined = worker.census.with_me(CensusEntry { election: Some(true), ..me });
            let census = joined.with_me(
                CensusEntry { election: Some(true), vote: joined.candidate(), ..me },
            );
            proceed(worker, census, State::InElection)
        },
        None => missing(worker),
    }
}

/// Joins the election and votes for the preferred candidate.
pub fn state_start_election<T>(worker: &mut Worker<T>) -> (verdict: BldrResult<(State, u32)>)
    ensures
        (Tick { worker: final(worker)@, verdict }) == start_election(old(worker)@),
{
    match worker.census.me_mut() {
        Ok(ce) => {
            ce.election = Some(true);
        },
        Err(e) => {
            return Err(e);
        },
    }
    let candidate = worker.census.determine_vote();
    match worker.census.me_mut() {
        Ok(ce) => {
            ce.vote(candidate);
        },
        Err(e) => {
            return Err(e);
        },
    }
    Ok((State::InElection, 0))
}

/// A member in an election votes for the candidate it now prefers. A
/// leader in sight ends the election for it, whatever the votes say: it
/// goes on to follow. Else, once the election is decided, the winner goes
/// on to lead and every other member to follow; until then the member
/// waits and looks again.
pub open spec fn in_election<T>(worker: WorkerView<T>) -> Tick<T> {
    match worker.census.me_entry() {
        Some(me) => {
            let census = worker.census.with_me(
                CensusEntry { vote: worker.census.candidate(), ..me },
            );
            if census.has_leader() {
                proceed(worker, census, State::BecomeFollower)
            } else {
                match census.winner() {
                    Some(winner) => proceed(
                        worker,
                        census,
                        if winner == census.me {
                            State::BecomeLeader
                        } else {
                            State::BecomeFollower
                        },
                    ),
                    None => Tick {
                        worker: WorkerView { census, ..worker },
                        verdict: Ok((State::InElection, ELECTION_POLL)),
                    },
                }
            }
        },
        None => missing(worker),
    }
}

/// Brings the member's vote up to date, then defers to a leader or looks
/// at how the election stands.
pub fn state_in_election<T>(worker: &mut Worker<T>) -> (verdict: BldrResult<(State, u32)>)
    ensures
        (Tick { worker: final(worker)@, verdict }) == in_election(old(worker)@),
{
    let candidate = worker.census.determine_vote();
    match worker.census.me_mut() {
        Ok(ce) => {
            if ce.vote != candidate {
                ce.vote(candidate);
            }
        },
        Err(e) => {
            return Err(e);
        },
    }
    proof {
        let me = old(worker)@.census.me_entry()->0;
        assert(worker.census@ =~= old(worker)@.census.with_me(
            CensusEntry { vote: candidate, ..me },
        ));
        lemma_leader(worker.census@);
    }
    if worker.census.get_leader().is_some() {
        return Ok((State::BecomeFollower, 0));
    }
    match worker.census.voting_finished() {
        Some(winner) => {
            if worker.census.me_id() == winner {
                Ok((State::BecomeLeader, 0))
            } else {
                Ok((State::BecomeFollower, 0))
            }
        },
        None => Ok((State::InElection, ELECTION_POLL)),
    }
}

/// The winner declares itself leader unless a leader is in sight already,
/// and goes on to initialize once every other member follows.
pub open spec fn become_leader<T>(worker: WorkerView<T>) -> Tick<T> {
    if worker.census.has_leader() {
        proceed(worker, worker.census, leader_next(worker.census))
    } else {
        match worker.census.me_entry() {
            Some(me) => {
                let census = worker.census.with_me(CensusEntry { leader: Some(true), ..me });
                proceed(worker, census, leader_next(census))
            },
            None => missing(worker),
        }
    }
}

/// Where a member that is to lead goes next.
pub open spec fn leader_next(census: CensusView) -> State {
    if census.has_all_followers() {
        State::InitializingLeader
    } else {
        State::BecomeLeader
    }
}

/// Declares the member leader where there is none, and waits for the others
/// to follow.
pub fn state_become_leader<T>(worker: &mut Worker<T>) -> (verdict: BldrResult<(State, u32)>)
    ensures
        (Tick { worker: final(worker)@, verdict }) == become_leader(old(worker)@),
{
    if worker.census.has_leader() == false {
        match worker.census.me_mut() {
            Ok(ce) => {
                ce.leader = Some(true);
            },
            Err(e) => {
                return Err(e);
            },
        }
    }
    if worker.census.has_all_followers() {
        Ok((State::InitializingLeader, 0))
    } else {
        Ok((State::BecomeLeader, 0))
    }
}

/// A member that is to follow declares itself a follower, unless it has
/// said before whether it follows, and goes on to initialize once a leader
/// is in sight.
pub open spec fn become_follower<T>(worker: WorkerView<T>) -> Tick<T> {
    match worker.census.me_entry() {
        Some(me) => {
            let census = if me.follower is None {
                worker.census.with_me(CensusEntry { follower: Some(true), ..me })
            } else {
                worker.census
            };
            proceed(
                worker,
                census,
                if census.has_leader() {
                    State::InitializingFollower
                } else {
                    State::BecomeFollower
                },
            )
        },
        None => missing(worker),
    }
}

/// Declares the member a follower and waits for a leader.
pub fn state_become_follower<T>(worker: &mut Worker<T>) -> (verdict: BldrResult<(State, u32)>)
    ensures
        (Tick { worker: final(worker)@, verdict }) == become_follower(old(worker)@),
{
    match worker.census.me_mut() {
        Ok(ce) => {
            if ce.follower.is_none() {
                ce.follower(Some(true));
            }
        },
        Err(e) => {
            return Err(e);
        },
    }
    proof {
        let me = old(worker)@.census.me_entry()->0;
        if me.follower is Some {
            assert(worker.census@ =~= old(worker)@.census);
        }
    }
    if worker.census.has_leader() {
        Ok((State::InitializingFollower, 0))
    } else {
        Ok((State::BecomeFollower, 0))
    }
}

/// What the package's initialization routine leaves behind, given how it
/// ended: where it succeeded the member is marked initialized, where it
/// failed its failure is handed on and nothing is marked.
pub open spec fn initialization<T>(worker: WorkerView<T>, outcome: BldrResult<()>) -> (
    WorkerView<T>,
    BldrResult<()>,
) {
    match outcome {
        Ok(_) => match worker.census.me_entry() {
            Some(me) => (
                WorkerView {
                    census: worker.census.with_me(CensusEntry { initialized: true, ..me }),
                    ..worker
                },
                Ok(()),
            ),
            None => (worker, Err(BldrError::CensusNotFound)),
        },
        Err(failure) => (worker, Err(failure)),
    }
}

/// Records how the package's initialization routine ended. The host runs the
/// routine and hands in its `outcome`.
pub fn initialize<T>(worker: &mut Worker<T>, outcome: BldrResult<()>) -> (done: BldrResult<()>)
    ensures
        (final(worker)@, done) == initialization(old(worker)@, outcome),
{
    match outcome {
        Ok(_) => {
            match worker.census.me_mut() {
                Ok(me) => {
                    me.initialized();
                    Ok(())
                },
                Err(e) => Err(e),
            }
        },
        Err(e) => Err(e),
    }
}

/// The tick of a member that went through initialization and, if that
/// went well, moves on to `next`.
pub open spec fn initialized<T>(worker: WorkerView<T>, outcome: BldrResult<()>, next: State) -> Tick<
    T,
> {
    let (after, done) = initialization(worker, outcome);
    match done {
        Ok(_) => Tick { worker: after, verdict: Ok((next, 0u32)) },
        Err(failure) => Tick { worker: after, verdict: Err(failure) },
    }
}

/// The leader initializes as soon as its role is confirmed, and leads once
/// it has.
pub open spec fn initializing_leader<T>(worker: WorkerView<T>, outcome: BldrResult<()>) -> Tick<T> {
    initialized(worker, outcome, State::Leader)
}

/// Runs the initialization routine `init` and records how it ended.
pub fn state_initializing_leader<T, I: FnOnce() -> BldrResult<()>>(
    worker: &mut Worker<T>,
    init: I,
) -> (verdict: BldrResult<(State, u32)>)
    requires
        init.requires(()),
    ensures
        exists|outcome: BldrResult<()>|
            init.ensures((), outcome) && #[trigger] initializing_leader(old(worker)@, outcome) == (
            Tick { worker: final(worker)@, verdict }),
{
    let outcome = init();
    let ghost seen = outcome;
    let done = initialize(worker, outcome);
    let verdict = match done {
        Ok(_) => Ok((State::Leader, 0)),
        Err(e) => Err(e),
    };
    assert(initializing_leader(old(worker)@, seen) == (Tick { worker: worker@, verdict }));
    verdict
}

/// What holds a follower back from its own initialization.
#[derive(Clone, Copy, Debug, PartialEq, Eq, Structural)]
pub enum InitGate {
    /// No leader is in sight.
    NoLeader,
    /// The leader has not initialized yet.
    Waiting,
    /// The leader has initialized: nothing holds the follower back.
    Done,
}

impl InitGate {
    /// What `census` says of the leader's initialization.
    pub open spec fn of(census: CensusView) -> InitGate {
        match census.leader_entry() {
            Some(leader) => if leader.initialized {
                InitGate::Done
            } else {
                InitGate::Waiting
            },
            None => InitGate::NoLeader,
        }
    }
}

/// Looks at the leader to see whether a follower may initialize.
pub fn init_gate<T>(worker: &Worker<T>) -> (gate: InitGate)
    ensures
        gate == InitGate::of(worker@.census),
{
    match worker.census.get_leader() {
        Some(leader) => {
            if leader.initialized {
                InitGate::Done
            } else {
                InitGate::Waiting
            }
        },
        None => InitGate::NoLeader,
    }
}

/// A follower initializes only after its leader has: it waits while the
/// leader has not, and looks for its place anew when the leader is gone from
/// sight.
pub open spec fn initializing_follower<T>(worker: WorkerView<T>, outcome: BldrResult<()>) -> Tick<
    T,
> {
    match InitGate::of(worker.census) {
        InitGate::Done => initialized(worker, outcome, State::Follower),
        InitGate::Waiting => proceed(worker, worker.census, State::InitializingFollower),
        InitGate::NoLeader => proceed(worker, worker.census, State::DetermineViability),
    }
}

/// Runs the initialization routine `init` once the leader has initialized,
/// and not before.
pub fn state_initializing_follower<T, I: FnOnce() -> BldrResult<()>>(
    worker: &mut Worker<T>,
    init: I,
) -> (verdict: BldrResult<(State, u32)>)
    requires
        init.requires(()),
    ensures
        exists|outcome: BldrResult<()>|
            (InitGate::of(old(worker)@.census) == InitGate::Done ==> init.ensures((), outcome))
                && #[trigger] initializing_follower(old(worker)@, outcome) == (Tick {
                worker: final(worker)@,
                verdict,
            }),
        verdict matches Ok((State::Follower, _)) ==> old(worker)@.census.leader_entry() matches Some(
            leader,
        ) && leader.initialized,
{
    match init_gate(worker) {
        InitGate::Done => {
            let outcome = init();
            let ghost seen = outcome;
            let done = initialize(worker, outcome);
            let verdict = match done {
                Ok(_) => Ok((State::Follower, 0)),
                Err(e) => Err(e),
            };
            assert(initializing_follower(old(worker)@, seen) == (Tick {
                worker: worker@,
                verdict,
            }));
            verdict
        },
        InitGate::Waiting => {
            let verdict = Ok((State::InitializingFollower, 0));
            assert(initializing_follower(old(worker)@, Ok(())) == (Tick {
                worker: worker@,
                verdict,
            }));
            verdict
        },
        InitGate::NoLeader => {
            let verdict = Ok((State::DetermineViability, 0));
            assert(initializing_follower(old(worker)@, Ok(())) == (Tick {
                worker: worker@,
                verdict,
            }));
            verdict
        },
    }
}

/// What starting the supervised service leaves behind, given how the start
/// ended: a service that runs already is left alone, one that was started
/// has its handle kept, and a failed start is handed on.
pub open spec fn supervision<T>(worker: WorkerView<T>, started: BldrResult<T>) -> (
    WorkerView<T>,
    BldrResult<()>,
) {
    match worker.supervisor_thread {
        Some(_) => (worker, Ok(())),
        None => match started {
            Ok(handle) => (WorkerView { supervisor_thread: Some(handle), ..worker }, Ok(())),
            Err(failure) => (worker, Err(failure)),
        },
    }
}

/// Records how starting the supervised service ended. The host starts the
/// service and hands in what came of it.
pub fn supervise<T>(worker: &mut Worker<T>, started: BldrResult<T>) -> (done: BldrResult<()>)
    ensures
        (final(worker)@, done) == supervision(old(worker)@, started),
{
    if worker.supervisor_thread.is_some() {
        return Ok(());
    }
    match started {
        Ok(handle) => {
            worker.supervisor_thread = Some(handle);
            Ok(())
        },
        Err(e) => Err(e),
    }
}

/// Whether a member in its steady state has the service started in this
/// tick: it has its own entry, and no service runs yet.
pub open spec fn starts_service<T>(worker: WorkerView<T>) -> bool {
    worker.census.me_entry() is Some && worker.supervisor_thread is None
}

/// A member in its steady state leaves the election behind: its election
/// flag and vote are unset and its in-event flag is lowered. Then the
/// service is started unless it runs, and the member moves on to
/// `next(census)`, the census being the one it left behind.
pub open spec fn steady<T>(
    worker: WorkerView<T>,
    started: BldrResult<T>,
    next: spec_fn(CensusView) -> State,
) -> Tick<T> {
    match worker.census.me_entry() {
        Some(me) => {
            let census = worker.census.with_me(me.without_election()).with_in_event(false);
            let (after, done) = supervision(WorkerView { census, ..worker }, started);
            match done {
                Ok(_) => Tick { worker: after, verdict: Ok((next(census), 0u32)) },
                Err(failure) => Tick { worker: after, verdict: Err(failure) },
            }
        },
        None => missing(worker),
    }
}

/// A leader stays leader.
pub open spec fn leader<T>(worker: WorkerView<T>, started: BldrResult<T>) -> Tick<T> {
    steady(worker, started, |census: CensusView| State::Leader)
}

/// A follower stays a follower while a leader is in sight, and looks for
/// its place anew as soon as none is.
pub open spec fn follower<T>(worker: WorkerView<T>, started: BldrResult<T>) -> Tick<T> {
    steady(
        worker,
        started,
        |census: CensusView|
            if census.has_leader() {
                State::Follower
            } else {
                State::DetermineViability
            },
    )
}

/// Leaves the election behind and has `start` start the service unless it
/// runs. Fails, with nothing changed, where the member's own entry is
/// missing.
fn settle<T, S: FnOnce() -> BldrResult<T>>(worker: &mut Worker<T>, start: S) -> (result: (
    BldrResult<()>,
    Ghost<BldrResult<T>>,
))
    requires
        start.requires(()),
    ensures
        starts_service(old(worker)@) ==> start.ensures((), result.1@),
        forall|next: spec_fn(CensusView) -> State| #[trigger]
            steady(old(worker)@, result.1@, next).worker == final(worker)@,
        forall|next: spec_fn(CensusView) -> State|
            match (#[trigger] steady(old(worker)@, result.1@, next)).verdict {
                Ok(_) => result.0 is Ok,
                Err(failure) => result.0 == Err::<(), BldrError>(failure),
            },
{
    match worker.census.me_mut() {
        Ok(me) => {
            me.clear_election();
        },
        Err(e) => {
            return (Err(e), Ghost(Err(BldrError::CensusNotFound)));
        },
    }
    if worker.census.in_event() {
        worker.census.set_in_event(false);
    }
    proof {
        let me = old(worker)@.census.me_entry()->0;
        assert(worker.census@ =~= old(worker)@.census.with_me(
            me.without_election(),
        ).with_in_event(false));
    }
    if worker.supervisor_thread.is_none() {
        let started = start();
        let ghost seen = started;
        let done = supervise(worker, started);
        (done, Ghost(seen))
    } else {
        (Ok(()), Ghost(Err(BldrError::CensusNotFound)))
    }
}

/// Leaves the election behind, has `start` start the service unless it runs,
/// and stays leader.
pub fn state_leader<T, S: FnOnce() -> BldrResult<T>>(worker: &mut Worker<T>, start: S) -> (verdict:
    BldrResult<(State, u32)>)
    requires
        start.requires(()),
    ensures
        exists|started: BldrResult<T>|
            (starts_service(old(worker)@) ==> start.ensures((), started)) && #[trigger] leader(
                old(worker)@,
                started,
            ) == (Tick { worker: final(worker)@, verdict }),
{
    let (done, Ghost(seen)) = settle(worker, start);
    let verdict = match done {
        Ok(_) => Ok((State::Leader, 0)),
        Err(e) => Err(e),
    };
    assert(leader(old(worker)@, seen) == (Tick { worker: worker@, verdict }));
    verdict
}

/// Leaves the election behind, has `start` start the service unless it runs,
/// and looks whether the leader is still in sight.
pub fn state_follower<T, S: FnOnce() -> BldrResult<T>>(worker: &mut Worker<T>, start: S) -> (verdict:
    BldrResult<(State, u32)>)
    requires
        start.requires(()),
    ensures
        exists|started: BldrResult<T>|
            (starts_service(old(worker)@) ==> start.ensures((), started)) && #[trigger] follower(
                old(worker)@,
                started,
            ) == (Tick { worker: final(worker)@, verdict }),
        !old(worker)@.census.has_leader() && verdict is Ok ==> verdict == Ok::<
            (State, u32),
            BldrError,
        >((State::DetermineViability, 0u32)),
{
    let (done, Ghost(seen)) = settle(worker, start);
    let verdict = match done {
        Ok(_) => {
            if !worker.census.has_leader() {
                Ok((State::DetermineViability, 0))
            } else {
                Ok((State::Follower, 0))
            }
        },
        Err(e) => Err(e),
    };
    assert(follower(old(worker)@, seen) == (Tick { worker: worker@, verdict }));
    proof {
        lemma_settled_keeps_leaders(old(worker)@.census);
    }
    verdict
}

/// Leaving the election behind changes nothing about who leads.
pub proof fn lemma_settled_keeps_leaders(census: CensusView)
    ensures
        census.me_entry() matches Some(me) ==> {
            let settled = census.with_me(me.without_election()).with_in_event(false);
            &&& settled.leaders() == census.leaders()
            &&& settled.has_leader() == census.has_leader()
            &&& settled.leader() == census.leader()
        },
{
    if let Some(me) = census.me_entry() {
        let settled = census.with_me(me.without_election()).with_in_event(false);
        assert forall|id: u64| settled.leads(id) == census.leads(id) by {}
        assert(settled.leaders() =~= census.leaders());
        if census.has_leader() {
            let id = choose|id: u64| census.leads(id);
            assert(settled.leads(id));
        }
        if settled.has_leader() {
            let id = choose|id: u64| settled.leads(id);
            assert(census.leads(id));
        }
    }
}

/// The handlers of the election, as a state machine keeps them in its
/// dispatch table.
#[derive(Clone, Copy, Debug, PartialEq, Eq, Structural)]
pub enum Handler {
    DetermineViability,
    StartElection,
    InElection,
    BecomeLeader,
    BecomeFollower,
    InitializingLeader,
    InitializingFollower,
    Leader,
    Follower,
}

impl Handler {
    /// The handler that the election has for `state`.
    pub open spec fn of(state: State) -> Handler {
        match state {
            State::DetermineViability => Handler::DetermineViability,
            State::StartElection => Handler::StartElection,
            State::InElection => Handler::InElection,
            State::BecomeLeader => Handler::BecomeLeader,
            State::BecomeFollower => Handler::BecomeFollower,
            State::InitializingLeader => Handler::InitializingLeader,
            State::InitializingFollower => Handler::InitializingFollower,
            State::Leader => Handler::Leader,
            State::Follower => Handler::Follower,
        }
    }

    /// The handler that the election has for `state`.
    pub fn for_state(state: State) -> (handler: Handler)
        ensures
            handler == Handler::of(state),
    {
        match state {
            State::DetermineViability => Handler::DetermineViability,
            State::StartElection => Handler::StartElection,
            State::InElection => Handler::InElection,
            State::BecomeLeader => Handler::BecomeLeader,
            State::BecomeFollower => Handler::BecomeFollower,
            State::InitializingLeader => Handler::InitializingLeader,
            State::InitializingFollower => Handler::InitializingFollower,
            State::Leader => Handler::Leader,
            State::Follower => Handler::Follower,
        }
    }

    /// The tick of this handler on `worker`, where the initialization
    /// routine, if the handler runs it, ends in `outcome`, and the start of
    /// the service, if the handler asks for it, ends in `started`.
    pub open spec fn tick<T>(
        self,
        worker: WorkerView<T>,
        outcome: BldrResult<()>,
        started: BldrResult<T>,
    ) -> Tick<T> {
        match self {
            Handler::DetermineViability => determine_viability(worker),
            Handler::StartElection => start_election(worker),
            Handler::InElection => in_election(worker),
            Handler::BecomeLeader => become_leader(worker),
            Handler::BecomeFollower => become_follower(worker),
            Handler::InitializingLeader => initializing_leader(worker, outcome),
            Handler::InitializingFollower => initializing_follower(worker, outcome),
            Handler::Leader => leader(worker, started),
            Handler::Follower => follower(worker, started),
        }
    }

    /// Whether this handler runs the initialization routine on `worker`.
    pub open spec fn runs_init<T>(self, worker: WorkerView<T>) -> bool {
        match self {
            Handler::InitializingLeader => true,
            Handler::InitializingFollower => InitGate::of(worker.census) == InitGate::Done,
            _ => false,
        }
    }

    /// Whether this handler has the service started on `worker`.
    pub open spec fn runs_start<T>(self, worker: WorkerView<T>) -> bool {
        match self {
            Handler::Leader | Handler::Follower => starts_service(worker),
            _ => false,
        }
    }

    /// Runs this handler on `worker`. Of `init` and `start` it calls what
    /// the handler needs, at most one of them and at most once.
    pub fn handle<T, I: FnOnce() -> BldrResult<()>, S: FnOnce() -> BldrResult<T>>(
        self,
        worker: &mut Worker<T>,
        init: I,
        start: S,
    ) -> (verdict: BldrResult<(State, u32)>)
        requires
            init.requires(()),
            start.requires(()),
        ensures
            exists|outcome: BldrResult<()>, started: BldrResult<T>|
                (self.runs_init(old(worker)@) ==> init.ensures((), outcome)) && (self.runs_start(
                    old(worker)@,
                ) ==> start.ensures((), started)) && #[trigger] self.tick(
                    old(worker)@,
                    outcome,
                    started,
                ) == (Tick { worker: final(worker)@, verdict }),
    {
        let ghost idle: BldrResult<()> = Ok(());
        let ghost unstarted: BldrResult<T> = Err(BldrError::CensusNotFound);
        match self {
            Handler::DetermineViability => {
                let verdict = state_determine_viability(worker);
                assert(self.tick(old(worker)@, idle, unstarted) == (Tick {
                    worker: worker@,
                    verdict,
                }));
                verdict
            },
            Handler::StartElection => {
                let verdict = state_start_election(worker);
                assert(self.tick(old(worker)@, idle, unstarted) == (Tick {
                    worker: worker@,
                    verdict,
                }));
                verdict
            },
            Handler::InElection => {
                let verdict = state_in_election(worker);
                assert(self.tick(old(worker)@, idle, unstarted) == (Tick {
                    worker: worker@,
                    verdict,
                }));
                verdict
            },
            Handler::BecomeLeader => {
                let verdict = state_become_leader(worker);
                assert(self.tick(old(worker)@, idle, unstarted) == (Tick {
                    worker: worker@,
                    verdict,
                }));
                verdict
            },
            Handler::BecomeFollower => {
                let verdict = state_become_follower(worker);
                assert(self.tick(old(worker)@, idle, unstarted) == (Tick {
                    worker: worker@,
                    verdict,
                }));
                verdict
            },
            Handler::InitializingLeader => {
                let verdict = state_initializing_leader(worker, init);
                proof {
                    let outcome = choose|outcome: BldrResult<()>|
                        init.ensures((), outcome) && #[trigger] initializing_leader(
                            old(worker)@,
                            outcome,
                        ) == (Tick { worker: worker@, verdict });
                    assert(self.tick(old(worker)@, outcome, unstarted) == (Tick {
                        worker: worker@,
                        verdict,
                    }));
                }
                verdict
            },
            Handler::InitializingFollower => {
                let verdict = state_initializing_follower(worker, init);
                proof {
                    let outcome = choose|outcome: BldrResult<()>|
                        (InitGate::of(old(worker)@.census) == InitGate::Done ==> init.ensures(
                            (),
                            outcome,
                        )) && #[trigger] initializing_follower(old(worker)@, outcome) == (Tick {
                            worker: worker@,
                            verdict,
                        });
                    assert(self.tick(old(worker)@, outcome, unstarted) == (Tick {
                        worker: worker@,
                        verdict,
                    }));
                }
                verdict
            },
            Handler::Leader => {
                let verdict = state_leader(worker, start);
                proof {
                    let started = choose|started: BldrResult<T>|
                        (starts_service(old(worker)@) ==> start.ensures((), started))
                            && #[trigger] leader(old(worker)@, started) == (Tick {
                            worker: worker@,
                            verdict,
                        });
                    assert(self.tick(old(worker)@, idle, started) == (Tick {
                        worker: worker@,
                        verdict,
                    }));
                }
                verdict
            },
            Handler::Follower => {
                let verdict = state_follower(worker, start);
                proof {
                    let started = choose|started: BldrResult<T>|
                        (starts_service(old(worker)@) ==> start.ensures((), started))
                            && #[trigger] follower(old(worker)@, started) == (Tick {
                            worker: worker@,
                            verdict,
                        });
                    assert(self.tick(old(worker)@, idle, started) == (Tick {
                        worker: worker@,
                        verdict,
                    }));
                }
                verdict
            },
        }
    }
}

/// The dispatch table of the election: every state goes to its own handler.
pub open spec fn dispatch() -> Map<State, Handler> {
    Map::new(|state: State| true, |state: State| Handler::of(state))
}

/// The machine of the election, ready to run: it starts by determining the
/// member's viability and has a handler for every state.
pub fn machine() -> (machine: StateMachine)
    ensures
        machine@ == (MachineView { state: State::DetermineViability, dispatch: dispatch() }),
{
    let mut machine = StateMachine::new(State::DetermineViability);
    machine.add_dispatch(State::DetermineViability, Handler::DetermineViability);
    machine.add_dispatch(State::StartElection, Handler::StartElection);
    machine.add_dispatch(State::InElection, Handler::InElection);
    machine.add_dispatch(State::BecomeLeader, Handler::BecomeLeader);
    machine.add_dispatch(State::BecomeFollower, Handler::BecomeFollower);
    machine.add_dispatch(State::InitializingLeader, Handler::InitializingLeader);
    machine.add_dispatch(State::InitializingFollower, Handler::InitializingFollower);
    machine.add_dispatch(State::Leader, Handler::Leader);
    machine.add_dispatch(State::Follower, Handler::Follower);
    assert(machine@.dispatch =~= dispatch());
    machine
}

/// No follower completes its initialization before its leader has: a
/// follower that moves on from initializing to following, or that is marked
/// initialized in that tick, had a leader in sight that was initialized.
pub proof fn lemma_leader_initializes_first<T>(worker: WorkerView<T>, outcome: BldrResult<()>)
    ensures
        ({
            let tick = initializing_follower(worker, outcome);
            let completes = (tick.verdict matches Ok((State::Follower, _))) || (
            worker.census.me_entry() matches Some(before) && tick.worker.census.me_entry() matches Some(
                after,
            ) && !before.initialized && after.initialized);
            completes ==> (worker.census.leader_entry() matches Some(leader)
                && leader.initialized)
        }),
{
}

/// A follower that has lost sight of its leader looks for its place anew:
/// unless the tick fails, the next state is `DetermineViability` and no
/// other.
pub proof fn lemma_follower_without_leader<T>(worker: WorkerView<T>, started: BldrResult<T>)
    requires
        !worker.census.has_leader(),
    ensures
        ({
            let tick = follower(worker, started);
            &&& tick.verdict is Ok ==> tick.verdict == Ok::<(State, u32), BldrError>(
                (State::DetermineViability, 0u32),
            )
            &&& worker.census.me_entry() is Some && (worker.supervisor_thread is Some
                || started is Ok) ==> tick.verdict is Ok
        }),
{
    lemma_settled_keeps_leaders(worker.census);
}

/// A member in an election that sees a leader goes on to follow it in that
/// very tick, however the votes stand.
pub proof fn lemma_election_defers_to_leader<T>(worker: WorkerView<T>)
    requires
        worker.census.has_leader(),
        worker.census.me_entry() is Some,
    ensures
        in_election(worker).verdict == Ok::<(State, u32), BldrError>(
            (State::BecomeFollower, 0u32),
        ),
{
    let me = worker.census.me_entry()->0;
    let census = worker.census.with_me(CensusEntry { vote: worker.census.candidate(), ..me });
    let id = choose|id: u64| worker.census.leads(id);
    assert(census.leads(id));
}

/// A member in its steady state that has left the election behind already,
/// whose in-event flag is down and whose service runs, is left by its tick
/// exactly as it was.
pub proof fn lemma_steady_tick_idempotent<T>(
    worker: WorkerView<T>,
    started: BldrResult<T>,
    next: spec_fn(CensusView) -> State,
)
    requires
        worker.census.me_entry() matches Some(me) && me.election is None && me.vote is None,
        !worker.census.in_event,
        worker.supervisor_thread is Some,
    ensures
        steady(worker, started, next).worker == worker,
{
    let me = worker.census.me_entry()->0;
    assert(worker.census.with_me(me.without_election()).with_in_event(false) =~= worker.census);
}

/// Whatever handler runs and however the outside work ends, a tick changes
/// no entry but the member's own, neither adds nor drops a member, and
/// never takes back that a member is initialized.
pub proof fn lemma_tick_changes_own_entry_only<T>(
    handler: Handler,
    worker: WorkerView<T>,
    outcome: BldrResult<()>,
    started: BldrResult<T>,
)
    ensures
        ({
            let after = handler.tick(worker, outcome, started).worker.census;
            &&& after.me == worker.census.me
            &&& after.members.dom() == worker.census.members.dom()
            &&& forall|id: u64|
                worker.census.members.contains_key(id) && id != worker.census.me
                    ==> #[trigger] after.members[id] == worker.census.members[id]
            &&& forall|id: u64|
                worker.census.members.contains_key(id) && worker.census.members[id].initialized
                    ==> (#[trigger] after.members[id]).initialized
        }),
{
    let after = handler.tick(worker, outcome, started).worker.census;
    assert(after.members.dom() =~= worker.census.members.dom());
}

/// A member stays in the election until its role is settled: no handler but
/// those of the two steady states takes back the election flag of a member
/// that takes part, and none of them leaves such a member without a vote
/// once it has voted.
pub proof fn lemma_election_kept_until_steady<T>(
    handler: Handler,
    worker: WorkerView<T>,
    outcome: BldrResult<()>,
)
    requires
        handler != Handler::Leader,
        handler != Handler::Follower,
        worker.census.me_entry() matches Some(me) && me.election == Some(true),
    ensures
        ({
            let started: BldrResult<T> = Err(BldrError::CensusNotFound);
            let before = worker.census.me_entry()->0;
            let after = handler.tick(worker, outcome, started).worker.census.me_entry();
            after matches Some(me) && me.election == Some(true) && (before.vote is Some
                ==> me.vote is Some)
        }),
{
    let me = worker.census.me_entry()->0;
    lemma_candidate(worker.census);
    assert(worker.census.stands(worker.census.me));
    let joined = worker.census.with_me(CensusEntry { election: Some(true), ..me });
    lemma_candidate(joined);
    assert(joined.stands(joined.me));
}

/// The service is started once: after a tick in a steady state that did
/// not fail, the service runs, and no later tick has it started again.
pub proof fn lemma_service_started_once<T>(
    worker: WorkerView<T>,
    started: BldrResult<T>,
    next: spec_fn(CensusView) -> State,
)
    ensures
        ({
            let tick = steady(worker, started, next);
            &&& tick.verdict is Ok ==> tick.worker.supervisor_thread is Some && !starts_service(
                tick.worker,
            )
            &&& worker.supervisor_thread is Some ==> tick.worker.supervisor_thread
                == worker.supervisor_thread
        }),
{
}

} // verus!
