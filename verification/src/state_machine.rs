//! The driver: it keeps the current state and a table that says which
//! handler each state is dispatched to, and runs one tick at a time. What a
//! handler does is none of its business.

use vstd::prelude::*;
use crate::error::{BldrError, BldrResult};
use crate::topology::initializer::{Handler, Tick};
use crate::topology::{State, Worker, WorkerView};

verus! {

/// How many states there are, and so how many places the table has.
pub const STATES: usize = 9;

/// The place of `state` in the dispatch table.
pub open spec fn slot_of(state: State) -> int {
    match state {
        State::DetermineViability => 0,
        State::StartElection => 1,
        State::InElection => 2,
        State::BecomeLeader => 3,
        State::BecomeFollower => 4,
        State::InitializingLeader => 5,
        State::InitializingFollower => 6,
        State::Leader => 7,
        State::Follower => 8,
    }
}

fn slot(state: State) -> (place: usize)
    ensures
        place == slot_of(state),
        place < STATES,
{
    match state {
        State::DetermineViability => 0,
        State::StartElection => 1,
        State::InElection => 2,
        State::BecomeLeader => 3,
        State::BecomeFollower => 4,
        State::InitializingLeader => 5,
        State::InitializingFollower => 6,
        State::Leader => 7,
        State::Follower => 8,
    }
}

/// A machine as its callers see it: the state it is in, and the handler, if
/// any, that each state is dispatched to.
#[verifier::ext_equal]
pub struct MachineView {
    pub state: State,
    pub dispatch: Map<State, Handler>,
}

/// A state machine: the current state and the dispatch table.
pub struct StateMachine {
    state: State,
    table: Vec<Option<Handler>>,
}

impl View for StateMachine {
    type V = MachineView;

    closed spec fn view(&self) -> MachineView {
        MachineView {
            state: self.state,
            dispatch: Map::new(
                |state: State| self.table@[slot_of(state)] is Some,
                |state: State| self.table@[slot_of(state)]->0,
            ),
        }
    }
}

impl StateMachine {
    #[verifier::type_invariant]
    spec fn well_formed(&self) -> bool {
        self.table@.len() == STATES
    }

    /// A machine in state `initial` that dispatches no state yet.
    pub fn new(initial: State) -> (machine: StateMachine)
        ensures
            machine@ == (MachineView { state: initial, dispatch: Map::<State, Handler>::empty() }),
    {
        let mut table: Vec<Option<Handler>> = Vec::new();
        let mut i: usize = 0;
        while i < STATES
            invariant
                i <= STATES,
                table@.len() == i,
                forall|k: int| 0 <= k < i ==> table@[k] is None,
            decreases STATES - i,
        {
            table.push(None);
            i = i + 1;
        }
        let machine = StateMachine { state: initial, table };
        assert(machine@.dispatch =~= Map::<State, Handler>::empty());
        machine
    }

    /// Has `state` dispatched to `handler` from now on, in place of any
    /// handler it had.
    pub fn add_dispatch(&mut self, state: State, handler: Handler)
        ensures
            final(self)@ == (MachineView {
                dispatch: old(self)@.dispatch.insert(state, handler),
                ..old(self)@
            }),
    {
        proof {
            use_type_invariant(&*self);
        }
        let place = slot(state);
        self.table[place] = Some(handler);
        proof {
            assert forall|other: State| other != state implies slot_of(other) != slot_of(
                state,
            ) by {}
            assert(self@.dispatch =~= old(self)@.dispatch.insert(state, handler));
        }
    }

    /// The state the machine is in.
    pub fn state(&self) -> (state: State)
        ensures
            state == self@.state,
    {
        self.state
    }

    /// The handler that `state` is dispatched to.
    pub fn handler(&self, state: State) -> (handler: Option<Handler>)
        ensures
            handler == (if self@.dispatch.contains_key(state) {
                Some(self@.dispatch[state])
            } else {
                None
            }),
    {
        proof {
            use_type_invariant(self);
        }
        self.table[slot(state)]
    }

    /// Runs one tick: calls the handler of the current state on `worker`,
    /// moves to the state the handler names and returns the time to wait
    /// before the next tick. Where the current state has no handler, or the
    /// handler fails, the machine stays where it is and the failure is
    /// returned: the run is over. Of `init` and `start` the handler calls
    /// what it needs.
    pub fn next<T, I: FnOnce() -> BldrResult<()>, S: FnOnce() -> BldrResult<T>>(
        &mut self,
        worker: &mut Worker<T>,
        init: I,
        start: S,
    ) -> (wait: BldrResult<u32>)
        requires
            init.requires(()),
            start.requires(()),
        ensures
            final(self)@.dispatch == old(self)@.dispatch,
            !old(self)@.dispatch.contains_key(old(self)@.state) ==> {
                &&& wait == Err::<u32, BldrError>(BldrError::NoDispatch)
                &&& final(self)@.state == old(self)@.state
                &&& final(worker)@ == old(worker)@
            },
            old(self)@.dispatch.contains_key(old(self)@.state) ==> {
                let handler = old(self)@.dispatch[old(self)@.state];
                exists|outcome: BldrResult<()>, started: BldrResult<T>|
                    (handler.runs_init(old(worker)@) ==> init.ensures((), outcome)) && (
                    handler.runs_start(old(worker)@) ==> start.ensures((), started)) && taken(
                        #[trigger] handler.tick(old(worker)@, outcome, started),
                        old(self)@.state,
                        final(self)@.state,
                        final(worker)@,
                        wait,
                    )
            },
    {
        proof {
            use_type_invariant(&*self);
        }
        let handler = match self.handler(self.state) {
            Some(handler) => handler,
            None => {
                return Err(BldrError::NoDispatch);
            },
        };
        let verdict = handler.handle(worker, init, start);
        proof {
            let (outcome, started) = choose|outcome: BldrResult<()>, started: BldrResult<T>|
                (handler.runs_init(old(worker)@) ==> init.ensures((), outcome)) && (
                handler.runs_start(old(worker)@) ==> start.ensures((), started))
                    && #[trigger] handler.tick(old(worker)@, outcome, started) == (Tick {
                    worker: worker@,
                    verdict,
                });
            assert(handler.tick(old(worker)@, outcome, started).verdict == verdict);
            assert(handler.tick(old(worker)@, outcome, started).worker == worker@);
        }
        match verdict {
            Ok((next, wait)) => {
                self.state = next;
                assert(self@.dispatch =~= old(self)@.dispatch);
                Ok(wait)
            },
            Err(e) => Err(e),
        }
    }
}

/// How the machine takes the tick that a handler made: it leaves the worker
/// as the handler left it; on a verdict it moves to the state named and
/// waits as told, on a failure it stays in state `from` and hands the
/// failure on.
pub open spec fn taken<T>(
    tick: Tick<T>,
    from: State,
    to: State,
    worker: WorkerView<T>,
    wait: BldrResult<u32>,
) -> bool {
    &&& worker == tick.worker
    &&& match tick.verdict {
        Ok((next, pause)) => to == next && wait == Ok::<u32, BldrError>(pause),
        Err(failure) => to == from && wait == Err::<u32, BldrError>(failure),
    }
}

} // verus!
