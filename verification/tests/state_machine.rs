use bldr::census::CensusEntry;
use bldr::error::{BldrError, BldrResult};
use bldr::state_machine::StateMachine;
use bldr::topology::initializer::{machine, Handler};
use bldr::topology::{State, Worker};

const ALL: [State; 9] = [
    State::DetermineViability,
    State::StartElection,
    State::InElection,
    State::BecomeLeader,
    State::BecomeFollower,
    State::InitializingLeader,
    State::InitializingFollower,
    State::Leader,
    State::Follower,
];

fn no_init() -> BldrResult<()> {
    panic!("the initialization routine must not run in this tick")
}

fn no_start() -> BldrResult<u32> {
    panic!("the service must not be started in this tick")
}

#[test]
fn new_machine_dispatches_nothing() {
    let sm = StateMachine::new(State::InElection);
    assert_eq!(sm.state(), State::InElection);
    for state in ALL {
        assert_eq!(sm.handler(state), None);
    }
}

#[test]
fn add_dispatch_registers_and_replaces() {
    let mut sm = StateMachine::new(State::Leader);
    sm.add_dispatch(State::Leader, Handler::Leader);
    assert_eq!(sm.handler(State::Leader), Some(Handler::Leader));
    assert_eq!(sm.handler(State::Follower), None);
    sm.add_dispatch(State::Leader, Handler::Follower);
    assert_eq!(sm.handler(State::Leader), Some(Handler::Follower));
    assert_eq!(sm.state(), State::Leader);
}

#[test]
fn election_machine_has_a_handler_for_every_state() {
    let sm = machine();
    assert_eq!(sm.state(), State::DetermineViability);
    for state in ALL {
        assert_eq!(sm.handler(state), Some(Handler::for_state(state)));
    }
    assert_eq!(Handler::for_state(State::InElection), Handler::InElection);
    assert_eq!(Handler::for_state(State::Follower), Handler::Follower);
}

#[test]
fn tick_without_handler_is_a_failure() {
    let mut sm = StateMachine::new(State::StartElection);
    sm.add_dispatch(State::DetermineViability, Handler::DetermineViability);
    let mut worker: Worker<u32> = Worker::new(1);
    assert_eq!(sm.next(&mut worker, no_init, no_start), Err(BldrError::NoDispatch));
    assert_eq!(sm.state(), State::StartElection);
    assert_eq!(worker.census.me(), Ok(&CensusEntry::new()));
    assert!(!worker.census.in_event());
}

#[test]
fn tick_moves_to_the_state_the_handler_names() {
    let mut sm = machine();
    let mut worker: Worker<u32> = Worker::new(1);
    assert_eq!(sm.next(&mut worker, no_init, no_start), Ok(0));
    assert_eq!(sm.state(), State::StartElection);
    assert_eq!(sm.next(&mut worker, no_init, no_start), Ok(0));
    assert_eq!(sm.state(), State::InElection);
}

#[test]
fn tick_returns_the_wait_of_the_handler() {
    let mut sm = machine();
    let mut worker: Worker<u32> = Worker::new(2);
    worker.census.insert(1, CensusEntry::new());
    assert_eq!(sm.next(&mut worker, no_init, no_start), Ok(0));
    assert_eq!(sm.next(&mut worker, no_init, no_start), Ok(0));
    assert_eq!(sm.next(&mut worker, no_init, no_start), Ok(10));
    assert_eq!(sm.state(), State::InElection);
}

#[test]
fn failed_tick_leaves_the_machine_where_it_was() {
    let mut sm = machine();
    let mut worker: Worker<u32> = Worker::new(1);
    worker.census.remove(1);
    assert_eq!(sm.next(&mut worker, no_init, no_start), Err(BldrError::CensusNotFound));
    assert_eq!(sm.state(), State::DetermineViability);
    assert!(worker.census.in_event());
}

#[test]
fn tick_calls_the_handler_that_is_registered() {
    let mut sm = StateMachine::new(State::DetermineViability);
    sm.add_dispatch(State::DetermineViability, Handler::BecomeFollower);
    let mut worker: Worker<u32> = Worker::new(1);
    assert_eq!(sm.next(&mut worker, no_init, no_start), Ok(0));
    assert_eq!(sm.state(), State::BecomeFollower);
    assert_eq!(worker.census.me().unwrap().follower, Some(true));
    assert!(!worker.census.in_event());
}

#[test]
fn lone_member_becomes_leader() {
    let mut sm = machine();
    let mut worker: Worker<u32> = Worker::new(4);
    let mut inits = 0;
    let mut starts = 0;
    let mut trail = vec![sm.state()];
    for _ in 0..8 {
        let wait = sm.next(
            &mut worker,
            || {
                inits += 1;
                Ok(())
            },
            || {
                starts += 1;
                Ok(77)
            },
        );
        assert_eq!(wait, Ok(0));
        trail.push(sm.state());
    }
    assert_eq!(
        trail,
        vec![
            State::DetermineViability,
            State::StartElection,
            State::InElection,
            State::BecomeLeader,
            State::InitializingLeader,
            State::Leader,
            State::Leader,
            State::Leader,
            State::Leader,
        ]
    );
    assert_eq!(inits, 1);
    assert_eq!(starts, 1);
    assert_eq!(worker.supervisor_thread, Some(77));
    assert_eq!(
        worker.census.me(),
        Ok(&CensusEntry { leader: Some(true), initialized: true, ..CensusEntry::new() })
    );
}

#[test]
fn failed_initialization_ends_the_run_in_place() {
    let mut sm = machine();
    let mut worker: Worker<u32> = Worker::new(4);
    for _ in 0..4 {
        assert_eq!(sm.next(&mut worker, no_init, no_start), Ok(0));
    }
    assert_eq!(sm.state(), State::InitializingLeader);
    let wait = sm.next(
        &mut worker,
        || Err(BldrError::InitFailed(String::from("hook failed"))),
        no_start,
    );
    assert_eq!(wait, Err(BldrError::InitFailed(String::from("hook failed"))));
    assert_eq!(sm.state(), State::InitializingLeader);
    assert!(!worker.census.me().unwrap().initialized);
}
