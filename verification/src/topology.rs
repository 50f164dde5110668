//! The states a member moves through and the context its handlers work on.

pub mod cluster;
pub mod initializer;

use vstd::prelude::*;
use crate::census::{Census, CensusView};

verus! {

/// Where a member stands in the negotiation. There is no final state: a
/// member keeps ticking for as long as it runs.
#[derive(Clone, Copy, Debug, PartialEq, Eq, Hash, Structural)]
pub enum State {
    DetermineViability,
    StartElection,
    InElection,
    BecomeLeader,
    BecomeFollower,
    InitializingLeader,
    InitializingFollower,
    Leader,
    Follower,
}

/// What the handlers of one member work on: its census, and the handle of
/// the supervised service once that has been started. `T` is whatever the
/// host keeps to stand for the running service.
pub struct Worker<T> {
    pub census: Census,
    pub supervisor_thread: Option<T>,
}

/// A worker as the election sees it.
#[verifier::ext_equal]
pub struct WorkerView<T> {
    pub census: CensusView,
    pub supervisor_thread: Option<T>,
}

impl<T> View for Worker<T> {
    type V = WorkerView<T>;

    open spec fn view(&self) -> WorkerView<T> {
        WorkerView { census: self.census@, supervisor_thread: self.supervisor_thread }
    }
}

impl<T> Worker<T> {
    /// The worker of member `me`, which knows of nobody but itself and
    /// supervises nothing yet.
    pub fn new(me: u64) -> (worker: Worker<T>)
        ensures
            worker.census@ == Census::new_view(me),
            worker.supervisor_thread is None,
    {
        Worker { census: Census::new(me), supervisor_thread: None }
    }
}

} // verus!
