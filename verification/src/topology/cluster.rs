//! A cluster of members that see one and the same census, and what the
//! election comes to in it.
//!
//! The model is the settled case: the census no longer changes but by what
//! the members themselves write, every member has its entry in it, a tick
//! runs to its end before the next begins, and the initialization routine
//! and the start of the service succeed.

use vstd::prelude::*;
use crate::census::{
    is_least, least, lemma_candidate, lemma_leader, lemma_least, CensusEntry, CensusView,
};
use crate::topology::initializer::{
    become_follower, become_leader, determine_viability, follower, in_election,
    initializing_follower, initializing_leader, leader, lemma_settled_keeps_leaders,
    lemma_tick_changes_own_entry_only, start_election, Handler, Tick,
};
use crate::topology::{State, WorkerView};

verus! {

/// What a member keeps to itself: the state of its machine, its in-event
/// flag, and whether its service runs.
pub struct Local {
    pub state: State,
    pub in_event: bool,
    pub running: bool,
}

/// A cluster: the entries of the census that all members share, and what
/// each member keeps to itself.
#[verifier::ext_equal]
pub struct Cluster {
    pub members: Map<u64, CensusEntry>,
    pub locals: Map<u64, Local>,
}

/// The entry of a member that has decided nothing yet.
pub open spec fn blank() -> CensusEntry {
    CensusEntry { leader: None, follower: None, election: None, vote: None, initialized: false }
}

impl Cluster {
    /// Whether every member has an entry and its local part, and nobody
    /// else has.
    pub open spec fn well_formed(self) -> bool {
        self.locals.dom() == self.members.dom()
    }

    /// Whether the cluster is at its beginning: it has a member, and every
    /// member is about to determine its viability, has decided nothing and
    /// runs nothing.
    pub open spec fn initial(self) -> bool {
        &&& self.well_formed()
        &&& exists|id: u64| self.members.contains_key(id)
        &&& forall|id: u64| #[trigger]
            self.members.contains_key(id) ==> self.members[id] == blank() && self.locals[id] == (
            Local { state: State::DetermineViability, in_event: false, running: false })
    }

    /// The worker of member `id`.
    pub open spec fn worker(self, id: u64) -> WorkerView<()> {
        WorkerView {
            census: CensusView {
                me: id,
                in_event: self.locals[id].in_event,
                members: self.members,
            },
            supervisor_thread: if self.locals[id].running {
                Some(())
            } else {
                None
            },
        }
    }

    /// The tick that member `id` makes next.
    pub open spec fn tick(self, id: u64) -> Tick<()> {
        Handler::of(self.locals[id].state).tick(self.worker(id), Ok(()), Ok(()))
    }

    /// The cluster after member `id` has made one tick. Who is no member
    /// makes none.
    pub open spec fn step(self, id: u64) -> Cluster {
        if self.locals.contains_key(id) {
            let tick = self.tick(id);
            Cluster {
                members: tick.worker.census.members,
                locals: self.locals.insert(
                    id,
                    Local {
                        state: match tick.verdict {
                            Ok((next, _)) => next,
                            Err(_) => self.locals[id].state,
                        },
                        in_event: tick.worker.census.in_event,
                        running: tick.worker.supervisor_thread is Some,
                    },
                ),
            }
        } else {
            self
        }
    }

    /// The cluster after the members have made their ticks in the order
    /// that `schedule` names them.
    pub open spec fn run(self, schedule: Seq<u64>) -> Cluster
        decreases schedule.len(),
    {
        if schedule.len() == 0 {
            self
        } else {
            self.run(schedule.drop_last()).step(schedule.last())
        }
    }

    /// Whether `schedule` gives every member at least one tick.
    pub open spec fn covered_by(self, schedule: Seq<u64>) -> bool {
        forall|id: u64| self.members.contains_key(id) ==> schedule.contains(id)
    }

    /// The cluster after the rounds of ticks in `rounds`, one after the
    /// other.
    pub open spec fn run_rounds(self, rounds: Seq<Seq<u64>>) -> Cluster
        decreases rounds.len(),
    {
        if rounds.len() == 0 {
            self
        } else {
            self.run_rounds(rounds.drop_last()).run(rounds.last())
        }
    }

    /// Whether member `id` leads and every other member follows.
    pub open spec fn led_by(self, id: u64) -> bool {
        &&& self.locals.contains_key(id)
        &&& self.locals[id].state == State::Leader
        &&& forall|other: u64|
            self.locals.contains_key(other) && other != id ==> (#[trigger] self.locals[other]).state
                == State::Follower
    }

    /// The state of member `id`.
    pub open spec fn state(self, id: u64) -> State {
        self.locals[id].state
    }
}

/// How far a member has come on its way, by its state and its entry, where
/// `head` is the member with the smallest identifier.
pub open spec fn stage(state: State, entry: CensusEntry, head: u64) -> nat {
    match state {
        State::DetermineViability => 0,
        State::StartElection => 1,
        State::InElection => if entry.vote == Some(head) {
            3
        } else {
            2
        },
        State::BecomeLeader => if entry.leader == Some(true) {
            5
        } else {
            4
        },
        State::BecomeFollower => if entry.follower == Some(true) {
            5
        } else {
            4
        },
        State::InitializingLeader => 6,
        State::InitializingFollower => 7,
        State::Leader => 8,
        State::Follower => 8,
    }
}

/// The last stage: beyond it there is nowhere to go.
pub open spec fn last_stage() -> nat {
    8
}

/// Whether a member in `state` has not joined the election yet.
pub open spec fn early(state: State) -> bool {
    state == State::DetermineViability || state == State::StartElection
}

/// Whether a member in `state` has the election behind it.
pub open spec fn past(state: State) -> bool {
    !early(state) && state != State::InElection
}

/// Whether member `id`, in `state` and with `entry`, is where the election
/// can have brought it, `head` being the member with the smallest
/// identifier, in `head_state` and with `head_entry`.
pub open spec fn fits(
    id: u64,
    state: State,
    entry: CensusEntry,
    head: u64,
    head_state: State,
    head_entry: CensusEntry,
) -> bool {
    &&& match state {
        State::DetermineViability | State::StartElection => entry == blank(),
        State::InElection => entry.election == Some(true) && entry.leader is None
            && entry.follower is None && !entry.initialized,
        State::BecomeLeader => id == head && entry.election == Some(true) && entry.vote == Some(
            head,
        ) && entry.follower is None && !entry.initialized && (entry.leader is None || entry.leader
            == Some(true)),
        State::BecomeFollower => id != head && entry.election == Some(true) && entry.leader is None
            && !entry.initialized && (entry.follower is None || entry.follower == Some(true)),
        State::InitializingLeader => id == head && entry.leader == Some(true)
            && !entry.initialized,
        State::InitializingFollower => id != head && entry.leader is None && entry.follower
            == Some(true) && !entry.initialized,
        State::Leader => id == head && entry.leader == Some(true) && entry.initialized,
        State::Follower => id != head && entry.leader is None && entry.follower == Some(true)
            && entry.initialized,
    }
    &&& past(head_state) ==> !early(state)
    &&& head_entry.leader != Some(true) ==> {
        &&& state == State::BecomeFollower ==> entry.vote == Some(head)
        &&& state != State::InitializingFollower
        &&& state != State::Follower
    }
    &&& (head_state == State::InitializingLeader || head_state == State::Leader) && id != head
        ==> entry.follower == Some(true)
    &&& state == State::Follower ==> head_state == State::Leader
    &&& state == State::InElection && entry.vote == Some(head) ==> !early(head_state)
}

impl Cluster {
    /// Whether member `id` is where the election can have brought it.
    pub open spec fn placed(self, head: u64, id: u64) -> bool {
        fits(
            id,
            self.locals[id].state,
            self.members[id],
            head,
            self.locals[head].state,
            self.members[head],
        )
    }

    /// What holds of the cluster at every moment of an election that began
    /// at the beginning: `head` is the member with the smallest identifier,
    /// and every member is where the election can have brought it.
    pub open spec fn sound(self, head: u64) -> bool {
        &&& self.well_formed()
        &&& is_least(self.members.dom(), head)
        &&& forall|id: u64| self.members.contains_key(id) ==> #[trigger] self.placed(head, id)
    }

    /// How far member `id` has come.
    pub open spec fn stage_of(self, head: u64, id: u64) -> nat {
        stage(self.locals[id].state, self.members[id], head)
    }

    /// Whether every member has come as far as stage `k`.
    pub open spec fn at_least(self, head: u64, k: nat) -> bool {
        forall|id: u64| self.members.contains_key(id) ==> #[trigger] self.stage_of(head, id) >= k
    }
}

/// Where nobody but `head` has declared itself leader, there is a leader
/// exactly when `head` has, and it is `head`.
pub proof fn lemma_sole_leader(census: CensusView, head: u64)
    requires
        forall|id: u64| census.leads(id) ==> id == head,
    ensures
        census.has_leader() == census.leads(head),
        census.leader() == (if census.leads(head) {
            Some(head)
        } else {
            None
        }),
{
    lemma_leader(census);
}

/// Where the member with the smallest identifier takes part in the
/// election, it is the preferred candidate.
pub proof fn lemma_head_is_candidate(census: CensusView, head: u64)
    requires
        is_least(census.members.dom(), head),
        census.stands(head),
    ensures
        census.candidate() == Some(head),
{
    lemma_least(census.electors());
    assert(census.electors().contains(head));
    assert(is_least(census.electors(), head)) by {
        assert forall|other: u64| census.electors().contains(other) implies head <= other by {
            assert(census.members.dom().contains(other));
        }
    }
}

/// An election is decided exactly when every member takes part and votes
/// for the member with the smallest identifier, and that member wins.
pub proof fn lemma_winner_is_head(census: CensusView, head: u64)
    requires
        is_least(census.members.dom(), head),
    ensures
        census.winner() is Some <==> (forall|id: u64|
            census.members.contains_key(id) ==> #[trigger] census.votes_for(id, head)),
        census.winner() is Some ==> census.winner() == Some(head),
{
    lemma_candidate(census);
    assert(census.members.contains_key(head));
    if census.winner() is Some {
        let choice = census.candidate()->0;
        assert(census.votes_for(head, choice));
        lemma_head_is_candidate(census, head);
    }
    if forall|id: u64| census.members.contains_key(id) ==> #[trigger] census.votes_for(id, head) {
        assert(census.votes_for(head, head));
        lemma_head_is_candidate(census, head);
    }
}

impl Cluster {
    /// Whether a tick of member `id` keeps the cluster sound, takes the
    /// member no step back, and takes it a stage further where no member
    /// is behind it and it has not arrived.
    pub open spec fn advances(self, head: u64, id: u64) -> bool {
        let next = self.step(id);
        &&& next.sound(head)
        &&& next.stage_of(head, id) >= self.stage_of(head, id)
        &&& self.at_least(head, self.stage_of(head, id)) && self.stage_of(head, id) < last_stage()
            ==> next.stage_of(head, id) > self.stage_of(head, id)
    }
}

/// In a sound cluster nobody but the head leads, and every member has the
/// head's entry before it.
proof fn lemma_sound_facts(c: Cluster, head: u64, id: u64)
    requires
        c.sound(head),
        c.members.contains_key(id),
    ensures
        c.members.contains_key(head),
        c.locals.contains_key(id),
        c.locals.contains_key(head),
        c.placed(head, id),
        c.placed(head, head),
        head <= id,
        forall|other: u64| c.worker(id).census.leads(other) ==> other == head,
        c.worker(id).census.has_leader() == (c.members[head].leader == Some(true)),
        c.worker(id).census.me_entry() == Some(c.members[id]),
{
    assert(c.members.dom().contains(id));
    assert(c.locals.dom().contains(id));
    assert(c.members.dom().contains(head));
    assert(c.locals.dom().contains(head));
    let census = c.worker(id).census;
    assert forall|other: u64| census.leads(other) implies other == head by {
        assert(c.placed(head, other));
    }
    lemma_sole_leader(census, head);
}

impl Cluster {
    /// Whether member `other` is placed once the head has come to be in
    /// `state` with `entry`.
    pub open spec fn placed_under(self, head: u64, other: u64, state: State, entry: CensusEntry) -> bool {
        fits(
            other,
            if other == head {
                state
            } else {
                self.locals[other].state
            },
            if other == head {
                entry
            } else {
                self.members[other]
            },
            head,
            state,
            entry,
        )
    }
}

/// What remains to show of a tick once the ticking member's new state and
/// entry are known: every member is placed again.
proof fn lemma_placed_again(c: Cluster, head: u64, id: u64, state: State, entry: CensusEntry)
    requires
        c.sound(head),
        c.members.contains_key(id),
        c.step(id).members == c.members.insert(id, entry),
        c.step(id).locals[id].state == state,
        id != head ==> fits(id, state, entry, head, c.locals[head].state, c.members[head]),
        id == head ==> forall|other: u64|
            c.members.contains_key(other) && #[trigger] c.placed(head, other) ==> c.placed_under(
                head,
                other,
                state,
                entry,
            ),
    ensures
        c.step(id).sound(head),
{
    let next = c.step(id);
    assert(c.members.dom().contains(id));
    assert(c.locals.dom().contains(id));
    assert(next.members.dom() =~= c.members.dom());
    assert(next.locals.dom() =~= c.locals.dom());
    assert forall|other: u64| next.members.contains_key(other) implies #[trigger] next.placed(
        head,
        other,
    ) by {
        assert(c.members.contains_key(other));
        assert(c.placed(head, other));
        if id == head {
            assert(c.placed_under(head, other, state, entry));
        }
    }
}

proof fn lemma_step_determine_viability(c: Cluster, head: u64, id: u64)
    requires
        c.sound(head),
        c.members.contains_key(id),
        c.state(id) == State::DetermineViability,
    ensures
        c.advances(head, id),
{
    lemma_sound_facts(c, head, id);
    let census = c.worker(id).census;
    let after = census.with_in_event(true).with_me(blank());
    assert(after.members =~= c.members);
    assert forall|other: u64| after.leads(other) implies other == head by {
        assert(census.leads(other));
    }
    lemma_sole_leader(after, head);
    assert(!after.has_leader());
    assert(c.tick(id) == determine_viability(c.worker(id)));
    assert(c.step(id).members =~= c.members.insert(id, blank()));
    lemma_placed_again(c, head, id, State::StartElection, blank());
}

proof fn lemma_step_start_election(c: Cluster, head: u64, id: u64)
    requires
        c.sound(head),
        c.members.contains_key(id),
        c.state(id) == State::StartElection,
    ensures
        c.advances(head, id),
{
    lemma_sound_facts(c, head, id);
    let census = c.worker(id).census;
    let joined = census.with_me(CensusEntry { election: Some(true), ..blank() });
    let entry = CensusEntry { election: Some(true), vote: joined.candidate(), ..blank() };
    lemma_candidate(joined);
    if joined.candidate() == Some(head) && head != id {
        assert(joined.stands(head));
        assert(c.members[head].election == Some(true));
    }
    assert(c.tick(id) == start_election(c.worker(id)));
    assert(c.step(id).members =~= c.members.insert(id, entry));
    lemma_placed_again(c, head, id, State::InElection, entry);
}

proof fn lemma_step_in_election(c: Cluster, head: u64, id: u64)
    requires
        c.sound(head),
        c.members.contains_key(id),
        c.state(id) == State::InElection,
    ensures
        c.advances(head, id),
{
    lemma_sound_facts(c, head, id);
    let census = c.worker(id).census;
    let me = c.members[id];
    let entry = CensusEntry { vote: census.candidate(), ..me };
    let after = census.with_me(entry);
    assert(after.members.dom() =~= c.members.dom());
    lemma_candidate(census);
    assert forall|other: u64| after.leads(other) implies other == head by {
        assert(census.leads(other));
    }
    lemma_sole_leader(after, head);
    lemma_winner_is_head(after, head);
    assert(c.tick(id) == in_election(c.worker(id)));
    let next = if after.has_leader() {
        State::BecomeFollower
    } else if after.winner() is Some {
        if id == head {
            State::BecomeLeader
        } else {
            State::BecomeFollower
        }
    } else {
        State::InElection
    };
    assert(c.step(id).locals[id].state == next);
    assert(c.step(id).members =~= c.members.insert(id, entry));
    // The head takes part, or leads: then it is whom this member votes for.
    if !early(c.state(head)) {
        if c.members[head].election == Some(true) {
            assert(census.stands(head));
            lemma_head_is_candidate(census, head);
        }
    }
    if census.candidate() == Some(head) {
        assert(census.stands(head));
    }
    if after.winner() is Some {
        assert(after.votes_for(id, head));
        assert forall|other: u64| c.members.contains_key(other) implies !early(
            c.locals[other].state,
        ) by {
            assert(after.votes_for(other, head));
            assert(c.placed(head, other));
        }
    }
    lemma_placed_again(c, head, id, next, entry);
    if c.at_least(head, c.stage_of(head, id)) && c.stage_of(head, id) == 3 && !after.has_leader() {
        assert forall|other: u64| after.members.contains_key(other) implies #[trigger] after.votes_for(
            other,
            head,
        ) by {
            assert(c.placed(head, other));
            assert(c.stage_of(head, other) >= 3);
        }
    }
    if c.at_least(head, c.stage_of(head, id)) && c.stage_of(head, id) == 2 {
        assert(c.stage_of(head, head) >= 2);
    }
}

proof fn lemma_step_become_leader(c: Cluster, head: u64, id: u64)
    requires
        c.sound(head),
        c.members.contains_key(id),
        c.state(id) == State::BecomeLeader,
    ensures
        c.advances(head, id),
{
    lemma_sound_facts(c, head, id);
    let census = c.worker(id).census;
    let me = c.members[id];
    let entry = CensusEntry { leader: Some(true), ..me };
    let after = if census.has_leader() {
        census
    } else {
        census.with_me(entry)
    };
    assert(after.members =~= c.members.insert(id, entry));
    let next = if after.has_all_followers() {
        State::InitializingLeader
    } else {
        State::BecomeLeader
    };
    assert(c.tick(id) == become_leader(c.worker(id)));
    assert(c.step(id).locals[id].state == next);
    assert(c.step(id).members =~= c.members.insert(id, entry));
    assert forall|other: u64|
        c.members.contains_key(other) && #[trigger] c.placed(head, other) implies c.placed_under(
        head,
        other,
        next,
        entry,
    ) by {
        if after.has_all_followers() && other != head {
            assert(after.members.contains_key(other));
            assert(after.members[other].follower == Some(true));
        }
    }
    lemma_placed_again(c, head, id, next, entry);
    if c.at_least(head, c.stage_of(head, id)) && c.stage_of(head, id) == 5 {
        assert forall|other: u64|
            after.members.contains_key(other) && other != after.me implies (
        #[trigger] after.members[other]).follower == Some(true) by {
            assert(c.placed(head, other));
            assert(c.stage_of(head, other) >= 5);
        }
    }
}

proof fn lemma_step_become_follower(c: Cluster, head: u64, id: u64)
    requires
        c.sound(head),
        c.members.contains_key(id),
        c.state(id) == State::BecomeFollower,
    ensures
        c.advances(head, id),
{
    lemma_sound_facts(c, head, id);
    let census = c.worker(id).census;
    let me = c.members[id];
    let entry = CensusEntry { follower: Some(true), ..me };
    let after = if me.follower is None {
        census.with_me(entry)
    } else {
        census
    };
    assert(after.members =~= c.members.insert(id, entry));
    assert forall|other: u64| after.leads(other) implies other == head by {
        assert(census.leads(other));
    }
    lemma_sole_leader(after, head);
    let next = if after.has_leader() {
        State::InitializingFollower
    } else {
        State::BecomeFollower
    };
    assert(c.tick(id) == become_follower(c.worker(id)));
    assert(c.step(id).locals[id].state == next);
    assert(c.step(id).members =~= c.members.insert(id, entry));
    lemma_placed_again(c, head, id, next, entry);
    if c.at_least(head, c.stage_of(head, id)) && c.stage_of(head, id) == 5 {
        assert(c.stage_of(head, head) >= 5);
    }
}

proof fn lemma_step_initializing_leader(c: Cluster, head: u64, id: u64)
    requires
        c.sound(head),
        c.members.contains_key(id),
        c.state(id) == State::InitializingLeader,
    ensures
        c.advances(head, id),
{
    lemma_sound_facts(c, head, id);
    let me = c.members[id];
    let entry = CensusEntry { initialized: true, ..me };
    assert(c.tick(id) == initializing_leader(c.worker(id), Ok(())));
    assert(c.step(id).locals[id].state == State::Leader);
    assert(c.step(id).members =~= c.members.insert(id, entry));
    lemma_placed_again(c, head, id, State::Leader, entry);
}

proof fn lemma_step_initializing_follower(c: Cluster, head: u64, id: u64)
    requires
        c.sound(head),
        c.members.contains_key(id),
        c.state(id) == State::InitializingFollower,
    ensures
        c.advances(head, id),
{
    lemma_sound_facts(c, head, id);
    let census = c.worker(id).census;
    lemma_sole_leader(census, head);
    let me = c.members[id];
    assert(census.leader_entry() == Some(c.members[head]));
    let entry = if c.members[head].initialized {
        CensusEntry { initialized: true, ..me }
    } else {
        me
    };
    let next = if c.members[head].initialized {
        State::Follower
    } else {
        State::InitializingFollower
    };
    assert(c.tick(id) == initializing_follower(c.worker(id), Ok(())));
    assert(c.step(id).locals[id].state == next);
    assert(c.step(id).members =~= c.members.insert(id, entry));
    lemma_placed_again(c, head, id, next, entry);
    if c.at_least(head, c.stage_of(head, id)) {
        assert(c.stage_of(head, head) >= 7);
    }
}

proof fn lemma_step_leader(c: Cluster, head: u64, id: u64)
    requires
        c.sound(head),
        c.members.contains_key(id),
        c.state(id) == State::Leader,
    ensures
        c.advances(head, id),
{
    lemma_sound_facts(c, head, id);
    let me = c.members[id];
    let entry = me.without_election();
    assert(c.tick(id) == leader(c.worker(id), Ok(())));
    assert(c.step(id).locals[id].state == State::Leader);
    assert(c.step(id).members =~= c.members.insert(id, entry));
    lemma_placed_again(c, head, id, State::Leader, entry);
}

proof fn lemma_step_follower(c: Cluster, head: u64, id: u64)
    requires
        c.sound(head),
        c.members.contains_key(id),
        c.state(id) == State::Follower,
    ensures
        c.advances(head, id),
{
    lemma_sound_facts(c, head, id);
    let census = c.worker(id).census;
    let me = c.members[id];
    let entry = me.without_election();
    lemma_settled_keeps_leaders(census);
    assert(census.has_leader());
    assert(c.tick(id) == follower(c.worker(id), Ok(())));
    assert(c.step(id).locals[id].state == State::Follower);
    assert(c.step(id).members =~= c.members.insert(id, entry));
    lemma_placed_again(c, head, id, State::Follower, entry);
}

/// A tick of any member keeps a sound cluster sound, takes the member no
/// step back, and takes it a stage further where no member is behind it
/// and it has not arrived. No other member moves.
pub proof fn lemma_step(c: Cluster, head: u64, id: u64)
    requires
        c.sound(head),
    ensures
        c.step(id).sound(head),
        c.step(id).members.dom() == c.members.dom(),
        forall|other: u64|
            other != id ==> c.step(id).locals[other] == c.locals[other] && c.step(id).members[other]
                == c.members[other],
        c.members.contains_key(id) ==> c.advances(head, id),
{
    if c.locals.contains_key(id) {
        assert(c.locals.dom().contains(id));
        assert(c.members.contains_key(id));
        match c.state(id) {
            State::DetermineViability => lemma_step_determine_viability(c, head, id),
            State::StartElection => lemma_step_start_election(c, head, id),
            State::InElection => lemma_step_in_election(c, head, id),
            State::BecomeLeader => lemma_step_become_leader(c, head, id),
            State::BecomeFollower => lemma_step_become_follower(c, head, id),
            State::InitializingLeader => lemma_step_initializing_leader(c, head, id),
            State::InitializingFollower => lemma_step_initializing_follower(c, head, id),
            State::Leader => lemma_step_leader(c, head, id),
            State::Follower => lemma_step_follower(c, head, id),
        }
        lemma_tick_changes_own_entry_only(
            Handler::of(c.state(id)),
            c.worker(id),
            Ok(()),
            Ok(()),
        );
        assert(c.step(id).members.dom() =~= c.members.dom());
    } else {
        assert(!c.members.dom().contains(id));
    }
}

/// The smaller of `k + 1` and the last stage.
pub open spec fn stage_after(k: nat) -> nat {
    if k < last_stage() {
        k + 1
    } else {
        last_stage()
    }
}

/// A cluster at its beginning is sound, with the member of the smallest
/// identifier for its head.
pub proof fn lemma_initial_is_sound(c: Cluster) -> (head: u64)
    requires
        c.initial(),
    ensures
        c.sound(head),
        c.at_least(head, 0),
{
    let some = choose|id: u64| c.members.contains_key(id);
    lemma_least(c.members.dom());
    assert(c.members.dom().contains(some));
    let head = least(c.members.dom())->0;
    assert(c.members.contains_key(head));
    assert forall|id: u64| c.members.contains_key(id) implies #[trigger] c.placed(head, id) by {}
    head
}

/// Whatever the order in which the members of a sound cluster tick, the
/// cluster stays sound, no member falls back behind a stage that all had
/// reached, and every member that had a tick is a stage beyond it.
pub proof fn lemma_run(c: Cluster, head: u64, schedule: Seq<u64>, k: nat)
    requires
        c.sound(head),
        c.at_least(head, k),
    ensures
        c.run(schedule).sound(head),
        c.run(schedule).members.dom() == c.members.dom(),
        c.run(schedule).at_least(head, k),
        forall|i: int|
            0 <= i < schedule.len() && c.members.contains_key(#[trigger] schedule[i]) ==> c.run(
                schedule,
            ).stage_of(head, schedule[i]) >= stage_after(k),
    decreases schedule.len(),
{
    if schedule.len() > 0 {
        let before = c.run(schedule.drop_last());
        let id = schedule.last();
        let after = c.run(schedule);
        lemma_run(c, head, schedule.drop_last(), k);
        lemma_step(before, head, id);
        assert(after == before.step(id));
        assert forall|other: u64| after.members.contains_key(other) implies #[trigger] after.stage_of(
            head,
            other,
        ) >= k by {
            assert(before.members.contains_key(other));
            assert(before.stage_of(head, other) >= k);
        }
        if before.members.contains_key(id) {
            assert(before.stage_of(head, id) >= k);
            if before.stage_of(head, id) == k {
                assert(before.at_least(head, before.stage_of(head, id)));
            }
            assert(after.stage_of(head, id) >= stage_after(k));
        }
        assert forall|i: int|
            0 <= i < schedule.len() && c.members.contains_key(
                #[trigger] schedule[i],
            ) implies after.stage_of(head, schedule[i]) >= stage_after(k) by {
            if schedule[i] != id {
                assert(i < schedule.len() - 1);
                assert(schedule.drop_last()[i] == schedule[i]);
                assert(before.stage_of(head, schedule[i]) >= stage_after(k));
            }
        }
    }
}

/// A round in which every member has a tick takes a sound cluster a stage
/// further.
pub proof fn lemma_round(c: Cluster, head: u64, round: Seq<u64>, k: nat)
    requires
        c.sound(head),
        c.at_least(head, k),
        c.covered_by(round),
    ensures
        c.run(round).sound(head),
        c.run(round).members.dom() == c.members.dom(),
        c.run(round).at_least(head, stage_after(k)),
{
    lemma_run(c, head, round, k);
    assert forall|id: u64| c.run(round).members.contains_key(id) implies #[trigger] c.run(
        round,
    ).stage_of(head, id) >= stage_after(k) by {
        assert(c.members.contains_key(id));
        assert(round.contains(id));
        let i = choose|i: int| 0 <= i < round.len() && round[i] == id;
        assert(c.members.contains_key(round[i]));
    }
}

/// After as many rounds as there are stages every member of a sound
/// cluster has arrived, and fewer rounds take all members as many stages
/// further.
pub proof fn lemma_rounds(c: Cluster, head: u64, rounds: Seq<Seq<u64>>)
    requires
        c.sound(head),
        forall|k: int| 0 <= k < rounds.len() ==> c.covered_by(#[trigger] rounds[k]),
    ensures
        c.run_rounds(rounds).sound(head),
        c.run_rounds(rounds).members.dom() == c.members.dom(),
        c.run_rounds(rounds).at_least(
            head,
            if rounds.len() < last_stage() {
                rounds.len()
            } else {
                last_stage()
            },
        ),
    decreases rounds.len(),
{
    if rounds.len() > 0 {
        let earlier = rounds.drop_last();
        let before = c.run_rounds(earlier);
        assert forall|k: int| 0 <= k < earlier.len() implies c.covered_by(#[trigger] earlier[k]) by {
            assert(earlier[k] == rounds[k]);
        }
        lemma_rounds(c, head, earlier);
        let reached: nat = if earlier.len() < last_stage() {
            earlier.len()
        } else {
            last_stage()
        };
        assert(c.covered_by(rounds[rounds.len() - 1]));
        assert(before.covered_by(rounds.last()));
        lemma_round(before, head, rounds.last(), reached);
    } else {
        assert forall|id: u64| c.members.contains_key(id) implies #[trigger] c.stage_of(head, id)
            >= 0 by {}
    }
}

/// In a sound cluster in which every member has arrived, the head leads
/// and every other member follows.
pub proof fn lemma_arrived(c: Cluster, head: u64)
    requires
        c.sound(head),
        c.at_least(head, last_stage()),
    ensures
        c.led_by(head),
        c.members[head].leader == Some(true),
        forall|id: u64| c.members.contains_key(id) ==> (#[trigger] c.members[id]).initialized,
{
    assert(c.members.dom().contains(head));
    assert(c.locals.dom().contains(head));
    assert(c.placed(head, head));
    assert(c.stage_of(head, head) >= last_stage());
    assert forall|other: u64| c.locals.contains_key(other) && other != head implies (
    #[trigger] c.locals[other]).state == State::Follower by {
        assert(c.locals.dom().contains(other));
        assert(c.members.contains_key(other));
        assert(c.placed(head, other));
        assert(c.stage_of(head, other) >= last_stage());
    }
    assert forall|id: u64| c.members.contains_key(id) implies (
    #[trigger] c.members[id]).initialized by {
        assert(c.placed(head, id));
        assert(c.stage_of(head, id) >= last_stage());
    }
}

/// Once the head leads and every other member follows, it stays so,
/// whoever ticks and however often.
pub proof fn lemma_settled_for_good(c: Cluster, head: u64, schedule: Seq<u64>)
    requires
        c.sound(head),
        c.at_least(head, last_stage()),
    ensures
        c.run(schedule).led_by(head),
{
    lemma_run(c, head, schedule, last_stage());
    lemma_arrived(c.run(schedule), head);
}

/// The election converges on a single leader. Take any cluster at its
/// beginning and let its members tick in rounds, in any order and as often
/// as they like, as long as every member has a tick in every round. After
/// eight rounds, and for ever after, the member with the smallest
/// identifier leads, every other member follows, and all are initialized.
pub proof fn lemma_single_leader_convergence(c: Cluster, rounds: Seq<Seq<u64>>) -> (head: u64)
    requires
        c.initial(),
        rounds.len() >= last_stage(),
        forall|k: int| 0 <= k < rounds.len() ==> c.covered_by(#[trigger] rounds[k]),
    ensures
        is_least(c.members.dom(), head),
        c.run_rounds(rounds).led_by(head),
        c.run_rounds(rounds).members.dom() == c.members.dom(),
        forall|id: u64|
            c.members.contains_key(id) ==> (#[trigger] c.run_rounds(rounds).members[id]).initialized,
        forall|id: u64|
            c.members.contains_key(id) ==> ((#[trigger] c.run_rounds(rounds).members[id]).leader
                == Some(true) <==> id == head),
{
    let head = lemma_initial_is_sound(c);
    lemma_rounds(c, head, rounds);
    let end = c.run_rounds(rounds);
    lemma_arrived(end, head);
    assert forall|id: u64| c.members.contains_key(id) implies ((
    #[trigger] end.members[id]).leader == Some(true) <==> id == head) by {
        assert(end.members.contains_key(id));
        assert(end.placed(head, id));
        assert(end.locals.dom().contains(id));
    }
    head
}

/// At no moment of an election are there two leaders, and at no moment is
/// a follower initialized whose leader is not. Take any cluster at its
/// beginning and let its members tick in any order whatever: at most one
/// member has declared itself leader, it is the one with the smallest
/// identifier, at most one is in the state of a leader, and where any
/// member but that one is initialized, so is that one.
pub proof fn lemma_never_two_leaders(c: Cluster, schedule: Seq<u64>) -> (head: u64)
    requires
        c.initial(),
    ensures
        is_least(c.members.dom(), head),
        forall|id: u64|
            c.members.contains_key(id) && (#[trigger] c.run(schedule).members[id]).leader == Some(
                true,
            ) ==> id == head,
        forall|id: u64|
            c.members.contains_key(id) && (#[trigger] c.run(schedule).locals[id]).state
                == State::Leader ==> id == head,
        forall|id: u64|
            c.members.contains_key(id) && id != head && (#[trigger] c.run(
                schedule,
            ).members[id]).initialized ==> c.run(schedule).members[head].initialized && c.run(
                schedule,
            ).locals[id].state == State::Follower,
{
    let head = lemma_initial_is_sound(c);
    lemma_run(c, head, schedule, 0);
    let end = c.run(schedule);
    assert(end.members.dom().contains(head));
    assert(end.placed(head, head));
    assert forall|id: u64|
        c.members.contains_key(id) && (#[trigger] end.members[id]).leader == Some(
            true,
        ) implies id == head by {
        assert(end.members.dom().contains(id));
        assert(end.placed(head, id));
    }
    assert forall|id: u64|
        c.members.contains_key(id) && (#[trigger] end.locals[id]).state
            == State::Leader implies id == head by {
        assert(end.members.dom().contains(id));
        assert(end.placed(head, id));
    }
    assert forall|id: u64|
        c.members.contains_key(id) && id != head && (
        #[trigger] end.members[id]).initialized implies end.members[head].initialized
        && end.locals[id].state == State::Follower by {
        assert(end.members.dom().contains(id));
        assert(end.placed(head, id));
    }
    head
}

} // verus!
