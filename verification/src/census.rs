//! The census: what one member knows of the cluster's members and of the
//! election among them.

use vstd::prelude::*;
use crate::error::{BldrError, BldrResult};

verus! {

/// What the census records of one member. The member's identifier is the key
/// under which the census holds the entry.
#[derive(Clone, Copy, Debug, PartialEq, Eq, Structural)]
pub struct CensusEntry {
    /// `Some(true)` once the member has declared itself leader.
    pub leader: Option<bool>,
    /// `Some(true)` once the member has declared itself a follower.
    pub follower: Option<bool>,
    /// `Some(true)` while the member takes part in an election.
    pub election: Option<bool>,
    /// The member this one currently votes for.
    pub vote: Option<u64>,
    /// Whether the member has run its initialization. Set once, never cleared.
    pub initialized: bool,
}

impl CensusEntry {
    /// An entry for a member that has decided nothing yet.
    pub fn new() -> (entry: CensusEntry)
        ensures
            entry == (CensusEntry {
                leader: None,
                follower: None,
                election: None,
                vote: None,
                initialized: false,
            }),
    {
        CensusEntry { leader: None, follower: None, election: None, vote: None, initialized: false }
    }

    /// Sets or clears the leader flag.
    pub fn leader(&mut self, value: Option<bool>)
        ensures
            *final(self) == (CensusEntry { leader: value, ..*old(self) }),
    {
        self.leader = value;
    }

    /// Sets or clears the follower flag.
    pub fn follower(&mut self, value: Option<bool>)
        ensures
            *final(self) == (CensusEntry { follower: value, ..*old(self) }),
    {
        self.follower = value;
    }

    /// Sets or clears the election flag.
    pub fn election(&mut self, value: Option<bool>)
        ensures
            *final(self) == (CensusEntry { election: value, ..*old(self) }),
    {
        self.election = value;
    }

    /// Records or withdraws the vote.
    pub fn vote(&mut self, value: Option<u64>)
        ensures
            *final(self) == (CensusEntry { vote: value, ..*old(self) }),
    {
        self.vote = value;
    }

    /// Marks the member as initialized.
    pub fn initialized(&mut self)
        ensures
            *final(self) == (CensusEntry { initialized: true, ..*old(self) }),
    {
        self.initialized = true;
    }

    /// The entry with its election flag and its vote unset.
    pub open spec fn without_election(self) -> CensusEntry {
        CensusEntry { election: None, vote: None, ..self }
    }

    /// Withdraws the member from the election: unsets the election flag and
    /// the vote, whichever of them is still set.
    pub fn clear_election(&mut self)
        ensures
            *final(self) == old(self).without_election(),
    {
        if self.election.is_some() {
            self.election(None);
        }
        if self.vote.is_some() {
            self.vote(None);
        }
    }
}

/// Clearing the election flag and the vote of an entry that has neither set
/// leaves the entry as it was.
pub proof fn lemma_clear_election_idempotent(entry: CensusEntry)
    requires
        entry.election is None,
        entry.vote is None,
    ensures
        entry.without_election() == entry,
{
}

/// Clearing twice is clearing once.
pub proof fn lemma_clear_election_twice(entry: CensusEntry)
    ensures
        entry.without_election().without_election() == entry.without_election(),
{
}

/// Whether `id` is in `ids` and no smaller identifier is.
pub open spec fn is_least(ids: Set<u64>, id: u64) -> bool {
    &&& ids.contains(id)
    &&& forall|other: u64| ids.contains(other) ==> id <= other
}

/// The smallest identifier in `ids`, if there is any in it.
pub open spec fn least(ids: Set<u64>) -> Option<u64> {
    if exists|id: u64| ids.contains(id) {
        Some(choose|id: u64| is_least(ids, id))
    } else {
        None
    }
}

/// A set that holds an identifier holds a smallest one.
pub proof fn lemma_least_exists(ids: Set<u64>, id: u64)
    requires
        ids.contains(id),
    ensures
        exists|m: u64| is_least(ids, m),
    decreases id,
{
    if exists|smaller: u64| ids.contains(smaller) && smaller < id {
        let smaller = choose|smaller: u64| ids.contains(smaller) && smaller < id;
        lemma_least_exists(ids, smaller);
    } else {
        assert(is_least(ids, id));
    }
}

/// `least(ids)` is the one identifier that `is_least` holds of, and is `None`
/// exactly when the set is empty.
pub proof fn lemma_least(ids: Set<u64>)
    ensures
        match least(ids) {
            Some(m) => is_least(ids, m),
            None => forall|id: u64| !ids.contains(id),
        },
        forall|m: u64| is_least(ids, m) ==> least(ids) == Some(m),
{
    if exists|id: u64| ids.contains(id) {
        let id = choose|id: u64| ids.contains(id);
        lemma_least_exists(ids, id);
        let chosen = choose|id: u64| is_least(ids, id);
        assert forall|m: u64| is_least(ids, m) implies least(ids) == Some(m) by {
            assert(ids.contains(m) && ids.contains(chosen));
        }
    }
}

/// The census as the election sees it: who this member is, whether an
/// election event is in flight, and the entry of every known member.
#[verifier::ext_equal]
pub struct CensusView {
    pub me: u64,
    pub in_event: bool,
    pub members: Map<u64, CensusEntry>,
}

impl CensusView {
    /// This member's own entry, if the census holds one.
    pub open spec fn me_entry(self) -> Option<CensusEntry> {
        if self.members.contains_key(self.me) {
            Some(self.members[self.me])
        } else {
            None
        }
    }

    /// The census with this member's own entry replaced.
    pub open spec fn with_me(self, entry: CensusEntry) -> CensusView {
        CensusView { members: self.members.insert(self.me, entry), ..self }
    }

    /// The census with the in-event flag replaced.
    pub open spec fn with_in_event(self, value: bool) -> CensusView {
        CensusView { in_event: value, ..self }
    }

    /// Whether `id` is a member that has declared itself leader.
    pub open spec fn leads(self, id: u64) -> bool {
        self.members.contains_key(id) && self.members[id].leader == Some(true)
    }

    /// Whether `id` is a member that takes part in the election.
    pub open spec fn stands(self, id: u64) -> bool {
        self.members.contains_key(id) && self.members[id].election == Some(true)
    }

    /// The members that have declared themselves leader.
    pub open spec fn leaders(self) -> Set<u64> {
        Set::new(|id: u64| self.leads(id))
    }

    /// The members that take part in the election.
    pub open spec fn electors(self) -> Set<u64> {
        Set::new(|id: u64| self.stands(id))
    }

    /// Whether any member has declared itself leader.
    pub open spec fn has_leader(self) -> bool {
        exists|id: u64| self.leads(id)
    }

    /// The leader: of the members that have declared themselves leader, the
    /// one with the smallest identifier.
    pub open spec fn leader(self) -> Option<u64> {
        least(self.leaders())
    }

    /// The entry of the leader.
    pub open spec fn leader_entry(self) -> Option<CensusEntry> {
        match self.leader() {
            Some(id) => Some(self.members[id]),
            None => None,
        }
    }

    /// Whether every member but this one has declared itself a follower.
    pub open spec fn has_all_followers(self) -> bool {
        forall|id: u64|
            self.members.contains_key(id) && id != self.me ==> (#[trigger] self.members[id]).follower
                == Some(true)
    }

    /// The preferred candidate: of the members that take part in the
    /// election, the one with the smallest identifier. Every member that
    /// sees the same participants prefers the same candidate.
    pub open spec fn candidate(self) -> Option<u64> {
        least(self.electors())
    }

    /// Whether `id` takes part in the election and votes for `choice`.
    pub open spec fn votes_for(self, id: u64, choice: u64) -> bool {
        self.members[id].election == Some(true) && self.members[id].vote == Some(choice)
    }

    /// The winner of the election, once it is decided: the preferred
    /// candidate, when every known member takes part and votes for it.
    pub open spec fn winner(self) -> Option<u64> {
        match self.candidate() {
            Some(choice) => if forall|id: u64|
                self.members.contains_key(id) ==> #[trigger] self.votes_for(id, choice) {
                Some(choice)
            } else {
                None
            },
            None => None,
        }
    }
}

/// The leader is a member that has declared itself leader, and there is one
/// exactly when some member has.
pub proof fn lemma_leader(census: CensusView)
    ensures
        census.has_leader() <==> census.leader() is Some,
        census.leader() is Some <==> census.leader_entry() is Some,
        census.leader() matches Some(id) ==> census.leads(id),
{
    lemma_least(census.leaders());
    if census.has_leader() {
        let id = choose|id: u64| census.leads(id);
        assert(census.leaders().contains(id));
    }
    if let Some(id) = census.leader() {
        assert(census.leaders().contains(id));
    }
}

/// The preferred candidate takes part in the election, and there is one
/// exactly when some member takes part.
pub proof fn lemma_candidate(census: CensusView)
    ensures
        census.candidate() is Some <==> exists|id: u64| census.stands(id),
        census.candidate() matches Some(id) ==> census.stands(id) && forall|other: u64|
            census.stands(other) ==> id <= other,
{
    lemma_least(census.electors());
    if exists|id: u64| census.stands(id) {
        let id = choose|id: u64| census.stands(id);
        assert(census.electors().contains(id));
    }
    if let Some(id) = census.candidate() {
        assert(census.electors().contains(id));
        assert forall|other: u64| census.stands(other) implies id <= other by {
            assert(census.electors().contains(other));
        }
    }
}

/// Whom a member prefers depends on who takes part in the election and on
/// nothing else: two members that see the same participants prefer the same
/// candidate, and votes, flags of leaders and followers, and members that
/// stand aside do not change it.
pub proof fn lemma_candidate_deterministic(a: CensusView, b: CensusView)
    requires
        forall|id: u64| a.stands(id) <==> b.stands(id),
    ensures
        a.candidate() == b.candidate(),
{
    assert(a.electors() =~= b.electors());
}

/// Whether no identifier occurs twice in `ids`.
spec fn distinct(ids: Seq<u64>) -> bool {
    forall|i: int, j: int| 0 <= i < j < ids.len() ==> ids[i] != ids[j]
}

/// A place at which `id` stands in `ids`.
spec fn position(ids: Seq<u64>, id: u64) -> int {
    choose|i: int| 0 <= i < ids.len() && ids[i] == id
}

/// The members that `ids` and `entries` hold side by side.
spec fn population(ids: Seq<u64>, entries: Seq<CensusEntry>) -> Map<u64, CensusEntry> {
    Map::new(|id: u64| ids.contains(id), |id: u64| entries[position(ids, id)])
}

proof fn lemma_population(ids: Seq<u64>, entries: Seq<CensusEntry>)
    requires
        distinct(ids),
        ids.len() == entries.len(),
    ensures
        forall|i: int|
            0 <= i < ids.len() ==> population(ids, entries).contains_key(#[trigger] ids[i])
                && population(ids, entries)[ids[i]] == entries[i],
        forall|id: u64| #[trigger]
            population(ids, entries).contains_key(id) ==> 0 <= position(ids, id) < ids.len()
                && ids[position(ids, id)] == id,
{
    assert forall|i: int| 0 <= i < ids.len() implies population(ids, entries).contains_key(
        #[trigger] ids[i],
    ) && population(ids, entries)[ids[i]] == entries[i] by {
        assert(ids.contains(ids[i]));
        assert(position(ids, ids[i]) == i);
    }
}

/// Which flag of an entry a search goes by.
enum Flag {
    Leader,
    Election,
}

impl Flag {
    spec fn set_in(self, entry: CensusEntry) -> bool {
        match self {
            Flag::Leader => entry.leader == Some(true),
            Flag::Election => entry.election == Some(true),
        }
    }

    fn is_set_in(&self, entry: &CensusEntry) -> (set: bool)
        ensures
            set == self.set_in(*entry),
    {
        let flag = match self {
            Flag::Leader => entry.leader,
            Flag::Election => entry.election,
        };
        match flag {
            Some(value) => value,
            None => false,
        }
    }
}

/// The census of one member: its own identifier, the entries of the members
/// it knows of, each under its identifier, and the in-event flag.
pub struct Census {
    me: u64,
    in_event: bool,
    roll: Roll,
}

/// The members of a census: the identifier at each place of `ids` goes with
/// the entry at the same place of `entries`.
struct Roll {
    ids: Vec<u64>,
    entries: Vec<CensusEntry>,
}

impl Roll {
    fn new() -> (roll: Roll)
        ensures
            roll.ids@.len() == 0,
            roll.entries@.len() == 0,
    {
        Roll { ids: Vec::new(), entries: Vec::new() }
    }
}

impl View for Census {
    type V = CensusView;

    closed spec fn view(&self) -> CensusView {
        CensusView {
            me: self.me,
            in_event: self.in_event,
            members: population(self.roll.ids@, self.roll.entries@),
        }
    }
}

impl Census {
    #[verifier::type_invariant]
    spec fn well_formed(&self) -> bool {
        &&& self.roll.ids@.len() == self.roll.entries@.len()
        &&& distinct(self.roll.ids@)
    }

    /// What a census holds when it is made for member `me`: the undecided
    /// entry of `me` and nothing else.
    pub open spec fn new_view(me: u64) -> CensusView {
        CensusView {
            me: me,
            in_event: false,
            members: Map::<u64, CensusEntry>::empty().insert(
                me,
                CensusEntry {
                    leader: None,
                    follower: None,
                    election: None,
                    vote: None,
                    initialized: false,
                },
            ),
        }
    }

    /// The census of member `me`, which knows of nobody but itself and has
    /// decided nothing yet.
    pub fn new(me: u64) -> (census: Census)
        ensures
            census@ == Census::new_view(me),
    {
        let mut roll = Roll::new();
        roll.ids.push(me);
        roll.entries.push(CensusEntry::new());
        let census = Census { me, in_event: false, roll };
        proof {
            lemma_population(census.roll.ids@, census.roll.entries@);
            assert(census.roll.ids@[0] == me);
            assert(census@.members =~= Map::<u64, CensusEntry>::empty().insert(
                me,
                census.roll.entries@[0],
            ));
        }
        census
    }

    /// This member's identifier.
    pub fn me_id(&self) -> (id: u64)
        ensures
            id == self@.me,
    {
        self.me
    }

    /// Whether an election event is in flight.
    pub fn in_event(&self) -> (flag: bool)
        ensures
            flag == self@.in_event,
    {
        self.in_event
    }

    /// Raises or lowers the in-event flag.
    pub fn set_in_event(&mut self, value: bool)
        ensures
            final(self)@ == old(self)@.with_in_event(value),
    {
        proof {
            use_type_invariant(&*self);
        }
        self.in_event = value;
    }

    /// Where `id` stands among the identifiers.
    fn find(&self, id: u64) -> (place: Option<usize>)
        ensures
            match place {
                Some(i) => i < self.roll.ids@.len() && self.roll.ids@[i as int] == id,
                None => !self.roll.ids@.contains(id),
            },
    {
        let mut i: usize = 0;
        while i < self.roll.ids.len()
            invariant
                i <= self.roll.ids@.len(),
                forall|k: int| 0 <= k < i ==> self.roll.ids@[k] != id,
            decreases self.roll.ids@.len() - i,
        {
            if self.roll.ids[i] == id {
                return Some(i);
            }
            i = i + 1;
        }
        None
    }

    /// Whether the census holds an entry for `id`.
    pub fn contains(&self, id: u64) -> (held: bool)
        ensures
            held == self@.members.contains_key(id),
    {
        self.find(id).is_some()
    }

    /// The entry of member `id`.
    pub fn get(&self, id: u64) -> (entry: Option<&CensusEntry>)
        ensures
            match entry {
                Some(e) => self@.members.contains_key(id) && self@.members[id] == *e,
                None => !self@.members.contains_key(id),
            },
    {
        proof {
            use_type_invariant(self);
            lemma_population(self.roll.ids@, self.roll.entries@);
        }
        match self.find(id) {
            Some(i) => Some(&self.roll.entries[i]),
            None => None,
        }
    }

    /// This member's own entry. Fails when the census holds none.
    pub fn me(&self) -> (entry: BldrResult<&CensusEntry>)
        ensures
            match entry {
                Ok(e) => self@.me_entry() == Some(*e),
                Err(error) => error == BldrError::CensusNotFound && self@.me_entry() is None,
            },
    {
        match self.get(self.me) {
            Some(e) => Ok(e),
            None => Err(BldrError::CensusNotFound),
        }
    }

    /// This member's own entry, to be changed in place. Fails when the census
    /// holds none. No other entry changes through it.
    pub fn me_mut(&mut self) -> (entry: BldrResult<&mut CensusEntry>)
        ensures
            match entry {
                Ok(e) => old(self)@.me_entry() == Some(*e) && final(self)@ == old(self)@.with_me(
                    *final(e),
                ),
                Err(error) => error == BldrError::CensusNotFound && old(self)@.me_entry() is None
                    && final(self)@ == old(self)@,
            },
    {
        proof {
            use_type_invariant(&*self);
            lemma_population(self.roll.ids@, self.roll.entries@);
        }
        match self.find(self.me) {
            Some(i) => {
                proof {
                    let ids = self.roll.ids@;
                    let entries = self.roll.entries@;
                    assert forall|entry: CensusEntry| #[trigger]
                        population(ids, entries.update(i as int, entry)) =~= population(
                            ids,
                            entries,
                        ).insert(self.me, entry) by {
                        lemma_population(ids, entries.update(i as int, entry));
                    }
                }
                Ok(&mut self.roll.entries[i])
            },
            None => Err(BldrError::CensusNotFound),
        }
    }

    /// Records `entry` as what is known of member `id`, whether or not the
    /// census knew of that member before. This is how the membership
    /// transport merges what it has learned.
    pub fn insert(&mut self, id: u64, entry: CensusEntry)
        ensures
            final(self)@ == (CensusView {
                members: old(self)@.members.insert(id, entry),
                ..old(self)@
            }),
    {
        proof {
            use_type_invariant(&*self);
            lemma_population(self.roll.ids@, self.roll.entries@);
        }
        let ghost ids = self.roll.ids@;
        let ghost entries = self.roll.entries@;
        match self.find(id) {
            Some(i) => {
                self.roll.entries[i] = entry;
                proof {
                    lemma_population(ids, entries.update(i as int, entry));
                    assert(self@.members =~= old(self)@.members.insert(id, entry));
                }
            },
            None => {
                let mut roll = Roll::new();
                std::mem::swap(&mut roll, &mut self.roll);
                roll.ids.push(id);
                roll.entries.push(entry);
                self.roll = roll;
                proof {
                    lemma_population(ids.push(id), entries.push(entry));
                    assert(ids.push(id)[ids.len() as int] == id);
                    assert forall|other: u64| ids.contains(other) implies #[trigger] ids.push(
                        id,
                    ).contains(other) by {
                        let k = position(ids, other);
                        assert(ids.push(id)[k] == other);
                    }
                    assert(self@.members =~= old(self)@.members.insert(id, entry));
                }
            },
        }
    }

    /// Forgets member `id`, if the census knew of it.
    pub fn remove(&mut self, id: u64)
        ensures
            final(self)@ == (CensusView { members: old(self)@.members.remove(id), ..old(self)@ }),
    {
        proof {
            use_type_invariant(&*self);
            lemma_population(self.roll.ids@, self.roll.entries@);
        }
        let ghost ids = self.roll.ids@;
        let ghost entries = self.roll.entries@;
        match self.find(id) {
            Some(i) => {
                let mut roll = Roll::new();
                std::mem::swap(&mut roll, &mut self.roll);
                roll.ids.swap_remove(i);
                roll.entries.swap_remove(i);
                proof {
                    let last = ids.len() - 1;
                    assert forall|a: int, b: int| 0 <= a < b < roll.ids@.len() implies roll.ids@[a]
                        != roll.ids@[b] by {
                        let a0 = if a == i { last } else { a };
                        let b0 = if b == i { last } else { b };
                        assert(roll.ids@[a] == ids[a0] && roll.ids@[b] == ids[b0]);
                    }
                }
                self.roll = roll;
                proof {
                    let last = ids.len() - 1;
                    let ids2 = self.roll.ids@;
                    let entries2 = self.roll.entries@;
                    lemma_population(ids2, entries2);
                    assert forall|other: u64| ids.contains(other) && other != id implies ids2.contains(
                        other,
                    ) by {
                        let k = position(ids, other);
                        if k == last {
                            assert(ids2[i as int] == other);
                        } else {
                            assert(ids2[k] == other);
                        }
                    }
                    assert forall|other: u64| ids2.contains(other) implies ids.contains(other)
                        && other != id && population(ids2, entries2)[other] == population(
                        ids,
                        entries,
                    )[other] by {
                        let k = position(ids2, other);
                        let k0 = if k == i { last } else { k };
                        assert(ids[k0] == other);
                        assert(entries2[k] == entries[k0]);
                    }
                    assert(self@.members =~= old(self)@.members.remove(id));
                }
            },
            None => {
                proof {
                    assert(self@.members =~= old(self)@.members.remove(id));
                }
            },
        }
    }

    /// The place of the member with the smallest identifier among those
    /// whose entry has `flag` set.
    fn least_flagged(&self, flag: Flag) -> (place: Option<usize>)
        ensures
            match place {
                Some(i) => {
                    &&& i < self.roll.ids@.len()
                    &&& flag.set_in(self.roll.entries@[i as int])
                    &&& forall|k: int|
                        0 <= k < self.roll.ids@.len() && flag.set_in(self.roll.entries@[k])
                            ==> self.roll.ids@[i as int] <= self.roll.ids@[k]
                },
                None => forall|k: int|
                    0 <= k < self.roll.ids@.len() ==> !flag.set_in(self.roll.entries@[k]),
            },
    {
        proof {
            use_type_invariant(self);
        }
        let mut best: Option<usize> = None;
        let mut i: usize = 0;
        while i < self.roll.ids.len()
            invariant
                i <= self.roll.ids@.len(),
                self.roll.ids@.len() == self.roll.entries@.len(),
                match best {
                    Some(b) => {
                        &&& b < i
                        &&& flag.set_in(self.roll.entries@[b as int])
                        &&& forall|k: int|
                            0 <= k < i && flag.set_in(self.roll.entries@[k])
                                ==> self.roll.ids@[b as int] <= self.roll.ids@[k]
                    },
                    None => forall|k: int| 0 <= k < i ==> !flag.set_in(self.roll.entries@[k]),
                },
            decreases self.roll.ids@.len() - i,
        {
            if flag.is_set_in(&self.roll.entries[i]) {
                best = match best {
                    Some(b) => if self.roll.ids[i] < self.roll.ids[b] {
                        Some(i)
                    } else {
                        Some(b)
                    },
                    None => Some(i),
                };
            }
            i = i + 1;
        }
        best
    }

    /// Whether any member has declared itself leader.
    pub fn has_leader(&self) -> (found: bool)
        ensures
            found == self@.has_leader(),
    {
        proof {
            use_type_invariant(self);
            lemma_population(self.roll.ids@, self.roll.entries@);
        }
        match self.least_flagged(Flag::Leader) {
            Some(i) => {
                assert(self@.leads(self.roll.ids@[i as int]));
                true
            },
            None => false,
        }
    }

    /// The identifier of the leader: of the members that have declared
    /// themselves leader, the one with the smallest identifier.
    pub fn leader_id(&self) -> (leader: Option<u64>)
        ensures
            leader == self@.leader(),
    {
        proof {
            use_type_invariant(self);
            lemma_population(self.roll.ids@, self.roll.entries@);
            lemma_least(self@.leaders());
        }
        match self.least_flagged(Flag::Leader) {
            Some(i) => {
                assert(is_least(self@.leaders(), self.roll.ids@[i as int]));
                Some(self.roll.ids[i])
            },
            None => {
                assert(self@.leader() is None) by {
                    if let Some(id) = self@.leader() {
                        assert(self@.leads(id));
                    }
                }
                None
            },
        }
    }

    /// The entry of the leader.
    pub fn get_leader(&self) -> (leader: Option<&CensusEntry>)
        ensures
            match leader {
                Some(entry) => self@.leader_entry() == Some(*entry),
                None => self@.leader_entry() is None,
            },
    {
        proof {
            use_type_invariant(self);
            lemma_population(self.roll.ids@, self.roll.entries@);
            lemma_least(self@.leaders());
        }
        match self.least_flagged(Flag::Leader) {
            Some(i) => {
                assert(is_least(self@.leaders(), self.roll.ids@[i as int]));
                Some(&self.roll.entries[i])
            },
            None => {
                assert(self@.leader() is None) by {
                    if let Some(id) = self@.leader() {
                        assert(self@.leads(id));
                    }
                }
                None
            },
        }
    }

    /// Whether every member but this one has declared itself a follower.
    pub fn has_all_followers(&self) -> (all: bool)
        ensures
            all == self@.has_all_followers(),
    {
        proof {
            use_type_invariant(self);
            lemma_population(self.roll.ids@, self.roll.entries@);
        }
        let mut i: usize = 0;
        while i < self.roll.ids.len()
            invariant
                i <= self.roll.ids@.len(),
                self.roll.ids@.len() == self.roll.entries@.len(),
                forall|k: int|
                    0 <= k < i && self.roll.ids@[k] != self.me ==> self.roll.entries@[k].follower
                        == Some(true),
                forall|k: int|
                    0 <= k < self.roll.ids@.len() ==> self@.members.contains_key(
                        #[trigger] self.roll.ids@[k],
                    ) && self@.members[self.roll.ids@[k]] == self.roll.entries@[k],
            decreases self.roll.ids@.len() - i,
        {
            if self.roll.ids[i] != self.me {
                let follows = match self.roll.entries[i].follower {
                    Some(value) => value,
                    None => false,
                };
                if !follows {
                    assert(self@.members.contains_key(self.roll.ids@[i as int]));
                    return false;
                }
            }
            i = i + 1;
        }
        true
    }

    /// The preferred candidate: of the members that take part in the
    /// election, the one with the smallest identifier; `None` when nobody
    /// takes part.
    pub fn determine_vote(&self) -> (candidate: Option<u64>)
        ensures
            candidate == self@.candidate(),
    {
        proof {
            use_type_invariant(self);
            lemma_population(self.roll.ids@, self.roll.entries@);
            lemma_least(self@.electors());
        }
        match self.least_flagged(Flag::Election) {
            Some(i) => {
                assert(is_least(self@.electors(), self.roll.ids@[i as int]));
                Some(self.roll.ids[i])
            },
            None => {
                assert(self@.candidate() is None) by {
                    if let Some(id) = self@.candidate() {
                        assert(self@.stands(id));
                    }
                }
                None
            },
        }
    }

    /// The winner of the election, once it is decided: the preferred
    /// candidate, when every known member takes part and votes for it.
    pub fn voting_finished(&self) -> (winner: Option<u64>)
        ensures
            winner == self@.winner(),
    {
        proof {
            use_type_invariant(self);
            lemma_population(self.roll.ids@, self.roll.entries@);
        }
        let choice = match self.determine_vote() {
            Some(choice) => choice,
            None => {
                return None;
            },
        };
        let mut i: usize = 0;
        while i < self.roll.ids.len()
            invariant
                i <= self.roll.ids@.len(),
                self.roll.ids@.len() == self.roll.entries@.len(),
                self@.candidate() == Some(choice),
                forall|k: int| 0 <= k < i ==> self@.votes_for(#[trigger] self.roll.ids@[k], choice),
                forall|k: int|
                    0 <= k < self.roll.ids@.len() ==> self@.members.contains_key(
                        #[trigger] self.roll.ids@[k],
                    ) && self@.members[self.roll.ids@[k]] == self.roll.entries@[k],
            decreases self.roll.ids@.len() - i,
        {
            let entry = &self.roll.entries[i];
            let stands = match entry.election {
                Some(value) => value,
                None => false,
            };
            let agrees = match entry.vote {
                Some(vote) => vote == choice,
                None => false,
            };
            if !(stands && agrees) {
                assert(!self@.votes_for(self.roll.ids@[i as int], choice));
                return None;
            }
            i = i + 1;
        }
        assert forall|id: u64| self@.members.contains_key(id) implies #[trigger] self@.votes_for(
            id,
            choice,
        ) by {
            assert(self.roll.ids@[position(self.roll.ids@, id)] == id);
        }
        Some(choice)
    }
}

} // verus!
