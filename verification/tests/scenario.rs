use bldr::census::CensusEntry;
use bldr::error::BldrResult;
use bldr::state_machine::StateMachine;
use bldr::topology::initializer::machine;
use bldr::topology::State::{
    self, BecomeFollower, BecomeLeader, DetermineViability, Follower, InElection,
    InitializingFollower, InitializingLeader, Leader, StartElection,
};
use bldr::topology::Worker;

struct Member {
    id: u64,
    machine: StateMachine,
    worker: Worker<u64>,
    inits: u32,
    starts: u32,
}

fn cluster(ids: &[u64]) -> Vec<Member> {
    let mut members = Vec::new();
    for &id in ids {
        let mut worker = Worker::new(id);
        for &peer in ids {
            if peer != id {
                worker.census.insert(peer, CensusEntry::new());
            }
        }
        members.push(Member { id, machine: machine(), worker, inits: 0, starts: 0 });
    }
    members
}

/// One tick of the member at `place`, after which every other member learns
/// of what it wrote into its own entry.
fn tick(members: &mut Vec<Member>, place: usize) -> u32 {
    let member = &mut members[place];
    let mut inits = 0;
    let mut starts = 0;
    let id = member.id;
    let wait = member
        .machine
        .next(
            &mut member.worker,
            || -> BldrResult<()> {
                inits += 1;
                Ok(())
            },
            || -> BldrResult<u64> {
                starts += 1;
                Ok(id)
            },
        )
        .unwrap();
    member.inits += inits;
    member.starts += starts;
    let entry = *member.worker.census.me().unwrap();
    for other in members.iter_mut() {
        if other.id != id {
            other.worker.census.insert(id, entry);
        }
    }
    wait
}

fn states(members: &Vec<Member>) -> Vec<State> {
    members.iter().map(|m| m.machine.state()).collect()
}

fn round(members: &mut Vec<Member>) {
    for place in 0..members.len() {
        tick(members, place);
    }
}

#[test]
fn three_members_elect_the_smallest() {
    let mut members = cluster(&[1, 2, 3]);
    assert_eq!(states(&members), vec![DetermineViability; 3]);
    round(&mut members);
    assert_eq!(states(&members), vec![StartElection; 3]);
    round(&mut members);
    assert_eq!(states(&members), vec![InElection; 3]);
    for member in &members {
        assert_eq!(member.worker.census.determine_vote(), Some(1));
        assert_eq!(member.worker.census.me().unwrap().vote, Some(1));
    }
    round(&mut members);
    assert_eq!(states(&members), vec![BecomeLeader, BecomeFollower, BecomeFollower]);
    round(&mut members);
    assert_eq!(states(&members), vec![BecomeLeader, InitializingFollower, InitializingFollower]);
    assert_eq!(members[0].worker.census.me().unwrap().leader, Some(true));
    round(&mut members);
    assert_eq!(
        states(&members),
        vec![InitializingLeader, InitializingFollower, InitializingFollower]
    );
    assert_eq!(members[1].inits + members[2].inits, 0);
    tick(&mut members, 1);
    tick(&mut members, 2);
    tick(&mut members, 1);
    assert_eq!(
        states(&members),
        vec![InitializingLeader, InitializingFollower, InitializingFollower]
    );
    assert_eq!(members[1].inits + members[2].inits, 0);
    tick(&mut members, 0);
    assert_eq!(states(&members), vec![Leader, InitializingFollower, InitializingFollower]);
    assert!(members[0].worker.census.me().unwrap().initialized);
    assert_eq!(members[0].inits, 1);
    tick(&mut members, 1);
    tick(&mut members, 2);
    assert_eq!(states(&members), vec![Leader, Follower, Follower]);
    for _ in 0..3 {
        round(&mut members);
        assert_eq!(states(&members), vec![Leader, Follower, Follower]);
    }
    for member in &members {
        assert_eq!(member.inits, 1);
        assert_eq!(member.starts, 1);
        assert_eq!(member.worker.supervisor_thread, Some(member.id));
        assert!(!member.worker.census.in_event());
        assert_eq!(member.worker.census.leader_id(), Some(1));
        let me = member.worker.census.me().unwrap();
        assert_eq!(me.election, None);
        assert_eq!(me.vote, None);
        assert!(me.initialized);
    }
}

#[test]
fn votes_converge_on_the_smallest_when_it_joins_last() {
    let mut members = cluster(&[1, 2, 3]);
    for _ in 0..3 {
        tick(&mut members, 2);
        tick(&mut members, 1);
    }
    assert_eq!(states(&members), vec![DetermineViability, InElection, InElection]);
    assert_eq!(members[1].worker.census.me().unwrap().vote, Some(2));
    assert_eq!(members[2].worker.census.me().unwrap().vote, Some(2));
    assert_eq!(tick(&mut members, 2), 10);
    tick(&mut members, 0);
    tick(&mut members, 0);
    assert_eq!(states(&members), vec![InElection, InElection, InElection]);
    for _ in 0..8 {
        round(&mut members);
    }
    assert_eq!(states(&members), vec![Leader, Follower, Follower]);
}

#[test]
fn any_order_of_ticks_ends_with_one_leader() {
    let orders: [[usize; 4]; 4] = [[3, 2, 1, 0], [0, 3, 1, 2], [2, 2, 0, 1], [1, 3, 3, 0]];
    for order in orders {
        let mut members = cluster(&[12, 5, 9, 30]);
        for step in 0..40 {
            for &place in &order {
                tick(&mut members, place);
            }
            for place in 0..4 {
                if step % 3 == 0 {
                    tick(&mut members, place);
                }
            }
            let leaders = members
                .iter()
                .filter(|m| m.worker.census.me().unwrap().leader == Some(true))
                .count();
            assert!(leaders <= 1);
        }
            assert_eq!(states(&members), vec![Follower, Leader, Follower, Follower]);
    }
}

#[test]
fn follower_that_loses_its_leader_determines_viability() {
    let mut members = cluster(&[1, 2]);
    for _ in 0..10 {
        round(&mut members);
    }
    assert_eq!(states(&members), vec![Leader, Follower]);
    members[1].worker.census.remove(1);
    tick(&mut members, 1);
    assert_eq!(members[1].machine.state(), DetermineViability);
}

#[test]
fn follower_left_alone_elects_itself() {
    let mut members = cluster(&[1, 2]);
    for _ in 0..10 {
        round(&mut members);
    }
    let mut lone = members.pop().unwrap();
    lone.worker.census.remove(1);
    let mut trail = Vec::new();
    for _ in 0..7 {
        lone.machine.next(&mut lone.worker, || Ok(()), || Ok(0)).unwrap();
        trail.push(lone.machine.state());
    }
    assert_eq!(
        trail,
        vec![
            DetermineViability,
            StartElection,
            InElection,
            BecomeLeader,
            InitializingLeader,
            Leader,
            Leader,
        ]
    );
    assert_eq!(lone.worker.census.me().unwrap().leader, Some(true));
    assert_eq!(lone.worker.census.me().unwrap().follower, None);
}

#[test]
fn late_joiner_follows_the_leader_it_finds() {
    let mut members = cluster(&[1, 2]);
    for _ in 0..10 {
        round(&mut members);
    }
    let mut late: Worker<u64> = Worker::new(3);
    for member in &members {
        late.census.insert(member.id, *member.worker.census.me().unwrap());
    }
    let mut sm = machine();
    let mut trail = Vec::new();
    for _ in 0..4 {
        sm.next(&mut late, || Ok(()), || Ok(3)).unwrap();
        trail.push(sm.state());
    }
    assert_eq!(trail, vec![BecomeFollower, InitializingFollower, Follower, Follower]);
}
