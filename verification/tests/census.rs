use bldr::census::{Census, CensusEntry};
use bldr::error::BldrError;

fn elector(vote: u64) -> CensusEntry {
    let mut entry = CensusEntry::new();
    entry.election(Some(true));
    entry.vote(Some(vote));
    entry
}

#[test]
fn new_entry_has_decided_nothing() {
    let entry = CensusEntry::new();
    assert_eq!(entry.leader, None);
    assert_eq!(entry.follower, None);
    assert_eq!(entry.election, None);
    assert_eq!(entry.vote, None);
    assert!(!entry.initialized);
}

#[test]
fn mutators_touch_one_field_each() {
    let mut entry = CensusEntry::new();
    entry.leader(Some(true));
    assert_eq!(entry, CensusEntry { leader: Some(true), ..CensusEntry::new() });
    entry.follower(Some(false));
    entry.election(Some(true));
    entry.vote(Some(9));
    entry.initialized();
    assert_eq!(
        entry,
        CensusEntry {
            leader: Some(true),
            follower: Some(false),
            election: Some(true),
            vote: Some(9),
            initialized: true,
        }
    );
    entry.leader(None);
    assert_eq!(entry.leader, None);
    assert!(entry.initialized);
}

#[test]
fn clear_election_unsets_flag_and_vote() {
    let mut entry = elector(4);
    entry.leader(Some(true));
    entry.initialized();
    entry.clear_election();
    assert_eq!(entry.election, None);
    assert_eq!(entry.vote, None);
    assert_eq!(entry.leader, Some(true));
    assert!(entry.initialized);
}

#[test]
fn clear_election_on_cleared_entry_changes_nothing() {
    let mut entry = CensusEntry::new();
    entry.follower(Some(true));
    entry.initialized();
    let before = entry;
    entry.clear_election();
    assert_eq!(entry, before);
    entry.clear_election();
    assert_eq!(entry, before);
}

#[test]
fn clear_election_with_only_a_vote_set() {
    let mut entry = CensusEntry::new();
    entry.vote(Some(3));
    entry.clear_election();
    assert_eq!(entry, CensusEntry::new());
}

#[test]
fn new_census_knows_only_itself() {
    let census = Census::new(7);
    assert_eq!(census.me_id(), 7);
    assert!(!census.in_event());
    assert!(census.contains(7));
    assert!(!census.contains(8));
    assert_eq!(census.me(), Ok(&CensusEntry::new()));
    assert_eq!(census.get(7), Some(&CensusEntry::new()));
    assert_eq!(census.get(1), None);
}

#[test]
fn in_event_flag_is_raised_and_lowered() {
    let mut census = Census::new(1);
    census.set_in_event(true);
    assert!(census.in_event());
    census.set_in_event(false);
    assert!(!census.in_event());
}

#[test]
fn insert_adds_and_replaces() {
    let mut census = Census::new(1);
    census.insert(2, elector(1));
    assert_eq!(census.get(2), Some(&elector(1)));
    census.insert(2, elector(2));
    assert_eq!(census.get(2), Some(&elector(2)));
    assert_eq!(census.get(1), Some(&CensusEntry::new()));
    census.insert(1, elector(1));
    assert_eq!(census.me(), Ok(&elector(1)));
}

#[test]
fn remove_forgets_one_member() {
    let mut census = Census::new(1);
    census.insert(2, elector(1));
    census.insert(3, elector(2));
    census.remove(2);
    assert!(!census.contains(2));
    assert_eq!(census.get(3), Some(&elector(2)));
    assert_eq!(census.get(1), Some(&CensusEntry::new()));
    census.remove(2);
    assert!(census.contains(1) && census.contains(3));
}

#[test]
fn me_fails_without_own_entry() {
    let mut census = Census::new(1);
    census.insert(2, CensusEntry::new());
    census.remove(1);
    assert_eq!(census.me(), Err(BldrError::CensusNotFound));
    assert_eq!(census.me_mut().err(), Some(BldrError::CensusNotFound));
    assert!(census.contains(2));
}

#[test]
fn me_mut_changes_own_entry_only() {
    let mut census = Census::new(2);
    census.insert(1, elector(1));
    census.insert(3, elector(1));
    census.me_mut().unwrap().leader(Some(true));
    assert_eq!(census.me().unwrap().leader, Some(true));
    assert_eq!(census.get(1), Some(&elector(1)));
    assert_eq!(census.get(3), Some(&elector(1)));
}

#[test]
fn no_leader_in_a_fresh_census() {
    let mut census = Census::new(1);
    census.insert(2, CensusEntry::new());
    assert!(!census.has_leader());
    assert_eq!(census.leader_id(), None);
    assert_eq!(census.get_leader(), None);
}

#[test]
fn leader_flag_must_be_true() {
    let mut census = Census::new(1);
    let mut entry = CensusEntry::new();
    entry.leader(Some(false));
    census.insert(2, entry);
    assert!(!census.has_leader());
    assert_eq!(census.leader_id(), None);
}

#[test]
fn leader_is_the_smallest_of_those_that_lead() {
    let mut census = Census::new(1);
    let mut first = CensusEntry::new();
    first.leader(Some(true));
    let mut second = first;
    second.initialized();
    census.insert(9, first);
    census.insert(4, second);
    census.insert(6, first);
    assert!(census.has_leader());
    assert_eq!(census.leader_id(), Some(4));
    assert_eq!(census.get_leader(), Some(&second));
}

#[test]
fn all_followers_leaves_oneself_out() {
    let mut census = Census::new(1);
    assert!(census.has_all_followers());
    let mut follower = CensusEntry::new();
    follower.follower(Some(true));
    census.insert(2, follower);
    census.insert(3, follower);
    assert!(census.has_all_followers());
    census.insert(4, CensusEntry::new());
    assert!(!census.has_all_followers());
    let mut refused = CensusEntry::new();
    refused.follower(Some(false));
    census.insert(4, refused);
    assert!(!census.has_all_followers());
    census.insert(4, follower);
    assert!(census.has_all_followers());
}

#[test]
fn nobody_standing_gives_no_candidate() {
    let mut census = Census::new(1);
    census.insert(2, CensusEntry::new());
    assert_eq!(census.determine_vote(), None);
    assert_eq!(census.voting_finished(), None);
}

#[test]
fn candidate_is_the_smallest_elector() {
    let mut census = Census::new(5);
    census.insert(5, elector(5));
    assert_eq!(census.determine_vote(), Some(5));
    census.insert(3, elector(3));
    assert_eq!(census.determine_vote(), Some(3));
    census.insert(8, elector(3));
    assert_eq!(census.determine_vote(), Some(3));
    census.insert(1, CensusEntry::new());
    assert_eq!(census.determine_vote(), Some(3));
}

#[test]
fn candidate_is_the_same_for_every_member() {
    let mut left = Census::new(1);
    let mut right = Census::new(9);
    for id in [9u64, 4, 6, 1] {
        left.insert(id, elector(id));
        right.insert(id, elector(4));
    }
    assert_eq!(left.determine_vote(), Some(1));
    assert_eq!(right.determine_vote(), left.determine_vote());
}

#[test]
fn election_flag_must_be_true_to_stand() {
    let mut census = Census::new(1);
    let mut entry = CensusEntry::new();
    entry.election(Some(false));
    entry.vote(Some(1));
    census.insert(1, entry);
    assert_eq!(census.determine_vote(), None);
}

#[test]
fn voting_is_finished_when_all_agree() {
    let mut census = Census::new(2);
    census.insert(1, elector(1));
    census.insert(2, elector(1));
    census.insert(3, elector(1));
    assert_eq!(census.voting_finished(), Some(1));
}

#[test]
fn voting_is_unfinished_while_a_vote_differs() {
    let mut census = Census::new(2);
    census.insert(1, elector(1));
    census.insert(2, elector(2));
    census.insert(3, elector(1));
    assert_eq!(census.voting_finished(), None);
}

#[test]
fn voting_is_unfinished_while_a_member_stands_aside() {
    let mut census = Census::new(2);
    census.insert(1, elector(1));
    census.insert(2, elector(1));
    let mut aside = CensusEntry::new();
    aside.vote(Some(1));
    census.insert(3, aside);
    assert_eq!(census.voting_finished(), None);
}

#[test]
fn agreeing_on_another_than_the_candidate_finishes_nothing() {
    let mut census = Census::new(2);
    census.insert(1, elector(2));
    census.insert(2, elector(2));
    assert_eq!(census.determine_vote(), Some(1));
    assert_eq!(census.voting_finished(), None);
}

#[test]
fn empty_census_answers_every_question() {
    let mut census = Census::new(1);
    census.remove(1);
    assert!(!census.has_leader());
    assert!(census.has_all_followers());
    assert_eq!(census.determine_vote(), None);
    assert_eq!(census.voting_finished(), None);
    assert_eq!(census.get_leader(), None);
}
