use voting_contract::{PollError, VotingContract};

fn names(list: &[&str]) -> Vec<String> {
    list.iter().map(|name| name.to_string()).collect()
}

fn results(list: &[(&str, u64)]) -> Vec<(String, u64)> {
    list.iter().map(|(name, count)| (name.to_string(), *count)).collect()
}

fn cast(poll: &mut VotingContract, voter: &str, candidate: &str) -> Result<(), PollError> {
    poll.vote(voter.to_string(), candidate.to_string())
}

#[test]
fn poll_runs_from_creation_to_final_tally() {
    let mut poll = VotingContract::new(
        "alice".to_string(),
        names(&["bob", "carol"]),
        names(&["red", "blue"]),
    );
    assert_eq!(poll.get_results(), results(&[("red", 0), ("blue", 0)]));

    assert_eq!(cast(&mut poll, "bob", "red"), Ok(()));
    assert_eq!(poll.get_results(), results(&[("red", 1), ("blue", 0)]));

    assert_eq!(cast(&mut poll, "bob", "blue"), Err(PollError::AlreadyVoted));
    assert_eq!(poll.get_results(), results(&[("red", 1), ("blue", 0)]));

    assert_eq!(cast(&mut poll, "dave", "red"), Err(PollError::NotEligible));
    assert_eq!(poll.get_results(), results(&[("red", 1), ("blue", 0)]));

    assert_eq!(cast(&mut poll, "carol", "green"), Err(PollError::UnknownCandidate));
    assert_eq!(poll.get_results(), results(&[("red", 1), ("blue", 0)]));

    assert_eq!(cast(&mut poll, "carol", "blue"), Ok(()));
    assert_eq!(poll.get_results(), results(&[("red", 1), ("blue", 1)]));
}

#[test]
fn creation_records_creator_and_empty_state() {
    let poll = VotingContract::new(
        "alice".to_string(),
        names(&["bob", "carol"]),
        names(&["red", "blue"]),
    );
    assert_eq!(poll.poll_creator(), "alice");
    assert_eq!(poll.allowed_voters(), names(&["bob", "carol"]));
    assert_eq!(poll.voted_voters(), Vec::<String>::new());
    assert_eq!(poll.get_results(), results(&[("red", 0), ("blue", 0)]));
}

#[test]
fn repeated_candidate_stands_once_where_first_listed() {
    let mut poll = VotingContract::new(
        "alice".to_string(),
        names(&["bob", "carol"]),
        names(&["red", "blue", "red", "green", "blue"]),
    );
    assert_eq!(
        poll.get_results(),
        results(&[("red", 0), ("blue", 0), ("green", 0)])
    );
    assert_eq!(cast(&mut poll, "bob", "red"), Ok(()));
    assert_eq!(
        poll.get_results(),
        results(&[("red", 1), ("blue", 0), ("green", 0)])
    );
}

#[test]
fn repeated_voter_is_eligible_once() {
    let mut poll = VotingContract::new(
        "alice".to_string(),
        names(&["bob", "bob", "carol", "bob"]),
        names(&["red"]),
    );
    assert_eq!(poll.allowed_voters(), names(&["bob", "carol"]));
    assert_eq!(cast(&mut poll, "bob", "red"), Ok(()));
    assert_eq!(cast(&mut poll, "bob", "red"), Err(PollError::AlreadyVoted));
    assert_eq!(poll.get_results(), results(&[("red", 1)]));
}

#[test]
fn results_keep_listing_order_not_alphabetical_nor_by_count() {
    let mut poll = VotingContract::new(
        "alice".to_string(),
        names(&["v1", "v2", "v3"]),
        names(&["zeta", "alpha", "mid"]),
    );
    assert_eq!(cast(&mut poll, "v1", "mid"), Ok(()));
    assert_eq!(cast(&mut poll, "v2", "mid"), Ok(()));
    assert_eq!(cast(&mut poll, "v3", "alpha"), Ok(()));
    assert_eq!(
        poll.get_results(),
        results(&[("zeta", 0), ("alpha", 1), ("mid", 2)])
    );
}

#[test]
fn poll_without_candidates_refuses_every_ballot() {
    let mut poll = VotingContract::new("alice".to_string(), names(&["bob"]), Vec::new());
    assert_eq!(poll.get_results(), Vec::<(String, u64)>::new());
    assert_eq!(cast(&mut poll, "bob", "red"), Err(PollError::UnknownCandidate));
    assert_eq!(poll.voted_voters(), Vec::<String>::new());
}

#[test]
fn poll_without_voters_refuses_every_ballot() {
    let mut poll = VotingContract::new("alice".to_string(), Vec::new(), names(&["red"]));
    assert_eq!(cast(&mut poll, "alice", "red"), Err(PollError::NotEligible));
    assert_eq!(poll.get_results(), results(&[("red", 0)]));
}

#[test]
fn creator_is_not_eligible_unless_listed() {
    let mut poll = VotingContract::new(
        "alice".to_string(),
        names(&["bob"]),
        names(&["red"]),
    );
    assert_eq!(cast(&mut poll, "alice", "red"), Err(PollError::NotEligible));
}

#[test]
fn identities_and_names_are_compared_exactly() {
    let mut poll = VotingContract::new(
        "alice".to_string(),
        names(&["bob"]),
        names(&["red"]),
    );
    assert_eq!(cast(&mut poll, "Bob", "red"), Err(PollError::NotEligible));
    assert_eq!(cast(&mut poll, "bob ", "red"), Err(PollError::NotEligible));
    assert_eq!(cast(&mut poll, "bob", "Red"), Err(PollError::UnknownCandidate));
    assert_eq!(cast(&mut poll, "bob", ""), Err(PollError::UnknownCandidate));
    assert_eq!(cast(&mut poll, "bob", "red"), Ok(()));
}
