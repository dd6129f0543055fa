use voting_contract::{PollError, StorageKey, VotingContract};

fn names(list: &[&str]) -> Vec<String> {
    list.iter().map(|name| name.to_string()).collect()
}

fn results(list: &[(&str, u64)]) -> Vec<(String, u64)> {
    list.iter().map(|(name, count)| (name.to_string(), *count)).collect()
}

fn restore(
    allowed: &[&str],
    voted: &[&str],
    tally: &[(&str, u64)],
) -> Option<VotingContract> {
    VotingContract::from_parts("alice".to_string(), names(allowed), names(voted), results(tally))
}

#[test]
fn storage_keys_are_the_three_prefixes() {
    assert_eq!(StorageKey::AllowedVoters.into_storage_key(), b"av".to_vec());
    assert_eq!(StorageKey::VotedVoters.into_storage_key(), b"vv".to_vec());
    assert_eq!(StorageKey::Candidates.into_storage_key(), b"c".to_vec());
}

#[test]
fn no_storage_prefix_starts_another() {
    let keys = [
        StorageKey::AllowedVoters,
        StorageKey::VotedVoters,
        StorageKey::Candidates,
    ];
    for a in keys {
        for b in keys {
            if a != b {
                assert!(!a.into_storage_key().starts_with(&b.into_storage_key()));
            }
        }
    }
}

#[test]
fn snapshot_restores_to_the_same_poll() {
    let mut poll = VotingContract::new(
        "alice".to_string(),
        names(&["bob", "carol", "erin"]),
        names(&["red", "blue"]),
    );
    assert_eq!(poll.vote("carol".to_string(), "blue".to_string()), Ok(()));
    assert_eq!(poll.vote("bob".to_string(), "blue".to_string()), Ok(()));

    let mut restored = VotingContract::from_parts(
        poll.poll_creator(),
        poll.allowed_voters(),
        poll.voted_voters(),
        poll.get_results(),
    )
    .expect("a snapshot of a poll is valid");
    assert_eq!(restored.poll_creator(), "alice");
    assert_eq!(restored.allowed_voters(), names(&["bob", "carol", "erin"]));
    assert_eq!(restored.voted_voters(), names(&["carol", "bob"]));
    assert_eq!(restored.get_results(), results(&[("red", 0), ("blue", 2)]));

    assert_eq!(
        restored.vote("bob".to_string(), "red".to_string()),
        Err(PollError::AlreadyVoted)
    );
    assert_eq!(restored.vote("erin".to_string(), "red".to_string()), Ok(()));
    assert_eq!(restored.get_results(), results(&[("red", 1), ("blue", 2)]));
}

#[test]
fn valid_snapshots_are_taken() {
    assert!(restore(&[], &[], &[]).is_some());
    assert!(restore(&["bob"], &[], &[("red", 0)]).is_some());
    assert!(restore(&["bob", "carol"], &["carol"], &[("red", 0), ("blue", 1)]).is_some());
    assert!(restore(&["bob", "carol"], &["carol", "bob"], &[("red", 2)]).is_some());
}

#[test]
fn snapshot_with_repeated_voter_is_refused() {
    assert!(restore(&["bob", "bob"], &[], &[("red", 0)]).is_none());
    assert!(restore(&["bob", "carol"], &["bob", "bob"], &[("red", 2)]).is_none());
}

#[test]
fn snapshot_with_ineligible_voter_is_refused() {
    assert!(restore(&["bob"], &["dave"], &[("red", 1)]).is_none());
}

#[test]
fn snapshot_with_repeated_candidate_is_refused() {
    assert!(restore(&["bob"], &["bob"], &[("red", 1), ("red", 0)]).is_none());
}

#[test]
fn snapshot_with_wrong_total_is_refused() {
    assert!(restore(&["bob", "carol"], &["bob"], &[("red", 0), ("blue", 0)]).is_none());
    assert!(restore(&["bob", "carol"], &["bob"], &[("red", 1), ("blue", 1)]).is_none());
    assert!(restore(&["bob"], &[], &[("red", 1)]).is_none());
    assert!(restore(&["bob"], &["bob"], &[("red", u64::MAX), ("blue", 2)]).is_none());
    assert!(restore(&["bob"], &["bob"], &[("red", u64::MAX)]).is_none());
}
