//! The mathematical model of a poll and of its operations.

use crate::error::PollError;
use vstd::prelude::*;

verus! {

/// The candidate names of a tally, in tally order.
pub open spec fn tally_names(tally: Seq<(Seq<char>, nat)>) -> Seq<Seq<char>> {
    tally.map_values(|entry: (Seq<char>, nat)| entry.0)
}

/// The number of votes on a tally, over all candidates.
pub open spec fn tally_total(tally: Seq<(Seq<char>, nat)>) -> nat
    decreases tally.len(),
{
    if tally.len() == 0 {
        0
    } else {
        tally_total(tally.drop_last()) + tally.last().1
    }
}

/// The tally after one more vote for `candidate`: each entry of that name
/// counts one more, every other entry is as before.
pub open spec fn tally_with_vote(tally: Seq<(Seq<char>, nat)>, candidate: Seq<char>) -> Seq<
    (Seq<char>, nat),
> {
    tally.map_values(
        |entry: (Seq<char>, nat)|
            if entry.0 == candidate {
                (entry.0, entry.1 + 1)
            } else {
                entry
            },
    )
}

/// The items of `items` in the order of their first occurrence, each once.
pub open spec fn first_occurrences(items: Seq<Seq<char>>) -> Seq<Seq<char>>
    decreases items.len(),
{
    if items.len() == 0 {
        Seq::empty()
    } else {
        let earlier = first_occurrences(items.drop_last());
        if earlier.contains(items.last()) {
            earlier
        } else {
            earlier.push(items.last())
        }
    }
}

/// The tally on which each of `names` stands with no vote.
pub open spec fn empty_tally(names: Seq<Seq<char>>) -> Seq<(Seq<char>, nat)> {
    names.map_values(|name: Seq<char>| (name, 0nat))
}

/// What a poll is: who created it, who may vote, who has voted, and the
/// votes counted for each candidate. The voters stand in the order in which
/// they were first listed, those who have voted in the order of their votes,
/// the candidates in the order in which they were first listed.
#[verifier::ext_equal]
pub struct PollState {
    pub creator: Seq<char>,
    pub voters: Seq<Seq<char>>,
    pub voted: Seq<Seq<char>>,
    pub tally: Seq<(Seq<char>, nat)>,
}

impl PollState {
    /// The poll right after its creation: whoever is listed may vote, nobody
    /// has voted, and each candidate stands once, at the place of its first
    /// listing, with no vote.
    pub open spec fn initial(
        creator: Seq<char>,
        voters: Seq<Seq<char>>,
        candidates: Seq<Seq<char>>,
    ) -> PollState {
        PollState {
            creator,
            voters: first_occurrences(voters),
            voted: Seq::empty(),
            tally: empty_tally(first_occurrences(candidates)),
        }
    }

    /// The eligibility set.
    pub open spec fn eligible(self) -> Set<Seq<char>> {
        self.voters.to_set()
    }

    /// The set of voters who have voted.
    pub open spec fn has_voted(self) -> Set<Seq<char>> {
        self.voted.to_set()
    }

    /// The candidate names, in tally order.
    pub open spec fn names(self) -> Seq<Seq<char>> {
        tally_names(self.tally)
    }

    /// The number of votes counted.
    pub open spec fn total(self) -> nat {
        tally_total(self.tally)
    }

    /// Whether `candidate` stands on the tally.
    pub open spec fn has_candidate(self, candidate: Seq<char>) -> bool {
        self.names().contains(candidate)
    }

    /// The invariants of a poll: no voter and no candidate stands twice,
    /// only eligible voters have voted, and the tally counts one vote for
    /// each voter who has voted.
    pub open spec fn valid(self) -> bool {
        &&& self.voters.no_duplicates()
        &&& self.voted.no_duplicates()
        &&& self.has_voted().subset_of(self.eligible())
        &&& self.names().no_duplicates()
        &&& self.total() == self.voted.len()
    }

    /// The answer to a ballot. The three gates are tried in this order, and
    /// the first that fails names the refusal.
    pub open spec fn verdict(self, voter: Seq<char>, candidate: Seq<char>) -> Result<
        (),
        PollError,
    > {
        if !self.eligible().contains(voter) {
            Err(PollError::NotEligible)
        } else if self.has_voted().contains(voter) {
            Err(PollError::AlreadyVoted)
        } else if !self.has_candidate(candidate) {
            Err(PollError::UnknownCandidate)
        } else {
            Ok(())
        }
    }

    /// The poll with the vote of `voter` for `candidate` counted.
    pub open spec fn record(self, voter: Seq<char>, candidate: Seq<char>) -> PollState {
        PollState {
            creator: self.creator,
            voters: self.voters,
            voted: self.voted.push(voter),
            tally: tally_with_vote(self.tally, candidate),
        }
    }

    /// The poll after a ballot: the vote is counted if the ballot is
    /// admitted, and nothing changes if it is refused.
    pub open spec fn cast(self, voter: Seq<char>, candidate: Seq<char>) -> PollState {
        if self.verdict(voter, candidate) is Ok {
            self.record(voter, candidate)
        } else {
            self
        }
    }

    /// The poll after a run of ballots, each a voter and a candidate, cast
    /// in turn.
    pub open spec fn cast_all(self, ballots: Seq<(Seq<char>, Seq<char>)>) -> PollState
        decreases ballots.len(),
    {
        if ballots.len() == 0 {
            self
        } else {
            self.cast_all(ballots.drop_last()).cast(ballots.last().0, ballots.last().1)
        }
    }
}

/// A vote changes no candidate name and moves no candidate.
pub proof fn lemma_vote_keeps_names(tally: Seq<(Seq<char>, nat)>, candidate: Seq<char>)
    ensures
        tally_names(tally_with_vote(tally, candidate)) == tally_names(tally),
{
    assert(tally_names(tally_with_vote(tally, candidate)) =~= tally_names(tally));
}

/// No candidate has more votes than the tally counts in all.
pub proof fn lemma_entry_within_total(tally: Seq<(Seq<char>, nat)>, i: int)
    requires
        0 <= i < tally.len(),
    ensures
        tally[i].1 <= tally_total(tally),
    decreases tally.len(),
{
    if i < tally.len() - 1 {
        lemma_entry_within_total(tally.drop_last(), i);
    }
}

/// The first entries of a tally count no more votes than the whole tally.
pub proof fn lemma_total_of_prefix(tally: Seq<(Seq<char>, nat)>, n: int)
    requires
        0 <= n <= tally.len(),
    ensures
        tally_total(tally.take(n)) <= tally_total(tally),
    decreases tally.len(),
{
    if n == tally.len() {
        assert(tally.take(n) =~= tally);
    } else {
        assert(tally.drop_last().take(n) =~= tally.take(n));
        lemma_total_of_prefix(tally.drop_last(), n);
    }
}

/// A vote for a candidate that stands once on the tally adds one to the
/// total; a vote for a name that is not on the tally changes nothing.
pub proof fn lemma_vote_total(tally: Seq<(Seq<char>, nat)>, candidate: Seq<char>)
    requires
        tally_names(tally).no_duplicates(),
    ensures
        tally_names(tally).contains(candidate) ==> tally_total(tally_with_vote(tally, candidate))
            == tally_total(tally) + 1,
        !tally_names(tally).contains(candidate) ==> tally_with_vote(tally, candidate) == tally,
    decreases tally.len(),
{
    let names = tally_names(tally);
    let voted = tally_with_vote(tally, candidate);
    if tally.len() == 0 {
        assert(voted =~= tally);
    } else {
        let front = tally.drop_last();
        let last = tally.len() - 1;
        assert(tally_names(front) =~= names.drop_last());
        assert(voted.drop_last() =~= tally_with_vote(front, candidate));
        lemma_vote_total(front, candidate);
        if names.contains(candidate) {
            let at = choose|k: int| 0 <= k < names.len() && names[k] == candidate;
            if at == last {
                assert forall|k: int| 0 <= k < front.len() implies tally_names(front)[k]
                    != candidate by {
                    assert(names[k] != names[last]);
                }
                assert(!tally_names(front).contains(candidate));
            } else {
                assert(tally_names(front)[at] == candidate);
                assert(names[last] != names[at]);
            }
        } else {
            assert forall|k: int| 0 <= k < tally.len() implies tally[k].0 != candidate by {
                assert(names[k] == tally[k].0);
            }
            assert(voted =~= tally);
        }
    }
}

/// Among the first occurrences nothing stands twice, and they are the same
/// items as those listed.
pub proof fn lemma_first_occurrences(items: Seq<Seq<char>>)
    ensures
        first_occurrences(items).no_duplicates(),
        first_occurrences(items).to_set() == items.to_set(),
        first_occurrences(items).len() <= items.len(),
    decreases items.len(),
{
    let kept = first_occurrences(items);
    if items.len() == 0 {
        assert(kept.to_set() =~= items.to_set());
    } else {
        let front = items.drop_last();
        let earlier = first_occurrences(front);
        lemma_first_occurrences(front);
        assert forall|name: Seq<char>| kept.contains(name) <==> items.contains(name) by {
            if kept.contains(name) {
                let k = choose|k: int| 0 <= k < kept.len() && kept[k] == name;
                if k < earlier.len() {
                    assert(earlier[k] == name);
                    assert(earlier.to_set().contains(name));
                    assert(front.contains(name));
                    let j = choose|j: int| 0 <= j < front.len() && front[j] == name;
                    assert(items[j] == name);
                } else {
                    assert(items[items.len() - 1] == name);
                }
            }
            if items.contains(name) {
                let j = choose|j: int| 0 <= j < items.len() && items[j] == name;
                if j < front.len() {
                    assert(front[j] == name);
                    assert(front.to_set().contains(name));
                    assert(earlier.contains(name));
                    let k = choose|k: int| 0 <= k < earlier.len() && earlier[k] == name;
                    assert(kept[k] == name);
                } else if earlier.contains(name) {
                    let k = choose|k: int| 0 <= k < earlier.len() && earlier[k] == name;
                    assert(kept[k] == name);
                } else {
                    assert(kept[kept.len() - 1] == name);
                }
            }
        }
        assert(kept.to_set() =~= items.to_set());
    }
}

/// A list in which nothing stands twice is its own list of first occurrences.
pub proof fn lemma_first_occurrences_of_distinct(items: Seq<Seq<char>>)
    requires
        items.no_duplicates(),
    ensures
        first_occurrences(items) == items,
    decreases items.len(),
{
    if items.len() > 0 {
        let front = items.drop_last();
        lemma_first_occurrences_of_distinct(front);
        if front.contains(items.last()) {
            let k = choose|k: int| 0 <= k < front.len() && front[k] == items.last();
            assert(items[k] == items[items.len() - 1]);
        }
        assert(front.push(items.last()) =~= items);
    }
}

/// An empty tally counts no vote and lists the names it was made from.
pub proof fn lemma_empty_tally(names: Seq<Seq<char>>)
    ensures
        tally_total(empty_tally(names)) == 0,
        tally_names(empty_tally(names)) == names,
    decreases names.len(),
{
    assert(tally_names(empty_tally(names)) =~= names);
    if names.len() > 0 {
        assert(empty_tally(names).drop_last() =~= empty_tally(names.drop_last()));
        lemma_empty_tally(names.drop_last());
    }
}

/// In a valid poll the voters who have voted are as many as the votes
/// counted, and fewer than the eligible voters while any of these has yet to
/// vote.
pub proof fn lemma_valid_counts(poll: PollState)
    requires
        poll.valid(),
    ensures
        poll.eligible().finite(),
        poll.has_voted().finite(),
        poll.eligible().len() == poll.voters.len(),
        poll.has_voted().len() == poll.total(),
        poll.total() <= poll.voters.len(),
        forall|voter: Seq<char>|
            poll.eligible().contains(voter) && !poll.has_voted().contains(voter) ==> poll.total()
                < poll.voters.len(),
{
    vstd::seq_lib::seq_to_set_is_finite(poll.voters);
    vstd::seq_lib::seq_to_set_is_finite(poll.voted);
    poll.voters.unique_seq_to_set();
    poll.voted.unique_seq_to_set();
    vstd::set_lib::lemma_len_subset(poll.has_voted(), poll.eligible());
    assert forall|voter: Seq<char>|
        poll.eligible().contains(voter) && !poll.has_voted().contains(
            voter,
        ) implies poll.total() < poll.voters.len() by {
        let more = poll.has_voted().insert(voter);
        vstd::set_lib::lemma_len_subset(more, poll.eligible());
    }
}

/// An admitted ballot leaves a valid poll valid.
pub proof fn lemma_record_valid(poll: PollState, voter: Seq<char>, candidate: Seq<char>)
    requires
        poll.valid(),
        poll.verdict(voter, candidate) is Ok,
    ensures
        poll.record(voter, candidate).valid(),
{
    let after = poll.record(voter, candidate);
    lemma_vote_keeps_names(poll.tally, candidate);
    lemma_vote_total(poll.tally, candidate);
    poll.voted.lemma_push_to_set_commute(voter);
    assert forall|i: int, j: int|
        0 <= i < after.voted.len() && 0 <= j < after.voted.len() && i != j implies after.voted[i]
        != after.voted[j] by {
        if i == poll.voted.len() {
            assert(poll.voted[j] == after.voted[j]);
        } else if j == poll.voted.len() {
            assert(poll.voted[i] == after.voted[i]);
        }
    }
}

} // verus!
