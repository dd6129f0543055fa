//! The poll: its state and its operations.

use crate::error::PollError;
use crate::model::{
    empty_tally, first_occurrences, lemma_empty_tally, lemma_entry_within_total,
    lemma_first_occurrences, lemma_record_valid, lemma_total_of_prefix, lemma_valid_counts,
    tally_names, tally_total, tally_with_vote, PollState,
};
use vstd::prelude::*;

verus! {

/// A list of results as the model sees it: each name by its characters, each
/// count as a natural number.
pub open spec fn results_view(results: Seq<(String, u64)>) -> Seq<(Seq<char>, nat)> {
    results.map_values(|entry: (String, u64)| (entry.0@, entry.1 as nat))
}

/// A single poll: a fixed set of eligible voters, the voters who have voted,
/// and the votes counted for each candidate.
pub struct VotingContract {
    poll_creator: String,
    allowed_voters: Vec<String>,
    voted_voters: Vec<String>,
    candidates: Vec<(String, u64)>,
}

impl View for VotingContract {
    type V = PollState;

    closed spec fn view(&self) -> PollState {
        PollState {
            creator: self.poll_creator@,
            voters: self.allowed_voters.deep_view(),
            voted: self.voted_voters.deep_view(),
            tally: results_view(self.candidates@),
        }
    }
}

/// Whether `name` stands among the first `end` of `names`.
fn holds(names: &Vec<String>, end: usize, name: &String) -> (found: bool)
    requires
        end <= names.len(),
    ensures
        found == names.deep_view().take(end as int).contains(name@),
{
    let ghost front = names.deep_view().take(end as int);
    let mut i: usize = 0;
    while i < end
        invariant
            i <= end <= names.len(),
            front == names.deep_view().take(end as int),
            forall|k: int| 0 <= k < i ==> front[k] != name@,
        decreases end - i,
    {
        if names[i] == *name {
            assert(front[i as int] == name@);
            return true;
        }
        i += 1;
    }
    false
}

/// A copy of `names`.
fn copy_of(names: &Vec<String>) -> (copy: Vec<String>)
    ensures
        copy.deep_view() == names.deep_view(),
{
    let mut copy: Vec<String> = Vec::new();
    let mut i: usize = 0;
    while i < names.len()
        invariant
            i <= names.len(),
            copy.deep_view() == names.deep_view().take(i as int),
        decreases names.len() - i,
    {
        let ghost before = copy.deep_view();
        copy.push(names[i].clone());
        assert(copy.deep_view() =~= before.push(names[i as int]@));
        assert(names.deep_view().take(i as int + 1) =~= names.deep_view().take(i as int).push(
            names[i as int]@,
        ));
        i += 1;
    }
    assert(names.deep_view().take(i as int) =~= names.deep_view());
    copy
}

/// The items of `items` in the order of their first occurrence, each once.
fn distinct(items: &Vec<String>) -> (kept: Vec<String>)
    ensures
        kept.deep_view() == first_occurrences(items.deep_view()),
{
    let mut kept: Vec<String> = Vec::new();
    let mut i: usize = 0;
    assert(items.deep_view().take(0) =~= Seq::<Seq<char>>::empty());
    assert(kept.deep_view() =~= Seq::<Seq<char>>::empty());
    while i < items.len()
        invariant
            i <= items.len(),
            kept.deep_view() == first_occurrences(items.deep_view().take(i as int)),
        decreases items.len() - i,
    {
        let ghost before = kept.deep_view();
        let ghost seen = items.deep_view().take(i as int);
        let ghost next = items.deep_view().take(i as int + 1);
        assert(next.drop_last() =~= seen);
        assert(next.last() == items[i as int]@);
        assert(before.take(kept.len() as int) =~= before);
        if !holds(&kept, kept.len(), &items[i]) {
            kept.push(items[i].clone());
            assert(kept.deep_view() =~= before.push(items[i as int]@));
        }
        i += 1;
    }
    assert(items.deep_view().take(i as int) =~= items.deep_view());
    kept
}

/// Whether nothing stands twice in `names`.
fn all_distinct(names: &Vec<String>) -> (distinct: bool)
    ensures
        distinct == names.deep_view().no_duplicates(),
{
    let ghost list = names.deep_view();
    let mut i: usize = 0;
    while i < names.len()
        invariant
            i <= names.len(),
            list == names.deep_view(),
            forall|a: int, b: int| 0 <= a < b < i ==> list[a] != list[b],
        decreases names.len() - i,
    {
        if holds(names, i, &names[i]) {
            let ghost earlier = choose|k: int|
                0 <= k < i && list.take(i as int)[k] == list[i as int];
            assert(list[earlier] == list[i as int]);
            return false;
        }
        assert forall|a: int| 0 <= a < i implies list[a] != list[i as int] by {
            assert(list.take(i as int)[a] == list[a]);
        }
        i += 1;
    }
    true
}

/// Whether each of `names` stands in `among`.
fn all_held(names: &Vec<String>, among: &Vec<String>) -> (held: bool)
    ensures
        held == names.deep_view().to_set().subset_of(among.deep_view().to_set()),
{
    let mut i: usize = 0;
    assert(among.deep_view().take(among.len() as int) =~= among.deep_view());
    while i < names.len()
        invariant
            i <= names.len(),
            among.deep_view().take(among.len() as int) == among.deep_view(),
            forall|k: int| 0 <= k < i ==> among.deep_view().contains(names.deep_view()[k]),
        decreases names.len() - i,
    {
        if !holds(among, among.len(), &names[i]) {
            assert(names.deep_view().to_set().contains(names.deep_view()[i as int]));
            assert(!among.deep_view().to_set().contains(names.deep_view()[i as int]));
            return false;
        }
        i += 1;
    }
    true
}

/// The place of `name` among the first `end` entries of the tally, if it
/// stands there.
fn position(candidates: &Vec<(String, u64)>, end: usize, name: &String) -> (at: Option<usize>)
    requires
        end <= candidates.len(),
    ensures
        match at {
            Some(i) => i < end && candidates[i as int].0@ == name@,
            None => forall|k: int| 0 <= k < end ==> candidates[k].0@ != name@,
        },
{
    let mut i: usize = 0;
    while i < end
        invariant
            i <= end <= candidates.len(),
            forall|k: int| 0 <= k < i ==> candidates[k].0@ != name@,
        decreases end - i,
    {
        if candidates[i].0 == *name {
            return Some(i);
        }
        i += 1;
    }
    None
}

/// Whether no candidate stands twice on the tally.
fn names_distinct(candidates: &Vec<(String, u64)>) -> (distinct: bool)
    ensures
        distinct == tally_names(results_view(candidates@)).no_duplicates(),
{
    let ghost names = tally_names(results_view(candidates@));
    let mut i: usize = 0;
    while i < candidates.len()
        invariant
            i <= candidates.len(),
            names == tally_names(results_view(candidates@)),
            forall|a: int, b: int| 0 <= a < b < i ==> names[a] != names[b],
        decreases candidates.len() - i,
    {
        match position(candidates, i, &candidates[i].0) {
            Some(earlier) => {
                assert(names[earlier as int] == names[i as int]);
                return false;
            },
            None => {
                assert forall|a: int| 0 <= a < i implies names[a] != names[i as int] by {
                    assert(names[a] == candidates[a].0@);
                }
            },
        }
        i += 1;
    }
    true
}

/// Whether the tally counts `expected` votes in all.
fn total_is(candidates: &Vec<(String, u64)>, expected: usize) -> (equal: bool)
    ensures
        equal == (tally_total(results_view(candidates@)) == expected),
{
    let ghost tally = results_view(candidates@);
    let mut counted: usize = 0;
    let mut i: usize = 0;
    assert(tally.take(0) =~= Seq::<(Seq<char>, nat)>::empty());
    while i < candidates.len()
        invariant
            i <= candidates.len(),
            tally == results_view(candidates@),
            counted == tally_total(tally.take(i as int)),
            counted <= expected,
        decreases candidates.len() - i,
    {
        let count = candidates[i].1;
        proof {
            assert(tally.take(i as int + 1).drop_last() =~= tally.take(i as int));
            assert(tally.take(i as int + 1).last().1 == count);
            lemma_total_of_prefix(tally, i as int + 1);
        }
        if count > (expected - counted) as u64 {
            return false;
        }
        counted = counted + count as usize;
        i += 1;
    }
    assert(tally.take(i as int) =~= tally);
    counted == expected
}

impl VotingContract {
    /// The poll is well formed when the state it stands for is valid.
    pub open spec fn wf(&self) -> bool {
        self@.valid()
    }

    /// Creates the poll of `poll_creator`. Whoever is listed in
    /// `allowed_voters` may vote, however often listed; each name in
    /// `candidates` stands on the tally once, where it was first listed, with
    /// no vote.
    pub fn new(
        poll_creator: String,
        allowed_voters: Vec<String>,
        candidates: Vec<String>,
    ) -> (poll: Self)
        ensures
            poll.wf(),
            poll@ == PollState::initial(
                poll_creator@,
                allowed_voters.deep_view(),
                candidates.deep_view(),
            ),
    {
        let allowed = distinct(&allowed_voters);
        let names = distinct(&candidates);
        let mut tally: Vec<(String, u64)> = Vec::new();
        let mut i: usize = 0;
        assert(results_view(tally@) =~= empty_tally(names.deep_view().take(0)));
        while i < names.len()
            invariant
                i <= names.len(),
                results_view(tally@) == empty_tally(names.deep_view().take(i as int)),
            decreases names.len() - i,
        {
            let ghost before = results_view(tally@);
            tally.push((names[i].clone(), 0u64));
            assert(results_view(tally@) =~= before.push((names[i as int]@, 0nat)));
            assert(empty_tally(names.deep_view().take(i as int + 1)) =~= empty_tally(
                names.deep_view().take(i as int),
            ).push((names[i as int]@, 0nat)));
            i += 1;
        }
        let poll = VotingContract {
            poll_creator,
            allowed_voters: allowed,
            voted_voters: Vec::new(),
            candidates: tally,
        };
        proof {
            assert(names.deep_view().take(i as int) =~= names.deep_view());
            lemma_first_occurrences(allowed_voters.deep_view());
            lemma_first_occurrences(candidates.deep_view());
            lemma_empty_tally(names.deep_view());
            assert(poll.voted_voters.deep_view() =~= Seq::<Seq<char>>::empty());
        }
        poll
    }

    /// Creates the poll in `storage` unless a poll stands there already: a
    /// second creation is refused and leaves the first poll as it is.
    pub fn initialize(
        storage: &mut Option<VotingContract>,
        poll_creator: String,
        allowed_voters: Vec<String>,
        candidates: Vec<String>,
    ) -> (outcome: Result<(), PollError>)
        ensures
            *old(storage) is Some ==> outcome == Err::<(), PollError>(
                PollError::AlreadyInitialized,
            ),
            *old(storage) is Some ==> *final(storage) == *old(storage),
            *old(storage) is None ==> outcome == Ok::<(), PollError>(()),
            *old(storage) is None ==> (*final(storage) matches Some(poll) && poll.wf() && poll@
                == PollState::initial(
                poll_creator@,
                allowed_voters.deep_view(),
                candidates.deep_view(),
            )),
    {
        if storage.is_some() {
            return Err(PollError::AlreadyInitialized);
        }
        *storage = Some(VotingContract::new(poll_creator, allowed_voters, candidates));
        Ok(())
    }

    /// Casts the vote of `voter` for `candidate`. The ballot is refused if
    /// the voter is not eligible, else if the voter has voted before, else if
    /// the candidate is not on the tally; a refused ballot changes nothing.
    /// An admitted ballot adds one vote to the candidate and marks the voter
    /// as having voted.
    pub fn vote(&mut self, voter: String, candidate: String) -> (outcome: Result<(), PollError>)
        requires
            old(self).wf(),
        ensures
            final(self).wf(),
            outcome == old(self)@.verdict(voter@, candidate@),
            final(self)@ == old(self)@.cast(voter@, candidate@),
    {
        proof {
            assert(self@.voters.take(self.allowed_voters.len() as int) =~= self@.voters);
            assert(self@.voted.take(self.voted_voters.len() as int) =~= self@.voted);
        }
        if !holds(&self.allowed_voters, self.allowed_voters.len(), &voter) {
            return Err(PollError::NotEligible);
        }
        if holds(&self.voted_voters, self.voted_voters.len(), &voter) {
            return Err(PollError::AlreadyVoted);
        }
        match position(&self.candidates, self.candidates.len(), &candidate) {
            None => {
                proof {
                    let names = self@.names();
                    assert forall|k: int| 0 <= k < names.len() implies names[k] != candidate@ by {
                        assert(names[k] == self.candidates[k].0@);
                    }
                }
                Err(PollError::UnknownCandidate)
            },
            Some(at) => {
                let ghost before = *self;
                proof {
                    assert(before@.names()[at as int] == candidate@);
                    lemma_record_valid(before@, voter@, candidate@);
                    lemma_valid_counts(before@);
                    lemma_entry_within_total(before@.tally, at as int);
                }
                let name = self.candidates[at].0.clone();
                let count = self.candidates[at].1;
                assert(count < usize::MAX) by {
                    assert(before@.tally[at as int].1 == count);
                }
                self.candidates[at] = (name, count + 1);
                self.voted_voters.push(voter);
                proof {
                    let names = before@.names();
                    assert forall|k: int| 0 <= k < before.candidates.len() implies results_view(
                        self.candidates@,
                    )[k] == tally_with_vote(before@.tally, candidate@)[k] by {
                        if k != at {
                            assert(names[k] != names[at as int]);
                        }
                    }
                    assert(self@.tally =~= tally_with_vote(before@.tally, candidate@));
                    assert(self@.voted =~= before@.voted.push(voter@));
                    assert(self@ == before@.record(voter@, candidate@));
                }
                Ok(())
            },
        }
    }

    /// The votes counted for each candidate, in the order in which the
    /// candidates were first listed at creation.
    pub fn get_results(&self) -> (results: Vec<(String, u64)>)
        ensures
            results_view(results@) == self@.tally,
    {
        let mut results: Vec<(String, u64)> = Vec::new();
        let mut i: usize = 0;
        while i < self.candidates.len()
            invariant
                i <= self.candidates.len(),
                results_view(results@) == results_view(self.candidates@).take(i as int),
            decreases self.candidates.len() - i,
        {
            let ghost before = results_view(results@);
            results.push((self.candidates[i].0.clone(), self.candidates[i].1));
            assert(results_view(results@) =~= before.push(results_view(self.candidates@)[i as int]));
            assert(results_view(self.candidates@).take(i as int + 1) =~= results_view(
                self.candidates@,
            ).take(i as int).push(results_view(self.candidates@)[i as int]));
            i += 1;
        }
        assert(results_view(self.candidates@).take(i as int) =~= results_view(self.candidates@));
        results
    }

    /// The identity of whoever created the poll.
    pub fn poll_creator(&self) -> (creator: String)
        ensures
            creator@ == self@.creator,
    {
        self.poll_creator.clone()
    }

    /// The eligible voters, in the order in which they were first listed.
    pub fn allowed_voters(&self) -> (voters: Vec<String>)
        ensures
            voters.deep_view() == self@.voters,
    {
        copy_of(&self.allowed_voters)
    }

    /// The voters who have voted, in the order of their votes.
    pub fn voted_voters(&self) -> (voters: Vec<String>)
        ensures
            voters.deep_view() == self@.voted,
    {
        copy_of(&self.voted_voters)
    }

    /// Restores a poll from a snapshot of its parts. The snapshot is taken
    /// if it is a valid poll, and refused otherwise.
    pub fn from_parts(
        poll_creator: String,
        allowed_voters: Vec<String>,
        voted_voters: Vec<String>,
        candidates: Vec<(String, u64)>,
    ) -> (restored: Option<Self>)
        ensures
            restored is Some <==> (PollState {
                creator: poll_creator@,
                voters: allowed_voters.deep_view(),
                voted: voted_voters.deep_view(),
                tally: results_view(candidates@),
            }).valid(),
            restored matches Some(poll) ==> poll.wf() && poll@ == (PollState {
                creator: poll_creator@,
                voters: allowed_voters.deep_view(),
                voted: voted_voters.deep_view(),
                tally: results_view(candidates@),
            }),
    {
        if !all_distinct(&allowed_voters) {
            return None;
        }
        if !all_distinct(&voted_voters) {
            return None;
        }
        if !all_held(&voted_voters, &allowed_voters) {
            return None;
        }
        if !names_distinct(&candidates) {
            return None;
        }
        if !total_is(&candidates, voted_voters.len()) {
            return None;
        }
        Some(VotingContract { poll_creator, allowed_voters, voted_voters, candidates })
    }
}

} // verus!
