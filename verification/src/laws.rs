//! What holds of every poll, proved over the model of its operations.

use crate::error::PollError;
use crate::model::{
    first_occurrences, lemma_empty_tally, lemma_first_occurrences,
    lemma_first_occurrences_of_distinct, lemma_record_valid, lemma_valid_counts,
    lemma_vote_keeps_names, lemma_vote_total, PollState,
};
use crate::poll::results_view;
use vstd::prelude::*;

verus! {

/// The eligibility gate: a ballot of a voter who is not eligible is refused
/// as such, whatever the candidate, and changes nothing.
pub proof fn lemma_ineligible_refused(poll: PollState, voter: Seq<char>, candidate: Seq<char>)
    requires
        !poll.eligible().contains(voter),
    ensures
        poll.verdict(voter, candidate) == Err::<(), PollError>(PollError::NotEligible),
        poll.cast(voter, candidate) == poll,
{
}

/// The candidate gate: a ballot of an eligible voter who has not voted, for
/// a name that is not on the tally, is refused as such and changes nothing.
pub proof fn lemma_unknown_candidate_refused(
    poll: PollState,
    voter: Seq<char>,
    candidate: Seq<char>,
)
    requires
        poll.eligible().contains(voter),
        !poll.has_voted().contains(voter),
        !poll.has_candidate(candidate),
    ensures
        poll.verdict(voter, candidate) == Err::<(), PollError>(PollError::UnknownCandidate),
        poll.cast(voter, candidate) == poll,
{
}

/// The effect of an admitted ballot on a valid poll: the voter joins those
/// who have voted, the candidate gains one vote, and no other count changes.
pub proof fn lemma_vote_counts_once(poll: PollState, voter: Seq<char>, candidate: Seq<char>)
    requires
        poll.valid(),
        poll.verdict(voter, candidate) == Ok::<(), PollError>(()),
    ensures
        poll.cast(voter, candidate).has_voted() == poll.has_voted().insert(voter),
        poll.cast(voter, candidate).total() == poll.total() + 1,
        poll.cast(voter, candidate).tally.len() == poll.tally.len(),
        forall|k: int|
            0 <= k < poll.tally.len() ==> #[trigger] poll.cast(voter, candidate).tally[k] == if
                poll.tally[k].0 == candidate {
                (candidate, poll.tally[k].1 + 1)
            } else {
                poll.tally[k]
            },
{
    poll.voted.lemma_push_to_set_commute(voter);
    lemma_vote_total(poll.tally, candidate);
}

/// A run of ballots changes neither the creator, nor who is eligible, nor
/// the candidates and their order; whoever has voted stays so, and no count
/// falls.
pub proof fn lemma_fixed_parts(poll: PollState, ballots: Seq<(Seq<char>, Seq<char>)>)
    ensures
        poll.cast_all(ballots).creator == poll.creator,
        poll.cast_all(ballots).voters == poll.voters,
        poll.cast_all(ballots).eligible() == poll.eligible(),
        poll.cast_all(ballots).names() == poll.names(),
        poll.has_voted().subset_of(poll.cast_all(ballots).has_voted()),
        poll.cast_all(ballots).tally.len() == poll.tally.len(),
        forall|k: int|
            0 <= k < poll.tally.len() ==> poll.tally[k].1 <= #[trigger] poll.cast_all(
                ballots,
            ).tally[k].1,
    decreases ballots.len(),
{
    if ballots.len() > 0 {
        let earlier = poll.cast_all(ballots.drop_last());
        lemma_fixed_parts(poll, ballots.drop_last());
        lemma_vote_keeps_names(earlier.tally, ballots.last().1);
        earlier.voted.lemma_push_to_set_commute(ballots.last().0);
    }
}

/// Conservation: after any run of ballots on a valid poll, the poll is
/// valid; the tally counts one vote for each voter who has voted, only
/// eligible voters have voted, and the candidates are those it had before,
/// in the same order.
pub proof fn lemma_conservation(poll: PollState, ballots: Seq<(Seq<char>, Seq<char>)>)
    requires
        poll.valid(),
    ensures
        poll.cast_all(ballots).valid(),
        poll.cast_all(ballots).total() == poll.cast_all(ballots).has_voted().len(),
        poll.cast_all(ballots).has_voted().subset_of(poll.cast_all(ballots).eligible()),
        poll.cast_all(ballots).names() == poll.names(),
    decreases ballots.len(),
{
    lemma_fixed_parts(poll, ballots);
    if ballots.len() > 0 {
        let earlier = poll.cast_all(ballots.drop_last());
        lemma_conservation(poll, ballots.drop_last());
        if earlier.verdict(ballots.last().0, ballots.last().1) is Ok {
            lemma_record_valid(earlier, ballots.last().0, ballots.last().1);
        }
    }
    lemma_valid_counts(poll.cast_all(ballots));
}

/// A poll is valid when it is created: whoever was listed is eligible,
/// nobody has voted, no vote is counted, and the candidates are the listed
/// names, each once, in the order of their first listing.
pub proof fn lemma_initial_valid(
    creator: Seq<char>,
    voters: Seq<Seq<char>>,
    candidates: Seq<Seq<char>>,
)
    ensures
        PollState::initial(creator, voters, candidates).valid(),
        PollState::initial(creator, voters, candidates).eligible() == voters.to_set(),
        PollState::initial(creator, voters, candidates).has_voted() == Set::<Seq<char>>::empty(),
        PollState::initial(creator, voters, candidates).total() == 0,
        PollState::initial(creator, voters, candidates).names() == first_occurrences(candidates),
        PollState::initial(creator, voters, candidates).names().to_set() == candidates.to_set(),
{
    let poll = PollState::initial(creator, voters, candidates);
    lemma_first_occurrences(voters);
    lemma_first_occurrences(candidates);
    lemma_empty_tally(first_occurrences(candidates));
    assert(poll.has_voted() =~= Set::<Seq<char>>::empty());
}

/// Lists in which nothing stands twice are kept as they are: the voters
/// and the candidates of the new poll stand in the order of their listing.
pub proof fn lemma_distinct_lists_kept(
    creator: Seq<char>,
    voters: Seq<Seq<char>>,
    candidates: Seq<Seq<char>>,
)
    requires
        voters.no_duplicates(),
        candidates.no_duplicates(),
    ensures
        PollState::initial(creator, voters, candidates).voters == voters,
        PollState::initial(creator, voters, candidates).names() == candidates,
{
    lemma_first_occurrences_of_distinct(voters);
    lemma_first_occurrences_of_distinct(candidates);
    lemma_empty_tally(candidates);
}

/// From creation on, after any run of ballots: the eligible voters are
/// those listed at creation, only they have voted, the tally counts one vote
/// for each voter who has voted, and the candidates are those listed at
/// creation, each once, in the order of their first listing.
pub proof fn lemma_invariants_from_creation(
    creator: Seq<char>,
    voters: Seq<Seq<char>>,
    candidates: Seq<Seq<char>>,
    ballots: Seq<(Seq<char>, Seq<char>)>,
)
    ensures
        PollState::initial(creator, voters, candidates).cast_all(ballots).valid(),
        PollState::initial(creator, voters, candidates).cast_all(ballots).creator == creator,
        PollState::initial(creator, voters, candidates).cast_all(ballots).eligible()
            == voters.to_set(),
        PollState::initial(creator, voters, candidates).cast_all(ballots).has_voted().subset_of(
            voters.to_set(),
        ),
        PollState::initial(creator, voters, candidates).cast_all(ballots).total()
            == PollState::initial(creator, voters, candidates).cast_all(ballots).has_voted().len(),
        PollState::initial(creator, voters, candidates).cast_all(ballots).names()
            == first_occurrences(candidates),
{
    let created = PollState::initial(creator, voters, candidates);
    lemma_initial_valid(creator, voters, candidates);
    lemma_fixed_parts(created, ballots);
    lemma_conservation(created, ballots);
}

/// The single-vote gate: the first ballot of an eligible voter for a
/// candidate on the tally is admitted; from then on, whatever ballots are
/// cast in between, each further ballot of that voter is refused as a
/// second vote, for the same candidate as for any other.
pub proof fn lemma_one_vote_each(
    poll: PollState,
    voter: Seq<char>,
    first: Seq<char>,
    between: Seq<(Seq<char>, Seq<char>)>,
    again: Seq<char>,
)
    requires
        poll.eligible().contains(voter),
        !poll.has_voted().contains(voter),
        poll.has_candidate(first),
    ensures
        poll.verdict(voter, first) == Ok::<(), PollError>(()),
        poll.cast(voter, first).cast_all(between).verdict(voter, again) == Err::<(), PollError>(
            PollError::AlreadyVoted,
        ),
{
    let once = poll.cast(voter, first);
    lemma_fixed_parts(once, between);
    poll.voted.lemma_push_to_set_commute(voter);
    assert(once.has_voted().contains(voter));
}

/// Reads are determined by the state: two lists of results that were read
/// from one poll hold the same names with the same counts in the same order.
pub proof fn lemma_reads_agree(
    poll: PollState,
    first: Vec<(String, u64)>,
    second: Vec<(String, u64)>,
)
    requires
        results_view(first@) == poll.tally,
        results_view(second@) == poll.tally,
    ensures
        first.deep_view() == second.deep_view(),
{
    assert(first@.len() == results_view(first@).len());
    assert(second@.len() == results_view(second@).len());
    assert forall|k: int| 0 <= k < first@.len() implies first.deep_view()[k]
        == second.deep_view()[k] by {
        assert(results_view(first@)[k] == results_view(second@)[k]);
    }
    assert(first.deep_view() =~= second.deep_view());
}

} // verus!
