//! The ways in which a poll operation is refused.

use vstd::prelude::*;

verus! {

/// Why an operation on a poll was refused. A refused operation changes nothing.
#[derive(Clone, Copy, Debug, PartialEq, Eq, Structural)]
pub enum PollError {
    /// The storage location already holds a poll.
    AlreadyInitialized,
    /// The voter is not in the eligibility set.
    NotEligible,
    /// The voter has cast a vote before.
    AlreadyVoted,
    /// The candidate is not on the tally.
    UnknownCandidate,
}

impl PollError {
    /// The text shown to a caller for this kind of refusal.
    pub open spec fn text(self) -> Seq<char> {
        match self {
            PollError::AlreadyInitialized => "The contract has already been initialized"@,
            PollError::NotEligible => "You are not allowed to vote"@,
            PollError::AlreadyVoted => "You have already voted"@,
            PollError::UnknownCandidate => "Candidate does not exist"@,
        }
    }

    /// Renders the refusal as a message for the caller.
    pub fn message(&self) -> (rendered: String)
        ensures
            rendered@ == self.text(),
    {
        match self {
            PollError::AlreadyInitialized => "The contract has already been initialized".to_owned(),
            PollError::NotEligible => "You are not allowed to vote".to_owned(),
            PollError::AlreadyVoted => "You have already voted".to_owned(),
            PollError::UnknownCandidate => "Candidate does not exist".to_owned(),
        }
    }
}

/// Distinct kinds of refusal render as distinct messages.
pub proof fn lemma_messages_distinguish(a: PollError, b: PollError)
    requires
        a != b,
    ensures
        a.text() != b.text(),
{
    reveal_strlit("The contract has already been initialized");
    reveal_strlit("You are not allowed to vote");
    reveal_strlit("You have already voted");
    reveal_strlit("Candidate does not exist");
    assert(PollError::AlreadyInitialized.text().len() == 41);
    assert(PollError::NotEligible.text().len() == 27);
    assert(PollError::AlreadyVoted.text().len() == 22);
    assert(PollError::UnknownCandidate.text().len() == 24);
}

} // verus!
