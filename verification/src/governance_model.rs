//! The governance ledger as a mathematical value: proposals, the votes cast
//! on them, the registry of dependent apps, and what each operation of the
//! ledger makes of such a value. Counters are natural numbers without bound
//! here; the executable ledger states where its machine integers suffice.

use crate::governance::{GovernanceError, ProposalType, Vote};
use vstd::prelude::*;

verus! {

/// One vote as a value.
#[verifier::ext_equal]
pub struct VoteView {
    pub address: Seq<char>,
    pub proposal_id: nat,
    pub vote: Vote,
    pub voter_reputation: nat,
    pub voting_power: nat,
    pub timestamp: nat,
}

/// How many of the votes are for the given choice.
pub open spec fn count_votes(votes: Seq<VoteView>, choice: Vote) -> nat
    decreases votes.len(),
{
    if votes.len() == 0 {
        0
    } else {
        count_votes(votes.drop_last(), choice) + if votes.last().vote == choice {
            1nat
        } else {
            0nat
        }
    }
}

/// The voting power behind the given choice: the sum of the voting powers of
/// the votes for it.
pub open spec fn voting_power_for(votes: Seq<VoteView>, choice: Vote) -> nat
    decreases votes.len(),
{
    if votes.len() == 0 {
        0
    } else {
        voting_power_for(votes.drop_last(), choice) + if votes.last().vote == choice {
            votes.last().voting_power
        } else {
            0nat
        }
    }
}

/// The sum of the voting powers of all the votes.
pub open spec fn total_voting_power(votes: Seq<VoteView>) -> nat
    decreases votes.len(),
{
    if votes.len() == 0 {
        0
    } else {
        total_voting_power(votes.drop_last()) + votes.last().voting_power
    }
}

/// Each of the six counters of a tally of the votes fits 32 bits.
pub open spec fn tally_fits(votes: Seq<VoteView>) -> bool {
    &&& count_votes(votes, Vote::Yes) <= u32::MAX
    &&& count_votes(votes, Vote::No) <= u32::MAX
    &&& count_votes(votes, Vote::Abstain) <= u32::MAX
    &&& voting_power_for(votes, Vote::Yes) <= u32::MAX
    &&& voting_power_for(votes, Vote::No) <= u32::MAX
    &&& voting_power_for(votes, Vote::Abstain) <= u32::MAX
}

/// Where a proposal stands in its life. A proposal is open while votes are
/// taken, closed when the last round of voting is over, and executed once a
/// request to execute it has found that it has passed. A closed proposal
/// that has not passed stays closed.
pub enum ProposalPhase {
    Open,
    VotingClosed,
    Executed,
}

impl ProposalPhase {
    /// The place of the phase in the order in which a proposal goes through
    /// its phases.
    pub open spec fn rank(self) -> nat {
        match self {
            ProposalPhase::Open => 0,
            ProposalPhase::VotingClosed => 1,
            ProposalPhase::Executed => 2,
        }
    }
}

/// One proposal as a value.
#[verifier::ext_equal]
pub struct ProposalView {
    pub id: nat,
    pub proposal_type: ProposalType,
    pub description: Seq<char>,
    pub voting_round: nat,
    pub total_voting_rounds: nat,
    pub yes_votes: nat,
    pub no_votes: nat,
    pub abstain_votes: nat,
    pub yes_voting_power: nat,
    pub no_voting_power: nat,
    pub abstain_voting_power: nat,
    pub executed: bool,
}

impl ProposalView {
    /// The number of voting rounds that a new proposal is open for.
    pub open spec fn default_voting_rounds() -> nat {
        3
    }

    /// A proposal as it is created: no round of voting gone by, no vote
    /// counted, not executed.
    pub open spec fn fresh(id: nat, proposal_type: ProposalType, description: Seq<char>)
        -> ProposalView {
        ProposalView {
            id,
            proposal_type,
            description,
            voting_round: 0,
            total_voting_rounds: Self::default_voting_rounds(),
            yes_votes: 0,
            no_votes: 0,
            abstain_votes: 0,
            yes_voting_power: 0,
            no_voting_power: 0,
            abstain_voting_power: 0,
            executed: false,
        }
    }

    /// Votes are still taken: the proposal is not executed and a round of
    /// voting is left.
    pub open spec fn is_voting_open(self) -> bool {
        !self.executed && self.voting_round < self.total_voting_rounds
    }

    /// The phase that the proposal is in.
    pub open spec fn phase(self) -> ProposalPhase {
        if self.executed {
            ProposalPhase::Executed
        } else if self.voting_round < self.total_voting_rounds {
            ProposalPhase::Open
        } else {
            ProposalPhase::VotingClosed
        }
    }

    /// The voting power of all the votes counted, whatever their choice.
    pub open spec fn total_power(self) -> nat {
        self.yes_voting_power + self.no_voting_power + self.abstain_voting_power
    }

    /// The proposal has passed: some voting power was cast, and the power
    /// in favour exceeds half of all of it, the half rounded down.
    pub open spec fn has_passed(self) -> bool {
        self.total_power() != 0 && self.yes_voting_power > self.total_power() / 2
    }

    /// The proposal one round of voting later; the last round stays the
    /// last.
    pub open spec fn advance(self) -> ProposalView {
        if self.voting_round < self.total_voting_rounds {
            ProposalView { voting_round: self.voting_round + 1, ..self }
        } else {
            self
        }
    }

    /// The proposal with its six counters set to the tally of the votes.
    pub open spec fn tallied(self, votes: Seq<VoteView>) -> ProposalView {
        ProposalView {
            yes_votes: count_votes(votes, Vote::Yes),
            no_votes: count_votes(votes, Vote::No),
            abstain_votes: count_votes(votes, Vote::Abstain),
            yes_voting_power: voting_power_for(votes, Vote::Yes),
            no_voting_power: voting_power_for(votes, Vote::No),
            abstain_voting_power: voting_power_for(votes, Vote::Abstain),
            ..self
        }
    }

    /// The six counters are the tally of the votes.
    pub open spec fn counts(self, votes: Seq<VoteView>) -> bool {
        self == self.tallied(votes)
    }

    /// The proposal marked as executed.
    pub open spec fn executed_now(self) -> ProposalView {
        ProposalView { executed: true, ..self }
    }

    /// `later` can be a later state of this proposal: what was fixed at its
    /// creation is the same, the round of voting has not gone back, and if
    /// this one is executed, so is the later one.
    pub open spec fn matures_to(self, later: ProposalView) -> bool {
        &&& later.id == self.id
        &&& later.proposal_type == self.proposal_type
        &&& later.description == self.description
        &&& later.total_voting_rounds == self.total_voting_rounds
        &&& later.voting_round >= self.voting_round
        &&& self.executed ==> later.executed
    }
}

/// The votes cast on one proposal as a value.
#[verifier::ext_equal]
pub struct VotingRoundView {
    pub proposal_id: nat,
    pub votes: Seq<VoteView>,
    pub voted_addresses: Seq<Seq<char>>,
}

impl VotingRoundView {
    /// The record of a proposal on which nobody has voted.
    pub open spec fn fresh(proposal_id: nat) -> VotingRoundView {
        VotingRoundView { proposal_id, votes: Seq::empty(), voted_addresses: Seq::empty() }
    }

    /// The address is among those that have voted.
    pub open spec fn has_voted(self, address: Seq<char>) -> bool {
        self.voted_addresses.contains(address)
    }

    /// The vote that the record takes down for the given particulars.
    pub open spec fn ballot(
        self,
        address: Seq<char>,
        vote: Vote,
        voter_reputation: nat,
        voting_power: nat,
        timestamp: nat,
    ) -> VoteView {
        VoteView {
            address,
            proposal_id: self.proposal_id,
            vote,
            voter_reputation,
            voting_power,
            timestamp,
        }
    }

    /// The record with one more vote, and its address among those that have
    /// voted.
    pub open spec fn cast(self, ballot: VoteView) -> VotingRoundView {
        VotingRoundView {
            votes: self.votes.push(ballot),
            voted_addresses: self.voted_addresses.push(ballot.address),
            ..self
        }
    }

    /// The record is well-formed: the addresses that have voted are those of
    /// the votes, one by one, no address occurs twice, and every vote is on
    /// this proposal.
    pub open spec fn wf(self) -> bool {
        &&& self.voted_addresses.len() == self.votes.len()
        &&& forall|k: int|
            0 <= k < self.votes.len() ==> (#[trigger] self.votes[k]).address
                == self.voted_addresses[k]
        &&& forall|k: int|
            0 <= k < self.votes.len() ==> (#[trigger] self.votes[k]).proposal_id
                == self.proposal_id
        &&& self.voted_addresses.no_duplicates()
    }

    /// `later` can be a later state of this record: it is on the same
    /// proposal and begins with the votes and addresses of this one.
    pub open spec fn grows_to(self, later: VotingRoundView) -> bool {
        &&& later.proposal_id == self.proposal_id
        &&& self.votes.is_prefix_of(later.votes)
        &&& self.voted_addresses.is_prefix_of(later.voted_addresses)
    }
}

/// One entry of the registry of dependent apps as a value.
#[verifier::ext_equal]
pub struct DependentAppView {
    pub app_id: Seq<char>,
    pub app_name: Seq<char>,
    pub min_reputation_tier: nat,
    pub registered_at: nat,
}

/// The whole ledger as a value.
#[verifier::ext_equal]
pub struct GovernanceView {
    pub next_proposal_id: nat,
    pub proposals: Seq<ProposalView>,
    pub voting_rounds: Seq<VotingRoundView>,
    pub dependent_apps: Seq<DependentAppView>,
}

impl GovernanceView {
    /// The ledger before anything was proposed or registered. The first
    /// proposal will have the id 1.
    pub open spec fn empty() -> GovernanceView {
        GovernanceView {
            next_proposal_id: 1,
            proposals: Seq::empty(),
            voting_rounds: Seq::empty(),
            dependent_apps: Seq::empty(),
        }
    }

    /// The ids of the proposals, in the order of the proposals.
    pub open spec fn proposal_ids(self) -> Seq<nat> {
        self.proposals.map_values(|p: ProposalView| p.id)
    }

    /// The ids of the records of votes, in the order of the records.
    pub open spec fn voting_round_ids(self) -> Seq<nat> {
        self.voting_rounds.map_values(|r: VotingRoundView| r.proposal_id)
    }

    /// The ids of the registered apps, in the order of registration.
    pub open spec fn app_ids(self) -> Seq<Seq<char>> {
        self.dependent_apps.map_values(|a: DependentAppView| a.app_id)
    }

    /// Where the proposal with the id stands: the index of the first one
    /// that has it.
    pub open spec fn position(self, proposal_id: nat) -> Option<int> {
        self.proposal_ids().index_of_first(proposal_id)
    }

    /// Where the record of votes with the id stands: the index of the first
    /// one that has it.
    pub open spec fn voting_round_position(self, proposal_id: nat) -> Option<int> {
        self.voting_round_ids().index_of_first(proposal_id)
    }

    /// Where the app with the id stands in the registry.
    pub open spec fn app_position(self, app_id: Seq<char>) -> Option<int> {
        self.app_ids().index_of_first(app_id)
    }

    /// The ledger is well-formed: the proposals and the records of votes stand
    /// side by side with the same ids, the ids rise along the proposals and
    /// stay below the next one to be given out, every record is well-formed,
    /// the counters of every proposal are the tally of its votes, and no
    /// app is registered twice.
    pub open spec fn wf(self) -> bool {
        &&& self.voting_rounds.len() == self.proposals.len()
        &&& forall|i: int|
            0 <= i < self.proposals.len() ==> (#[trigger] self.proposals[i]).id
                < self.next_proposal_id
        &&& forall|i: int, j: int|
            0 <= i < j < self.proposals.len() ==> (#[trigger] self.proposals[i]).id < (
            #[trigger] self.proposals[j]).id
        &&& forall|i: int|
            0 <= i < self.proposals.len() ==> (#[trigger] self.voting_rounds[i]).proposal_id
                == self.proposals[i].id
        &&& forall|i: int|
            0 <= i < self.proposals.len() ==> (#[trigger] self.voting_rounds[i]).wf()
        &&& forall|i: int|
            0 <= i < self.proposals.len() ==> (#[trigger] self.proposals[i]).counts(
                self.voting_rounds[i].votes,
            )
        &&& self.app_ids().no_duplicates()
    }

    /// The ledger with one more proposal, which gets the next id, and with
    /// an empty record of votes beside it.
    pub open spec fn create(self, proposal_type: ProposalType, description: Seq<char>)
        -> GovernanceView {
        GovernanceView {
            next_proposal_id: self.next_proposal_id + 1,
            proposals: self.proposals.push(
                ProposalView::fresh(self.next_proposal_id, proposal_type, description),
            ),
            voting_rounds: self.voting_rounds.push(VotingRoundView::fresh(self.next_proposal_id)),
            ..self
        }
    }

    /// Whether a vote of the address on the proposal is taken, and if not,
    /// why not. The three reasons are tested in this order: no such
    /// proposal, voting closed, address has voted.
    pub open spec fn vote_check(self, proposal_id: nat, address: Seq<char>) -> Result<
        (),
        GovernanceError,
    > {
        match self.position(proposal_id) {
            None => Err(GovernanceError::ProposalNotFound),
            Some(i) => {
                if !self.proposals[i].is_voting_open() {
                    Err(GovernanceError::VotingClosed)
                } else if self.voting_rounds[i].has_voted(address) {
                    Err(GovernanceError::AlreadyVoted)
                } else {
                    Ok(())
                }
            },
        }
    }

    /// The ledger after a vote was taken: the vote stands in the record of
    /// its proposal, and the counters of the proposal are the tally of the
    /// record.
    pub open spec fn vote(self, ballot: VoteView) -> GovernanceView {
        let i = self.position(ballot.proposal_id).unwrap();
        let round = self.voting_rounds[i].cast(ballot);
        GovernanceView {
            proposals: self.proposals.update(i, self.proposals[i].tallied(round.votes)),
            voting_rounds: self.voting_rounds.update(i, round),
            ..self
        }
    }

    /// The counters of the proposal have room for one more vote of the
    /// given choice and power.
    pub open spec fn vote_fits(self, proposal_id: nat, vote: Vote, voting_power: nat) -> bool {
        match self.position(proposal_id) {
            None => true,
            Some(i) => {
                let proposal = self.proposals[i];
                match vote {
                    Vote::Yes => proposal.yes_votes < u32::MAX && proposal.yes_voting_power
                        + voting_power <= u32::MAX,
                    Vote::No => proposal.no_votes < u32::MAX && proposal.no_voting_power
                        + voting_power <= u32::MAX,
                    Vote::Abstain => proposal.abstain_votes < u32::MAX
                        && proposal.abstain_voting_power + voting_power <= u32::MAX,
                }
            },
        }
    }

    /// What a request to execute the proposal answers: whether the proposal
    /// has passed, or why the request is refused.
    pub open spec fn execute_check(self, proposal_id: nat) -> Result<bool, GovernanceError> {
        match self.position(proposal_id) {
            None => Err(GovernanceError::ProposalNotFound),
            Some(i) => {
                if self.proposals[i].executed {
                    Err(GovernanceError::AlreadyExecuted)
                } else {
                    Ok(self.proposals[i].has_passed())
                }
            },
        }
    }

    /// The ledger after a request to execute the proposal: the proposal is
    /// marked as executed if the request found that it has passed, and
    /// nothing is changed otherwise.
    pub open spec fn execute(self, proposal_id: nat) -> GovernanceView {
        if self.execute_check(proposal_id) == Ok::<bool, GovernanceError>(true) {
            let i = self.position(proposal_id).unwrap();
            GovernanceView {
                proposals: self.proposals.update(i, self.proposals[i].executed_now()),
                ..self
            }
        } else {
            self
        }
    }

    /// The ledger with the proposal at the index replaced.
    pub open spec fn with_proposal(self, i: int, proposal: ProposalView) -> GovernanceView {
        GovernanceView { proposals: self.proposals.update(i, proposal), ..self }
    }

    /// The ledger with the record of votes at the index replaced.
    pub open spec fn with_voting_round(self, i: int, round: VotingRoundView) -> GovernanceView {
        GovernanceView { voting_rounds: self.voting_rounds.update(i, round), ..self }
    }

    /// The ledger after the proposal went one round of voting further, if
    /// there is such a proposal.
    pub open spec fn advance(self, proposal_id: nat) -> GovernanceView {
        match self.position(proposal_id) {
            None => self,
            Some(i) => self.with_proposal(i, self.proposals[i].advance()),
        }
    }

    /// The proposals on which votes are still taken, in their order.
    pub open spec fn active_proposals(self) -> Seq<ProposalView> {
        self.proposals.filter(|p: ProposalView| p.is_voting_open())
    }

    /// The proposals that were executed, in their order.
    pub open spec fn executed_proposals(self) -> Seq<ProposalView> {
        self.proposals.filter(|p: ProposalView| p.executed)
    }

    /// Whether an app can be registered under the id: not if one is.
    pub open spec fn register_check(self, app_id: Seq<char>) -> Result<(), GovernanceError> {
        if self.app_ids().contains(app_id) {
            Err(GovernanceError::DuplicateApp)
        } else {
            Ok(())
        }
    }

    /// The ledger with one more app at the end of the registry.
    pub open spec fn register(self, app: DependentAppView) -> GovernanceView {
        GovernanceView { dependent_apps: self.dependent_apps.push(app), ..self }
    }

    /// Whether a user of the given tier may use the app: the tier must reach
    /// the minimum that the app was registered with.
    pub open spec fn eligibility(self, app_id: Seq<char>, user_tier: nat) -> Result<
        bool,
        GovernanceError,
    > {
        match self.app_position(app_id) {
            None => Err(GovernanceError::AppNotFound),
            Some(i) => Ok(user_tier >= self.dependent_apps[i].min_reputation_tier),
        }
    }
}

/// A request to the ledger that may change it.
pub enum LedgerAction {
    /// Add a proposal.
    Create { proposal_type: ProposalType, description: Seq<char> },
    /// Cast the vote, on the proposal and for the address that it names.
    CastVote { ballot: VoteView },
    /// Execute the proposal with the id.
    Execute { proposal_id: nat },
    /// Move the proposal with the id on to its next round of voting.
    Advance { proposal_id: nat },
    /// Register the app.
    Register { app: DependentAppView },
}

impl GovernanceView {
    /// The ledger after a request. A request that is refused changes
    /// nothing.
    pub open spec fn apply(self, action: LedgerAction) -> GovernanceView {
        match action {
            LedgerAction::Create { proposal_type, description } => self.create(
                proposal_type,
                description,
            ),
            LedgerAction::CastVote { ballot } => {
                if self.vote_check(ballot.proposal_id, ballot.address) is Ok {
                    self.vote(ballot)
                } else {
                    self
                }
            },
            LedgerAction::Execute { proposal_id } => self.execute(proposal_id),
            LedgerAction::Advance { proposal_id } => self.advance(proposal_id),
            LedgerAction::Register { app } => {
                if self.register_check(app.app_id) is Ok {
                    self.register(app)
                } else {
                    self
                }
            },
        }
    }

    /// The ledger after a series of requests.
    pub open spec fn run(self, actions: Seq<LedgerAction>) -> GovernanceView
        decreases actions.len(),
    {
        if actions.len() == 0 {
            self
        } else {
            self.run(actions.drop_last()).apply(actions.last())
        }
    }

    /// `later` can be a later state of this ledger: it has the proposals,
    /// records and apps of this one at their places, each as it is here or
    /// in a later state of its own, and maybe more after them.
    pub open spec fn grows_to(self, later: GovernanceView) -> bool {
        &&& self.next_proposal_id <= later.next_proposal_id
        &&& self.proposals.len() <= later.proposals.len()
        &&& self.voting_rounds.len() <= later.voting_rounds.len()
        &&& forall|i: int|
            0 <= i < self.proposals.len() ==> (#[trigger] self.proposals[i]).matures_to(
                later.proposals[i],
            )
        &&& forall|i: int|
            0 <= i < self.voting_rounds.len() ==> (#[trigger] self.voting_rounds[i]).grows_to(
                later.voting_rounds[i],
            )
        &&& self.dependent_apps.is_prefix_of(later.dependent_apps)
    }
}

/// An index is that of the first occurrence of a value in a sequence if the
/// value stands there and nowhere before.
pub proof fn lemma_first_occurrence<A>(s: Seq<A>, needle: A, i: int)
    requires
        0 <= i < s.len(),
        s[i] == needle,
        forall|j: int| 0 <= j < i ==> s[j] != needle,
    ensures
        s.index_of_first(needle) == Some(i),
{
    s.index_of_first_ensures(needle);
}

/// A value that stands nowhere in a sequence has no first occurrence.
pub proof fn lemma_no_occurrence<A>(s: Seq<A>, needle: A)
    requires
        forall|j: int| 0 <= j < s.len() ==> s[j] != needle,
    ensures
        s.index_of_first(needle) is None,
        !s.contains(needle),
{
    s.index_of_first_ensures(needle);
}

/// The first occurrence of a value, where there is one, is an index of the
/// sequence at which the value stands, and the value stands nowhere before.
pub proof fn lemma_index_of_first<A>(s: Seq<A>, needle: A)
    ensures
        s.index_of_first(needle) is Some <==> s.contains(needle),
        s.index_of_first(needle) matches Some(i) ==> 0 <= i < s.len() && s[i] == needle && forall|
            j: int,
        |
            0 <= j < i ==> s[j] != needle,
{
    s.index_of_first_ensures(needle);
}

} // verus!
