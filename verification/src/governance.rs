//! The governance ledger: proposals, one vote per address on each of them,
//! tallies weighted by voting power, execution of what has passed, and a
//! registry of apps with the least reputation tier that each asks of its
//! users.

use crate::governance_laws::{
    lemma_create_keeps_wf, lemma_execute_keeps_wf, lemma_position_of, lemma_register_keeps_wf,
    lemma_vote_keeps_wf,
};
use crate::governance_model::{
    count_votes, lemma_first_occurrence, lemma_index_of_first, lemma_no_occurrence, tally_fits,
    voting_power_for,
    DependentAppView, GovernanceView, ProposalView, VoteView, VotingRoundView,
};
use vstd::prelude::*;

verus! {

/// What a proposal is about.
#[derive(Debug, Clone, Copy, PartialEq, Eq, Structural)]
pub enum ProposalType {
    /// Change a value of the payoff matrix.
    ChangePayoff,
    /// Add a strategy to the game.
    AddStrategy,
    /// Change how the voting itself works.
    ChangeGovernance,
}

/// The choice of a voter.
#[derive(Debug, Clone, Copy, PartialEq, Eq, Structural)]
pub enum Vote {
    Yes,
    No,
    Abstain,
}

/// Why the ledger refused a request.
#[derive(Debug, Clone, Copy, PartialEq, Eq, Structural)]
pub enum GovernanceError {
    /// No proposal has the id.
    ProposalNotFound,
    /// The proposal takes no more votes.
    VotingClosed,
    /// The address has voted on the proposal before.
    AlreadyVoted,
    /// The proposal was executed before.
    AlreadyExecuted,
    /// An app is registered under the id.
    DuplicateApp,
    /// No app is registered under the id.
    AppNotFound,
}

/// A proposal with the state of its vote.
#[derive(Debug, Clone)]
pub struct GovernanceProposal {
    pub id: u32,
    pub proposal_type: ProposalType,
    pub description: String,
    /// The round of voting that the proposal is in.
    pub voting_round: u32,
    /// The number of rounds after which voting closes.
    pub total_voting_rounds: u32,
    pub yes_votes: u32,
    pub no_votes: u32,
    pub abstain_votes: u32,
    pub yes_voting_power: u32,
    pub no_voting_power: u32,
    pub abstain_voting_power: u32,
    pub executed: bool,
}

impl View for GovernanceProposal {
    type V = ProposalView;

    open spec fn view(&self) -> ProposalView {
        ProposalView {
            id: self.id as nat,
            proposal_type: self.proposal_type,
            description: self.description@,
            voting_round: self.voting_round as nat,
            total_voting_rounds: self.total_voting_rounds as nat,
            yes_votes: self.yes_votes as nat,
            no_votes: self.no_votes as nat,
            abstain_votes: self.abstain_votes as nat,
            yes_voting_power: self.yes_voting_power as nat,
            no_voting_power: self.no_voting_power as nat,
            abstain_voting_power: self.abstain_voting_power as nat,
            executed: self.executed,
        }
    }
}

impl GovernanceProposal {
    /// A proposal on which voting is about to begin.
    pub fn new(id: u32, proposal_type: ProposalType, description: String) -> (proposal:
        GovernanceProposal)
        ensures
            proposal@ == ProposalView::fresh(id as nat, proposal_type, description@),
    {
        GovernanceProposal {
            id,
            proposal_type,
            description,
            voting_round: 0,
            total_voting_rounds: 3,
            yes_votes: 0,
            no_votes: 0,
            abstain_votes: 0,
            yes_voting_power: 0,
            no_voting_power: 0,
            abstain_voting_power: 0,
            executed: false,
        }
    }

    /// Whether votes are still taken.
    pub fn is_voting_open(&self) -> (open: bool)
        ensures
            open == self@.is_voting_open(),
    {
        !self.executed && self.voting_round < self.total_voting_rounds
    }

    /// Whether the power in favour is a majority of the power cast.
    pub fn has_passed(&self) -> (passed: bool)
        ensures
            passed == self@.has_passed(),
    {
        let yes: u64 = self.yes_voting_power as u64;
        let total: u64 = yes + self.no_voting_power as u64 + self.abstain_voting_power as u64;
        if total == 0 {
            return false;
        }
        yes > total / 2
    }

    /// Moves on to the next round of voting, unless the last is reached.
    pub fn advance_round(&mut self)
        ensures
            final(self)@ == old(self)@.advance(),
    {
        if self.voting_round < self.total_voting_rounds {
            self.voting_round = self.voting_round + 1;
        }
    }
}

/// The vote of one address on one proposal, as it was cast.
#[derive(Debug, Clone)]
pub struct PlayerVote {
    pub address: String,
    pub proposal_id: u32,
    pub vote: Vote,
    /// The reputation score of the voter when the vote was cast.
    pub voter_reputation: u32,
    /// The voting power of the voter when the vote was cast.
    pub voting_power: u32,
    pub timestamp: u64,
}

impl View for PlayerVote {
    type V = VoteView;

    open spec fn view(&self) -> VoteView {
        VoteView {
            address: self.address@,
            proposal_id: self.proposal_id as nat,
            vote: self.vote,
            voter_reputation: self.voter_reputation as nat,
            voting_power: self.voting_power as nat,
            timestamp: self.timestamp as nat,
        }
    }
}

/// The votes cast on one proposal.
#[derive(Debug, Clone)]
pub struct VotingRound {
    pub proposal_id: u32,
    /// The votes in the order in which they were cast.
    pub votes: Vec<PlayerVote>,
    /// The addresses of the votes, in the same order.
    pub voted_addresses: Vec<String>,
}

impl View for VotingRound {
    type V = VotingRoundView;

    open spec fn view(&self) -> VotingRoundView {
        VotingRoundView {
            proposal_id: self.proposal_id as nat,
            votes: self.votes@.map_values(|v: PlayerVote| v@),
            voted_addresses: self.voted_addresses@.map_values(|a: String| a@),
        }
    }
}

/// The tally of the first votes of a sequence is part of the tally of all
/// of them.
proof fn lemma_tally_of_prefix(votes: Seq<VoteView>, n: int, choice: Vote)
    requires
        0 <= n <= votes.len(),
    ensures
        count_votes(votes.take(n), choice) <= count_votes(votes, choice),
        voting_power_for(votes.take(n), choice) <= voting_power_for(votes, choice),
    decreases votes.len() - n,
{
    if n == votes.len() {
        assert(votes.take(n) =~= votes);
    } else {
        lemma_tally_of_prefix(votes, n + 1, choice);
        assert(votes.take(n + 1).drop_last() =~= votes.take(n));
    }
}

impl VotingRound {
    /// The record of a proposal on which nobody has voted.
    pub fn new(proposal_id: u32) -> (round: VotingRound)
        ensures
            round@ == VotingRoundView::fresh(proposal_id as nat),
    {
        let round = VotingRound { proposal_id, votes: Vec::new(), voted_addresses: Vec::new() };
        assert(round@.votes =~= Seq::empty());
        assert(round@.voted_addresses =~= Seq::empty());
        round
    }

    /// Whether the address has voted on the proposal.
    pub fn has_voted(&self, address: &str) -> (voted: bool)
        ensures
            voted == self@.has_voted(address@),
    {
        let wanted = address.to_owned();
        let mut i: usize = 0;
        while i < self.voted_addresses.len()
            invariant
                i <= self.voted_addresses@.len(),
                wanted@ == address@,
                forall|j: int| 0 <= j < i ==> self@.voted_addresses[j] != address@,
            decreases self.voted_addresses@.len() - i,
        {
            if self.voted_addresses[i] == wanted {
                assert(self@.voted_addresses[i as int] == address@);
                return true;
            }
            i += 1;
        }
        false
    }

    /// Takes down the vote of an address, unless the address has voted.
    pub fn cast_vote(
        &mut self,
        address: String,
        vote: Vote,
        voter_reputation: u32,
        voting_power: u32,
        timestamp: u64,
    ) -> (res: Result<(), GovernanceError>)
        ensures
            old(self)@.has_voted(address@) ==> res == Err::<(), GovernanceError>(
                GovernanceError::AlreadyVoted,
            ) && *final(self) == *old(self),
            !old(self)@.has_voted(address@) ==> res == Ok::<(), GovernanceError>(())
                && final(self)@ == old(self)@.cast(
                old(self)@.ballot(
                    address@,
                    vote,
                    voter_reputation as nat,
                    voting_power as nat,
                    timestamp as nat,
                ),
            ),
            old(self)@.wf() ==> final(self)@.wf(),
    {
        if self.has_voted(address.as_str()) {
            return Err(GovernanceError::AlreadyVoted);
        }
        let ballot = PlayerVote {
            address: address.clone(),
            proposal_id: self.proposal_id,
            vote,
            voter_reputation,
            voting_power,
            timestamp,
        };
        self.votes.push(ballot);
        self.voted_addresses.push(address);
        proof {
            let expected = old(self)@.cast(
                old(self)@.ballot(
                    address@,
                    vote,
                    voter_reputation as nat,
                    voting_power as nat,
                    timestamp as nat,
                ),
            );
            assert(self@.votes =~= expected.votes);
            assert(self@.voted_addresses =~= expected.voted_addresses);
        }
        Ok(())
    }

    /// Counts the votes anew and sets the six counters of the proposal to
    /// the result, unless the proposal was executed.
    pub fn tally(&self, proposal: &mut GovernanceProposal) -> (res: Result<(), GovernanceError>)
        requires
            !old(proposal).executed ==> tally_fits(self@.votes),
        ensures
            old(proposal).executed ==> res == Err::<(), GovernanceError>(
                GovernanceError::AlreadyExecuted,
            ) && *final(proposal) == *old(proposal),
            !old(proposal).executed ==> res == Ok::<(), GovernanceError>(()) && final(proposal)@
                == old(proposal)@.tallied(self@.votes),
    {
        if proposal.executed {
            return Err(GovernanceError::AlreadyExecuted);
        }
        proposal.yes_votes = 0;
        proposal.no_votes = 0;
        proposal.abstain_votes = 0;
        proposal.yes_voting_power = 0;
        proposal.no_voting_power = 0;
        proposal.abstain_voting_power = 0;

        let ghost votes = self@.votes;
        let mut i: usize = 0;
        while i < self.votes.len()
            invariant
                i <= self.votes@.len(),
                votes == self@.votes,
                votes.len() == self.votes@.len(),
                tally_fits(votes),
                proposal@ == old(proposal)@.tallied(votes.take(i as int)),
            decreases self.votes@.len() - i,
        {
            proof {
                let next = votes.take(i + 1);
                assert(next.drop_last() =~= votes.take(i as int));
                assert(next.last() == self.votes@[i as int]@);
                lemma_tally_of_prefix(votes, i + 1, Vote::Yes);
                lemma_tally_of_prefix(votes, i + 1, Vote::No);
                lemma_tally_of_prefix(votes, i + 1, Vote::Abstain);
            }
            match self.votes[i].vote {
                Vote::Yes => {
                    proposal.yes_votes = proposal.yes_votes + 1;
                    proposal.yes_voting_power = proposal.yes_voting_power
                        + self.votes[i].voting_power;
                },
                Vote::No => {
                    proposal.no_votes = proposal.no_votes + 1;
                    proposal.no_voting_power = proposal.no_voting_power
                        + self.votes[i].voting_power;
                },
                Vote::Abstain => {
                    proposal.abstain_votes = proposal.abstain_votes + 1;
                    proposal.abstain_voting_power = proposal.abstain_voting_power
                        + self.votes[i].voting_power;
                },
            }
            i += 1;
        }
        assert(votes.take(i as int) =~= votes);
        Ok(())
    }
}

/// An app that builds on the reputations kept here.
#[derive(Debug, Clone)]
pub struct DependentApp {
    pub app_id: String,
    pub app_name: String,
    /// The least reputation tier that the app asks of its users.
    pub min_reputation_tier: u8,
    pub registered_at: u64,
}

impl View for DependentApp {
    type V = DependentAppView;

    open spec fn view(&self) -> DependentAppView {
        DependentAppView {
            app_id: self.app_id@,
            app_name: self.app_name@,
            min_reputation_tier: self.min_reputation_tier as nat,
            registered_at: self.registered_at as nat,
        }
    }
}

/// The ledger: every proposal with the record of its votes, and the
/// registry of dependent apps.
#[derive(Debug, Clone)]
pub struct GovernanceState {
    /// The id that the next proposal gets.
    pub next_proposal_id: u32,
    pub proposals: Vec<GovernanceProposal>,
    /// The record of votes of each proposal, at the index of the proposal.
    pub voting_rounds: Vec<VotingRound>,
    pub dependent_apps: Vec<DependentApp>,
}

impl View for GovernanceState {
    type V = GovernanceView;

    open spec fn view(&self) -> GovernanceView {
        GovernanceView {
            next_proposal_id: self.next_proposal_id as nat,
            proposals: self.proposals@.map_values(|p: GovernanceProposal| p@),
            voting_rounds: self.voting_rounds@.map_values(|r: VotingRound| r@),
            dependent_apps: self.dependent_apps@.map_values(|a: DependentApp| a@),
        }
    }
}

impl GovernanceState {
    /// A ledger without proposals and without apps.
    pub fn new() -> (ledger: GovernanceState)
        ensures
            ledger@ == GovernanceView::empty(),
            ledger@.wf(),
    {
        let ledger = GovernanceState {
            next_proposal_id: 1,
            proposals: Vec::new(),
            voting_rounds: Vec::new(),
            dependent_apps: Vec::new(),
        };
        assert(ledger@.proposals =~= Seq::empty());
        assert(ledger@.voting_rounds =~= Seq::empty());
        assert(ledger@.dependent_apps =~= Seq::empty());
        ledger
    }

    /// Index of the first proposal with the id.
    fn proposal_index(&self, id: u32) -> (res: Option<usize>)
        ensures
            res matches Some(i) ==> i < self.proposals@.len() && self.proposals@[i as int].id == id,
            match res {
                Some(i) => self@.position(id as nat) == Some(i as int),
                None => self@.position(id as nat) is None,
            },
    {
        let mut i: usize = 0;
        while i < self.proposals.len()
            invariant
                i <= self.proposals@.len(),
                forall|j: int| 0 <= j < i ==> self@.proposal_ids()[j] != id as nat,
            decreases self.proposals@.len() - i,
        {
            if self.proposals[i].id == id {
                proof {
                    lemma_first_occurrence(self@.proposal_ids(), id as nat, i as int);
                }
                return Some(i);
            }
            i += 1;
        }
        proof {
            lemma_no_occurrence(self@.proposal_ids(), id as nat);
        }
        None
    }

    /// Index of the first record of votes with the id.
    fn voting_round_index(&self, proposal_id: u32) -> (res: Option<usize>)
        ensures
            res matches Some(i) ==> i < self.voting_rounds@.len()
                && self.voting_rounds@[i as int].proposal_id == proposal_id,
            match res {
                Some(i) => self@.voting_round_position(proposal_id as nat) == Some(i as int),
                None => self@.voting_round_position(proposal_id as nat) is None,
            },
    {
        let mut i: usize = 0;
        while i < self.voting_rounds.len()
            invariant
                i <= self.voting_rounds@.len(),
                forall|j: int| 0 <= j < i ==> self@.voting_round_ids()[j] != proposal_id as nat,
            decreases self.voting_rounds@.len() - i,
        {
            if self.voting_rounds[i].proposal_id == proposal_id {
                proof {
                    lemma_first_occurrence(
                        self@.voting_round_ids(),
                        proposal_id as nat,
                        i as int,
                    );
                }
                return Some(i);
            }
            i += 1;
        }
        proof {
            lemma_no_occurrence(self@.voting_round_ids(), proposal_id as nat);
        }
        None
    }

    /// Index of the first app with the id.
    fn app_index(&self, app_id: &str) -> (res: Option<usize>)
        ensures
            res matches Some(i) ==> i < self.dependent_apps@.len()
                && self.dependent_apps@[i as int].app_id@ == app_id@,
            match res {
                Some(i) => self@.app_position(app_id@) == Some(i as int),
                None => self@.app_position(app_id@) is None && !self@.app_ids().contains(app_id@),
            },
    {
        let wanted = app_id.to_owned();
        let mut i: usize = 0;
        while i < self.dependent_apps.len()
            invariant
                i <= self.dependent_apps@.len(),
                wanted@ == app_id@,
                forall|j: int| 0 <= j < i ==> self@.app_ids()[j] != app_id@,
            decreases self.dependent_apps@.len() - i,
        {
            if self.dependent_apps[i].app_id == wanted {
                proof {
                    lemma_first_occurrence(self@.app_ids(), app_id@, i as int);
                }
                return Some(i);
            }
            i += 1;
        }
        proof {
            lemma_no_occurrence(self@.app_ids(), app_id@);
        }
        None
    }

    /// Adds a proposal, with an empty record of votes, and returns its id:
    /// 1 for the first proposal of a ledger, and one more for each that
    /// follows.
    pub fn create_proposal(&mut self, proposal_type: ProposalType, description: String) -> (id: u32)
        requires
            old(self).next_proposal_id < u32::MAX,
        ensures
            id == old(self).next_proposal_id,
            final(self)@ == old(self)@.create(proposal_type, description@),
            old(self)@.wf() ==> final(self)@.wf() && final(self)@.position(id as nat) == Some(
                old(self)@.proposals.len() as int,
            ),
    {
        let id = self.next_proposal_id;
        self.next_proposal_id = self.next_proposal_id + 1;
        let proposal = GovernanceProposal::new(id, proposal_type, description);
        let voting_round = VotingRound::new(id);
        self.proposals.push(proposal);
        self.voting_rounds.push(voting_round);
        proof {
            let expected = old(self)@.create(proposal_type, description@);
            assert(self@.proposals =~= expected.proposals);
            assert(self@.voting_rounds =~= expected.voting_rounds);
            assert(self@.dependent_apps =~= expected.dependent_apps);
            if old(self)@.wf() {
                lemma_create_keeps_wf(old(self)@, proposal_type, description@);
                lemma_position_of(self@, old(self)@.proposals.len() as int);
            }
        }
        id
    }

    /// The proposal with the id, if there is one.
    pub fn get_proposal(&self, id: u32) -> (res: Option<&GovernanceProposal>)
        ensures
            match self@.position(id as nat) {
                Some(i) => res == Some(&self.proposals@[i]),
                None => res is None,
            },
    {
        match self.proposal_index(id) {
            Some(i) => Some(&self.proposals[i]),
            None => None,
        }
    }

    /// The proposal with the id, if there is one, for the caller to change.
    /// What the caller makes of it takes its place in the ledger; nothing
    /// else changes.
    pub fn get_proposal_mut(&mut self, id: u32) -> (res: Option<&mut GovernanceProposal>)
        ensures
            match old(self)@.position(id as nat) {
                Some(i) => res matches Some(proposal) && *proposal == old(self).proposals@[i]
                    && final(self).proposals@ == old(self).proposals@.update(i, *final(proposal))
                    && final(self)@ == old(self)@.with_proposal(i, final(proposal)@),
                None => res is None && *final(self) == *old(self),
            },
    {
        match self.proposal_index(id) {
            Some(i) => {
                Some(&mut self.proposals[i])
            },
            None => None,
        }
    }

    /// The record of votes of the proposal with the id, if there is one,
    /// for the caller to change. What the caller makes of it takes its
    /// place in the ledger; nothing else changes.
    pub fn get_voting_round_mut(&mut self, proposal_id: u32) -> (res: Option<&mut VotingRound>)
        ensures
            match old(self)@.voting_round_position(proposal_id as nat) {
                Some(i) => res matches Some(round) && *round == old(self).voting_rounds@[i]
                    && final(self).voting_rounds@ == old(self).voting_rounds@.update(
                    i,
                    *final(round),
                ) && final(self)@ == old(self)@.with_voting_round(i, final(round)@),
                None => res is None && *final(self) == *old(self),
            },
    {
        match self.voting_round_index(proposal_id) {
            Some(i) => Some(&mut self.voting_rounds[i]),
            None => None,
        }
    }

    /// Takes the vote of an address on a proposal, and counts the votes on
    /// the proposal anew. Refused, with nothing changed, if there is no such
    /// proposal, if the proposal takes no more votes, or if the address has
    /// voted on it; the first of these that applies is the reason given.
    pub fn vote(
        &mut self,
        proposal_id: u32,
        address: String,
        vote: Vote,
        voter_reputation: u32,
        voting_power: u32,
        timestamp: u64,
    ) -> (res: Result<(), GovernanceError>)
        requires
            old(self)@.wf(),
            old(self)@.vote_check(proposal_id as nat, address@) is Ok ==> old(self)@.vote_fits(
                proposal_id as nat,
                vote,
                voting_power as nat,
            ),
        ensures
            res == old(self)@.vote_check(proposal_id as nat, address@),
            res is Err ==> final(self)@ == old(self)@,
            res is Ok ==> final(self)@ == old(self)@.vote(
                (VoteView {
                    address: address@,
                    proposal_id: proposal_id as nat,
                    vote,
                    voter_reputation: voter_reputation as nat,
                    voting_power: voting_power as nat,
                    timestamp: timestamp as nat,
                }),
            ),
            final(self)@.wf(),
            final(self)@.proposal_ids() == old(self)@.proposal_ids(),
    {
        let ghost ballot = VoteView {
            address: address@,
            proposal_id: proposal_id as nat,
            vote,
            voter_reputation: voter_reputation as nat,
            voting_power: voting_power as nat,
            timestamp: timestamp as nat,
        };
        let i = match self.proposal_index(proposal_id) {
            Some(i) => i,
            None => {
                return Err(GovernanceError::ProposalNotFound);
            },
        };
        if !self.proposals[i].is_voting_open() {
            return Err(GovernanceError::VotingClosed);
        }
        let j = match self.voting_round_index(proposal_id) {
            Some(j) => j,
            None => {
                // A well-formed ledger has a record for every proposal.
                proof {
                    lemma_index_of_first(self@.voting_round_ids(), proposal_id as nat);
                    assert(self@.voting_round_ids()[i as int] == proposal_id as nat);
                }
                return Ok(());
            },
        };
        proof {
            lemma_index_of_first(self@.voting_round_ids(), proposal_id as nat);
            lemma_index_of_first(self@.proposal_ids(), proposal_id as nat);
            assert(self@.voting_round_ids()[i as int] == proposal_id as nat);
            assert(self@.proposal_ids()[j as int] == self@.voting_round_ids()[j as int]);
            assert(i == j);
        }
        match self.voting_rounds[j].cast_vote(
            address,
            vote,
            voter_reputation,
            voting_power,
            timestamp,
        ) {
            Ok(()) => {},
            Err(e) => {
                proof {
                    assert(self@.proposals =~= old(self)@.proposals);
                    assert(self@.voting_rounds =~= old(self)@.voting_rounds);
                    assert(self@.dependent_apps =~= old(self)@.dependent_apps);
                }
                return Err(e);
            },
        }
        proof {
            let before = old(self)@.voting_rounds[i as int];
            assert(self.voting_rounds@[i as int]@ == before.cast(ballot));
            assert(before.cast(ballot).votes.drop_last() =~= before.votes);
            assert(old(self)@.proposals[i as int].counts(before.votes));
        }
        let tallied = self.voting_rounds[j].tally(&mut self.proposals[i]);
        proof {
            let expected = old(self)@.vote(ballot);
            assert(self@.proposals =~= expected.proposals);
            assert(self@.voting_rounds =~= expected.voting_rounds);
            assert(self@.dependent_apps =~= expected.dependent_apps);
            lemma_vote_keeps_wf(old(self)@, ballot);
        }
        tallied
    }

    /// Marks the proposal as executed if it has passed, and says whether it
    /// has. Refused if there is no such proposal or if it was executed
    /// before. A proposal that has not passed stays as it is, and the
    /// request can be made again.
    pub fn execute_proposal(&mut self, proposal_id: u32) -> (res: Result<bool, GovernanceError>)
        ensures
            res == old(self)@.execute_check(proposal_id as nat),
            final(self)@ == old(self)@.execute(proposal_id as nat),
            final(self)@.proposal_ids() == old(self)@.proposal_ids(),
            old(self)@.wf() ==> final(self)@.wf(),
    {
        let i = match self.proposal_index(proposal_id) {
            Some(i) => i,
            None => {
                return Err(GovernanceError::ProposalNotFound);
            },
        };
        if self.proposals[i].executed {
            return Err(GovernanceError::AlreadyExecuted);
        }
        let passed = self.proposals[i].has_passed();
        if passed {
            self.proposals[i].executed = true;
            proof {
                let expected = old(self)@.execute(proposal_id as nat);
                assert(self@.proposals =~= expected.proposals);
                assert(self@.voting_rounds =~= expected.voting_rounds);
                assert(self@.dependent_apps =~= expected.dependent_apps);
                if old(self)@.wf() {
                    lemma_execute_keeps_wf(old(self)@, proposal_id as nat);
                }
            }
        }
        Ok(passed)
    }

    /// The proposals on which votes are still taken, in their order.
    pub fn get_active_proposals(&self) -> (active: Vec<&GovernanceProposal>)
        ensures
            active@.map_values(|p: &GovernanceProposal| *p) == self.proposals@.filter(
                |p: GovernanceProposal| p@.is_voting_open(),
            ),
            active@.map_values(|p: &GovernanceProposal| p@) == self@.active_proposals(),
    {
        let mut active: Vec<&GovernanceProposal> = Vec::new();
        let ghost open = |p: GovernanceProposal| p@.is_voting_open();
        let ghost open_view = |p: ProposalView| p.is_voting_open();
        let mut i: usize = 0;
        proof {
            reveal(Seq::filter);
            assert(self.proposals@.take(0).filter(open) =~= Seq::empty());
            assert(self@.proposals.take(0).filter(open_view) =~= Seq::empty());
        }
        while i < self.proposals.len()
            invariant
                i <= self.proposals@.len(),
                open == |p: GovernanceProposal| p@.is_voting_open(),
                open_view == |p: ProposalView| p.is_voting_open(),
                active@.map_values(|p: &GovernanceProposal| *p) == self.proposals@.take(
                    i as int,
                ).filter(open),
                active@.map_values(|p: &GovernanceProposal| p@) == self@.proposals.take(
                    i as int,
                ).filter(open_view),
            decreases self.proposals@.len() - i,
        {
            let ghost before = active@;
            proof {
                reveal(Seq::filter);
                assert(self.proposals@.take(i + 1).drop_last() =~= self.proposals@.take(i as int));
                assert(self@.proposals.take(i + 1).drop_last() =~= self@.proposals.take(i as int));
            }
            if self.proposals[i].is_voting_open() {
                active.push(&self.proposals[i]);
                assert(active@.map_values(|p: &GovernanceProposal| *p) =~= before.map_values(
                    |p: &GovernanceProposal| *p,
                ).push(self.proposals@[i as int]));
                assert(active@.map_values(|p: &GovernanceProposal| p@) =~= before.map_values(
                    |p: &GovernanceProposal| p@,
                ).push(self.proposals@[i as int]@));
            }
            i += 1;
        }
        proof {
            assert(self.proposals@.take(i as int) =~= self.proposals@);
            assert(self@.proposals.take(i as int) =~= self@.proposals);
        }
        active
    }

    /// The proposals that were executed, in their order.
    pub fn get_executed_proposals(&self) -> (executed: Vec<&GovernanceProposal>)
        ensures
            executed@.map_values(|p: &GovernanceProposal| *p) == self.proposals@.filter(
                |p: GovernanceProposal| p.executed,
            ),
            executed@.map_values(|p: &GovernanceProposal| p@) == self@.executed_proposals(),
    {
        let mut executed: Vec<&GovernanceProposal> = Vec::new();
        let ghost done = |p: GovernanceProposal| p.executed;
        let ghost done_view = |p: ProposalView| p.executed;
        let mut i: usize = 0;
        proof {
            reveal(Seq::filter);
            assert(self.proposals@.take(0).filter(done) =~= Seq::empty());
            assert(self@.proposals.take(0).filter(done_view) =~= Seq::empty());
        }
        while i < self.proposals.len()
            invariant
                i <= self.proposals@.len(),
                done == |p: GovernanceProposal| p.executed,
                done_view == |p: ProposalView| p.executed,
                executed@.map_values(|p: &GovernanceProposal| *p) == self.proposals@.take(
                    i as int,
                ).filter(done),
                executed@.map_values(|p: &GovernanceProposal| p@) == self@.proposals.take(
                    i as int,
                ).filter(done_view),
            decreases self.proposals@.len() - i,
        {
            let ghost before = executed@;
            proof {
                reveal(Seq::filter);
                assert(self.proposals@.take(i + 1).drop_last() =~= self.proposals@.take(i as int));
                assert(self@.proposals.take(i + 1).drop_last() =~= self@.proposals.take(i as int));
            }
            if self.proposals[i].executed {
                executed.push(&self.proposals[i]);
                assert(executed@.map_values(|p: &GovernanceProposal| *p) =~= before.map_values(
                    |p: &GovernanceProposal| *p,
                ).push(self.proposals@[i as int]));
                assert(executed@.map_values(|p: &GovernanceProposal| p@) =~= before.map_values(
                    |p: &GovernanceProposal| p@,
                ).push(self.proposals@[i as int]@));
            }
            i += 1;
        }
        proof {
            assert(self.proposals@.take(i as int) =~= self.proposals@);
            assert(self@.proposals.take(i as int) =~= self@.proposals);
        }
        executed
    }

    /// Registers an app under an id, with the time of registration that the
    /// caller supplies. Refused, with nothing changed, if an app is
    /// registered under the id, whatever its other particulars.
    pub fn register_dependent_app_at(
        &mut self,
        app_id: String,
        app_name: String,
        min_reputation_tier: u8,
        registered_at: u64,
    ) -> (res: Result<(), GovernanceError>)
        ensures
            res == old(self)@.register_check(app_id@),
            res is Err ==> *final(self) == *old(self),
            res is Ok ==> final(self)@ == old(self)@.register(
                (DependentAppView {
                    app_id: app_id@,
                    app_name: app_name@,
                    min_reputation_tier: min_reputation_tier as nat,
                    registered_at: registered_at as nat,
                }),
            ),
            old(self)@.wf() ==> final(self)@.wf(),
    {
        if self.app_index(app_id.as_str()).is_some() {
            proof {
                lemma_index_of_first(self@.app_ids(), app_id@);
            }
            return Err(GovernanceError::DuplicateApp);
        }
        let app = DependentApp { app_id, app_name, min_reputation_tier, registered_at };
        self.dependent_apps.push(app);
        proof {
            let expected = old(self)@.register(app@);
            assert(self@.proposals =~= expected.proposals);
            assert(self@.voting_rounds =~= expected.voting_rounds);
            assert(self@.dependent_apps =~= expected.dependent_apps);
            if old(self)@.wf() {
                lemma_register_keeps_wf(old(self)@, app@);
            }
        }
        Ok(())
    }

    /// Registers an app under an id, with 0 as the time of registration.
    /// Refused, with nothing changed, if an app is registered under the id.
    pub fn register_dependent_app(
        &mut self,
        app_id: String,
        app_name: String,
        min_reputation_tier: u8,
    ) -> (res: Result<(), GovernanceError>)
        ensures
            res == old(self)@.register_check(app_id@),
            res is Err ==> *final(self) == *old(self),
            res is Ok ==> final(self)@ == old(self)@.register(
                (DependentAppView {
                    app_id: app_id@,
                    app_name: app_name@,
                    min_reputation_tier: min_reputation_tier as nat,
                    registered_at: 0,
                }),
            ),
            old(self)@.wf() ==> final(self)@.wf(),
    {
        self.register_dependent_app_at(app_id, app_name, min_reputation_tier, 0)
    }

    /// The registered apps, in the order of registration.
    pub fn get_dependent_apps(&self) -> (apps: Vec<&DependentApp>)
        ensures
            apps@.map_values(|a: &DependentApp| *a) == self.dependent_apps@,
            apps@.map_values(|a: &DependentApp| a@) == self@.dependent_apps,
    {
        let mut apps: Vec<&DependentApp> = Vec::new();
        let mut i: usize = 0;
        while i < self.dependent_apps.len()
            invariant
                i <= self.dependent_apps@.len(),
                apps@.map_values(|a: &DependentApp| *a) == self.dependent_apps@.take(i as int),
            decreases self.dependent_apps@.len() - i,
        {
            let ghost before = apps@;
            apps.push(&self.dependent_apps[i]);
            assert(apps@.map_values(|a: &DependentApp| *a) =~= before.map_values(
                |a: &DependentApp| *a,
            ).push(self.dependent_apps@[i as int]));
            i += 1;
        }
        proof {
            assert(self.dependent_apps@.take(i as int) =~= self.dependent_apps@);
            assert(apps@.map_values(|a: &DependentApp| a@) =~= self@.dependent_apps);
        }
        apps
    }

    /// Whether a user of the given reputation tier may use the app.
    /// Refused if no app is registered under the id.
    pub fn check_app_eligibility(&self, app_id: &str, user_tier: u8) -> (res: Result<
        bool,
        GovernanceError,
    >)
        ensures
            res == self@.eligibility(app_id@, user_tier as nat),
    {
        match self.app_index(app_id) {
            Some(i) => Ok(user_tier >= self.dependent_apps[i].min_reputation_tier),
            None => Err(GovernanceError::AppNotFound),
        }
    }
}

} // verus!
