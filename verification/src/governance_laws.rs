//! What holds of the governance ledger whatever is done with it.

use crate::governance::{GovernanceError, ProposalType, Vote};
use crate::governance_model::{
    count_votes, lemma_first_occurrence, lemma_index_of_first, total_voting_power,
    voting_power_for, DependentAppView, GovernanceView, LedgerAction, ProposalPhase, ProposalView,
    VoteView,
};
use vstd::prelude::*;

verus! {

/// A new proposal keeps a well-formed ledger well-formed.
pub proof fn lemma_create_keeps_wf(
    ledger: GovernanceView,
    proposal_type: ProposalType,
    description: Seq<char>,
)
    requires
        ledger.wf(),
    ensures
        ledger.create(proposal_type, description).wf(),
{
    let after = ledger.create(proposal_type, description);
    assert(after.app_ids() =~= ledger.app_ids());
}

/// A vote that is taken keeps a well-formed ledger well-formed.
pub proof fn lemma_vote_keeps_wf(ledger: GovernanceView, ballot: VoteView)
    requires
        ledger.wf(),
        ledger.vote_check(ballot.proposal_id, ballot.address) is Ok,
    ensures
        ledger.vote(ballot).wf(),
{
    let after = ledger.vote(ballot);
    lemma_index_of_first(ledger.proposal_ids(), ballot.proposal_id);
    let i = ledger.position(ballot.proposal_id).unwrap();
    assert(ledger.proposal_ids()[i] == ledger.proposals[i].id);
    assert(after.app_ids() =~= ledger.app_ids());
    let round = ledger.voting_rounds[i];
    assert(round.wf());
    assert(after.voting_rounds[i] == round.cast(ballot));
    assert(round.cast(ballot).wf());
}

/// A request to execute a proposal keeps a well-formed ledger well-formed.
pub proof fn lemma_execute_keeps_wf(ledger: GovernanceView, proposal_id: nat)
    requires
        ledger.wf(),
    ensures
        ledger.execute(proposal_id).wf(),
{
    let after = ledger.execute(proposal_id);
    lemma_index_of_first(ledger.proposal_ids(), proposal_id);
    assert(after.app_ids() =~= ledger.app_ids());
}

/// An app registered under a new id keeps a well-formed ledger
/// well-formed.
pub proof fn lemma_register_keeps_wf(ledger: GovernanceView, app: DependentAppView)
    requires
        ledger.wf(),
        ledger.register_check(app.app_id) is Ok,
    ensures
        ledger.register(app).wf(),
{
    let after = ledger.register(app);
    assert(after.app_ids() =~= ledger.app_ids().push(app.app_id));
}

/// A proposal that moves on to its next round of voting keeps a
/// well-formed ledger well-formed.
pub proof fn lemma_advance_keeps_wf(ledger: GovernanceView, proposal_id: nat)
    requires
        ledger.wf(),
    ensures
        ledger.advance(proposal_id).wf(),
{
    let after = ledger.advance(proposal_id);
    lemma_index_of_first(ledger.proposal_ids(), proposal_id);
    assert(after.app_ids() =~= ledger.app_ids());
}

/// The empty ledger is well-formed.
pub proof fn lemma_empty_is_wf()
    ensures
        GovernanceView::empty().wf(),
{
}

/// No request, taken or refused, makes a well-formed ledger ill-formed.
pub proof fn lemma_apply_keeps_wf(ledger: GovernanceView, action: LedgerAction)
    requires
        ledger.wf(),
    ensures
        ledger.apply(action).wf(),
{
    match action {
        LedgerAction::Create { proposal_type, description } => {
            lemma_create_keeps_wf(ledger, proposal_type, description);
        },
        LedgerAction::CastVote { ballot } => {
            if ledger.vote_check(ballot.proposal_id, ballot.address) is Ok {
                lemma_vote_keeps_wf(ledger, ballot);
            }
        },
        LedgerAction::Execute { proposal_id } => {
            lemma_execute_keeps_wf(ledger, proposal_id);
        },
        LedgerAction::Advance { proposal_id } => {
            lemma_advance_keeps_wf(ledger, proposal_id);
        },
        LedgerAction::Register { app } => {
            if ledger.register_check(app.app_id) is Ok {
                lemma_register_keeps_wf(ledger, app);
            }
        },
    }
}

/// Every ledger can be a later state of itself.
pub proof fn lemma_grows_reflexive(ledger: GovernanceView)
    ensures
        ledger.grows_to(ledger),
{
}

/// A later state of a later state is a later state.
pub proof fn lemma_grows_transitive(
    first: GovernanceView,
    second: GovernanceView,
    third: GovernanceView,
)
    requires
        first.grows_to(second),
        second.grows_to(third),
    ensures
        first.grows_to(third),
{
    assert forall|i: int| 0 <= i < first.proposals.len() implies (
    #[trigger] first.proposals[i]).matures_to(third.proposals[i]) by {
        assert(first.proposals[i].matures_to(second.proposals[i]));
        assert(second.proposals[i].matures_to(third.proposals[i]));
    }
    assert forall|i: int| 0 <= i < first.voting_rounds.len() implies (
    #[trigger] first.voting_rounds[i]).grows_to(third.voting_rounds[i]) by {
        assert(first.voting_rounds[i].grows_to(second.voting_rounds[i]));
        assert(second.voting_rounds[i].grows_to(third.voting_rounds[i]));
    }
}

/// What a request leaves behind is a later state of the ledger: nothing is
/// taken out of a ledger, no vote is taken back, no round of voting is gone
/// back on, and nothing that was executed becomes unexecuted.
pub proof fn lemma_apply_grows(ledger: GovernanceView, action: LedgerAction)
    requires
        ledger.wf(),
    ensures
        ledger.grows_to(ledger.apply(action)),
{
    match action {
        LedgerAction::CastVote { ballot } => {
            lemma_index_of_first(ledger.proposal_ids(), ballot.proposal_id);
        },
        LedgerAction::Execute { proposal_id } => {
            lemma_index_of_first(ledger.proposal_ids(), proposal_id);
        },
        LedgerAction::Advance { proposal_id } => {
            lemma_index_of_first(ledger.proposal_ids(), proposal_id);
        },
        _ => {},
    }
}

/// A series of requests, each taken or refused, keeps a well-formed ledger
/// well-formed, and what it leaves is a later state of the ledger.
pub proof fn lemma_run_keeps_wf(ledger: GovernanceView, actions: Seq<LedgerAction>)
    requires
        ledger.wf(),
    ensures
        ledger.run(actions).wf(),
        ledger.grows_to(ledger.run(actions)),
    decreases actions.len(),
{
    if actions.len() > 0 {
        let before = ledger.run(actions.drop_last());
        lemma_run_keeps_wf(ledger, actions.drop_last());
        lemma_apply_keeps_wf(before, actions.last());
        lemma_apply_grows(before, actions.last());
        lemma_grows_transitive(ledger, before, before.apply(actions.last()));
    }
}

/// In a well-formed ledger a proposal is found at the index at which it
/// stands.
pub proof fn lemma_position_of(ledger: GovernanceView, i: int)
    requires
        ledger.wf(),
        0 <= i < ledger.proposals.len(),
    ensures
        ledger.position(ledger.proposals[i].id) == Some(i),
{
    assert forall|j: int| 0 <= j < i implies ledger.proposal_ids()[j] != ledger.proposals[i].id by {
        assert(ledger.proposals[j].id < ledger.proposals[i].id);
    }
    lemma_first_occurrence(ledger.proposal_ids(), ledger.proposals[i].id, i);
}

/// Every vote is for exactly one of the three choices: the three counts of
/// a tally add up to the number of votes, and the three voting powers to
/// the voting power of all the votes.
pub proof fn lemma_tally_partitions(votes: Seq<VoteView>)
    ensures
        count_votes(votes, Vote::Yes) + count_votes(votes, Vote::No) + count_votes(
            votes,
            Vote::Abstain,
        ) == votes.len(),
        voting_power_for(votes, Vote::Yes) + voting_power_for(votes, Vote::No) + voting_power_for(
            votes,
            Vote::Abstain,
        ) == total_voting_power(votes),
    decreases votes.len(),
{
    if votes.len() > 0 {
        lemma_tally_partitions(votes.drop_last());
    }
}

/// The counters of every proposal account for the votes on it, in a
/// well-formed ledger and so after any series of requests to one: the three
/// counts add up to the number of votes cast on the proposal, and the three
/// voting powers to the sum of the voting powers of those votes.
pub proof fn lemma_tallies_account_for_votes(
    ledger: GovernanceView,
    actions: Seq<LedgerAction>,
    i: int,
)
    requires
        ledger.wf(),
        0 <= i < ledger.run(actions).proposals.len(),
    ensures
        ({
            let later = ledger.run(actions);
            let proposal = later.proposals[i];
            let votes = later.voting_rounds[i].votes;
            &&& proposal.yes_votes + proposal.no_votes + proposal.abstain_votes == votes.len()
            &&& proposal.total_power() == total_voting_power(votes)
            &&& proposal.counts(votes)
        }),
{
    let later = ledger.run(actions);
    lemma_run_keeps_wf(ledger, actions);
    assert(later.proposals[i].counts(later.voting_rounds[i].votes));
    lemma_tally_partitions(later.voting_rounds[i].votes);
}

/// An address votes on a proposal at most once. After its vote was taken,
/// and after any series of requests since, a vote of the same address on the
/// same proposal is refused, whatever its choice: because the address has
/// voted, or, where the proposal takes no more votes at all, because voting
/// is closed.
pub proof fn lemma_no_second_vote(
    ledger: GovernanceView,
    ballot: VoteView,
    actions: Seq<LedgerAction>,
)
    requires
        ledger.wf(),
        ledger.vote_check(ballot.proposal_id, ballot.address) is Ok,
    ensures
        ({
            let later = ledger.vote(ballot).run(actions);
            let i = ledger.position(ballot.proposal_id).unwrap();
            &&& later.position(ballot.proposal_id) == Some(i)
            &&& later.voting_rounds[i].has_voted(ballot.address)
            &&& later.vote_check(ballot.proposal_id, ballot.address) == Err::<
                (),
                GovernanceError,
            >(
                if later.proposals[i].is_voting_open() {
                    GovernanceError::AlreadyVoted
                } else {
                    GovernanceError::VotingClosed
                },
            )
        }),
{
    let voted = ledger.vote(ballot);
    let later = voted.run(actions);
    lemma_index_of_first(ledger.proposal_ids(), ballot.proposal_id);
    let i = ledger.position(ballot.proposal_id).unwrap();
    assert(ledger.proposal_ids()[i] == ledger.proposals[i].id);
    lemma_vote_keeps_wf(ledger, ballot);
    lemma_run_keeps_wf(voted, actions);
    assert(voted.proposals[i].matures_to(later.proposals[i]));
    assert(voted.voting_rounds[i].grows_to(later.voting_rounds[i]));
    lemma_position_of(later, i);
    let n = ledger.voting_rounds[i].voted_addresses.len() as int;
    assert(voted.voting_rounds[i].voted_addresses[n] == ballot.address);
    assert(later.voting_rounds[i].voted_addresses[n] == ballot.address);
}

/// A vote that follows at once on a vote of the same address on the same
/// proposal is refused because the address has voted, whatever its choice.
pub proof fn lemma_double_vote_is_refused(ledger: GovernanceView, ballot: VoteView)
    requires
        ledger.wf(),
        ledger.vote_check(ballot.proposal_id, ballot.address) is Ok,
    ensures
        ledger.vote(ballot).vote_check(ballot.proposal_id, ballot.address) == Err::<
            (),
            GovernanceError,
        >(GovernanceError::AlreadyVoted),
{
    lemma_no_second_vote(ledger, ballot, Seq::empty());
    lemma_index_of_first(ledger.proposal_ids(), ballot.proposal_id);
}

/// Execution is final. After a request to execute a proposal has found
/// that it has passed, and after any series of requests since, the proposal
/// is executed, a request to execute it is refused because it was executed,
/// and no vote on it is taken.
pub proof fn lemma_execution_is_final(
    ledger: GovernanceView,
    proposal_id: nat,
    actions: Seq<LedgerAction>,
)
    requires
        ledger.wf(),
        ledger.execute_check(proposal_id) == Ok::<bool, GovernanceError>(true),
    ensures
        ({
            let later = ledger.execute(proposal_id).run(actions);
            let i = ledger.position(proposal_id).unwrap();
            &&& later.position(proposal_id) == Some(i)
            &&& later.proposals[i].executed
            &&& later.execute_check(proposal_id) == Err::<bool, GovernanceError>(
                GovernanceError::AlreadyExecuted,
            )
            &&& forall|address: Seq<char>|
                later.vote_check(proposal_id, address) == Err::<(), GovernanceError>(
                    GovernanceError::VotingClosed,
                )
        }),
{
    let executed = ledger.execute(proposal_id);
    let later = executed.run(actions);
    lemma_index_of_first(ledger.proposal_ids(), proposal_id);
    let i = ledger.position(proposal_id).unwrap();
    assert(ledger.proposal_ids()[i] == ledger.proposals[i].id);
    lemma_execute_keeps_wf(ledger, proposal_id);
    lemma_run_keeps_wf(executed, actions);
    assert(executed.proposals[i].matures_to(later.proposals[i]));
    lemma_position_of(later, i);
}

/// A request to execute a proposal that has not passed changes nothing, so
/// that the request can be made again when more votes have come in.
pub proof fn lemma_failed_execution_changes_nothing(ledger: GovernanceView, proposal_id: nat)
    requires
        ledger.execute_check(proposal_id) != Ok::<bool, GovernanceError>(true),
    ensures
        ledger.execute(proposal_id) == ledger,
{
}

/// An app id is taken for good. Once an app is registered under an id, and
/// after any series of requests since, a request to register an app under
/// that id is refused as a duplicate, whatever the name, the tier and the
/// time that come with it.
pub proof fn lemma_app_id_stays_taken(
    ledger: GovernanceView,
    app_id: Seq<char>,
    actions: Seq<LedgerAction>,
)
    requires
        ledger.wf(),
        ledger.app_ids().contains(app_id),
    ensures
        ledger.run(actions).register_check(app_id) == Err::<(), GovernanceError>(
            GovernanceError::DuplicateApp,
        ),
{
    let later = ledger.run(actions);
    lemma_run_keeps_wf(ledger, actions);
    let k = choose|k: int| 0 <= k < ledger.app_ids().len() && ledger.app_ids()[k] == app_id;
    assert(later.dependent_apps[k] == ledger.dependent_apps[k]);
    assert(later.app_ids()[k] == app_id);
}

/// An app that was just registered has taken its id.
pub proof fn lemma_registered_app_takes_id(ledger: GovernanceView, app: DependentAppView)
    ensures
        ledger.register(app).app_ids().contains(app.app_id),
{
    let after = ledger.register(app);
    assert(after.app_ids()[ledger.dependent_apps.len() as int] == app.app_id);
}

/// Voting that is closed stays closed: once a proposal takes no more votes,
/// it takes none after any series of requests either.
pub proof fn lemma_voting_stays_closed(
    ledger: GovernanceView,
    i: int,
    actions: Seq<LedgerAction>,
)
    requires
        ledger.wf(),
        0 <= i < ledger.proposals.len(),
        !ledger.proposals[i].is_voting_open(),
    ensures
        !ledger.run(actions).proposals[i].is_voting_open(),
        ledger.run(actions).voting_rounds[i].votes == ledger.voting_rounds[i].votes,
    decreases actions.len(),
{
    if actions.len() > 0 {
        let before = ledger.run(actions.drop_last());
        lemma_voting_stays_closed(ledger, i, actions.drop_last());
        lemma_run_keeps_wf(ledger, actions.drop_last());
        match actions.last() {
            LedgerAction::CastVote { ballot } => {
                lemma_index_of_first(before.proposal_ids(), ballot.proposal_id);
                lemma_position_of(before, i);
            },
            LedgerAction::Execute { proposal_id } => {
                lemma_index_of_first(before.proposal_ids(), proposal_id);
            },
            LedgerAction::Advance { proposal_id } => {
                lemma_index_of_first(before.proposal_ids(), proposal_id);
            },
            _ => {},
        }
    }
}

/// Votes are taken in the open phase and in no other.
pub proof fn lemma_open_phase_takes_votes(proposal: ProposalView)
    ensures
        proposal.is_voting_open() <==> proposal.phase() == ProposalPhase::Open,
{
}

/// A proposal goes through its phases in one direction: after any series of
/// requests it is in the phase it was in or in a later one. An executed
/// proposal stays executed, and a closed one is not opened again.
pub proof fn lemma_phase_never_goes_back(
    ledger: GovernanceView,
    i: int,
    actions: Seq<LedgerAction>,
)
    requires
        ledger.wf(),
        0 <= i < ledger.proposals.len(),
    ensures
        i < ledger.run(actions).proposals.len(),
        ledger.run(actions).proposals[i].id == ledger.proposals[i].id,
        ledger.proposals[i].phase().rank() <= ledger.run(actions).proposals[i].phase().rank(),
{
    lemma_run_keeps_wf(ledger, actions);
    assert(ledger.proposals[i].matures_to(ledger.run(actions).proposals[i]));
}

/// A proposal has passed exactly if the voting power in favour is more than
/// the power against and the power abstaining together. With not a single
/// unit of power cast nothing passes, and a tie does not pass.
pub proof fn lemma_passing_is_strict_majority(proposal: ProposalView)
    ensures
        proposal.has_passed() <==> proposal.yes_voting_power > proposal.no_voting_power
            + proposal.abstain_voting_power,
{
}

/// The ids that a ledger gives out rise by one from proposal to proposal,
/// so that none is given out twice: the proposal created by a request has
/// the id that was the next one before, and a higher one is next after.
pub proof fn lemma_ids_are_given_out_once(
    ledger: GovernanceView,
    proposal_type: ProposalType,
    description: Seq<char>,
)
    requires
        ledger.wf(),
    ensures
        ({
            let after = ledger.create(proposal_type, description);
            &&& after.proposals.last().id == ledger.next_proposal_id
            &&& after.next_proposal_id == ledger.next_proposal_id + 1
            &&& ledger.position(ledger.next_proposal_id) is None
            &&& after.position(ledger.next_proposal_id) == Some(ledger.proposals.len() as int)
        }),
{
    let after = ledger.create(proposal_type, description);
    lemma_index_of_first(ledger.proposal_ids(), ledger.next_proposal_id);
    if ledger.proposal_ids().contains(ledger.next_proposal_id) {
        let k = choose|k: int|
            0 <= k < ledger.proposal_ids().len() && ledger.proposal_ids()[k]
                == ledger.next_proposal_id;
        assert(ledger.proposals[k].id < ledger.next_proposal_id);
    }
    lemma_create_keeps_wf(ledger, proposal_type, description);
    lemma_position_of(after, ledger.proposals.len() as int);
}

} // verus!
