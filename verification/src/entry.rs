//! What stands between the input of a run and its output: the check of a
//! player's raw moves and of the raw payoffs, and the reputation that the
//! moves earn.

use crate::game::PayoffMatrix;
use crate::reputation::{reputation_of, PlayerReputation, ReputationView};
use vstd::prelude::*;

verus! {

/// The input of a run: the history of one player, as it was handed in.
#[derive(Debug, Clone)]
pub struct ProveInput {
    pub player_address: String,
    /// The moves of the player, 0 for cooperation and 1 for defection.
    pub moves: Vec<u32>,
    /// The moves of the opponent, in the same code.
    pub opponent_moves: Vec<u32>,
    /// The payoffs in the order reward, temptation, sucker's payoff,
    /// punishment.
    pub payoffs: [i32; 4],
}

/// The output of a run: the reputation that the moves earned.
#[derive(Debug, Clone)]
pub struct ProveOutput {
    pub player_address: String,
    pub total_moves: u32,
    pub cooperative_moves: u32,
    pub reputation_score: u32,
    pub tier: u8,
    pub voting_power: u32,
}

impl View for ProveOutput {
    type V = ReputationView;

    open spec fn view(&self) -> ReputationView {
        ReputationView {
            address: self.player_address@,
            total_moves: self.total_moves as nat,
            cooperative_moves: self.cooperative_moves as nat,
            reputation_score: self.reputation_score as nat,
            tier: self.tier as nat,
            voting_power: self.voting_power as nat,
        }
    }
}

/// Why an input was turned down.
#[derive(Debug, Clone, Copy, PartialEq, Eq, Structural)]
pub enum InputError {
    /// A move of the player is neither 0 nor 1.
    InvalidMove,
    /// The temptation is not above the reward.
    TemptationTooLow,
    /// The reward is not above the punishment.
    RewardTooLow,
    /// The punishment is not above the sucker's payoff.
    PunishmentTooLow,
}

/// How many of the moves are cooperative, that is 0.
pub open spec fn count_cooperative(moves: Seq<u32>) -> nat
    decreases moves.len(),
{
    if moves.len() == 0 {
        0
    } else {
        count_cooperative(moves.drop_last()) + if moves.last() == 0 {
            1nat
        } else {
            0nat
        }
    }
}

/// Every move is 0 or 1.
pub open spec fn moves_are_binary(moves: Seq<u32>) -> bool {
    forall|i: int| 0 <= i < moves.len() ==> moves[i] <= 1
}

/// The matrix that four payoffs in the order of the input stand for.
pub open spec fn matrix_of(payoffs: Seq<i32>) -> PayoffMatrix
    recommends
        payoffs.len() == 4,
{
    PayoffMatrix { r: payoffs[0], t: payoffs[1], s: payoffs[2], p: payoffs[3] }
}

/// Whether the moves and the payoffs are taken, and if not, what is wrong
/// with them. The moves are looked at first, then the payoffs from the
/// temptation down.
pub open spec fn input_check(moves: Seq<u32>, payoffs: Seq<i32>) -> Result<(), InputError> {
    let matrix = matrix_of(payoffs);
    if !moves_are_binary(moves) {
        Err(InputError::InvalidMove)
    } else if !(matrix.t > matrix.r) {
        Err(InputError::TemptationTooLow)
    } else if !(matrix.r > matrix.p) {
        Err(InputError::RewardTooLow)
    } else if !(matrix.p > matrix.s) {
        Err(InputError::PunishmentTooLow)
    } else {
        Ok(())
    }
}

/// No more moves are cooperative than there are moves.
pub proof fn lemma_count_cooperative_bounded(moves: Seq<u32>)
    ensures
        count_cooperative(moves) <= moves.len(),
    decreases moves.len(),
{
    if moves.len() > 0 {
        lemma_count_cooperative_bounded(moves.drop_last());
    }
}

/// An input is taken exactly if its moves are binary and its payoffs make a
/// well-formed matrix.
pub proof fn lemma_input_check_is_validity(moves: Seq<u32>, payoffs: Seq<i32>)
    ensures
        input_check(moves, payoffs) is Ok <==> moves_are_binary(moves) && matrix_of(
            payoffs,
        ).well_formed(),
{
}

/// Checks the moves of the player and the payoffs, and derives the
/// reputation of the player from the count of the moves and of the
/// cooperative ones among them. The moves of the opponent are not looked at.
pub fn prove_reputation(input: &ProveInput) -> (res: Result<ProveOutput, InputError>)
    requires
        input.moves@.len() <= u32::MAX,
    ensures
        match res {
            Ok(output) => input_check(input.moves@, input.payoffs@) is Ok && output@
                == reputation_of(
                input.player_address@,
                input.moves@.len(),
                count_cooperative(input.moves@),
            ),
            Err(e) => input_check(input.moves@, input.payoffs@) == Err::<(), InputError>(e),
        },
{
    let mut cooperative_count: u32 = 0;
    let mut i: usize = 0;
    while i < input.moves.len()
        invariant
            i <= input.moves@.len() <= u32::MAX,
            cooperative_count == count_cooperative(input.moves@.take(i as int)),
            cooperative_count <= i,
            moves_are_binary(input.moves@.take(i as int)),
        decreases input.moves@.len() - i,
    {
        let move_val = input.moves[i];
        proof {
            assert(input.moves@.take(i + 1).drop_last() =~= input.moves@.take(i as int));
        }
        if move_val == 0 {
            cooperative_count = cooperative_count + 1;
        }
        if !(move_val == 0 || move_val == 1) {
            return Err(InputError::InvalidMove);
        }
        i += 1;
    }
    proof {
        assert(input.moves@.take(i as int) =~= input.moves@);
    }
    if !(input.payoffs[1] > input.payoffs[0]) {
        return Err(InputError::TemptationTooLow);
    }
    if !(input.payoffs[0] > input.payoffs[3]) {
        return Err(InputError::RewardTooLow);
    }
    if !(input.payoffs[3] > input.payoffs[2]) {
        return Err(InputError::PunishmentTooLow);
    }
    let total_moves = input.moves.len() as u32;
    let reputation = PlayerReputation::calculate_from_moves(
        input.player_address.clone(),
        total_moves,
        cooperative_count,
    );
    Ok(
        ProveOutput {
            player_address: reputation.address,
            total_moves,
            cooperative_moves: cooperative_count,
            reputation_score: reputation.reputation_score,
            tier: reputation.tier,
            voting_power: reputation.voting_power,
        },
    )
}

} // verus!
