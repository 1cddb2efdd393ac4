//! The reputation that a player's moves earn: a score in percent, a tier,
//! and the voting power that the ledger weighs the player's votes with.

use crate::binary64::{
    lemma_percentage_at_most_100, lemma_percentage_of_the_whole, percentage, percentage_of,
    round_half_up,
};
use vstd::prelude::*;

verus! {

/// The reputation of one player, as derived from the count of the player's
/// moves and of the cooperative ones among them.
#[derive(Debug, Clone)]
pub struct PlayerReputation {
    pub address: String,
    pub total_moves: u32,
    pub cooperative_moves: u32,
    /// The share of cooperative moves in percent.
    pub reputation_score: u32,
    /// 0 for suspicious, 1 for neutral, 2 for trusted.
    pub tier: u8,
    /// The score weighted by the tier.
    pub voting_power: u32,
}

/// A reputation as a value.
#[verifier::ext_equal]
pub struct ReputationView {
    pub address: Seq<char>,
    pub total_moves: nat,
    pub cooperative_moves: nat,
    pub reputation_score: nat,
    pub tier: nat,
    pub voting_power: nat,
}

impl View for PlayerReputation {
    type V = ReputationView;

    open spec fn view(&self) -> ReputationView {
        ReputationView {
            address: self.address@,
            total_moves: self.total_moves as nat,
            cooperative_moves: self.cooperative_moves as nat,
            reputation_score: self.reputation_score as nat,
            tier: self.tier as nat,
            voting_power: self.voting_power as nat,
        }
    }
}

/// The smaller of a number and the largest that 32 bits hold.
pub open spec fn saturated(n: nat) -> nat {
    if n > u32::MAX {
        u32::MAX as nat
    } else {
        n
    }
}

/// The score that the counts earn: 50 for a player without moves, else the
/// share of cooperative moves in percent as binary64 arithmetic gives it,
/// and no more than 32 bits hold.
pub open spec fn score_of(total_moves: nat, cooperative_moves: nat) -> nat {
    if total_moves == 0 {
        50
    } else {
        saturated(percentage(cooperative_moves, total_moves))
    }
}

/// The tier of a score: 2 from 75 on, 1 from 50 on, 0 below.
pub open spec fn tier_of(score: nat) -> nat {
    if score >= 75 {
        2
    } else if score >= 50 {
        1
    } else {
        0
    }
}

/// The voting power of a score: one and a half times the score in tier 2,
/// the score in tier 1, half the score in tier 0, each rounded to the
/// nearest integer, a tie going up, and no more than 32 bits hold.
pub open spec fn voting_power_of(score: nat) -> nat {
    if tier_of(score) == 2 {
        saturated(round_half_up(3 * score, 2))
    } else if tier_of(score) == 1 {
        score
    } else {
        round_half_up(score, 2)
    }
}

/// The reputation that the counts earn the player at the address.
pub open spec fn reputation_of(address: Seq<char>, total_moves: nat, cooperative_moves: nat)
    -> ReputationView {
    let score = score_of(total_moves, cooperative_moves);
    ReputationView {
        address,
        total_moves,
        cooperative_moves,
        reputation_score: score,
        tier: tier_of(score),
        voting_power: voting_power_of(score),
    }
}

/// The name of a tier.
pub open spec fn tier_label(tier: nat) -> Seq<char> {
    if tier == 0 {
        "Suspicious"@
    } else if tier == 1 {
        "Neutral"@
    } else if tier == 2 {
        "Trusted"@
    } else {
        "Unknown"@
    }
}

/// Half of an integer, rounded to the nearest integer with a tie going up,
/// is half of the next integer, rounded down.
pub proof fn lemma_round_half_up_of_halves(n: nat)
    ensures
        round_half_up(n, 2) == (n + 1) / 2,
{
    let doubled: nat = 2 * 2;
    assert(doubled == 4);
    assert((2 * n + 2) / 4 == (n + 1) / 2);
    assert(round_half_up(n, 2) == (2 * n + 2) / doubled);
}

/// Counts that agree with each other, the cooperative moves being no more
/// than the moves, earn a score of at most 100 and a voting power of at most
/// 150.
pub proof fn lemma_reputation_in_range(total_moves: nat, cooperative_moves: nat)
    requires
        cooperative_moves <= total_moves,
    ensures
        score_of(total_moves, cooperative_moves) <= 100,
        voting_power_of(score_of(total_moves, cooperative_moves)) <= 150,
{
    if total_moves > 0 {
        lemma_percentage_at_most_100(cooperative_moves, total_moves);
    }
    let score = score_of(total_moves, cooperative_moves);
    lemma_round_half_up_of_halves(3 * score);
    lemma_round_half_up_of_halves(score);
}

/// A player who has moved and always cooperated has the score 100, the
/// tier 2 and the voting power 150; one who never cooperated has the score
/// 0, the tier 0 and no voting power; one who has not moved has the score
/// 50, the tier 1 and the voting power 50.
pub proof fn lemma_reputation_at_the_ends(total_moves: nat)
    ensures
        total_moves > 0 ==> score_of(total_moves, total_moves) == 100 && tier_of(100) == 2
            && voting_power_of(100) == 150,
        total_moves > 0 ==> score_of(total_moves, 0) == 0 && tier_of(0) == 0 && voting_power_of(0)
            == 0,
        score_of(0, 0) == 50 && tier_of(50) == 1 && voting_power_of(50) == 50,
{
    if total_moves > 0 {
        lemma_percentage_of_the_whole(total_moves);
    }
    lemma_round_half_up_of_halves(300);
    lemma_round_half_up_of_halves(0);
}

/// Neither the tier nor the voting power falls as the score rises.
pub proof fn lemma_voting_power_rises_with_score(lower: nat, higher: nat)
    requires
        lower <= higher,
    ensures
        tier_of(lower) <= tier_of(higher),
        voting_power_of(lower) <= voting_power_of(higher),
{
    lemma_round_half_up_of_halves(3 * lower);
    lemma_round_half_up_of_halves(lower);
    lemma_round_half_up_of_halves(3 * higher);
    lemma_round_half_up_of_halves(higher);
}

impl PlayerReputation {
    /// Derives the reputation of a player from the count of the player's
    /// moves and of the cooperative ones among them. The two counts are
    /// taken as they come, also where the second exceeds the first.
    pub fn calculate_from_moves(address: String, total_moves: u32, cooperative_moves: u32) -> (res:
        PlayerReputation)
        ensures
            res@ == reputation_of(address@, total_moves as nat, cooperative_moves as nat),
            cooperative_moves <= total_moves ==> res.reputation_score <= 100 && res.voting_power
                <= 150,
    {
        proof {
            if cooperative_moves <= total_moves {
                lemma_reputation_in_range(total_moves as nat, cooperative_moves as nat);
            }
        }
        let score: u32 = if total_moves == 0 {
            50
        } else {
            let percent: u64 = percentage_of(cooperative_moves, total_moves);
            if percent > 4294967295 {
                4294967295
            } else {
                percent as u32
            }
        };
        let (tier, weighted): (u8, u64) = if score >= 75 {
            (2, (3 * (score as u64) + 1) / 2)
        } else if score >= 50 {
            (1, score as u64)
        } else {
            (0, (score as u64 + 1) / 2)
        };
        proof {
            let s = score as nat;
            lemma_round_half_up_of_halves(3 * s);
            lemma_round_half_up_of_halves(s);
            assert(score as nat == score_of(total_moves as nat, cooperative_moves as nat));
            assert(tier as nat == tier_of(s));
            assert(weighted as nat == if tier == 2 {
                round_half_up(3 * s, 2)
            } else if tier == 1 {
                s
            } else {
                round_half_up(s, 2)
            });
        }
        let voting_power: u32 = if weighted > 4294967295 {
            4294967295
        } else {
            weighted as u32
        };
        PlayerReputation {
            address,
            total_moves,
            cooperative_moves,
            reputation_score: score,
            tier,
            voting_power,
        }
    }

    /// The name of the tier of this reputation.
    pub fn get_tier_label(&self) -> (label: &str)
        ensures
            label@ == tier_label(self.tier as nat),
    {
        match self.tier {
            0 => "Suspicious",
            1 => "Neutral",
            2 => "Trusted",
            _ => "Unknown",
        }
    }
}

} // verus!
