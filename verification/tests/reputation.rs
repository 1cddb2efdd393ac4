use trust_game::binary64::percentage_of;
use trust_game::PlayerReputation;

#[test]
fn test_reputation_calculation_trusted() {
    // 80% cooperative = Trusted tier
    let rep = PlayerReputation::calculate_from_moves("tb1q...".to_string(), 10, 8);

    assert_eq!(rep.reputation_score, 80);
    assert_eq!(rep.tier, 2); // Trusted
    assert_eq!(rep.voting_power, 120); // 80 * 1.5
    assert_eq!(rep.get_tier_label(), "Trusted");
}

#[test]
fn test_reputation_calculation_neutral() {
    // 60% cooperative = Neutral tier
    let rep = PlayerReputation::calculate_from_moves("tb1q...".to_string(), 10, 6);

    assert_eq!(rep.reputation_score, 60);
    assert_eq!(rep.tier, 1); // Neutral
    assert_eq!(rep.voting_power, 60); // 60 * 1.0
    assert_eq!(rep.get_tier_label(), "Neutral");
}

#[test]
fn test_reputation_calculation_suspicious() {
    // 30% cooperative = Suspicious tier
    let rep = PlayerReputation::calculate_from_moves("tb1q...".to_string(), 10, 3);

    assert_eq!(rep.reputation_score, 30);
    assert_eq!(rep.tier, 0); // Suspicious
    assert_eq!(rep.voting_power, 15); // 30 * 0.5
    assert_eq!(rep.get_tier_label(), "Suspicious");
}

#[test]
fn test_reputation_no_moves() {
    // No moves = Neutral (50%)
    let rep = PlayerReputation::calculate_from_moves("tb1q...".to_string(), 0, 0);

    assert_eq!(rep.reputation_score, 50);
    assert_eq!(rep.tier, 1); // Neutral
    assert_eq!(rep.voting_power, 50);
}

/// The score, the tier and the voting power as floating-point arithmetic
/// gives them.
fn by_floats(total_moves: u32, cooperative_moves: u32) -> (u32, u8, u32) {
    let score = if total_moves == 0 {
        50
    } else {
        ((cooperative_moves as f64 / total_moves as f64) * 100.0).round() as u32
    };
    let (tier, multiplier) = if score >= 75 {
        (2, 1.5)
    } else if score >= 50 {
        (1, 1.0)
    } else {
        (0, 0.5)
    };
    let voting_power = (score as f64 * multiplier).round() as u32;
    (score, tier, voting_power)
}

fn by_library(total_moves: u32, cooperative_moves: u32) -> (u32, u8, u32) {
    let rep = PlayerReputation::calculate_from_moves(String::new(), total_moves, cooperative_moves);
    assert_eq!(rep.total_moves, total_moves);
    assert_eq!(rep.cooperative_moves, cooperative_moves);
    (rep.reputation_score, rep.tier, rep.voting_power)
}

#[test]
fn reputation_keeps_address_and_counts() {
    let rep = PlayerReputation::calculate_from_moves("bc1qxyz".to_string(), 7, 4);
    assert_eq!(rep.address, "bc1qxyz");
    assert_eq!(rep.total_moves, 7);
    assert_eq!(rep.cooperative_moves, 4);
    assert_eq!(rep.reputation_score, 57);
    assert_eq!(rep.tier, 1);
    assert_eq!(rep.voting_power, 57);
}

#[test]
fn reputation_agrees_with_floats_on_small_counts() {
    for total in 0..=260u32 {
        for cooperative in 0..=(total + 3) {
            assert_eq!(
                by_library(total, cooperative),
                by_floats(total, cooperative),
                "total {} cooperative {}",
                total,
                cooperative
            );
        }
    }
}

#[test]
fn reputation_agrees_with_floats_on_scattered_counts() {
    let mut x: u64 = 0x9E37_79B9_7F4A_7C15;
    for round in 0..200_000u32 {
        x ^= x << 13;
        x ^= x >> 7;
        x ^= x << 17;
        let a = (x >> 32) as u32;
        let b = x as u32;
        let (total, cooperative) = match round % 4 {
            0 => (a, b),
            1 => (a.max(1), b % a.max(1)),
            2 => (a >> (b % 32), b >> (a % 32)),
            _ => ((a % 100_000) + 1, b % ((a % 100_000) + 1)),
        };
        assert_eq!(
            by_library(total, cooperative),
            by_floats(total, cooperative),
            "total {} cooperative {}",
            total,
            cooperative
        );
    }
}

#[test]
fn reputation_agrees_with_floats_at_exact_halves() {
    // Shares whose percentage lies exactly between two integers.
    for odd in (1..=199u32).step_by(2) {
        for factor in [1u32, 3, 7, 1000, 21_474_836] {
            let total = 200 * factor;
            let cooperative = odd * factor;
            assert_eq!(
                by_library(total, cooperative),
                by_floats(total, cooperative),
                "total {} cooperative {}",
                total,
                cooperative
            );
        }
    }
}

#[test]
fn a_tie_in_percent_can_round_down_as_in_binary64() {
    // 29 of 200 is 14.5 percent, but the binary64 product is just below it.
    let rep = PlayerReputation::calculate_from_moves(String::new(), 200, 29);
    assert_eq!(rep.reputation_score, 14);
    assert_eq!(rep.tier, 0);
    assert_eq!(rep.voting_power, 7);
    // 1 of 200 is 0.5 percent, and the binary64 product is exactly that.
    let rep = PlayerReputation::calculate_from_moves(String::new(), 200, 1);
    assert_eq!(rep.reputation_score, 1);
    assert_eq!(rep.voting_power, 1);
}

#[test]
fn reputation_at_the_limits_of_the_counts() {
    let max = u32::MAX;
    assert_eq!(by_library(max, max), (100, 2, 150));
    assert_eq!(by_library(max, 0), (0, 0, 0));
    assert_eq!(by_library(max, 1), (0, 0, 0));
    assert_eq!(by_library(1, max), (max, 2, max));
    assert_eq!(by_library(1, 1), (100, 2, 150));
    assert_eq!(by_library(1, 0), (0, 0, 0));
    assert_eq!(by_library(2, 1), (50, 1, 50));
    assert_eq!(by_library(3, 1), (33, 0, 17));
    assert_eq!(by_library(3, 2), (67, 1, 67));
    assert_eq!(by_library(4, 3), (75, 2, 113));
    assert_eq!(by_library(100, 49), (49, 0, 25));
    assert_eq!(by_library(100, 74), (74, 1, 74));
    // More cooperative moves than moves: taken as they come.
    assert_eq!(by_library(1, 2), (200, 2, 300));
    assert_eq!(by_library(3, 100_000_000), (3_333_333_333, 2, max));
    for (total, cooperative) in [(max, max), (1, max), (3, 100_000_000), (max, max - 1)] {
        assert_eq!(by_library(total, cooperative), by_floats(total, cooperative));
    }
}

#[test]
fn tiers_change_at_50_and_75() {
    assert_eq!(by_library(100, 49).1, 0);
    assert_eq!(by_library(100, 50).1, 1);
    assert_eq!(by_library(100, 74).1, 1);
    assert_eq!(by_library(100, 75).1, 2);
    assert_eq!(by_library(100, 100).1, 2);
}

#[test]
fn voting_power_rounds_halves_up() {
    // Tier 0: half the score.
    assert_eq!(by_library(100, 1), (1, 0, 1));
    assert_eq!(by_library(100, 2), (2, 0, 1));
    assert_eq!(by_library(100, 3), (3, 0, 2));
    assert_eq!(by_library(100, 49), (49, 0, 25));
    // Tier 2: one and a half times the score.
    assert_eq!(by_library(100, 75), (75, 2, 113));
    assert_eq!(by_library(100, 76), (76, 2, 114));
    assert_eq!(by_library(100, 99), (99, 2, 149));
}

#[test]
fn tier_labels() {
    let mut rep = PlayerReputation::calculate_from_moves("a".to_string(), 10, 8);
    rep.tier = 0;
    assert_eq!(rep.get_tier_label(), "Suspicious");
    rep.tier = 1;
    assert_eq!(rep.get_tier_label(), "Neutral");
    rep.tier = 2;
    assert_eq!(rep.get_tier_label(), "Trusted");
    rep.tier = 3;
    assert_eq!(rep.get_tier_label(), "Unknown");
    rep.tier = 255;
    assert_eq!(rep.get_tier_label(), "Unknown");
}

#[test]
fn percentage_agrees_with_floats() {
    for whole in 1..=150u32 {
        for part in 0..=(2 * whole) {
            let expected = ((part as f64 / whole as f64) * 100.0).round() as u64;
            assert_eq!(percentage_of(part, whole), expected, "{} of {}", part, whole);
        }
    }
    assert_eq!(percentage_of(u32::MAX, 1), 429_496_729_500);
    assert_eq!(percentage_of(1, u32::MAX), 0);
    assert_eq!(percentage_of(21_474_837, u32::MAX), 1);
    assert_eq!(percentage_of(21_474_836, u32::MAX), 0);
}
