use trust_game::entry::{prove_reputation, InputError, ProveInput};

fn input(moves: Vec<u32>, payoffs: [i32; 4]) -> ProveInput {
    ProveInput {
        player_address: "tb1qplayer".to_string(),
        moves,
        opponent_moves: vec![1, 0, 7],
        payoffs,
    }
}

#[test]
fn reputation_is_derived_from_the_moves() {
    let out = prove_reputation(&input(vec![0, 0, 1, 0, 0, 0, 1, 0, 0, 0], [2, 3, -1, 0])).unwrap();
    assert_eq!(out.player_address, "tb1qplayer");
    assert_eq!(out.total_moves, 10);
    assert_eq!(out.cooperative_moves, 8);
    assert_eq!(out.reputation_score, 80);
    assert_eq!(out.tier, 2);
    assert_eq!(out.voting_power, 120);
}

#[test]
fn no_moves_give_the_neutral_reputation() {
    let out = prove_reputation(&input(vec![], [2, 3, -1, 0])).unwrap();
    assert_eq!((out.total_moves, out.cooperative_moves), (0, 0));
    assert_eq!((out.reputation_score, out.tier, out.voting_power), (50, 1, 50));
}

#[test]
fn only_defection_gives_score_zero() {
    let out = prove_reputation(&input(vec![1, 1, 1], [2, 3, -1, 0])).unwrap();
    assert_eq!((out.total_moves, out.cooperative_moves), (3, 0));
    assert_eq!((out.reputation_score, out.tier, out.voting_power), (0, 0, 0));
}

#[test]
fn a_move_that_is_neither_zero_nor_one_is_refused() {
    assert_eq!(
        prove_reputation(&input(vec![0, 1, 2], [2, 3, -1, 0])).err(),
        Some(InputError::InvalidMove)
    );
    assert_eq!(
        prove_reputation(&input(vec![u32::MAX], [2, 3, -1, 0])).err(),
        Some(InputError::InvalidMove)
    );
    // The moves are looked at before the payoffs.
    assert_eq!(
        prove_reputation(&input(vec![5], [3, 2, 9, 9])).err(),
        Some(InputError::InvalidMove)
    );
}

#[test]
fn the_moves_of_the_opponent_are_not_checked() {
    let mut i = input(vec![0, 1], [2, 3, -1, 0]);
    i.opponent_moves = vec![9, 9, 9];
    assert!(prove_reputation(&i).is_ok());
}

#[test]
fn payoffs_out_of_order_are_refused_from_the_temptation_down() {
    // Order of the four numbers: reward, temptation, sucker's payoff, punishment.
    assert_eq!(
        prove_reputation(&input(vec![0], [3, 3, -1, 0])).err(),
        Some(InputError::TemptationTooLow)
    );
    assert_eq!(
        prove_reputation(&input(vec![0], [3, 2, 5, 4])).err(),
        Some(InputError::TemptationTooLow)
    );
    assert_eq!(
        prove_reputation(&input(vec![0], [2, 3, -1, 2])).err(),
        Some(InputError::RewardTooLow)
    );
    assert_eq!(
        prove_reputation(&input(vec![0], [2, 3, 5, 4])).err(),
        Some(InputError::RewardTooLow)
    );
    assert_eq!(
        prove_reputation(&input(vec![0], [2, 3, 0, 0])).err(),
        Some(InputError::PunishmentTooLow)
    );
    assert_eq!(
        prove_reputation(&input(vec![0], [2, 3, 1, 0])).err(),
        Some(InputError::PunishmentTooLow)
    );
    assert!(prove_reputation(&input(vec![0], [i32::MAX - 1, i32::MAX, i32::MIN, 0])).is_ok());
}
