use trust_game::{
    get_payoffs, validate_always_cooperate_strategy, validate_always_defect_strategy,
    validate_grudge_strategy, validate_move, validate_strategy, validate_tft_strategy, GameError,
    GameState, Move, PayoffMatrix, RoundValidator, Strategy,
};

#[test]
fn test_payoff_calculation() {
    let matrix = PayoffMatrix::default();

    // Both cooperate
    assert_eq!(get_payoffs(Move::Cooperate, Move::Cooperate, &matrix), (2, 2));

    // One defects
    assert_eq!(get_payoffs(Move::Cooperate, Move::Defect, &matrix), (-1, 3));

    // Both defect
    assert_eq!(get_payoffs(Move::Defect, Move::Defect, &matrix), (0, 0));
}

#[test]
fn test_validate_move() {
    let state = GameState::new(10);

    // Valid move with correct payoffs
    assert!(validate_move(&state, Move::Cooperate, Move::Cooperate, 2, 2));

    // Invalid: wrong payoff
    assert!(!validate_move(&state, Move::Cooperate, Move::Cooperate, 3, 3));
}

#[test]
fn test_tft_strategy() {
    let mut state = GameState::new(5);

    // First move should be cooperate
    assert!(validate_tft_strategy(&state, Move::Cooperate));
    assert!(!validate_tft_strategy(&state, Move::Defect));

    // Move to round 1
    state.round = 1;

    // After opponent cooperates, should cooperate
    state.history_2.push(Move::Cooperate);
    assert!(validate_tft_strategy(&state, Move::Cooperate));

    // Move to round 2
    state.round = 2;

    // After opponent defects, should defect
    state.history_2.push(Move::Defect);
    assert!(validate_tft_strategy(&state, Move::Defect));
}

#[test]
fn test_round_validator() {
    let mut validator = RoundValidator::new(GameState::new(3));

    // Play round 1
    let outcome = validator.play_round(Move::Cooperate, Move::Cooperate);
    assert!(outcome.is_ok());
    let outcome = outcome.unwrap();
    assert_eq!(outcome.payoff_1, 2);
    assert_eq!(outcome.payoff_2, 2);

    // Play round 2
    let outcome = validator.play_round(Move::Defect, Move::Cooperate);
    assert!(outcome.is_ok());

    // Check state
    assert_eq!(validator.state.round, 2);
    assert_eq!(validator.state.score_1, 2 + 3); // 2 from coop + 3 from defect
    assert!(!validator.is_finished());
}

#[test]
fn default_matrix_is_a_dilemma() {
    let m = PayoffMatrix::default();
    assert_eq!((m.r, m.s, m.t, m.p), (2, -1, 3, 0));
    assert!(m.t > m.r && m.r > m.p && m.p > m.s);
}

#[test]
fn payoffs_follow_the_matrix_for_every_pair_of_moves() {
    let m = PayoffMatrix { r: 7, s: -4, t: 11, p: 1 };
    assert_eq!(get_payoffs(Move::Cooperate, Move::Cooperate, &m), (7, 7));
    assert_eq!(get_payoffs(Move::Defect, Move::Defect, &m), (1, 1));
    assert_eq!(get_payoffs(Move::Cooperate, Move::Defect, &m), (-4, 11));
    assert_eq!(get_payoffs(Move::Defect, Move::Cooperate, &m), (11, -4));
}

#[test]
fn new_game_starts_empty() {
    let state = GameState::new(4);
    assert_eq!(state.round, 0);
    assert_eq!(state.total_rounds, 4);
    assert_eq!(state.payoff_matrix, PayoffMatrix::default());
    assert_eq!((state.score_1, state.score_2), (0, 0));
    assert!(state.history_1.is_empty());
    assert!(state.history_2.is_empty());

    let custom = PayoffMatrix { r: 5, s: 0, t: 8, p: 1 };
    let state = GameState::new_with_payoffs(2, custom);
    assert_eq!(state.payoff_matrix, custom);
    assert_eq!(state.total_rounds, 2);
    assert_eq!(state.round, 0);
}

#[test]
fn validate_move_rejects_a_finished_game() {
    let mut state = GameState::new(2);
    state.round = 2;
    assert!(!validate_move(&state, Move::Cooperate, Move::Cooperate, 2, 2));
    let state = GameState::new(0);
    assert!(!validate_move(&state, Move::Cooperate, Move::Cooperate, 2, 2));
}

#[test]
fn validate_move_rejects_a_matrix_that_does_not_reward_cooperation() {
    let level = PayoffMatrix { r: 1, s: -1, t: 3, p: 1 };
    let state = GameState::new_with_payoffs(3, level);
    assert!(!validate_move(&state, Move::Cooperate, Move::Cooperate, 1, 1));
    let upside_down = PayoffMatrix { r: 0, s: -1, t: 3, p: 1 };
    let state = GameState::new_with_payoffs(3, upside_down);
    assert!(!validate_move(&state, Move::Defect, Move::Defect, 1, 1));
    let fine = PayoffMatrix { r: 2, s: -1, t: 3, p: 1 };
    let state = GameState::new_with_payoffs(3, fine);
    assert!(validate_move(&state, Move::Defect, Move::Defect, 1, 1));
}

#[test]
fn validate_move_checks_each_claimed_payoff() {
    let state = GameState::new(3);
    assert!(validate_move(&state, Move::Cooperate, Move::Defect, -1, 3));
    assert!(!validate_move(&state, Move::Cooperate, Move::Defect, -1, 2));
    assert!(!validate_move(&state, Move::Cooperate, Move::Defect, 0, 3));
    assert!(!validate_move(&state, Move::Cooperate, Move::Defect, 3, -1));
    assert!(validate_move(&state, Move::Defect, Move::Cooperate, 3, -1));
}

#[test]
fn validate_move_changes_nothing() {
    let state = GameState::new(3);
    assert!(validate_move(&state, Move::Cooperate, Move::Cooperate, 2, 2));
    assert_eq!(state.round, 0);
    assert!(state.history_1.is_empty());
    assert_eq!(state.score_1, 0);
}

#[test]
fn tit_for_tat_without_opponent_history_after_round_zero_is_rejected() {
    let mut state = GameState::new(5);
    state.round = 1;
    assert!(!validate_tft_strategy(&state, Move::Cooperate));
    assert!(!validate_tft_strategy(&state, Move::Defect));
}

#[test]
fn tit_for_tat_repeats_only_the_last_move_of_the_opponent() {
    let mut state = GameState::new(5);
    state.round = 3;
    state.history_2 = vec![Move::Defect, Move::Defect, Move::Cooperate];
    assert!(validate_tft_strategy(&state, Move::Cooperate));
    assert!(!validate_tft_strategy(&state, Move::Defect));
}

#[test]
fn tit_for_tat_at_round_zero_ignores_history() {
    let mut state = GameState::new(5);
    state.history_2.push(Move::Defect);
    assert!(validate_tft_strategy(&state, Move::Cooperate));
    assert!(!validate_tft_strategy(&state, Move::Defect));
}

#[test]
fn constant_strategies_accept_their_constant() {
    assert!(validate_always_defect_strategy(Move::Defect));
    assert!(!validate_always_defect_strategy(Move::Cooperate));
    assert!(validate_always_cooperate_strategy(Move::Cooperate));
    assert!(!validate_always_cooperate_strategy(Move::Defect));
}

#[test]
fn grudge_cooperates_until_the_first_defection_and_never_forgives() {
    let mut state = GameState::new(10);
    assert!(validate_grudge_strategy(&state, Move::Cooperate));
    assert!(!validate_grudge_strategy(&state, Move::Defect));

    state.history_2.push(Move::Cooperate);
    state.history_2.push(Move::Cooperate);
    assert!(validate_grudge_strategy(&state, Move::Cooperate));
    assert!(!validate_grudge_strategy(&state, Move::Defect));

    state.history_2.push(Move::Defect);
    assert!(validate_grudge_strategy(&state, Move::Defect));
    assert!(!validate_grudge_strategy(&state, Move::Cooperate));

    state.history_2.push(Move::Cooperate);
    state.history_2.push(Move::Cooperate);
    assert!(validate_grudge_strategy(&state, Move::Defect));
    assert!(!validate_grudge_strategy(&state, Move::Cooperate));
}

#[test]
fn validate_strategy_agrees_with_the_four_checks() {
    let mut state = GameState::new(10);
    state.round = 2;
    state.history_2 = vec![Move::Defect, Move::Cooperate];
    for m in [Move::Cooperate, Move::Defect] {
        assert_eq!(
            validate_strategy(Strategy::TitForTat, &state, m),
            validate_tft_strategy(&state, m)
        );
        assert_eq!(
            validate_strategy(Strategy::Grudge, &state, m),
            validate_grudge_strategy(&state, m)
        );
        assert_eq!(
            validate_strategy(Strategy::AlwaysDefect, &state, m),
            validate_always_defect_strategy(m)
        );
        assert_eq!(
            validate_strategy(Strategy::AlwaysCooperate, &state, m),
            validate_always_cooperate_strategy(m)
        );
    }
    assert!(validate_strategy(Strategy::TitForTat, &state, Move::Cooperate));
    assert!(validate_strategy(Strategy::Grudge, &state, Move::Defect));
}

#[test]
fn play_round_records_moves_scores_and_round() {
    let mut validator = RoundValidator::new(GameState::new(3));
    let outcome = validator.play_round(Move::Cooperate, Move::Defect).unwrap();
    assert_eq!(outcome.move_1, Move::Cooperate);
    assert_eq!(outcome.move_2, Move::Defect);
    assert_eq!((outcome.payoff_1, outcome.payoff_2), (-1, 3));
    let state = validator.get_state();
    assert_eq!(state.round, 1);
    assert_eq!(state.history_1, vec![Move::Cooperate]);
    assert_eq!(state.history_2, vec![Move::Defect]);
    assert_eq!((state.score_1, state.score_2), (-1, 3));

    validator.play_round(Move::Defect, Move::Defect).unwrap();
    let state = validator.get_state();
    assert_eq!(state.round, 2);
    assert_eq!(state.history_1, vec![Move::Cooperate, Move::Defect]);
    assert_eq!(state.history_2, vec![Move::Defect, Move::Defect]);
    assert_eq!((state.score_1, state.score_2), (-1, 3));
}

#[test]
fn game_is_finished_after_exactly_the_total_number_of_rounds() {
    let total = 5;
    let mut validator = RoundValidator::new(GameState::new(total));
    for played in 0..total {
        assert!(!validator.is_finished());
        assert_eq!(validator.state.round, played);
        assert!(validator.play_round(Move::Cooperate, Move::Cooperate).is_ok());
    }
    assert!(validator.is_finished());
    let before = validator.get_state().clone();
    assert_eq!(
        validator.play_round(Move::Cooperate, Move::Cooperate),
        Err(GameError::GameFinished)
    );
    let after = validator.get_state();
    assert_eq!(after.round, before.round);
    assert_eq!(after.history_1, before.history_1);
    assert_eq!(after.history_2, before.history_2);
    assert_eq!((after.score_1, after.score_2), (before.score_1, before.score_2));
    assert_eq!((after.score_1, after.score_2), (10, 10));
}

#[test]
fn game_of_no_rounds_is_finished_at_once() {
    let mut validator = RoundValidator::new(GameState::new(0));
    assert!(validator.is_finished());
    assert_eq!(
        validator.play_round(Move::Defect, Move::Cooperate),
        Err(GameError::GameFinished)
    );
}

#[test]
fn play_round_does_not_check_the_matrix() {
    let flat = PayoffMatrix { r: 0, s: 0, t: 0, p: 0 };
    let mut validator = RoundValidator::new(GameState::new_with_payoffs(1, flat));
    let outcome = validator.play_round(Move::Cooperate, Move::Cooperate).unwrap();
    assert_eq!((outcome.payoff_1, outcome.payoff_2), (0, 0));
    assert!(validator.is_finished());
}
