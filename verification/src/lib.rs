//! An iterated two-player trust game, the reputation that a player earns in
//! it, and a ledger of proposals on which players vote with that reputation.

pub mod binary64;
pub mod entry;
pub mod game;
pub mod governance;
pub mod governance_laws;
pub mod governance_model;
pub mod reputation;

pub use game::{
    get_payoffs, validate_always_cooperate_strategy, validate_always_defect_strategy,
    validate_grudge_strategy, validate_move, validate_strategy, validate_tft_strategy, GameError,
    GameState, Move, PayoffMatrix, RoundOutcome, RoundValidator, Strategy,
};
pub use reputation::PlayerReputation;
