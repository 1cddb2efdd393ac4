//! The round engine: payoffs of one round, the running state of a game, the
//! checks that a claimed round or a proposed move passes, and the one
//! operation that plays a round.

use vstd::prelude::*;

verus! {

/// What a player does in one round.
#[derive(Debug, Clone, Copy, PartialEq, Eq, Structural)]
pub enum Move {
    Cooperate,
    Defect,
}

/// The two moves of one round and what each player earned by them.
#[derive(Debug, Clone, Copy, PartialEq, Eq, Structural)]
pub struct RoundOutcome {
    pub move_1: Move,
    pub move_2: Move,
    pub payoff_1: i32,
    pub payoff_2: i32,
}

/// The four payoffs of a round: reward `r` for mutual cooperation, sucker's
/// payoff `s`, temptation `t`, and punishment `p` for mutual defection.
#[derive(Debug, Clone, Copy, PartialEq, Eq, Structural)]
pub struct PayoffMatrix {
    pub r: i32,
    pub s: i32,
    pub t: i32,
    pub p: i32,
}

impl PayoffMatrix {
    /// The matrix that a game has unless another is given.
    pub open spec fn standard() -> PayoffMatrix {
        PayoffMatrix { r: 2i32, s: (-1i32), t: 3i32, p: 0i32 }
    }

    /// A dilemma proper: temptation beats reward, reward beats punishment,
    /// punishment beats the sucker's payoff.
    pub open spec fn well_formed(self) -> bool {
        self.t > self.r && self.r > self.p && self.p > self.s
    }
}

impl Default for PayoffMatrix {
    fn default() -> (matrix: PayoffMatrix)
        ensures
            matrix == PayoffMatrix::standard(),
    {
        PayoffMatrix { r: 2, s: -1, t: 3, p: 0 }
    }
}

/// The payoffs of the two players for a pair of moves.
pub open spec fn payoffs_of(move_1: Move, move_2: Move, matrix: PayoffMatrix) -> (i32, i32) {
    match (move_1, move_2) {
        (Move::Cooperate, Move::Cooperate) => (matrix.r, matrix.r),
        (Move::Cooperate, Move::Defect) => (matrix.s, matrix.t),
        (Move::Defect, Move::Cooperate) => (matrix.t, matrix.s),
        (Move::Defect, Move::Defect) => (matrix.p, matrix.p),
    }
}

/// Looks the payoffs of one round up in the matrix.
pub fn get_payoffs(move_1: Move, move_2: Move, payoff_matrix: &PayoffMatrix) -> (res: (i32, i32))
    ensures
        res == payoffs_of(move_1, move_2, *payoff_matrix),
{
    match (move_1, move_2) {
        (Move::Cooperate, Move::Cooperate) => (payoff_matrix.r, payoff_matrix.r),
        (Move::Cooperate, Move::Defect) => (payoff_matrix.s, payoff_matrix.t),
        (Move::Defect, Move::Cooperate) => (payoff_matrix.t, payoff_matrix.s),
        (Move::Defect, Move::Defect) => (payoff_matrix.p, payoff_matrix.p),
    }
}

/// A repeated game in progress.
#[derive(Debug, Clone)]
pub struct GameState {
    /// Index of the round to be played next, counted from 0.
    pub round: u32,
    /// Number of rounds after which the game is over.
    pub total_rounds: u32,
    pub payoff_matrix: PayoffMatrix,
    /// What player 1 has earned so far.
    pub score_1: i32,
    /// What player 2 has earned so far.
    pub score_2: i32,
    /// The moves of player 1, oldest first.
    pub history_1: Vec<Move>,
    /// The moves of player 2, oldest first.
    pub history_2: Vec<Move>,
}

/// A game as a mathematical value: counters without bound, histories as
/// sequences.
#[verifier::ext_equal]
pub struct GameView {
    pub round: nat,
    pub total_rounds: nat,
    pub payoff_matrix: PayoffMatrix,
    pub score_1: int,
    pub score_2: int,
    pub history_1: Seq<Move>,
    pub history_2: Seq<Move>,
}

impl View for GameState {
    type V = GameView;

    open spec fn view(&self) -> GameView {
        GameView {
            round: self.round as nat,
            total_rounds: self.total_rounds as nat,
            payoff_matrix: self.payoff_matrix,
            score_1: self.score_1 as int,
            score_2: self.score_2 as int,
            history_1: self.history_1@,
            history_2: self.history_2@,
        }
    }
}

/// What the first player has earned over the rounds recorded in two
/// histories, as far as both reach.
pub open spec fn earned_1(history_1: Seq<Move>, history_2: Seq<Move>, matrix: PayoffMatrix) -> int
    decreases history_1.len(),
{
    if history_1.len() == 0 || history_2.len() == 0 {
        0
    } else {
        earned_1(history_1.drop_last(), history_2.drop_last(), matrix) + payoffs_of(
            history_1.last(),
            history_2.last(),
            matrix,
        ).0
    }
}

/// What the second player has earned over the rounds recorded in two
/// histories, as far as both reach.
pub open spec fn earned_2(history_1: Seq<Move>, history_2: Seq<Move>, matrix: PayoffMatrix) -> int
    decreases history_1.len(),
{
    if history_1.len() == 0 || history_2.len() == 0 {
        0
    } else {
        earned_2(history_1.drop_last(), history_2.drop_last(), matrix) + payoffs_of(
            history_1.last(),
            history_2.last(),
            matrix,
        ).1
    }
}

impl GameView {
    /// A game of `total_rounds` rounds before its first round.
    pub open spec fn start(total_rounds: nat, payoff_matrix: PayoffMatrix) -> GameView {
        GameView {
            round: 0,
            total_rounds,
            payoff_matrix,
            score_1: 0,
            score_2: 0,
            history_1: Seq::empty(),
            history_2: Seq::empty(),
        }
    }

    /// No round is left to play.
    pub open spec fn is_finished(self) -> bool {
        self.round >= self.total_rounds
    }

    /// The game after one more round with the given moves.
    pub open spec fn play(self, move_1: Move, move_2: Move) -> GameView {
        let payoffs = payoffs_of(move_1, move_2, self.payoff_matrix);
        GameView {
            round: self.round + 1,
            score_1: self.score_1 + payoffs.0,
            score_2: self.score_2 + payoffs.1,
            history_1: self.history_1.push(move_1),
            history_2: self.history_2.push(move_2),
            ..self
        }
    }

    /// What a request to play a round leaves behind: the round is played
    /// while the game lasts, and refused, with nothing changed, once it is
    /// over.
    pub open spec fn step(self, move_1: Move, move_2: Move) -> GameView {
        if self.is_finished() {
            self
        } else {
            self.play(move_1, move_2)
        }
    }

    /// The game after a series of requests to play, each a pair of moves.
    pub open spec fn after(self, moves: Seq<(Move, Move)>) -> GameView
        decreases moves.len(),
    {
        if moves.len() == 0 {
            self
        } else {
            self.after(moves.drop_last()).step(moves.last().0, moves.last().1)
        }
    }

    /// The state of a game that was started and then only played: a move of
    /// each player for every round so far, no round beyond the last, and
    /// scores that are the sums of the payoffs of those rounds.
    pub open spec fn consistent(self) -> bool {
        &&& self.round <= self.total_rounds
        &&& self.history_1.len() == self.round
        &&& self.history_2.len() == self.round
        &&& self.score_1 == earned_1(self.history_1, self.history_2, self.payoff_matrix)
        &&& self.score_2 == earned_2(self.history_1, self.history_2, self.payoff_matrix)
    }

    /// The scores after one more round fit the machine integers that hold
    /// them.
    pub open spec fn scores_fit(self, move_1: Move, move_2: Move) -> bool {
        let next = self.play(move_1, move_2);
        &&& i32::MIN <= next.score_1 <= i32::MAX
        &&& i32::MIN <= next.score_2 <= i32::MAX
    }
}

impl GameState {
    /// A game of `total_rounds` rounds with the standard payoffs.
    pub fn new(total_rounds: u32) -> (state: GameState)
        ensures
            state@ == GameView::start(total_rounds as nat, PayoffMatrix::standard()),
    {
        GameState {
            round: 0,
            total_rounds,
            payoff_matrix: PayoffMatrix::default(),
            score_1: 0,
            score_2: 0,
            history_1: Vec::new(),
            history_2: Vec::new(),
        }
    }

    /// A game of `total_rounds` rounds with payoffs of the caller's choice.
    pub fn new_with_payoffs(total_rounds: u32, payoff_matrix: PayoffMatrix) -> (state: GameState)
        ensures
            state@ == GameView::start(total_rounds as nat, payoff_matrix),
    {
        GameState {
            round: 0,
            total_rounds,
            payoff_matrix,
            score_1: 0,
            score_2: 0,
            history_1: Vec::new(),
            history_2: Vec::new(),
        }
    }
}

/// A claimed round is valid: the game still lasts, the claimed payoffs are
/// those of the matrix, and the matrix rewards mutual cooperation above
/// mutual defection.
pub open spec fn round_is_valid(
    state: GameView,
    move_1: Move,
    move_2: Move,
    claimed_payoff_1: i32,
    claimed_payoff_2: i32,
) -> bool {
    &&& !state.is_finished()
    &&& payoffs_of(move_1, move_2, state.payoff_matrix) == (claimed_payoff_1, claimed_payoff_2)
    &&& state.payoff_matrix.r > state.payoff_matrix.p
}

/// Checks a claimed round against the state of the game. Reads only.
pub fn validate_move(
    state: &GameState,
    move_1: Move,
    move_2: Move,
    claimed_payoff_1: i32,
    claimed_payoff_2: i32,
) -> (valid: bool)
    ensures
        valid == round_is_valid(state@, move_1, move_2, claimed_payoff_1, claimed_payoff_2),
{
    if state.round >= state.total_rounds {
        return false;
    }
    let (actual_payoff_1, actual_payoff_2) = get_payoffs(move_1, move_2, &state.payoff_matrix);
    if claimed_payoff_1 != actual_payoff_1 || claimed_payoff_2 != actual_payoff_2 {
        return false;
    }
    if state.payoff_matrix.r <= state.payoff_matrix.p {
        return false;
    }
    true
}

/// The strategies that a proposed move can be checked against.
#[derive(Debug, Clone, Copy, PartialEq, Eq, Structural)]
pub enum Strategy {
    /// Cooperate first, then repeat the opponent's last move.
    TitForTat,
    AlwaysDefect,
    AlwaysCooperate,
    /// Cooperate until the opponent defects once, then defect for good.
    Grudge,
}

impl Strategy {
    /// The move that the strategy prescribes to the first player in a state
    /// of the game, the second player being the opponent. Tit for tat
    /// prescribes none after round 0 while the opponent's history is empty.
    pub open spec fn prescribes(self, state: GameView) -> Option<Move> {
        match self {
            Strategy::TitForTat => {
                if state.round == 0 {
                    Some(Move::Cooperate)
                } else if state.history_2.len() == 0 {
                    None
                } else {
                    Some(state.history_2.last())
                }
            },
            Strategy::AlwaysDefect => Some(Move::Defect),
            Strategy::AlwaysCooperate => Some(Move::Cooperate),
            Strategy::Grudge => {
                if state.history_2.contains(Move::Defect) {
                    Some(Move::Defect)
                } else {
                    Some(Move::Cooperate)
                }
            },
        }
    }

    /// The proposed move is the one that the strategy prescribes.
    pub open spec fn accepts(self, state: GameView, proposed_move: Move) -> bool {
        self.prescribes(state) == Some(proposed_move)
    }
}

/// Checks a proposed move of the first player against tit for tat.
pub fn validate_tft_strategy(state: &GameState, proposed_move: Move) -> (valid: bool)
    ensures
        valid == Strategy::TitForTat.accepts(state@, proposed_move),
{
    if state.round == 0 {
        return proposed_move == Move::Cooperate;
    }
    if state.history_2.len() == 0 {
        return false;
    }
    let last_opponent_move = state.history_2[state.history_2.len() - 1];
    proposed_move == last_opponent_move
}

/// Checks a proposed move against the strategy that always defects.
pub fn validate_always_defect_strategy(proposed_move: Move) -> (valid: bool)
    ensures
        valid == (proposed_move == Move::Defect),
        forall|state: GameView| valid == Strategy::AlwaysDefect.accepts(state, proposed_move),
{
    proposed_move == Move::Defect
}

/// Checks a proposed move against the strategy that always cooperates.
pub fn validate_always_cooperate_strategy(proposed_move: Move) -> (valid: bool)
    ensures
        valid == (proposed_move == Move::Cooperate),
        forall|state: GameView| valid == Strategy::AlwaysCooperate.accepts(state, proposed_move),
{
    proposed_move == Move::Cooperate
}

/// Checks a proposed move of the first player against the grudge strategy.
/// The whole history of the opponent is searched on every call.
pub fn validate_grudge_strategy(state: &GameState, proposed_move: Move) -> (valid: bool)
    ensures
        valid == Strategy::Grudge.accepts(state@, proposed_move),
{
    let mut i: usize = 0;
    while i < state.history_2.len()
        invariant
            i <= state.history_2@.len(),
            forall|j: int| 0 <= j < i ==> state.history_2@[j] != Move::Defect,
        decreases state.history_2@.len() - i,
    {
        if state.history_2[i] == Move::Defect {
            return proposed_move == Move::Defect;
        }
        i += 1;
    }
    proposed_move == Move::Cooperate
}

/// Checks a proposed move of the first player against any of the
/// strategies.
pub fn validate_strategy(strategy: Strategy, state: &GameState, proposed_move: Move) -> (valid:
    bool)
    ensures
        valid == strategy.accepts(state@, proposed_move),
{
    match strategy {
        Strategy::TitForTat => validate_tft_strategy(state, proposed_move),
        Strategy::AlwaysDefect => validate_always_defect_strategy(proposed_move),
        Strategy::AlwaysCooperate => validate_always_cooperate_strategy(proposed_move),
        Strategy::Grudge => validate_grudge_strategy(state, proposed_move),
    }
}

/// Why a round was not played.
#[derive(Debug, Clone, Copy, PartialEq, Eq, Structural)]
pub enum GameError {
    /// Every round of the game has been played.
    GameFinished,
}

/// Plays the rounds of one game.
pub struct RoundValidator {
    pub state: GameState,
}

impl RoundValidator {
    pub fn new(state: GameState) -> (validator: RoundValidator)
        ensures
            validator.state == state,
    {
        RoundValidator { state }
    }

    /// Plays one round: records both moves, adds the payoffs to the scores
    /// and moves on to the next round. Refused, with nothing changed, once
    /// the game is over. The claimed payoffs of a round are not checked
    /// here.
    pub fn play_round(&mut self, move_1: Move, move_2: Move) -> (res: Result<
        RoundOutcome,
        GameError,
    >)
        requires
            !old(self).state@.is_finished() ==> old(self).state@.scores_fit(move_1, move_2),
        ensures
            old(self).state@.is_finished() ==> res == Err::<RoundOutcome, GameError>(
                GameError::GameFinished,
            ) && *final(self) == *old(self),
            !old(self).state@.is_finished() ==> res == Ok::<RoundOutcome, GameError>(
                (RoundOutcome {
                    move_1,
                    move_2,
                    payoff_1: payoffs_of(move_1, move_2, old(self).state.payoff_matrix).0,
                    payoff_2: payoffs_of(move_1, move_2, old(self).state.payoff_matrix).1,
                }),
            ) && final(self).state@ == old(self).state@.play(move_1, move_2),
            final(self).state@ == old(self).state@.step(move_1, move_2),
    {
        if self.state.round >= self.state.total_rounds {
            return Err(GameError::GameFinished);
        }
        let (payoff_1, payoff_2) = get_payoffs(move_1, move_2, &self.state.payoff_matrix);
        self.state.history_1.push(move_1);
        self.state.history_2.push(move_2);
        self.state.score_1 = self.state.score_1 + payoff_1;
        self.state.score_2 = self.state.score_2 + payoff_2;
        self.state.round = self.state.round + 1;
        Ok(RoundOutcome { move_1, move_2, payoff_1, payoff_2 })
    }

    /// The game as it stands.
    pub fn get_state(&self) -> (state: &GameState)
        ensures
            *state == self.state,
    {
        &self.state
    }

    /// Whether every round has been played.
    pub fn is_finished(&self) -> (finished: bool)
        ensures
            finished == self.state@.is_finished(),
    {
        self.state.round >= self.state.total_rounds
    }
}

/// With a well-formed matrix the four pairs of moves pay, in this order,
/// reward to both, punishment to both, and sucker's payoff and temptation to
/// the one who cooperated and the one who defected; and defecting pays the
/// first player more than cooperating, whatever the second does.
pub proof fn lemma_payoffs_of_dilemma(matrix: PayoffMatrix)
    requires
        matrix.well_formed(),
    ensures
        payoffs_of(Move::Cooperate, Move::Cooperate, matrix) == (matrix.r, matrix.r),
        payoffs_of(Move::Defect, Move::Defect, matrix) == (matrix.p, matrix.p),
        payoffs_of(Move::Cooperate, Move::Defect, matrix) == (matrix.s, matrix.t),
        payoffs_of(Move::Defect, Move::Cooperate, matrix) == (matrix.t, matrix.s),
        forall|other: Move|
            payoffs_of(Move::Defect, other, matrix).0 > payoffs_of(
                Move::Cooperate,
                other,
                matrix,
            ).0,
{
}

/// The payoffs are symmetric: with the moves exchanged, the players
/// exchange their payoffs.
pub proof fn lemma_payoffs_symmetric(move_1: Move, move_2: Move, matrix: PayoffMatrix)
    ensures
        payoffs_of(move_2, move_1, matrix) == (
            payoffs_of(move_1, move_2, matrix).1,
            payoffs_of(move_1, move_2, matrix).0,
        ),
{
}

/// A round played on a consistent game leaves a consistent game.
pub proof fn lemma_play_keeps_consistent(state: GameView, move_1: Move, move_2: Move)
    requires
        state.consistent(),
        !state.is_finished(),
    ensures
        state.play(move_1, move_2).consistent(),
{
    let next = state.play(move_1, move_2);
    assert(next.history_1.drop_last() =~= state.history_1);
    assert(next.history_2.drop_last() =~= state.history_2);
}

/// Requests to play, however many, leave a consistent game consistent, and
/// change neither the number of rounds nor the payoffs.
pub proof fn lemma_after_keeps_consistent(state: GameView, moves: Seq<(Move, Move)>)
    requires
        state.consistent(),
    ensures
        state.after(moves).consistent(),
        state.after(moves).total_rounds == state.total_rounds,
        state.after(moves).payoff_matrix == state.payoff_matrix,
    decreases moves.len(),
{
    if moves.len() > 0 {
        lemma_after_keeps_consistent(state, moves.drop_last());
        let before = state.after(moves.drop_last());
        if !before.is_finished() {
            lemma_play_keeps_consistent(before, moves.last().0, moves.last().1);
        }
    }
}

/// Of a series of requests to play, made on a game that is not yet over,
/// exactly those succeed that the remaining rounds allow: after `k` requests
/// the game has advanced by `k` rounds or to its end, whichever comes first.
/// So a new game of `n` rounds is finished after the `n`-th request and not
/// before, and every later request is refused.
pub proof fn lemma_rounds_played(state: GameView, moves: Seq<(Move, Move)>)
    requires
        state.round <= state.total_rounds,
    ensures
        state.after(moves).total_rounds == state.total_rounds,
        state.round + moves.len() <= state.total_rounds ==> state.after(moves).round
            == state.round + moves.len(),
        state.round + moves.len() > state.total_rounds ==> state.after(moves).round
            == state.total_rounds,
        state.after(moves).is_finished() <==> state.round + moves.len() >= state.total_rounds,
    decreases moves.len(),
{
    if moves.len() > 0 {
        lemma_rounds_played(state, moves.drop_last());
    }
}

/// Tit for tat at round 0 accepts cooperation and nothing else.
pub proof fn lemma_tit_for_tat_opens_with_cooperation(state: GameView, proposed_move: Move)
    requires
        state.round == 0,
    ensures
        Strategy::TitForTat.accepts(state, proposed_move) <==> proposed_move == Move::Cooperate,
{
}

/// While the opponent has never defected, grudge accepts cooperation and
/// nothing else.
pub proof fn lemma_grudge_cooperates_first(state: GameView, proposed_move: Move)
    requires
        !state.history_2.contains(Move::Defect),
    ensures
        Strategy::Grudge.accepts(state, proposed_move) <==> proposed_move == Move::Cooperate,
{
}

/// Once the opponent has defected, grudge accepts defection and nothing
/// else, in that state and in every later one, whatever the opponent has
/// played since.
pub proof fn lemma_grudge_never_forgives(
    state: GameView,
    later: GameView,
    proposed_move: Move,
)
    requires
        state.history_2.contains(Move::Defect),
        state.history_2.is_prefix_of(later.history_2),
    ensures
        Strategy::Grudge.accepts(later, proposed_move) <==> proposed_move == Move::Defect,
{
    let i = state.history_2.index_of(Move::Defect);
    assert(later.history_2[i] == Move::Defect);
}

/// The opponent's history before a series of requests to play is a prefix
/// of the one after it.
pub proof fn lemma_history_grows(state: GameView, moves: Seq<(Move, Move)>)
    ensures
        state.history_1.is_prefix_of(state.after(moves).history_1),
        state.history_2.is_prefix_of(state.after(moves).history_2),
    decreases moves.len(),
{
    if moves.len() > 0 {
        lemma_history_grows(state, moves.drop_last());
    }
}

} // verus!
