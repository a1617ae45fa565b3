//! What the engine asks of a game.

use vstd::prelude::*;

use crate::score::Score;

verus! {

/// A position of a two-player game in which the sides move in turn.
///
/// The spec functions say what the position is; each method returns what
/// the spec function beside it says. The engine is proved against these
/// statements, so its results hold for every game that meets them.
///
/// The spec functions default to an arbitrary value, of which nothing can be
/// shown: a game whose methods are to be verified defines them, and a game
/// written in plain Rust leaves them out.
pub trait Board: Sized {
    /// A move of either side.
    type Move: Clone;

    /// The moves open to the ally, in the order the engine tries them.
    open spec fn ally_moves(&self) -> Seq<Self::Move> {
        arbitrary()
    }

    /// The moves open to the enemy, in the order the engine tries them.
    open spec fn enemy_moves(&self) -> Seq<Self::Move> {
        arbitrary()
    }

    /// The position that `mv` leads to.
    open spec fn after(&self, mv: Self::Move) -> Self {
        arbitrary()
    }

    /// The static evaluation, from the ally's point of view.
    open spec fn static_score(&self) -> Score {
        arbitrary()
    }

    /// The game has ended here.
    open spec fn game_over(&self) -> bool {
        arbitrary()
    }

    /// The number under which results for this position are memoised. Two
    /// positions that share one are taken for the same position.
    open spec fn key_of(&self) -> u64 {
        arbitrary()
    }

    /// Generates the ally's moves.
    fn gen_ally_moves(&self) -> (moves: Vec<Self::Move>)
        ensures
            moves@ == self.ally_moves(),
    ;

    /// Generates the enemy's moves.
    fn gen_enemy_moves(&self) -> (moves: Vec<Self::Move>)
        ensures
            moves@ == self.enemy_moves(),
    ;

    /// Plays `mv`, which is one of the moves generated for this position.
    fn do_move(&mut self, mv: &Self::Move)
        requires
            old(self).ally_moves().contains(*mv) || old(self).enemy_moves().contains(*mv),
        ensures
            *final(self) == old(self).after(*mv),
    ;

    /// Evaluates the position as it stands. The engine asks only at the
    /// horizon and where the game is over.
    fn score(&self) -> (s: Score)
        ensures
            s == self.static_score(),
    ;

    /// Whether the game has ended here.
    fn is_game_over(&self) -> (over: bool)
        ensures
            over == self.game_over(),
    ;

    /// The position's key in the transposition tables.
    fn key(&self) -> (k: u64)
        ensures
            k == self.key_of(),
    ;

    /// An independent copy of the position.
    fn duplicate(&self) -> (copy: Self)
        ensures
            copy == *self,
    ;
}

} // verus!
