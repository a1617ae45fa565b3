//! Adversarial search for two-player, turn-alternating games: minimax with
//! alpha-beta pruning and a bounded, depth-aware transposition table per side.

pub mod board;
pub mod cancel;
pub mod engine;
pub mod laws;
pub mod pruning;
pub mod score;
pub mod search;
pub mod stopping;
pub mod transposition_table;

pub use board::Board;
pub use cancel::{Never, StopSignal};
pub use engine::{retain, Deepened, Minimax};
pub use score::{Score, Team, TimedScore};
pub use search::MoveStats;
pub use transposition_table::{StoredStats, TranspositionTable};
