//! The engine: two mutually recursive procedures, one per side, that share
//! the window and keep one transposition table each.

use core::marker::PhantomData;
use vstd::prelude::*;

use crate::board::Board;
use crate::cancel::{Never, StopSignal};
use crate::score::{Score, Team, TimedScore};
use crate::search::{advance, answer, fresh, moves_of, MoveStats, Tables};
use crate::stopping::{
    answer_until, concluded, finished_answer_is_the_answer, scan_until, search_until, Run, Scanned,
};
use crate::transposition_table::{StoredStats, TranspositionTable};

verus! {

/// What iterative deepening came to: the answer of the deepest search that
/// ran to its end, if any did, and the budget of that search.
#[derive(Debug, PartialEq, Eq)]
pub struct Deepened<M> {
    pub best: Option<MoveStats<M>>,
    pub completed: u32,
}

/// The tables after the searches with budgets 1 to `n` have run to their
/// end, one after the other, each starting from what the one before left.
pub open spec fn tables_after<B: Board>(board: B, team: Team, n: u32, tables: Tables) -> Tables
    decreases n,
{
    if n == 0 {
        tables
    } else {
        answer(board, team, n, tables_after(board, team, (n - 1) as u32, tables)).tables
    }
}

/// The answer retained once the searches with budgets 1 to `n` have run to
/// their end: that of the last one, or none where `n` is zero.
pub open spec fn retained<B: Board>(board: B, team: Team, n: u32, tables: Tables) -> Option<
    MoveStats<B::Move>,
> {
    if n == 0 {
        None
    } else {
        Some(answer(board, team, n, tables_after(board, team, (n - 1) as u32, tables)).stats)
    }
}

/// How iterative deepening under a signal ends: what it came to, the tables
/// as it leaves them, and the polls the signal has left.
pub struct Deepening<M> {
    pub out: Deepened<M>,
    pub tables: Tables,
    pub polls: Option<nat>,
}

/// Iterative deepening from the state `so_far`: the search with the next
/// budget is run under the signal. If it runs to its end, its answer is
/// retained and deepening goes on from there; if it is stopped, deepening
/// ends with what was retained before. So the budget that is returned is
/// the number of searches that ran to their end before the first that was
/// stopped.
pub open spec fn deepening<B: Board>(
    board: B,
    team: Team,
    so_far: Deepened<B::Move>,
    tables: Tables,
    polls: Option<nat>,
) -> Deepening<B::Move>
    decreases u32::MAX - so_far.completed,
{
    if so_far.completed >= u32::MAX {
        Deepening { out: so_far, tables, polls }
    } else {
        let run = answer_until(board, team, (so_far.completed + 1) as u32, tables, polls);
        if run.stats.is_some() {
            deepening(
                board,
                team,
                Deepened { best: run.stats, completed: (so_far.completed + 1) as u32 },
                run.tables,
                run.polls,
            )
        } else {
            Deepening { out: so_far, tables: run.tables, polls: run.polls }
        }
    }
}

/// Takes in what the search with the next budget returned. An answer is
/// retained in place of the one before and counted, and deepening is to go
/// on; where the search was stopped, what was retained stays and deepening
/// is to end.
pub fn retain<M>(so_far: Deepened<M>, found: Option<MoveStats<M>>) -> (next: (Deepened<M>, bool))
    requires
        so_far.completed < u32::MAX,
    ensures
        found.is_some() ==> next.1 && next.0.best == found && next.0.completed == so_far.completed
            + 1,
        found.is_none() ==> !next.1 && next.0 == so_far,
{
    match found {
        Some(stats) => (Deepened { best: Some(stats), completed: so_far.completed + 1 }, true),
        None => (so_far, false),
    }
}

/// Deepening returns the answer of the last search that ran to its end:
/// started from what the searches with budgets 1 to `so_far.completed`
/// left, it ends with the answer of the search whose budget it returns, run
/// on the tables that the searches before it left. Under a signal that is
/// never raised it runs through every budget.
pub proof fn deepening_retains_last_complete<B: Board>(
    board: B,
    team: Team,
    so_far: Deepened<B::Move>,
    tables: Tables,
    polls: Option<nat>,
    start: Tables,
)
    requires
        so_far.best == retained(board, team, so_far.completed, start),
        tables == tables_after(board, team, so_far.completed, start),
    ensures
        ({
            let end = deepening(board, team, so_far, tables, polls);
            &&& end.out.completed >= so_far.completed
            &&& end.out.best == retained(board, team, end.out.completed, start)
            &&& end.out.best.is_none() <==> end.out.completed == 0
            &&& polls.is_none() ==> end.out.completed == u32::MAX && end.polls.is_none()
                && end.tables == tables_after(board, team, u32::MAX, start)
        }),
    decreases u32::MAX - so_far.completed,
{
    if so_far.completed < u32::MAX {
        let next = (so_far.completed + 1) as u32;
        let run = answer_until(board, team, next, tables, polls);
        finished_answer_is_the_answer(board, team, next, tables, polls);
        if run.stats.is_some() {
            deepening_retains_last_complete(
                board,
                team,
                Deepened { best: run.stats, completed: next },
                run.tables,
                run.polls,
                start,
            );
        }
    }
}

/// A minimax engine for the game `B`. Its tables live as long as it does, so
/// that a later query can use what an earlier one found.
pub struct Minimax<B: Board> {
    ally_ttable: TranspositionTable,
    enemy_ttable: TranspositionTable,
    game: PhantomData<B>,
}

impl<B: Board> Minimax<B> {
    /// The contents of the two tables.
    pub closed spec fn tables(&self) -> Tables {
        Tables {
            ally: self.ally_ttable.entries(),
            enemy: self.enemy_ttable.entries(),
            capacity: self.ally_ttable.capacity(),
        }
    }

    /// Both tables are well formed and have the same limit.
    pub closed spec fn wf(&self) -> bool {
        &&& self.ally_ttable.wf()
        &&& self.enemy_ttable.wf()
        &&& self.ally_ttable.capacity() == self.enemy_ttable.capacity()
    }

    /// A well-formed engine's tables are within their limit and hold no key
    /// twice.
    pub proof fn tables_are_sound(&self)
        requires
            self.wf(),
        ensures
            self.tables().sound(),
    {
    }

    /// An engine whose tables hold at most `ttable_size` results each.
    pub fn new(ttable_size: usize) -> (engine: Minimax<B>)
        requires
            ttable_size > 0,
        ensures
            engine.wf(),
            engine.tables() == (Tables {
                ally: Seq::empty(),
                enemy: Seq::empty(),
                capacity: ttable_size as nat,
            }),
    {
        Minimax {
            ally_ttable: TranspositionTable::new(ttable_size),
            enemy_ttable: TranspositionTable::new(ttable_size),
            game: PhantomData,
        }
    }

    /// The best move for `turn` on `board`, looking `plies` plies ahead.
    ///
    /// No move is named where the side has none, at a budget of zero and
    /// where the game is over; everywhere else one is.
    pub fn minimax(&mut self, board: &B, turn: Team, plies: u32) -> (best: MoveStats<B::Move>)
        requires
            old(self).wf(),
        ensures
            final(self).wf(),
            best == answer(*board, turn, plies, old(self).tables()).stats,
            final(self).tables() == answer(*board, turn, plies, old(self).tables()).tables,
            final(self).tables().capacity == old(self).tables().capacity,
            best.mv.is_none() <==> moves_of(*board, turn).len() == 0 || plies == 0
                || board.game_over(),
    {
        let mut never = Never;
        match self.minimax_until(board, turn, plies, &mut never) {
            Some(best) => best,
            None => unreached(),
        }
    }

    /// The best move for `turn` on `board`, looking `plies` plies ahead,
    /// unless `stop` is raised first: then nothing is returned. The signal
    /// is polled on entering each node, so a search that is stopped returns
    /// as soon as the calls in progress have unwound. What was stored for
    /// nodes finished before the stop stays in the tables; the nodes cut
    /// short store nothing.
    ///
    /// A signal that is raised on entry gives nothing and leaves the tables
    /// as they are. A search that returns an answer returns that of
    /// `minimax`, and a signal that is never raised always lets it.
    pub fn minimax_until<S: StopSignal>(
        &mut self,
        board: &B,
        turn: Team,
        plies: u32,
        stop: &mut S,
    ) -> (best: Option<MoveStats<B::Move>>)
        requires
            old(self).wf(),
        ensures
            final(self).wf(),
            final(self).tables().capacity == old(self).tables().capacity,
            (Run { stats: best, tables: final(self).tables(), polls: final(stop).polls_left() })
                == answer_until(
                *board,
                turn,
                plies,
                old(self).tables(),
                old(stop).polls_left(),
            ),
            old(stop).polls_left() == Some(0nat) ==> best.is_none() && final(self).tables() == old(
                self,
            ).tables(),
            old(stop).polls_left().is_none() ==> best.is_some(),
            best.is_some() ==> best.unwrap() == answer(*board, turn, plies, old(self).tables()).stats
                && final(self).tables() == answer(*board, turn, plies, old(self).tables()).tables,
    {
        proof {
            finished_answer_is_the_answer(
                *board,
                turn,
                plies,
                self.tables(),
                stop.polls_left(),
            );
        }
        let lose = TimedScore { score: Score::Lose, turns: 0 };
        let win = TimedScore { score: Score::Win, turns: 0 };
        let found = match turn {
            Team::Ally => self.max(board, plies, lose, win, stop),
            Team::Enemy => self.min(board, plies, lose, win, stop),
        };
        match found {
            Some(optimal_move) => Some(
                MoveStats {
                    mv: optimal_move.mv,
                    score: optimal_move.score,
                    nodes_visited: optimal_move.nodes_visited.saturating_add(1),
                },
            ),
            None => None,
        }
    }

    /// Searches with budgets 1, 2, 3 and so on until `stop` is raised, and
    /// returns the answer of the last search that ran to its end, with its
    /// budget; nothing, with budget zero, if not even the first did. A search
    /// that was cut short contributes nothing to the answer: the budget
    /// returned is the number of searches that ran to their end before it.
    pub fn deepen<S: StopSignal>(&mut self, board: &B, turn: Team, stop: &mut S) -> (out: Deepened<
        B::Move,
    >)
        requires
            old(self).wf(),
        ensures
            final(self).wf(),
            final(self).tables().capacity == old(self).tables().capacity,
            (Deepening { out, tables: final(self).tables(), polls: final(stop).polls_left() })
                == deepening(
                *board,
                turn,
                Deepened { best: None, completed: 0 },
                old(self).tables(),
                old(stop).polls_left(),
            ),
            out.best == retained(*board, turn, out.completed, old(self).tables()),
            out.best.is_none() <==> out.completed == 0,
            old(stop).polls_left() == Some(0nat) ==> out.completed == 0 && final(self).tables()
                == old(self).tables(),
            old(stop).polls_left().is_none() ==> out.completed == u32::MAX,
    {
        let ghost goal = deepening(
            *board,
            turn,
            Deepened { best: None, completed: 0 },
            self.tables(),
            stop.polls_left(),
        );
        proof {
            deepening_retains_last_complete(
                *board,
                turn,
                Deepened { best: None, completed: 0 },
                self.tables(),
                stop.polls_left(),
                self.tables(),
            );
        }
        let mut so_far: Deepened<B::Move> = Deepened { best: None, completed: 0 };
        while so_far.completed < u32::MAX
            invariant
                self.wf(),
                self.tables().capacity == old(self).tables().capacity,
                deepening(*board, turn, so_far, self.tables(), stop.polls_left()) == goal,
                goal == deepening(
                    *board,
                    turn,
                    Deepened { best: None, completed: 0 },
                    old(self).tables(),
                    old(stop).polls_left(),
                ),
                goal.out.best == retained(*board, turn, goal.out.completed, old(self).tables()),
                goal.out.best.is_none() <==> goal.out.completed == 0,
                old(stop).polls_left() == Some(0nat) ==> goal.out.completed == 0 && goal.tables
                    == old(self).tables(),
                old(stop).polls_left().is_none() ==> goal.out.completed == u32::MAX,
            decreases u32::MAX - so_far.completed,
        {
            let found = self.minimax_until(board, turn, so_far.completed + 1, stop);
            let (next, go_on) = retain(so_far, found);
            so_far = next;
            if !go_on {
                return so_far;
            }
        }
        so_far
    }

    /// The best move for the ally on `board` with `plies` to go, inside the
    /// window from `alpha` to `beta`; nothing if `stop` was raised on the way.
    /// The signal is polled once, on entry, before the position is asked
    /// anything.
    fn max<S: StopSignal>(
        &mut self,
        board: &B,
        plies: u32,
        alpha: TimedScore,
        beta: TimedScore,
        stop: &mut S,
    ) -> (best: Option<MoveStats<B::Move>>)
        requires
            old(self).wf(),
        ensures
            final(self).wf(),
            final(self).tables().capacity == old(self).tables().capacity,
            (Run { stats: best, tables: final(self).tables(), polls: final(stop).polls_left() })
                == search_until(
                *board,
                Team::Ally,
                plies,
                alpha,
                beta,
                old(self).tables(),
                old(stop).polls_left(),
            ),
        decreases plies,
    {
        if stop.raised() {
            return None;
        }
        let mut moves = board.gen_ally_moves();
        if moves.len() == 0 {
            return Some(
                MoveStats {
                    mv: None,
                    score: TimedScore { score: Score::Lose, turns: 0 },
                    nodes_visited: 0,
                },
            );
        }
        if plies == 0 || board.is_game_over() {
            return Some(
                MoveStats {
                    mv: None,
                    score: TimedScore { score: board.score(), turns: 0 },
                    nodes_visited: 0,
                },
            );
        }
        let key = board.key();
        if let Some(stats) = self.ally_ttable.get(key, plies) {
            if stats.index < moves.len() {
                let mv = moves.swap_remove(stats.index);
                return Some(
                    MoveStats {
                        mv: Some(mv),
                        score: stats.score,
                        nodes_visited: stats.nodes_visited,
                    },
                );
            }
        }
        let ghost goal = scan_until(
            *board,
            Team::Ally,
            plies,
            0,
            fresh(Team::Ally, alpha, beta),
            self.tables(),
            stop.polls_left(),
        );
        let ghost whole = search_until(
            *board,
            Team::Ally,
            plies,
            alpha,
            beta,
            old(self).tables(),
            old(stop).polls_left(),
        );
        assert(whole == concluded(*board, Team::Ally, plies, goal));
        let mut index: usize = 0;
        let mut score = TimedScore { score: Score::Lose, turns: 0 };
        let mut nodes: u64 = 0;
        let mut alpha_now = alpha;
        let ghost mut p = fresh(Team::Ally, alpha, beta);
        let mut i: usize = 0;
        while i < moves.len()
            invariant_except_break
                scan_until(*board, Team::Ally, plies, i as nat, p, self.tables(), stop.polls_left())
                    == goal,
            invariant
                self.wf(),
                self.tables().capacity == old(self).tables().capacity,
                whole == concluded(*board, Team::Ally, plies, goal),
                whole == search_until(
                    *board,
                    Team::Ally,
                    plies,
                    alpha,
                    beta,
                    old(self).tables(),
                    old(stop).polls_left(),
                ),
                plies > 0,
                moves@ == board.ally_moves(),
                0 < moves.len(),
                i <= moves.len(),
                p.score == score,
                p.nodes == nodes,
                p.alpha == alpha_now,
                p.beta == beta,
                i == 0 <==> p.best.is_none(),
                i > 0 ==> p.best == Some(index as int) && index < i,
            ensures
                goal == (Scanned {
                    progress: p,
                    tables: self.tables(),
                    polls: stop.polls_left(),
                    stopped: false,
                }),
                i > 0,
            decreases moves.len() - i,
        {
            let mut next = board.duplicate();
            assert(board.ally_moves().contains(moves@[i as int]));
            next.do_move(&moves[i]);
            let child = match self.min(&next, plies - 1, alpha_now, beta, stop) {
                Some(child) => child,
                None => {
                    return None;
                },
            };
            if i == 0 || child.score > score {
                index = i;
                score = child.score.one_ply_earlier();
            }
            nodes = nodes.saturating_add(child.nodes_visited).saturating_add(1);
            if score > alpha_now {
                alpha_now = score;
            }
            proof {
                p = advance(Team::Ally, p, i as int, child.score, child.nodes_visited);
            }
            i += 1;
            if alpha_now >= beta {
                break ;
            }
        }
        self.ally_ttable.insert(key, StoredStats { index, score, nodes_visited: nodes }, plies);
        let mv = moves.swap_remove(index);
        Some(MoveStats { mv: Some(mv), score, nodes_visited: nodes })
    }

    /// The best move for the enemy on `board` with `plies` to go, inside the
    /// window from `alpha` to `beta`; nothing if `stop` was raised on the way.
    /// The signal is polled once, on entry, before the position is asked
    /// anything.
    fn min<S: StopSignal>(
        &mut self,
        board: &B,
        plies: u32,
        alpha: TimedScore,
        beta: TimedScore,
        stop: &mut S,
    ) -> (best: Option<MoveStats<B::Move>>)
        requires
            old(self).wf(),
        ensures
            final(self).wf(),
            final(self).tables().capacity == old(self).tables().capacity,
            (Run { stats: best, tables: final(self).tables(), polls: final(stop).polls_left() })
                == search_until(
                *board,
                Team::Enemy,
                plies,
                alpha,
                beta,
                old(self).tables(),
                old(stop).polls_left(),
            ),
        decreases plies,
    {
        if stop.raised() {
            return None;
        }
        let mut moves = board.gen_enemy_moves();
        if moves.len() == 0 {
            return Some(
                MoveStats {
                    mv: None,
                    score: TimedScore { score: Score::Win, turns: 0 },
                    nodes_visited: 0,
                },
            );
        }
        if plies == 0 || board.is_game_over() {
            return Some(
                MoveStats {
                    mv: None,
                    score: TimedScore { score: board.score(), turns: 0 },
                    nodes_visited: 0,
                },
            );
        }
        let key = board.key();
        if let Some(stats) = self.enemy_ttable.get(key, plies) {
            if stats.index < moves.len() {
                let mv = moves.swap_remove(stats.index);
                return Some(
                    MoveStats {
                        mv: Some(mv),
                        score: stats.score,
                        nodes_visited: stats.nodes_visited,
                    },
                );
            }
        }
        let ghost goal = scan_until(
            *board,
            Team::Enemy,
            plies,
            0,
            fresh(Team::Enemy, alpha, beta),
            self.tables(),
            stop.polls_left(),
        );
        let ghost whole = search_until(
            *board,
            Team::Enemy,
            plies,
            alpha,
            beta,
            old(self).tables(),
            old(stop).polls_left(),
        );
        assert(whole == concluded(*board, Team::Enemy, plies, goal));
        let mut index: usize = 0;
        let mut score = TimedScore { score: Score::Win, turns: 0 };
        let mut nodes: u64 = 0;
        let mut beta_now = beta;
        let ghost mut p = fresh(Team::Enemy, alpha, beta);
        let mut i: usize = 0;
        while i < moves.len()
            invariant_except_break
                scan_until(*board, Team::Enemy, plies, i as nat, p, self.tables(), stop.polls_left())
                    == goal,
            invariant
                self.wf(),
                self.tables().capacity == old(self).tables().capacity,
                whole == concluded(*board, Team::Enemy, plies, goal),
                whole == search_until(
                    *board,
                    Team::Enemy,
                    plies,
                    alpha,
                    beta,
                    old(self).tables(),
                    old(stop).polls_left(),
                ),
                plies > 0,
                moves@ == board.enemy_moves(),
                0 < moves.len(),
                i <= moves.len(),
                p.score == score,
                p.nodes == nodes,
                p.alpha == alpha,
                p.beta == beta_now,
                i == 0 <==> p.best.is_none(),
                i > 0 ==> p.best == Some(index as int) && index < i,
            ensures
                goal == (Scanned {
                    progress: p,
                    tables: self.tables(),
                    polls: stop.polls_left(),
                    stopped: false,
                }),
                i > 0,
            decreases moves.len() - i,
        {
            let mut next = board.duplicate();
            assert(board.enemy_moves().contains(moves@[i as int]));
            next.do_move(&moves[i]);
            let child = match self.max(&next, plies - 1, alpha, beta_now, stop) {
                Some(child) => child,
                None => {
                    return None;
                },
            };
            if i == 0 || child.score < score {
                index = i;
                score = child.score.one_ply_earlier();
            }
            nodes = nodes.saturating_add(child.nodes_visited).saturating_add(1);
            if score < beta_now {
                beta_now = score;
            }
            proof {
                p = advance(Team::Enemy, p, i as int, child.score, child.nodes_visited);
            }
            i += 1;
            if beta_now <= alpha {
                break ;
            }
        }
        self.enemy_ttable.insert(key, StoredStats { index, score, nodes_visited: nodes }, plies);
        let mv = moves.swap_remove(index);
        Some(MoveStats { mv: Some(mv), score, nodes_visited: nodes })
    }
}

} // verus!
