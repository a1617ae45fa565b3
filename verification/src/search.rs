//! What a search returns, stated over the game's spec functions and the
//! contents of the two transposition tables.

use vstd::prelude::*;

use crate::board::Board;
use crate::score::{Score, Team, TimedScore};
use crate::transposition_table::{inserted, lookup, sound, touched, Entry, StoredStats};

verus! {

/// The answer to a query: the move to play (none where the side to move has
/// no move, or where the position was only evaluated), the outcome it leads
/// to, and the number of nodes visited to find it.
#[derive(Clone, Debug, PartialEq, Eq)]
pub struct MoveStats<M> {
    pub mv: Option<M>,
    pub score: TimedScore,
    pub nodes_visited: u64,
}

/// The contents of an engine's two tables, each most recently used first,
/// and the limit both were made with.
pub struct Tables {
    pub ally: Seq<(u64, Entry)>,
    pub enemy: Seq<(u64, Entry)>,
    pub capacity: nat,
}

impl Tables {
    /// Both tables are within the limit, which is positive, and hold no key
    /// twice.
    pub open spec fn sound(self) -> bool {
        sound(self.ally, self.capacity) && sound(self.enemy, self.capacity)
    }

    /// The table of the side to move.
    pub open spec fn of(self, team: Team) -> Seq<(u64, Entry)> {
        match team {
            Team::Ally => self.ally,
            Team::Enemy => self.enemy,
        }
    }

    /// These tables with the one of `team` replaced.
    pub open spec fn with(self, team: Team, entries: Seq<(u64, Entry)>) -> Tables {
        match team {
            Team::Ally => Tables { ally: entries, ..self },
            Team::Enemy => Tables { enemy: entries, ..self },
        }
    }
}

/// A search's answer and the tables as it leaves them.
pub struct Found<M> {
    pub stats: MoveStats<M>,
    pub tables: Tables,
}

/// Where the scan of a node's moves stands: the best move so far by its
/// place in the list, its outcome, the nodes counted, and the window.
pub struct Progress {
    pub best: Option<int>,
    pub score: TimedScore,
    pub nodes: u64,
    pub alpha: TimedScore,
    pub beta: TimedScore,
}

/// The moves of the side to move.
pub open spec fn moves_of<B: Board>(board: B, team: Team) -> Seq<B::Move> {
    match team {
        Team::Ally => board.ally_moves(),
        Team::Enemy => board.enemy_moves(),
    }
}

/// The outcome for a side that has to move and cannot: the ally loses, the
/// enemy hands the ally the win.
pub open spec fn stuck(team: Team) -> TimedScore {
    match team {
        Team::Ally => TimedScore { score: Score::Lose, turns: 0 },
        Team::Enemy => TimedScore { score: Score::Win, turns: 0 },
    }
}

/// An answer without a move: the position's outcome is known at once.
pub open spec fn settled<M>(score: Score) -> MoveStats<M> {
    MoveStats { mv: None, score: TimedScore { score, turns: 0 }, nodes_visited: 0 }
}

/// The side to move likes `child` better than `best`.
pub open spec fn improves(team: Team, child: TimedScore, best: TimedScore) -> bool {
    match team {
        Team::Ally => best.precedes(child),
        Team::Enemy => child.precedes(best),
    }
}

/// The scan before the first move.
pub open spec fn fresh(team: Team, alpha: TimedScore, beta: TimedScore) -> Progress {
    Progress { best: None, score: stuck(team), nodes: 0, alpha, beta }
}

/// The scan after move `i`, whose subtree gave `child` and took
/// `child_nodes` nodes.
///
/// The first move is adopted, a later one only if the side to move likes it
/// strictly better; an adopted outcome counts one ply more. The ally raises
/// alpha to a best that exceeds it, the enemy lowers beta to a best below it.
pub open spec fn advance(
    team: Team,
    p: Progress,
    i: int,
    child: TimedScore,
    child_nodes: u64,
) -> Progress {
    let adopt = p.best.is_none() || improves(team, child, p.score);
    let score = if adopt {
        child.delayed()
    } else {
        p.score
    };
    Progress {
        best: if adopt {
            Some(i)
        } else {
            p.best
        },
        score,
        nodes: p.nodes.saturating_add(child_nodes).saturating_add(1),
        alpha: if team == Team::Ally && p.alpha.precedes(score) {
            score
        } else {
            p.alpha
        },
        beta: if team == Team::Enemy && score.precedes(p.beta) {
            score
        } else {
            p.beta
        },
    }
}

/// The window is empty: no later move can change the result above.
pub open spec fn closed(p: Progress) -> bool {
    !p.alpha.precedes(p.beta)
}

/// A stored result can be used at a node with `n` moves.
pub open spec fn usable(found: Option<StoredStats>, n: nat) -> bool {
    found.is_some() && found.unwrap().index < n
}

/// The search at one node, for the side `team` with `plies` to go, inside
/// the window from `alpha` to `beta`, starting from `tables`.
///
/// A side without a move has its forced outcome, whatever the budget. A
/// position at the horizon, or one where the game is over, has its static
/// score. Elsewhere a result stored for the position by a search at least as
/// deep is returned as it is; failing that the moves are scanned and the
/// result is offered to the table.
pub open spec fn search<B: Board>(
    board: B,
    team: Team,
    plies: u32,
    alpha: TimedScore,
    beta: TimedScore,
    tables: Tables,
) -> Found<B::Move>
    decreases plies, 1nat, 0nat,
{
    let moves = moves_of(board, team);
    let key = board.key_of();
    if moves.len() == 0 {
        Found { stats: settled(stuck(team).score), tables }
    } else if plies == 0 || board.game_over() {
        Found { stats: settled(board.static_score()), tables }
    } else {
        let hit = lookup(tables.of(team), key, plies);
        let looked = tables.with(team, touched(tables.of(team), key));
        if usable(hit, moves.len()) {
            Found {
                stats: MoveStats {
                    mv: Some(moves[hit.unwrap().index as int]),
                    score: hit.unwrap().score,
                    nodes_visited: hit.unwrap().nodes_visited,
                },
                tables: looked,
            }
        } else {
            let (p, scanned) = scan(board, team, plies, 0, fresh(team, alpha, beta), looked);
            let best = p.best.unwrap_or(0);
            Found {
                stats: MoveStats { mv: Some(moves[best]), score: p.score, nodes_visited: p.nodes },
                tables: scanned.with(
                    team,
                    inserted(
                        scanned.of(team),
                        scanned.capacity,
                        key,
                        StoredStats { index: best as usize, score: p.score, nodes_visited: p.nodes },
                        plies,
                    ),
                ),
            }
        }
    }
}

/// The scan of a node's moves from the `i`-th on, in the order they were
/// generated: each is searched for the other side with one ply less, inside
/// the window as it then stands, and the scan ends early once the window is
/// closed.
pub open spec fn scan<B: Board>(
    board: B,
    team: Team,
    plies: u32,
    i: nat,
    p: Progress,
    tables: Tables,
) -> (Progress, Tables)
    decreases plies, 0nat, moves_of(board, team).len() - i,
{
    let moves = moves_of(board, team);
    if plies == 0 || i >= moves.len() {
        (p, tables)
    } else {
        let child = search(
            board.after(moves[i as int]),
            team.other(),
            (plies - 1) as u32,
            p.alpha,
            p.beta,
            tables,
        );
        let q = advance(team, p, i as int, child.stats.score, child.stats.nodes_visited);
        if closed(q) {
            (q, child.tables)
        } else {
            scan(board, team, plies, i + 1, q, child.tables)
        }
    }
}

/// The answer to a query from outside: the search at the root with the
/// widest window, from an immediate loss to an immediate win, the root
/// itself counted as one node more.
pub open spec fn answer<B: Board>(board: B, team: Team, plies: u32, tables: Tables) -> Found<
    B::Move,
> {
    let found = search(board, team, plies, stuck(Team::Ally), stuck(Team::Enemy), tables);
    Found {
        stats: MoveStats {
            nodes_visited: found.stats.nodes_visited.saturating_add(1),
            ..found.stats
        },
        tables: found.tables,
    }
}

} // verus!
