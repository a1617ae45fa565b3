//! What a search returns when a stop signal is polled on entering each
//! node: the search of `search`, as far as the signal lets it run.

use vstd::prelude::*;

use crate::board::Board;
use crate::cancel::after_poll;
use crate::score::{Team, TimedScore};
use crate::search::{
    advance, answer, closed, fresh, moves_of, scan, search, settled, stuck, usable, MoveStats,
    Progress, Tables,
};
use crate::transposition_table::{inserted, lookup, touched, StoredStats};

verus! {

/// How a search under a signal ends: with its answer, or with none where it
/// was stopped; the tables as it leaves them; and the polls the signal has
/// left.
pub struct Run<M> {
    pub stats: Option<MoveStats<M>>,
    pub tables: Tables,
    pub polls: Option<nat>,
}

/// How the scan of a node's moves under a signal ends: where it stands,
/// the tables, the polls left, and whether a stop ended it.
pub struct Scanned {
    pub progress: Progress,
    pub tables: Tables,
    pub polls: Option<nat>,
    pub stopped: bool,
}

/// The search at one node under a signal with `polls` left.
///
/// The signal is polled first. If it is raised, nothing is returned and
/// neither the position nor a table is touched. Otherwise the node is
/// searched as `search` says, each node below polling in its turn.
pub open spec fn search_until<B: Board>(
    board: B,
    team: Team,
    plies: u32,
    alpha: TimedScore,
    beta: TimedScore,
    tables: Tables,
    polls: Option<nat>,
) -> Run<B::Move>
    decreases plies, 1nat, 0nat,
{
    let moves = moves_of(board, team);
    let key = board.key_of();
    let left = after_poll(polls);
    if polls == Some(0nat) {
        Run { stats: None, tables, polls }
    } else if moves.len() == 0 {
        Run { stats: Some(settled(stuck(team).score)), tables, polls: left }
    } else if plies == 0 || board.game_over() {
        Run { stats: Some(settled(board.static_score())), tables, polls: left }
    } else {
        let hit = lookup(tables.of(team), key, plies);
        let looked = tables.with(team, touched(tables.of(team), key));
        if usable(hit, moves.len()) {
            Run {
                stats: Some(
                    MoveStats {
                        mv: Some(moves[hit.unwrap().index as int]),
                        score: hit.unwrap().score,
                        nodes_visited: hit.unwrap().nodes_visited,
                    },
                ),
                tables: looked,
                polls: left,
            }
        } else {
            concluded(
                board,
                team,
                plies,
                scan_until(board, team, plies, 0, fresh(team, alpha, beta), looked, left),
            )
        }
    }
}

/// What a node returns once the scan of its moves has ended. A scan that
/// was stopped gives nothing and stores nothing: the tables hold what the
/// nodes finished before the stop put there. A scan that ran to its end
/// gives its best move, and the result is offered to the table.
pub open spec fn concluded<B: Board>(board: B, team: Team, plies: u32, s: Scanned) -> Run<
    B::Move,
> {
    let best = s.progress.best.unwrap_or(0);
    if s.stopped {
        Run { stats: None, tables: s.tables, polls: s.polls }
    } else {
        Run {
            stats: Some(
                MoveStats {
                    mv: Some(moves_of(board, team)[best]),
                    score: s.progress.score,
                    nodes_visited: s.progress.nodes,
                },
            ),
            tables: s.tables.with(
                team,
                inserted(
                    s.tables.of(team),
                    s.tables.capacity,
                    board.key_of(),
                    StoredStats {
                        index: best as usize,
                        score: s.progress.score,
                        nodes_visited: s.progress.nodes,
                    },
                    plies,
                ),
            ),
            polls: s.polls,
        }
    }
}

/// The scan of a node's moves from the `i`-th on under a signal. A move
/// whose search was stopped stops the scan: the moves after it are not
/// tried.
pub open spec fn scan_until<B: Board>(
    board: B,
    team: Team,
    plies: u32,
    i: nat,
    p: Progress,
    tables: Tables,
    polls: Option<nat>,
) -> Scanned
    decreases plies, 0nat, moves_of(board, team).len() - i,
{
    let moves = moves_of(board, team);
    if plies == 0 || i >= moves.len() {
        Scanned { progress: p, tables, polls, stopped: false }
    } else {
        let child = search_until(
            board.after(moves[i as int]),
            team.other(),
            (plies - 1) as u32,
            p.alpha,
            p.beta,
            tables,
            polls,
        );
        if child.stats.is_none() {
            Scanned { progress: p, tables: child.tables, polls: child.polls, stopped: true }
        } else {
            let q = advance(
                team,
                p,
                i as int,
                child.stats.unwrap().score,
                child.stats.unwrap().nodes_visited,
            );
            if closed(q) {
                Scanned { progress: q, tables: child.tables, polls: child.polls, stopped: false }
            } else {
                scan_until(board, team, plies, i + 1, q, child.tables, child.polls)
            }
        }
    }
}

/// The answer to a query from outside under a signal: the search at the
/// root with the widest window, the root counted as one node more where
/// the search ran to its end.
pub open spec fn answer_until<B: Board>(
    board: B,
    team: Team,
    plies: u32,
    tables: Tables,
    polls: Option<nat>,
) -> Run<B::Move> {
    let run = search_until(board, team, plies, stuck(Team::Ally), stuck(Team::Enemy), tables, polls);
    Run {
        stats: match run.stats {
            Some(stats) => Some(
                MoveStats { nodes_visited: stats.nodes_visited.saturating_add(1), ..stats },
            ),
            None => None,
        },
        tables: run.tables,
        polls: run.polls,
    }
}

/// A search that the signal lets run to its end is the search of `search`:
/// the same answer, the same tables. Under a signal that is never raised
/// every search runs to its end.
pub proof fn finished_search_is_the_search<B: Board>(
    board: B,
    team: Team,
    plies: u32,
    alpha: TimedScore,
    beta: TimedScore,
    tables: Tables,
    polls: Option<nat>,
)
    ensures
        ({
            let run = search_until(board, team, plies, alpha, beta, tables, polls);
            let whole = search(board, team, plies, alpha, beta, tables);
            &&& run.stats.is_some() ==> run.stats == Some(whole.stats) && run.tables == whole.tables
            &&& polls.is_none() ==> run.stats.is_some() && run.polls.is_none()
        }),
    decreases plies, 1nat, 0nat,
{
    let moves = moves_of(board, team);
    let key = board.key_of();
    if polls == Some(0nat) || moves.len() == 0 || plies == 0 || board.game_over() {
    } else {
        let hit = lookup(tables.of(team), key, plies);
        let looked = tables.with(team, touched(tables.of(team), key));
        if !usable(hit, moves.len()) {
            finished_scan_is_the_scan(
                board,
                team,
                plies,
                0,
                fresh(team, alpha, beta),
                looked,
                after_poll(polls),
            );
        }
    }
}

/// A scan that the signal lets run to its end is the scan of `scan`.
pub proof fn finished_scan_is_the_scan<B: Board>(
    board: B,
    team: Team,
    plies: u32,
    i: nat,
    p: Progress,
    tables: Tables,
    polls: Option<nat>,
)
    ensures
        ({
            let s = scan_until(board, team, plies, i, p, tables, polls);
            &&& !s.stopped ==> (s.progress, s.tables) == scan(board, team, plies, i, p, tables)
            &&& polls.is_none() ==> !s.stopped && s.polls.is_none()
        }),
    decreases plies, 0nat, moves_of(board, team).len() - i,
{
    let moves = moves_of(board, team);
    if plies == 0 || i >= moves.len() {
    } else {
        let next = board.after(moves[i as int]);
        finished_search_is_the_search(
            next,
            team.other(),
            (plies - 1) as u32,
            p.alpha,
            p.beta,
            tables,
            polls,
        );
        let child = search_until(next, team.other(), (plies - 1) as u32, p.alpha, p.beta, tables, polls);
        if child.stats.is_some() {
            let q = advance(
                team,
                p,
                i as int,
                child.stats.unwrap().score,
                child.stats.unwrap().nodes_visited,
            );
            if !closed(q) {
                finished_scan_is_the_scan(board, team, plies, i + 1, q, child.tables, child.polls);
            }
        }
    }
}

/// A query that the signal lets run to its end gets the answer of `answer`.
pub proof fn finished_answer_is_the_answer<B: Board>(
    board: B,
    team: Team,
    plies: u32,
    tables: Tables,
    polls: Option<nat>,
)
    ensures
        ({
            let run = answer_until(board, team, plies, tables, polls);
            let whole = answer(board, team, plies, tables);
            &&& run.stats.is_some() ==> run.stats == Some(whole.stats) && run.tables == whole.tables
            &&& polls.is_none() ==> run.stats.is_some() && run.polls.is_none()
        }),
{
    finished_search_is_the_search(
        board,
        team,
        plies,
        stuck(Team::Ally),
        stuck(Team::Enemy),
        tables,
        polls,
    );
}

} // verus!
