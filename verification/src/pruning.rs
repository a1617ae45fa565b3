//! Pruning against exhaustive minimax: as long as no table answers in its
//! place, the search with a window finds the score that the search of every
//! move finds.

use vstd::prelude::*;

use crate::board::Board;
use crate::score::{Score, Team, TimedScore};
use crate::search::{
    advance, answer, closed, fresh, moves_of, scan, search, stuck, usable, Progress, Tables,
};
use crate::transposition_table::{lookup, touched};

verus! {

/// Of two scores the one that `team` prefers; the first where they are equal.
pub open spec fn better(team: Team, a: Score, b: Score) -> Score {
    match team {
        Team::Ally => if a.rank() < b.rank() {
            b
        } else {
            a
        },
        Team::Enemy => if b.rank() < a.rank() {
            b
        } else {
            a
        },
    }
}

/// The minimax score of a position for the side `team` with `plies` to go:
/// the forced outcome where the side has no move, the static score at the
/// horizon or at the end of the game, and elsewhere the best, for that side,
/// of the scores its moves lead to.
pub open spec fn value<B: Board>(board: B, team: Team, plies: u32) -> Score
    decreases plies, 1nat, 0nat,
{
    let moves = moves_of(board, team);
    if moves.len() == 0 {
        stuck(team).score
    } else if plies == 0 || board.game_over() {
        board.static_score()
    } else {
        best_of(board, team, plies, moves.len())
    }
}

/// The best, for `team`, of the scores that the first `n` moves lead to.
pub open spec fn best_of<B: Board>(board: B, team: Team, plies: u32, n: nat) -> Score
    decreases plies, 0nat, n,
{
    let moves = moves_of(board, team);
    if plies == 0 || n == 0 || n > moves.len() {
        stuck(team).score
    } else {
        better(
            team,
            best_of(board, team, plies, (n - 1) as nat),
            value(board.after(moves[n - 1]), team.other(), (plies - 1) as u32),
        )
    }
}

/// No node of this search is answered by a table: wherever the search asks
/// one, the table has nothing it can use.
pub open spec fn unaided<B: Board>(
    board: B,
    team: Team,
    plies: u32,
    alpha: TimedScore,
    beta: TimedScore,
    tables: Tables,
) -> bool
    decreases plies, 1nat, 0nat,
{
    let moves = moves_of(board, team);
    let key = board.key_of();
    if moves.len() == 0 || plies == 0 || board.game_over() {
        true
    } else {
        &&& !usable(lookup(tables.of(team), key, plies), moves.len())
        &&& unaided_scan(
            board,
            team,
            plies,
            0,
            fresh(team, alpha, beta),
            tables.with(team, touched(tables.of(team), key)),
        )
    }
}

/// No node below the moves from the `i`-th on is answered by a table.
pub open spec fn unaided_scan<B: Board>(
    board: B,
    team: Team,
    plies: u32,
    i: nat,
    p: Progress,
    tables: Tables,
) -> bool
    decreases plies, 0nat, moves_of(board, team).len() - i,
{
    let moves = moves_of(board, team);
    if plies == 0 || i >= moves.len() {
        true
    } else {
        let next = board.after(moves[i as int]);
        let child = search(next, team.other(), (plies - 1) as u32, p.alpha, p.beta, tables);
        let q = advance(team, p, i as int, child.stats.score, child.stats.nodes_visited);
        &&& unaided(next, team.other(), (plies - 1) as u32, p.alpha, p.beta, tables)
        &&& (closed(q) || unaided_scan(board, team, plies, i + 1, q, child.tables))
    }
}

/// What a search inside a window tells of the true score `v` by its result
/// `r`, all taken by rank, where the window's bounds have the ranks `lo`
/// and `hi`: a result strictly inside the window is the true score; one at
/// or below `lo` is no less than it; one at or above `hi` is no more than
/// it. Where both bounds have the same rank, a result of that rank tells
/// nothing.
pub open spec fn within(r: int, v: int, lo: int, hi: int) -> bool {
    &&& (r < lo ==> v <= r)
    &&& (r > hi ==> v >= r)
    &&& (lo < hi && r <= lo ==> v <= r)
    &&& (lo < hi && r >= hi ==> v >= r)
    &&& (lo < r < hi ==> v == r)
}

/// The best score a scan has seen: before the first move, the outcome of
/// having none.
pub open spec fn seen(team: Team, p: Progress) -> int {
    if p.best.is_some() {
        p.score.score.rank()
    } else {
        stuck(team).score.rank()
    }
}

/// A scan that has dealt with the first `i` moves of a node entered with
/// the window from `alpha` to `beta` stands as it should: it has a best move
/// once it has seen one, the side's own bound follows the best score seen,
/// the other bound is as it was, and the best score seen tells of the best
/// true score among those moves what a search inside the window does.
pub open spec fn on_course<B: Board>(
    board: B,
    team: Team,
    plies: u32,
    i: nat,
    p: Progress,
    alpha: TimedScore,
    beta: TimedScore,
) -> bool {
    let m = seen(team, p);
    let v = best_of(board, team, plies, i).rank();
    &&& p.best.is_some() <==> i > 0
    &&& within(m, v, alpha.score.rank(), beta.score.rank())
    &&& match team {
        Team::Ally => p.beta == beta && (p.alpha == alpha || (p.best.is_some() && p.alpha
            == p.score)) && p.alpha.score.rank() == if alpha.score.rank() < m {
            m
        } else {
            alpha.score.rank()
        },
        Team::Enemy => p.alpha == alpha && (p.beta == beta || (p.best.is_some() && p.beta
            == p.score)) && p.beta.score.rank() == if m < beta.score.rank() {
            m
        } else {
            beta.score.rank()
        },
    }
}

/// The best of more moves is no worse for the side that chooses.
pub proof fn best_of_grows<B: Board>(board: B, team: Team, plies: u32, n: nat, k: nat)
    requires
        plies > 0,
        n <= k <= moves_of(board, team).len(),
    ensures
        team == Team::Ally ==> best_of(board, team, plies, n).rank() <= best_of(
            board,
            team,
            plies,
            k,
        ).rank(),
        team == Team::Enemy ==> best_of(board, team, plies, n).rank() >= best_of(
            board,
            team,
            plies,
            k,
        ).rank(),
    decreases k - n,
{
    if n < k {
        best_of_grows(board, team, plies, n, (k - 1) as nat);
    }
}

/// A search that no table answers returns, inside its window, the minimax
/// score; outside the window, a bound on it from the side it left by.
pub proof fn search_within_window<B: Board>(
    board: B,
    team: Team,
    plies: u32,
    alpha: TimedScore,
    beta: TimedScore,
    tables: Tables,
)
    requires
        alpha.precedes(beta),
        unaided(board, team, plies, alpha, beta, tables),
    ensures
        within(
            search(board, team, plies, alpha, beta, tables).stats.score.score.rank(),
            value(board, team, plies).rank(),
            alpha.score.rank(),
            beta.score.rank(),
        ),
    decreases plies, 1nat, 0nat,
{
    let moves = moves_of(board, team);
    if moves.len() == 0 || plies == 0 || board.game_over() {
    } else {
        let looked = tables.with(team, touched(tables.of(team), board.key_of()));
        scan_within_window(board, team, plies, 0, fresh(team, alpha, beta), looked, alpha, beta);
    }
}

/// The scan of a node's moves, from a state that is on course and with no
/// table answering below, ends with a best score that tells of the node's
/// minimax score what a search inside the window does.
pub proof fn scan_within_window<B: Board>(
    board: B,
    team: Team,
    plies: u32,
    i: nat,
    p: Progress,
    tables: Tables,
    alpha: TimedScore,
    beta: TimedScore,
)
    requires
        plies > 0,
        0 < moves_of(board, team).len(),
        i <= moves_of(board, team).len(),
        alpha.precedes(beta),
        !closed(p),
        on_course(board, team, plies, i, p, alpha, beta),
        unaided_scan(board, team, plies, i, p, tables),
    ensures
        within(
            scan(board, team, plies, i, p, tables).0.score.score.rank(),
            best_of(board, team, plies, moves_of(board, team).len()).rank(),
            alpha.score.rank(),
            beta.score.rank(),
        ),
    decreases plies, 0nat, moves_of(board, team).len() - i,
{
    let moves = moves_of(board, team);
    if i < moves.len() {
        let next = board.after(moves[i as int]);
        let child = search(next, team.other(), (plies - 1) as u32, p.alpha, p.beta, tables);
        let q = advance(team, p, i as int, child.stats.score, child.stats.nodes_visited);
        search_within_window(next, team.other(), (plies - 1) as u32, p.alpha, p.beta, tables);
        let r = child.stats.score.score.rank();
        let v = value(next, team.other(), (plies - 1) as u32).rank();
        assert(within(r, v, p.alpha.score.rank(), p.beta.score.rank()));
        assert(best_of(board, team, plies, i + 1) == better(
            team,
            best_of(board, team, plies, i),
            value(next, team.other(), (plies - 1) as u32),
        ));
        assert(on_course(board, team, plies, i + 1, q, alpha, beta));
        if closed(q) {
            best_of_grows(board, team, plies, i + 1, moves.len());
        } else {
            scan_within_window(board, team, plies, i + 1, q, child.tables, alpha, beta);
        }
    }
}

/// Pruning does not change the score: a query that no table answers gets
/// the score that exhaustive minimax over the same tree gives.
pub proof fn pruning_keeps_the_score<B: Board>(board: B, team: Team, plies: u32, tables: Tables)
    requires
        unaided(board, team, plies, stuck(Team::Ally), stuck(Team::Enemy), tables),
    ensures
        answer(board, team, plies, tables).stats.score.score == value(board, team, plies),
{
    search_within_window(board, team, plies, stuck(Team::Ally), stuck(Team::Enemy), tables);
}

/// The number of nodes below a position that exhaustive minimax visits:
/// none below a position that is settled at once, and elsewhere every move's
/// position with all that lies below it.
pub open spec fn nodes_below<B: Board>(board: B, team: Team, plies: u32) -> nat
    decreases plies, 1nat, 0nat,
{
    let moves = moves_of(board, team);
    if moves.len() == 0 || plies == 0 || board.game_over() {
        0
    } else {
        nodes_below_first(board, team, plies, moves.len())
    }
}

/// The number of nodes that exhaustive minimax visits for the first `n`
/// moves of a position.
pub open spec fn nodes_below_first<B: Board>(board: B, team: Team, plies: u32, n: nat) -> nat
    decreases plies, 0nat, n,
{
    let moves = moves_of(board, team);
    if plies == 0 || n == 0 || n > moves.len() {
        0
    } else {
        nodes_below_first(board, team, plies, (n - 1) as nat) + 1 + nodes_below(
            board.after(moves[n - 1]),
            team.other(),
            (plies - 1) as u32,
        )
    }
}

/// More moves have no fewer nodes below them.
pub proof fn nodes_below_first_grows<B: Board>(board: B, team: Team, plies: u32, n: nat, k: nat)
    requires
        plies > 0,
        n <= k <= moves_of(board, team).len(),
    ensures
        nodes_below_first(board, team, plies, n) <= nodes_below_first(board, team, plies, k),
    decreases k - n,
{
    if n < k {
        nodes_below_first_grows(board, team, plies, n, (k - 1) as nat);
    }
}

/// A search that no table answers counts no more nodes than exhaustive
/// minimax visits below the same position.
pub proof fn search_counts_no_more<B: Board>(
    board: B,
    team: Team,
    plies: u32,
    alpha: TimedScore,
    beta: TimedScore,
    tables: Tables,
)
    requires
        unaided(board, team, plies, alpha, beta, tables),
    ensures
        search(board, team, plies, alpha, beta, tables).stats.nodes_visited <= nodes_below(
            board,
            team,
            plies,
        ),
    decreases plies, 1nat, 0nat,
{
    let moves = moves_of(board, team);
    if moves.len() == 0 || plies == 0 || board.game_over() {
    } else {
        let looked = tables.with(team, touched(tables.of(team), board.key_of()));
        scan_counts_no_more(board, team, plies, 0, fresh(team, alpha, beta), looked);
    }
}

/// A scan below which no table answers counts no more nodes than exhaustive
/// minimax visits for the position's moves.
pub proof fn scan_counts_no_more<B: Board>(
    board: B,
    team: Team,
    plies: u32,
    i: nat,
    p: Progress,
    tables: Tables,
)
    requires
        plies > 0,
        i <= moves_of(board, team).len(),
        p.nodes <= nodes_below_first(board, team, plies, i),
        unaided_scan(board, team, plies, i, p, tables),
    ensures
        scan(board, team, plies, i, p, tables).0.nodes <= nodes_below_first(
            board,
            team,
            plies,
            moves_of(board, team).len(),
        ),
    decreases plies, 0nat, moves_of(board, team).len() - i,
{
    let moves = moves_of(board, team);
    if i < moves.len() {
        let next = board.after(moves[i as int]);
        let child = search(next, team.other(), (plies - 1) as u32, p.alpha, p.beta, tables);
        let q = advance(team, p, i as int, child.stats.score, child.stats.nodes_visited);
        search_counts_no_more(next, team.other(), (plies - 1) as u32, p.alpha, p.beta, tables);
        assert(q.nodes <= nodes_below_first(board, team, plies, i + 1));
        if closed(q) {
            nodes_below_first_grows(board, team, plies, i + 1, moves.len());
        } else {
            scan_counts_no_more(board, team, plies, i + 1, q, child.tables);
        }
    }
}

/// Pruning only ever saves work: a query that no table answers reports at
/// least the root and at most the nodes that exhaustive minimax visits, the
/// root among them.
pub proof fn pruning_visits_no_more<B: Board>(board: B, team: Team, plies: u32, tables: Tables)
    requires
        unaided(board, team, plies, stuck(Team::Ally), stuck(Team::Enemy), tables),
    ensures
        1 <= answer(board, team, plies, tables).stats.nodes_visited <= nodes_below(
            board,
            team,
            plies,
        ) + 1,
{
    search_counts_no_more(board, team, plies, stuck(Team::Ally), stuck(Team::Enemy), tables);
}

} // verus!
