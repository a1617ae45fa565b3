//! What holds of every search, proved from the definitions in `search`.

use vstd::prelude::*;

use crate::board::Board;
use crate::engine::{deepening, Deepened, Deepening};
use crate::score::{Score, Team, TimedScore};
use crate::search::{
    advance, answer, closed, fresh, moves_of, scan, search, stuck, usable, Found, MoveStats,
    Progress, Tables,
};
use crate::stopping::{answer_until, concluded, scan_until, search_until, Run, Scanned};
use crate::transposition_table::{
    distinct_keys, has_key, index_of, lookup, placed, placed_keeps, sound, stored,
    touched, touched_keeps, Entry, StoredStats,
};

verus! {

/// A side that has to move and has no move gets its forced outcome, whatever
/// the budget and whatever the tables hold: no move, zero turns, only the
/// root counted, and the tables as they were.
pub proof fn stuck_side_has_forced_outcome<B: Board>(
    board: B,
    team: Team,
    plies: u32,
    tables: Tables,
)
    requires
        moves_of(board, team).len() == 0,
    ensures
        answer(board, team, plies, tables).stats == (MoveStats::<B::Move> {
            mv: None,
            score: stuck(team),
            nodes_visited: 1,
        }),
        answer(board, team, plies, tables).tables == tables,
        stuck(Team::Ally).score == Score::Lose,
        stuck(Team::Enemy).score == Score::Win,
{
}

/// At the horizon, and where the game is over, a side that can move gets the
/// position's static score.
pub proof fn horizon_is_evaluated<B: Board>(board: B, team: Team, plies: u32, tables: Tables)
    requires
        moves_of(board, team).len() > 0,
        plies == 0 || board.game_over(),
    ensures
        answer(board, team, plies, tables).stats == (MoveStats::<B::Move> {
            mv: None,
            score: TimedScore { score: board.static_score(), turns: 0 },
            nodes_visited: 1,
        }),
        answer(board, team, plies, tables).tables == tables,
{
}

/// Accessing a key twice is the same as accessing it once.
pub proof fn touched_twice(entries: Seq<(u64, Entry)>, key: u64)
    requires
        distinct_keys(entries),
    ensures
        touched(touched(entries, key), key) == touched(entries, key),
{
    let once = touched(entries, key);
    if has_key(entries, key) {
        let i = index_of(entries, key);
        assert(once[0] == entries[i]);
        assert(has_key(once, key));
        let j = index_of(once, key);
        if j != 0 {
            let j0 = if j <= i { j - 1 } else { j };
            assert(once[j] == entries[j0]);
            if j0 < i {
                assert(entries[j0].0 != entries[i].0);
            } else {
                assert(entries[i].0 != entries[j0].0);
            }
        }
        assert(touched(once, key) =~= once);
    }
}

/// A query that a table can answer is answered from it: the stored result
/// comes back as it is, nothing below the position is searched, and the
/// tables change only in that the position's key becomes the most recently
/// used. The same query asked again gets the same answer.
pub proof fn stored_answer_is_repeated<B: Board>(board: B, team: Team, plies: u32, tables: Tables)
    requires
        sound(tables.of(team), tables.capacity),
        moves_of(board, team).len() > 0,
        plies > 0,
        !board.game_over(),
        usable(lookup(tables.of(team), board.key_of(), plies), moves_of(board, team).len()),
    ensures
        ({
            let hit = lookup(tables.of(team), board.key_of(), plies).unwrap();
            let first = answer(board, team, plies, tables);
            let second = answer(board, team, plies, first.tables);
            &&& first.stats.mv == Some(moves_of(board, team)[hit.index as int])
            &&& first.stats.score == hit.score
            &&& first.stats.nodes_visited == hit.nodes_visited.saturating_add(1)
            &&& first.tables == tables.with(team, touched(tables.of(team), board.key_of()))
            &&& second.stats == first.stats
            &&& second.tables == first.tables
        }),
{
    let key = board.key_of();
    let before = tables.of(team);
    touched_keeps(before, tables.capacity, key, key);
    touched_twice(before, key);
    let first = answer(board, team, plies, tables);
    assert(first.tables.of(team) == touched(before, key));
    assert(lookup(first.tables.of(team), key, plies) == lookup(before, key, plies));
    assert(first.tables.with(team, touched(first.tables.of(team), key)) == first.tables);
}

/// The depth of the search whose result is stored under `key`; below zero
/// where nothing is stored.
pub open spec fn depth_at(entries: Seq<(u64, Entry)>, key: u64) -> int {
    match stored(entries, key) {
        Some((_, reached)) => reached as int,
        None => -1,
    }
}

/// From `before` to `after` no key has come to hold a result of a search
/// deeper than both `plies` and what it held.
pub open spec fn no_deeper(before: Tables, after: Tables, plies: int) -> bool {
    forall|key: u64, team: Team| #[trigger]
        depth_at(after.of(team), key) <= plies || depth_at(after.of(team), key) <= depth_at(
            before.of(team),
            key,
        )
}

/// A search leaves the tables sound, with the limit they had, and stores
/// nothing deeper than its own budget.
pub proof fn search_leaves_tables_sound<B: Board>(
    board: B,
    team: Team,
    plies: u32,
    alpha: TimedScore,
    beta: TimedScore,
    tables: Tables,
)
    requires
        tables.sound(),
    ensures
        search(board, team, plies, alpha, beta, tables).tables.sound(),
        search(board, team, plies, alpha, beta, tables).tables.capacity == tables.capacity,
        no_deeper(tables, search(board, team, plies, alpha, beta, tables).tables, plies as int),
    decreases plies, 1nat, 0nat,
{
    let moves = moves_of(board, team);
    let key = board.key_of();
    if moves.len() == 0 || plies == 0 || board.game_over() {
    } else {
        let before = tables.of(team);
        let looked = tables.with(team, touched(before, key));
        touched_keeps(before, tables.capacity, key, key);
        assert forall|k: u64, t: Team| #[trigger]
            depth_at(looked.of(t), k) == depth_at(tables.of(t), k) by {
            touched_keeps(before, tables.capacity, key, k);
        }
        if !usable(lookup(before, key, plies), moves.len()) {
            scan_leaves_tables_sound(board, team, plies, 0, fresh(team, alpha, beta), looked);
            let (p, scanned) = scan(board, team, plies, 0, fresh(team, alpha, beta), looked);
            let value = (
                StoredStats {
                    index: p.best.unwrap_or(0) as usize,
                    score: p.score,
                    nodes_visited: p.nodes,
                },
                plies,
            );
            let after = search(board, team, plies, alpha, beta, tables).tables;
            placed_keeps(scanned.of(team), scanned.capacity, key, value, key);
            assert forall|k: u64, t: Team| #[trigger]
                depth_at(after.of(t), k) <= plies || depth_at(after.of(t), k) <= depth_at(
                    scanned.of(t),
                    k,
                ) by {
                placed_keeps(scanned.of(team), scanned.capacity, key, value, k);
            }
            assert forall|k: u64, t: Team| #[trigger]
                depth_at(after.of(t), k) <= plies || depth_at(after.of(t), k) <= depth_at(
                    tables.of(t),
                    k,
                ) by {
                assert(depth_at(scanned.of(t), k) <= plies - 1 || depth_at(scanned.of(t), k)
                    <= depth_at(looked.of(t), k));
                assert(depth_at(looked.of(t), k) == depth_at(tables.of(t), k));
            }
        }
    }
}

/// The scan of a node's moves leaves the tables sound, with the limit they
/// had, and stores nothing as deep as the node's own budget. Its best move
/// is one of the node's moves.
pub proof fn scan_leaves_tables_sound<B: Board>(
    board: B,
    team: Team,
    plies: u32,
    i: nat,
    p: Progress,
    tables: Tables,
)
    requires
        plies > 0,
        tables.sound(),
        i <= moves_of(board, team).len(),
        0 < moves_of(board, team).len(),
        i == 0 <==> p.best.is_none(),
        p.best.is_some() ==> 0 <= p.best.unwrap() < moves_of(board, team).len(),
    ensures
        scan(board, team, plies, i, p, tables).1.sound(),
        scan(board, team, plies, i, p, tables).1.capacity == tables.capacity,
        no_deeper(tables, scan(board, team, plies, i, p, tables).1, plies - 1),
        scan(board, team, plies, i, p, tables).0.best.is_some(),
        0 <= scan(board, team, plies, i, p, tables).0.best.unwrap() < moves_of(board, team).len(),
    decreases plies, 0nat, moves_of(board, team).len() - i,
{
    let moves = moves_of(board, team);
    if i < moves.len() {
        let next = board.after(moves[i as int]);
        let child = search(next, team.other(), (plies - 1) as u32, p.alpha, p.beta, tables);
        let q = advance(team, p, i as int, child.stats.score, child.stats.nodes_visited);
        search_leaves_tables_sound(next, team.other(), (plies - 1) as u32, p.alpha, p.beta, tables);
        if !closed(q) {
            scan_leaves_tables_sound(board, team, plies, i + 1, q, child.tables);
            let after = scan(board, team, plies, i, p, tables).1;
            assert forall|k: u64, t: Team| #[trigger]
                depth_at(after.of(t), k) <= plies - 1 || depth_at(after.of(t), k) <= depth_at(
                    tables.of(t),
                    k,
                ) by {
                assert(depth_at(child.tables.of(t), k) <= plies - 1 || depth_at(
                    child.tables.of(t),
                    k,
                ) <= depth_at(tables.of(t), k));
            }
        }
    }
}

/// Asking twice gets the same answer: a query repeated at once, on the
/// tables as the first left them, returns what the first returned, and
/// leaves the tables as they are. The second time the answer comes from the
/// table, unless the position needs no search at all.
///
/// A position's moves are taken to fit a `Vec`. And a result that the
/// tables hold under this position's key from a search deeper than the
/// query is taken to be one for this position, its move among the
/// position's moves: a result of another position that shares the key could
/// neither be used nor be replaced, and the second search would start from
/// other tables than the first.
pub proof fn same_query_same_answer<B: Board>(board: B, team: Team, plies: u32, tables: Tables)
    requires
        tables.sound(),
        moves_of(board, team).len() <= usize::MAX,
        depth_at(tables.of(team), board.key_of()) > plies ==> usable(
            lookup(tables.of(team), board.key_of(), plies),
            moves_of(board, team).len(),
        ),
    ensures
        answer(board, team, plies, answer(board, team, plies, tables).tables).stats == answer(
            board,
            team,
            plies,
            tables,
        ).stats,
        answer(board, team, plies, answer(board, team, plies, tables).tables).tables == answer(
            board,
            team,
            plies,
            tables,
        ).tables,
{
    let moves = moves_of(board, team);
    let key = board.key_of();
    let before = tables.of(team);
    if moves.len() == 0 || plies == 0 || board.game_over() {
    } else if usable(lookup(before, key, plies), moves.len()) {
        stored_answer_is_repeated(board, team, plies, tables);
    } else {
        let looked = tables.with(team, touched(before, key));
        touched_keeps(before, tables.capacity, key, key);
        scan_leaves_tables_sound(board, team, plies, 0, fresh(team, stuck(Team::Ally), stuck(Team::Enemy)), looked);
        let (p, scanned) = scan(board, team, plies, 0, fresh(team, stuck(Team::Ally), stuck(Team::Enemy)), looked);
        let stats = StoredStats {
            index: p.best.unwrap() as usize,
            score: p.score,
            nodes_visited: p.nodes,
        };
        assert(depth_at(looked.of(team), key) == depth_at(before, key));
        assert(depth_at(scanned.of(team), key) <= plies - 1 || depth_at(scanned.of(team), key)
            <= depth_at(looked.of(team), key));
        assert(depth_at(before, key) <= plies);
        let last = placed(scanned.of(team), scanned.capacity, key, (stats, plies));
        placed_keeps(scanned.of(team), scanned.capacity, key, (stats, plies), key);
        let first = answer(board, team, plies, tables);
        assert(first.tables == scanned.with(team, last));
        assert(first.tables.of(team) == last);
        assert(has_key(last, key));
        assert(index_of(last, key) == 0) by {
            let j = index_of(last, key);
            if j != 0 {
                assert(last[0].0 != last[j].0);
            }
        }
        assert(touched(last, key) =~= last);
        assert(lookup(last, key, plies) == Some(stats));
        assert(first.tables.with(team, last) == first.tables);
    }
}

/// At every node, whatever the window, a side without a move gets its forced
/// outcome with no move, zero turns and zero nodes, and the tables stay as
/// they are: the ally loses, the enemy hands over the win.
pub proof fn stuck_side_is_settled_at_every_node<B: Board>(
    board: B,
    team: Team,
    plies: u32,
    alpha: TimedScore,
    beta: TimedScore,
    tables: Tables,
)
    requires
        moves_of(board, team).len() == 0,
    ensures
        search(board, team, plies, alpha, beta, tables) == (Found::<B::Move> {
            stats: MoveStats { mv: None, score: stuck(team), nodes_visited: 0 },
            tables,
        }),
        stuck(Team::Ally) == (TimedScore { score: Score::Lose, turns: 0 }),
        stuck(Team::Enemy) == (TimedScore { score: Score::Win, turns: 0 }),
{
}

/// A node entered with the signal raised returns nothing and touches no
/// table, and the signal stays raised. So does a query, and deepening then
/// ends at once with nothing retained.
pub proof fn raised_signal_stops_at_once<B: Board>(
    board: B,
    team: Team,
    plies: u32,
    alpha: TimedScore,
    beta: TimedScore,
    tables: Tables,
)
    ensures
        search_until(board, team, plies, alpha, beta, tables, Some(0nat)) == (Run::<B::Move> {
            stats: None,
            tables,
            polls: Some(0nat),
        }),
        answer_until(board, team, plies, tables, Some(0nat)) == (Run::<B::Move> {
            stats: None,
            tables,
            polls: Some(0nat),
        }),
        deepening(board, team, Deepened { best: None, completed: 0 }, tables, Some(0nat)) == (
        Deepening::<B::Move> {
            out: Deepened { best: None, completed: 0 },
            tables,
            polls: Some(0nat),
        }),
{
    assert(answer_until(board, team, 1, tables, Some(0nat)).stats.is_none());
}

/// A node one of whose moves was stopped in its search returns nothing,
/// tries none of the moves after it, and stores nothing: the tables are
/// those that the stopped move left.
pub proof fn stopped_move_stops_the_node<B: Board>(
    board: B,
    team: Team,
    plies: u32,
    i: nat,
    p: Progress,
    tables: Tables,
    polls: Option<nat>,
)
    requires
        plies > 0,
        i < moves_of(board, team).len(),
        search_until(
            board.after(moves_of(board, team)[i as int]),
            team.other(),
            (plies - 1) as u32,
            p.alpha,
            p.beta,
            tables,
            polls,
        ).stats.is_none(),
    ensures
        ({
            let child = search_until(
                board.after(moves_of(board, team)[i as int]),
                team.other(),
                (plies - 1) as u32,
                p.alpha,
                p.beta,
                tables,
                polls,
            );
            let s = scan_until(board, team, plies, i, p, tables, polls);
            &&& s == (Scanned { progress: p, tables: child.tables, polls: child.polls, stopped: true })
            &&& concluded(board, team, plies, s) == (Run::<B::Move> {
                stats: None,
                tables: child.tables,
                polls: child.polls,
            })
        }),
{
}

/// A search that was cut short changes nothing of what deepening returns:
/// where the search with the next budget is stopped, deepening ends with
/// exactly what it had retained, be that nothing or the answer of the
/// search before.
pub proof fn cut_short_search_keeps_what_was_retained<B: Board>(
    board: B,
    team: Team,
    so_far: Deepened<B::Move>,
    tables: Tables,
    polls: Option<nat>,
)
    requires
        so_far.completed < u32::MAX,
        answer_until(board, team, (so_far.completed + 1) as u32, tables, polls).stats.is_none(),
    ensures
        deepening(board, team, so_far, tables, polls).out == so_far,
        deepening(board, team, so_far, tables, polls).tables == answer_until(
            board,
            team,
            (so_far.completed + 1) as u32,
            tables,
            polls,
        ).tables,
{
}

/// A search that ran to its end is retained and counted: deepening goes on
/// from its answer with the next budget.
pub proof fn finished_search_is_retained<B: Board>(
    board: B,
    team: Team,
    so_far: Deepened<B::Move>,
    tables: Tables,
    polls: Option<nat>,
)
    requires
        so_far.completed < u32::MAX,
        answer_until(board, team, (so_far.completed + 1) as u32, tables, polls).stats.is_some(),
    ensures
        ({
            let run = answer_until(board, team, (so_far.completed + 1) as u32, tables, polls);
            deepening(board, team, so_far, tables, polls) == deepening(
                board,
                team,
                Deepened { best: run.stats, completed: (so_far.completed + 1) as u32 },
                run.tables,
                run.polls,
            )
        }),
{
}

} // verus!
