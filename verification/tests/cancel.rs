use minimax::{
    retain, Board, Deepened, Minimax, MoveStats, Never, Score, StopSignal, Team, TimedScore,
};

/// A pile of counters: a move takes one or two, and the side that cannot
/// move is stuck.
#[derive(Clone, PartialEq, Eq, Debug)]
struct Pile {
    left: u32,
    moved: u32,
}

impl Board for Pile {
    type Move = u32;

    fn gen_ally_moves(&self) -> Vec<u32> {
        (1..=2u32).filter(|take| *take <= self.left).collect()
    }

    fn gen_enemy_moves(&self) -> Vec<u32> {
        (1..=2u32).filter(|take| *take <= self.left).collect()
    }

    fn do_move(&mut self, mv: &u32) {
        self.left -= *mv;
        self.moved += 1;
    }

    fn score(&self) -> Score {
        Score::Heuristic(self.left as i32 - self.moved as i32)
    }

    fn is_game_over(&self) -> bool {
        false
    }

    fn key(&self) -> u64 {
        (self.left as u64) << 32 | self.moved as u64
    }

    fn duplicate(&self) -> Self {
        self.clone()
    }
}

/// Raised from the given poll on.
struct After {
    polls_left: u64,
}

impl StopSignal for After {
    fn raised(&mut self) -> bool {
        if self.polls_left == 0 {
            true
        } else {
            self.polls_left -= 1;
            false
        }
    }
}

fn pile(left: u32) -> Pile {
    Pile { left, moved: 0 }
}

#[test]
fn never_is_never_raised() {
    let mut never = Never;
    for _ in 0..10 {
        assert!(!never.raised());
    }
}

#[test]
fn unstopped_search_equals_plain_search() {
    for plies in 0..6u32 {
        for team in [Team::Ally, Team::Enemy] {
            let mut plain = Minimax::new(16);
            let mut stoppable = Minimax::new(16);
            let expected = plain.minimax(&pile(7), team, plies);
            assert_eq!(stoppable.minimax_until(&pile(7), team, plies, &mut Never), Some(expected));
        }
    }
}

#[test]
fn stop_before_the_root_returns_nothing() {
    let mut minimax = Minimax::new(16);
    let mut stop = After { polls_left: 0 };
    assert_eq!(minimax.minimax_until(&pile(7), Team::Ally, 4, &mut stop), None);
    assert_eq!(minimax.minimax_until(&pile(0), Team::Ally, 4, &mut stop), None);
}

#[test]
fn stopped_search_returns_nothing_or_the_whole_answer() {
    let mut probe = Minimax::new(16);
    let full = probe.minimax(&pile(7), Team::Ally, 4);
    assert!(full.nodes_visited > 3);
    let mut finished = false;
    for polls in 0..=full.nodes_visited {
        let mut minimax = Minimax::new(16);
        let mut stop = After { polls_left: polls };
        let found = minimax.minimax_until(&pile(7), Team::Ally, 4, &mut stop);
        if finished {
            assert_eq!(found, Some(full.clone()));
        } else if found.is_some() {
            assert_eq!(found, Some(full.clone()));
            assert!(polls > 3);
            finished = true;
        }
    }
    assert!(finished);
}

#[test]
fn deepening_stopped_at_once_returns_nothing() {
    let mut minimax = Minimax::new(16);
    let mut stop = After { polls_left: 0 };
    assert_eq!(
        minimax.deepen(&pile(7), Team::Ally, &mut stop),
        Deepened { best: None, completed: 0 }
    );
}

#[test]
fn deepening_returns_the_last_complete_search() {
    for polls in 1..200u64 {
        let mut minimax = Minimax::new(64);
        let mut stop = After { polls_left: polls };
        let out = minimax.deepen(&pile(9), Team::Ally, &mut stop);
        let mut replay = Minimax::new(64);
        let mut expected: Option<MoveStats<u32>> = None;
        for plies in 1..=out.completed {
            expected = Some(replay.minimax(&pile(9), Team::Ally, plies));
        }
        assert_eq!(out.best, expected);
        assert_eq!(out.best.is_none(), out.completed == 0);
    }
}

#[test]
fn deepening_goes_deeper_with_more_time() {
    let mut completed = 0;
    for polls in [1u64, 10, 100, 1000] {
        let mut minimax = Minimax::new(64);
        let mut stop = After { polls_left: polls };
        let out = minimax.deepen(&pile(9), Team::Ally, &mut stop);
        assert!(out.completed >= completed);
        completed = out.completed;
    }
    assert!(completed >= 2);
}

#[test]
fn first_ply_of_the_pile() {
    let mut minimax = Minimax::new(16);
    assert_eq!(
        minimax.minimax(&pile(7), Team::Ally, 1),
        MoveStats {
            mv: Some(1),
            score: TimedScore { score: Score::Heuristic(5), turns: 1 },
            nodes_visited: 3,
        }
    );
}

fn some_stats(mv: u32, value: i32) -> MoveStats<u32> {
    MoveStats {
        mv: Some(mv),
        score: TimedScore { score: Score::Heuristic(value), turns: 1 },
        nodes_visited: 3,
    }
}

#[test]
fn finished_search_is_retained_and_counted() {
    let nothing: Deepened<u32> = Deepened { best: None, completed: 0 };
    let (next, go_on) = retain(nothing, Some(some_stats(1, 5)));
    assert!(go_on);
    assert_eq!(next, Deepened { best: Some(some_stats(1, 5)), completed: 1 });
    let (next, go_on) = retain(next, Some(some_stats(2, 7)));
    assert!(go_on);
    assert_eq!(next, Deepened { best: Some(some_stats(2, 7)), completed: 2 });
}

#[test]
fn stopped_search_leaves_what_was_retained() {
    let nothing: Deepened<u32> = Deepened { best: None, completed: 0 };
    let (next, go_on) = retain(nothing, None);
    assert!(!go_on);
    assert_eq!(next, Deepened { best: None, completed: 0 });
    let had = Deepened { best: Some(some_stats(2, 7)), completed: 4 };
    let (next, go_on) = retain(had, None);
    assert!(!go_on);
    assert_eq!(next, Deepened { best: Some(some_stats(2, 7)), completed: 4 });
}

#[test]
fn stop_inside_the_first_search_returns_nothing() {
    for polls in [1u64, 2] {
        let mut minimax = Minimax::new(16);
        let mut stop = After { polls_left: polls };
        assert_eq!(
            minimax.deepen(&pile(7), Team::Ally, &mut stop),
            Deepened { best: None, completed: 0 }
        );
    }
}

#[test]
fn stop_at_entry_leaves_the_tables_alone() {
    let mut fresh = Minimax::new(16);
    let expected = fresh.minimax(&pile(7), Team::Ally, 4);
    let mut minimax = Minimax::new(16);
    let mut stop = After { polls_left: 0 };
    assert_eq!(minimax.minimax_until(&pile(7), Team::Ally, 4, &mut stop), None);
    assert_eq!(minimax.deepen(&pile(7), Team::Ally, &mut stop).completed, 0);
    assert_eq!(minimax.minimax(&pile(7), Team::Ally, 4), expected);
}

#[test]
fn stopped_node_is_not_stored() {
    let mut probe = Minimax::new(16);
    let full = probe.minimax(&pile(7), Team::Ally, 4);
    for polls in 1..full.nodes_visited {
        let mut minimax = Minimax::new(16);
        let mut stop = After { polls_left: polls };
        if minimax.minimax_until(&pile(7), Team::Ally, 4, &mut stop).is_none() {
            let again = minimax.minimax(&pile(7), Team::Ally, 4);
            assert_eq!(again.mv, full.mv);
            assert_eq!(again.score, full.score);
        }
    }
}

#[test]
fn every_node_polls_once() {
    let board = pile(2);
    let mut minimax = Minimax::new(16);
    let mut stop = After { polls_left: 3 };
    assert!(minimax.minimax_until(&board, Team::Ally, 1, &mut stop).is_some());
    assert_eq!(stop.polls_left, 0);
    let mut minimax = Minimax::new(16);
    let mut stop = After { polls_left: 2 };
    assert_eq!(minimax.minimax_until(&board, Team::Ally, 1, &mut stop), None);
}
