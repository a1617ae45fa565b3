use minimax::{Score, Team, TimedScore};

fn timed(score: Score, turns: u32) -> TimedScore {
    TimedScore { score, turns }
}

#[test]
fn test_score_ord() {
    assert!(Score::Win > Score::Heuristic(0));
    assert!(Score::Heuristic(0) > Score::Lose);
    assert!(Score::Win > Score::Lose);
    assert!(Score::Heuristic(100) > Score::Heuristic(0));
    assert!(Score::Heuristic(0) > Score::Heuristic(-100));
    assert!(Score::Win == Score::Win);
    assert!(Score::Lose == Score::Lose);
    assert!(Score::Heuristic(0) == Score::Heuristic(0));
}

#[test]
fn test_move_stats_ord() {
    let quick_win = timed(Score::Win, 2);
    let slow_win = timed(Score::Win, 5);
    let quick_loss = timed(Score::Lose, 2);
    let slow_loss = timed(Score::Lose, 5);
    assert!(quick_win > slow_win);
    assert!(slow_loss > quick_loss);
    assert!(slow_win > slow_loss);
    assert!(timed(Score::Heuristic(1), 9) > timed(Score::Heuristic(0), 1));
}

#[test]
fn score_order_is_total_on_samples() {
    let samples = vec![
        Score::Lose,
        Score::Heuristic(i32::MIN),
        Score::Heuristic(-1),
        Score::Heuristic(0),
        Score::Heuristic(1),
        Score::Heuristic(i32::MAX),
        Score::Win,
    ];
    for (i, a) in samples.iter().enumerate() {
        for (j, b) in samples.iter().enumerate() {
            let holds = [a < b, a == b, a > b];
            assert_eq!(holds.iter().filter(|h| **h).count(), 1);
            assert_eq!(a < b, i < j);
            assert_eq!(a > b, i > j);
            assert_eq!(a <= b, i <= j);
        }
    }
}

#[test]
fn extremes_lie_outside_every_heuristic() {
    assert!(Score::Lose < Score::Heuristic(i32::MIN));
    assert!(Score::Heuristic(i32::MAX) < Score::Win);
    assert!(Score::Heuristic(-3) < Score::Heuristic(7));
    assert!(!(Score::Heuristic(7) < Score::Heuristic(7)));
}

#[test]
fn other_team_flips() {
    assert_eq!(Team::Ally.other_team(), Team::Enemy);
    assert_eq!(Team::Enemy.other_team(), Team::Ally);
    assert_eq!(Team::Ally.other_team().other_team(), Team::Ally);
}

#[test]
fn neg_swaps_extremes_and_sign() {
    assert_eq!(Score::Win.neg(), Score::Lose);
    assert_eq!(Score::Lose.neg(), Score::Win);
    assert_eq!(Score::Heuristic(17).neg(), Score::Heuristic(-17));
    assert_eq!(Score::Heuristic(0).neg(), Score::Heuristic(0));
    assert_eq!(Score::Heuristic(i32::MAX).neg(), Score::Heuristic(i32::MIN + 1));
}

#[test]
fn faster_win_is_preferred() {
    assert!(timed(Score::Win, 1) > timed(Score::Win, 3));
    assert!(timed(Score::Heuristic(4), 1) > timed(Score::Heuristic(4), 3));
    assert!(timed(Score::Win, 3) < timed(Score::Win, 1));
}

#[test]
fn slower_loss_is_preferred() {
    assert!(timed(Score::Lose, 3) > timed(Score::Lose, 1));
    assert!(timed(Score::Heuristic(-4), 3) > timed(Score::Heuristic(-4), 1));
}

#[test]
fn turns_are_ignored_at_the_neutral_score() {
    let a = timed(Score::Heuristic(0), 1);
    let b = timed(Score::Heuristic(0), 9);
    assert!(!(a < b));
    assert!(!(a > b));
    assert!(a <= b && a >= b);
    assert!(a != b);
}

#[test]
fn score_decides_before_turns() {
    assert!(timed(Score::Heuristic(5), 100) > timed(Score::Heuristic(4), 1));
    assert!(timed(Score::Heuristic(-5), 100) < timed(Score::Heuristic(-4), 1));
    assert!(timed(Score::Lose, 100) < timed(Score::Heuristic(i32::MIN), 0));
}

#[test]
fn immediate_outcomes_are_the_extremes() {
    let bottom = timed(Score::Lose, 0);
    let top = timed(Score::Win, 0);
    for t in [0u32, 1, 7, u32::MAX] {
        for s in [Score::Lose, Score::Heuristic(-2), Score::Heuristic(0), Score::Heuristic(2), Score::Win] {
            assert!(timed(s, t) >= bottom);
            assert!(timed(s, t) <= top);
        }
    }
}

#[test]
fn one_ply_earlier_counts_a_turn() {
    assert_eq!(timed(Score::Heuristic(3), 0).one_ply_earlier(), timed(Score::Heuristic(3), 1));
    assert_eq!(timed(Score::Win, 41).one_ply_earlier(), timed(Score::Win, 42));
    assert_eq!(timed(Score::Lose, u32::MAX).one_ply_earlier(), timed(Score::Lose, u32::MAX));
}

#[test]
fn scores_sort_from_loss_to_win() {
    let mut scores = vec![
        Score::Win,
        Score::Heuristic(3),
        Score::Lose,
        Score::Heuristic(-3),
        Score::Heuristic(0),
    ];
    scores.sort();
    assert_eq!(
        scores,
        vec![
            Score::Lose,
            Score::Heuristic(-3),
            Score::Heuristic(0),
            Score::Heuristic(3),
            Score::Win,
        ]
    );
    assert_eq!(Score::Win.max(Score::Heuristic(9)), Score::Win);
}
