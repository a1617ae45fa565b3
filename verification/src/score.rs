//! The outcome model: the two sides, the three-tier score, and the score
//! paired with the number of plies after which it is reached.

use core::cmp::Ordering;
use vstd::prelude::*;
use vstd::std_specs::cmp::PartialOrdSpec;

verus! {

/// One of the two sides. `Ally` maximises, `Enemy` minimises.
#[derive(Copy, Clone, Debug, PartialEq, Eq, Structural)]
pub enum Team {
    Enemy,
    Ally,
}

impl Team {
    /// The opposing side.
    pub open spec fn other(self) -> Team {
        match self {
            Team::Enemy => Team::Ally,
            Team::Ally => Team::Enemy,
        }
    }

    /// Flips the side.
    pub fn other_team(self) -> (r: Team)
        ensures
            r == self.other(),
            r != self,
            r.other() == self,
    {
        match self {
            Team::Enemy => Team::Ally,
            Team::Ally => Team::Enemy,
        }
    }
}

/// The result of a position, from the ally's point of view.
///
/// `Lose` lies below every heuristic value and `Win` above every one;
/// heuristic values are ordered by their magnitude.
#[derive(Copy, Clone, Debug, Hash, PartialEq, Eq, Ord, Structural)]
pub enum Score {
    Lose,
    Heuristic(i32),
    Win,
}

impl Score {
    /// The place of a score on the integer line: a heuristic value stands at
    /// its own magnitude, `Lose` just below the least of them and `Win` just
    /// above the greatest.
    pub open spec fn rank(self) -> int {
        match self {
            Score::Lose => i32::MIN - 1,
            Score::Heuristic(v) => v as int,
            Score::Win => i32::MAX + 1,
        }
    }

    /// The score seen from the other side: `Win` and `Lose` change places and
    /// a heuristic value changes sign.
    pub open spec fn negated(self) -> Score {
        match self {
            Score::Lose => Score::Win,
            Score::Heuristic(v) => Score::Heuristic((-v) as i32),
            Score::Win => Score::Lose,
        }
    }

    /// Negates the score. The one heuristic value without a negative,
    /// `i32::MIN`, is excluded.
    pub fn neg(self) -> (r: Score)
        requires
            self != Score::Heuristic(i32::MIN),
        ensures
            r == self.negated(),
    {
        match self {
            Score::Win => Score::Lose,
            Score::Lose => Score::Win,
            Score::Heuristic(val) => Score::Heuristic(-val),
        }
    }
}

/// How two integers compare.
pub open spec fn int_order(a: int, b: int) -> Ordering {
    if a < b {
        Ordering::Less
    } else if a == b {
        Ordering::Equal
    } else {
        Ordering::Greater
    }
}

impl PartialOrd for Score {
    fn partial_cmp(&self, other: &Self) -> (r: Option<Ordering>) {
        match (*self, *other) {
            (Score::Lose, Score::Lose) => Some(Ordering::Equal),
            (Score::Lose, _) => Some(Ordering::Less),
            (Score::Heuristic(_), Score::Lose) => Some(Ordering::Greater),
            (Score::Heuristic(a), Score::Heuristic(b)) => {
                if a < b {
                    Some(Ordering::Less)
                } else if a == b {
                    Some(Ordering::Equal)
                } else {
                    Some(Ordering::Greater)
                }
            },
            (Score::Heuristic(_), Score::Win) => Some(Ordering::Less),
            (Score::Win, Score::Win) => Some(Ordering::Equal),
            (Score::Win, _) => Some(Ordering::Greater),
        }
    }
}

impl vstd::std_specs::cmp::PartialOrdSpecImpl for Score {
    open spec fn obeys_partial_cmp_spec() -> bool {
        true
    }

    open spec fn partial_cmp_spec(&self, other: &Self) -> Option<Ordering> {
        Some(int_order(self.rank(), other.rank()))
    }
}

/// A score together with the number of plies after which it is reached along
/// the chosen line.
#[derive(Copy, Clone, Debug, Hash, PartialEq, Eq, Structural)]
pub struct TimedScore {
    pub score: Score,
    pub turns: u32,
}

impl TimedScore {
    /// Strict preference: `self` is worse for the ally than `other`.
    ///
    /// The score decides. Between equal scores below the neutral heuristic
    /// value the line with fewer turns is worse (a loss is better delayed);
    /// above it the line with more turns is worse (a win is better taken
    /// soon); at the neutral value turns are ignored.
    pub open spec fn precedes(self, other: TimedScore) -> bool {
        ||| self.score.rank() < other.score.rank()
        ||| (self.score == other.score && self.score.rank() < 0 && self.turns < other.turns)
        ||| (self.score == other.score && self.score.rank() > 0 && self.turns > other.turns)
    }

    /// Neither of the two is preferred to the other.
    pub open spec fn ties(self, other: TimedScore) -> bool {
        !self.precedes(other) && !other.precedes(self)
    }

    /// How `self` compares with `other` under `precedes`.
    pub open spec fn order(self, other: TimedScore) -> Ordering {
        if self.precedes(other) {
            Ordering::Less
        } else if other.precedes(self) {
            Ordering::Greater
        } else {
            Ordering::Equal
        }
    }

    /// The same line seen from one ply earlier. The count stops at `u32::MAX`.
    pub open spec fn delayed(self) -> TimedScore {
        TimedScore {
            score: self.score,
            turns: if self.turns < u32::MAX {
                (self.turns + 1) as u32
            } else {
                self.turns
            },
        }
    }

    /// Adds the ply that leads to the position this score was found at.
    pub fn one_ply_earlier(self) -> (r: TimedScore)
        ensures
            r == self.delayed(),
    {
        TimedScore {
            score: self.score,
            turns: if self.turns < u32::MAX {
                self.turns + 1
            } else {
                self.turns
            },
        }
    }
}

impl PartialOrd for TimedScore {
    fn partial_cmp(&self, other: &Self) -> (r: Option<Ordering>) {
        match self.score.partial_cmp(&other.score) {
            Some(Ordering::Less) => Some(Ordering::Less),
            Some(Ordering::Greater) => Some(Ordering::Greater),
            _ => match self.score.partial_cmp(&Score::Heuristic(0)) {
                Some(Ordering::Less) => self.turns.partial_cmp(&other.turns),
                Some(Ordering::Greater) => other.turns.partial_cmp(&self.turns),
                _ => Some(Ordering::Equal),
            },
        }
    }
}

impl vstd::std_specs::cmp::PartialOrdSpecImpl for TimedScore {
    open spec fn obeys_partial_cmp_spec() -> bool {
        true
    }

    open spec fn partial_cmp_spec(&self, other: &Self) -> Option<Ordering> {
        Some(self.order(*other))
    }
}

/// Scores are totally ordered: of `a < b`, `a == b` and `b < a` exactly one
/// holds, and the order is transitive.
pub proof fn score_order_is_total(a: Score, b: Score, c: Score)
    ensures
        (a.rank() < b.rank() || a == b || b.rank() < a.rank()),
        !(a.rank() < b.rank() && a == b),
        !(a.rank() < b.rank() && b.rank() < a.rank()),
        !(a == b && b.rank() < a.rank()),
        a.rank() < b.rank() && b.rank() < c.rank() ==> a.rank() < c.rank(),
        a.partial_cmp_spec(&b) == Some(Ordering::Less) <==> a.rank() < b.rank(),
        a.partial_cmp_spec(&b) == Some(Ordering::Equal) <==> a == b,
        a.partial_cmp_spec(&b) == Some(Ordering::Greater) <==> b.rank() < a.rank(),
{
}

/// `Lose` is below every heuristic value and `Win` above every one, and two
/// heuristic values compare as their magnitudes do.
pub proof fn score_tiers(x: i32, y: i32)
    ensures
        Score::Lose.rank() < Score::Heuristic(x).rank() < Score::Win.rank(),
        Score::Heuristic(x).rank() < Score::Heuristic(y).rank() <==> x < y,
        Score::Lose.partial_cmp_spec(&Score::Heuristic(x)) == Some(Ordering::Less),
        Score::Heuristic(x).partial_cmp_spec(&Score::Win) == Some(Ordering::Less),
        Score::Heuristic(x).partial_cmp_spec(&Score::Heuristic(y)) == Some(Ordering::Less) <==> x
            < y,
{
}

/// The preference on timed scores is a strict weak order: nothing precedes
/// itself, two scores never precede each other, and both preference and
/// indifference are transitive.
pub proof fn timed_order_is_weak_order(a: TimedScore, b: TimedScore, c: TimedScore)
    ensures
        !a.precedes(a),
        !(a.precedes(b) && b.precedes(a)),
        a.precedes(b) && b.precedes(c) ==> a.precedes(c),
        a.ties(b) && b.ties(c) ==> a.ties(c),
        a.ties(b) ==> a.score == b.score,
{
}

/// Between two lines with the same score the quicker one is preferred when
/// the score is above the neutral heuristic value (a win among them), the
/// slower one when it is below (a loss among them), and neither at the
/// neutral value.
pub proof fn turns_break_ties(s: Score, quick: u32, slow: u32)
    requires
        quick < slow,
    ensures
        s.rank() > 0 ==> (TimedScore { score: s, turns: slow }).precedes(
            TimedScore { score: s, turns: quick },
        ),
        s.rank() < 0 ==> (TimedScore { score: s, turns: quick }).precedes(
            TimedScore { score: s, turns: slow },
        ),
        s.rank() == 0 ==> (TimedScore { score: s, turns: quick }).ties(
            TimedScore { score: s, turns: slow },
        ),
        (TimedScore { score: Score::Win, turns: slow }).precedes(
            TimedScore { score: Score::Win, turns: quick },
        ),
        (TimedScore { score: Score::Lose, turns: quick }).precedes(
            TimedScore { score: Score::Lose, turns: slow },
        ),
{
}

/// No timed score lies below an immediate loss or above an immediate win:
/// these are the bounds a search starts from.
pub proof fn immediate_outcomes_bound(a: TimedScore)
    ensures
        !a.precedes(TimedScore { score: Score::Lose, turns: 0 }),
        !(TimedScore { score: Score::Win, turns: 0 }).precedes(a),
{
}

} // verus!
