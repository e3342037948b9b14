use vstd::prelude::*;
use crate::time::Timestamp;

verus! {

/// The graded result of one summary, as extracted from an evaluation text.
pub struct EvaluationScores {
    pub appropriate: bool,
    pub importance: u8,
    pub conciseness: u8,
    pub accuracy: u8,
    pub improvement1: String,
    pub improvement2: String,
    pub improvement3: String,
    pub overall_passed: bool,
}

/// Mathematical value of an `EvaluationScores`, with texts as character sequences.
pub struct EvaluationView {
    pub appropriate: bool,
    pub importance: u8,
    pub conciseness: u8,
    pub accuracy: u8,
    pub improvement1: Seq<char>,
    pub improvement2: Seq<char>,
    pub improvement3: Seq<char>,
    pub overall_passed: bool,
}

impl View for EvaluationScores {
    type V = EvaluationView;

    open spec fn view(&self) -> EvaluationView {
        EvaluationView {
            appropriate: self.appropriate,
            importance: self.importance,
            conciseness: self.conciseness,
            accuracy: self.accuracy,
            improvement1: self.improvement1@,
            improvement2: self.improvement2@,
            improvement3: self.improvement3@,
            overall_passed: self.overall_passed,
        }
    }
}

impl Clone for EvaluationScores {
    fn clone(&self) -> (r: Self)
        ensures
            r@ == self@,
    {
        EvaluationScores {
            appropriate: self.appropriate,
            importance: self.importance,
            conciseness: self.conciseness,
            accuracy: self.accuracy,
            improvement1: self.improvement1.clone(),
            improvement2: self.improvement2.clone(),
            improvement3: self.improvement3.clone(),
            overall_passed: self.overall_passed,
        }
    }
}


/// The kind of an achievement badge, with the threshold it was awarded at.
#[derive(Clone, Copy, Debug, PartialEq, Eq, Structural)]
pub enum BadgeType {
    /// Awarded when the run of consecutive passes reaches the threshold.
    ConsecutiveStreak(usize),
    /// Awarded when the total number of passes reaches the threshold.
    CumulativeMilestone(usize),
}

/// An achievement badge and the moment it was earned.
#[derive(Clone, Copy, Debug, PartialEq, Eq, Structural)]
pub struct Badge {
    pub badge_type: BadgeType,
    pub earned_at: Timestamp,
}

pub open spec fn digit_char(d: nat) -> char {
    if d == 0 {
        '0'
    } else if d == 1 {
        '1'
    } else if d == 2 {
        '2'
    } else if d == 3 {
        '3'
    } else if d == 4 {
        '4'
    } else if d == 5 {
        '5'
    } else if d == 6 {
        '6'
    } else if d == 7 {
        '7'
    } else if d == 8 {
        '8'
    } else {
        '9'
    }
}

/// `n` written in decimal, without leading zeros.
pub open spec fn decimal_text(n: nat) -> Seq<char>
    decreases n,
{
    if n < 10 {
        seq![digit_char(n)]
    } else {
        decimal_text(n / 10) + seq![digit_char(n % 10)]
    }
}

fn digit_str(d: usize) -> (r: &'static str)
    requires
        d < 10,
    ensures
        r@ == seq![digit_char(d as nat)],
{
    proof {
        reveal_strlit("0");
        reveal_strlit("1");
        reveal_strlit("2");
        reveal_strlit("3");
        reveal_strlit("4");
        reveal_strlit("5");
        reveal_strlit("6");
        reveal_strlit("7");
        reveal_strlit("8");
        reveal_strlit("9");
    }
    if d == 0 {
        "0"
    } else if d == 1 {
        "1"
    } else if d == 2 {
        "2"
    } else if d == 3 {
        "3"
    } else if d == 4 {
        "4"
    } else if d == 5 {
        "5"
    } else if d == 6 {
        "6"
    } else if d == 7 {
        "7"
    } else if d == 8 {
        "8"
    } else {
        "9"
    }
}

/// `n` written in decimal.
pub fn decimal_string(n: usize) -> (r: String)
    ensures
        r@ == decimal_text(n as nat),
    decreases n,
{
    if n < 10 {
        String::from_str(digit_str(n))
    } else {
        let mut s = decimal_string(n / 10);
        s.append(digit_str(n % 10));
        s
    }
}

impl Badge {
    /// The icon shown for the badge: a flame for a streak, a star for a milestone.
    pub fn get_icon(&self) -> (r: &'static str)
        ensures
            r@ == match self.badge_type {
                BadgeType::ConsecutiveStreak(_) => "\u{1F525}"@,
                BadgeType::CumulativeMilestone(_) => "\u{2B50}"@,
            },
    {
        match self.badge_type {
            BadgeType::ConsecutiveStreak(_) => "\u{1F525}",
            BadgeType::CumulativeMilestone(_) => "\u{2B50}",
        }
    }

    /// The label shown for the badge: the threshold followed by "連" for a
    /// streak, "累積" followed by the threshold for a milestone.
    pub fn get_display_text(&self) -> (r: String)
        ensures
            r@ == match self.badge_type {
                BadgeType::ConsecutiveStreak(n) => decimal_text(n as nat) + "\u{9023}"@,
                BadgeType::CumulativeMilestone(n) => "\u{7D2F}\u{7A4D}"@ + decimal_text(n as nat),
            },
    {
        match self.badge_type {
            BadgeType::ConsecutiveStreak(n) => {
                let mut s = decimal_string(n);
                s.append("\u{9023}");
                s
            },
            BadgeType::CumulativeMilestone(n) => {
                let mut s = String::from_str("\u{7D2F}\u{7A4D}");
                let d = decimal_string(n);
                s.append(d.as_str());
                s
            },
        }
    }
}

/// The training companion: its level, and the experience gathered toward the next.
#[derive(Clone, Copy, Debug, PartialEq, Eq, Structural)]
pub struct Buddy {
    pub level: u32,
    pub exp: u32,
}

impl Default for Buddy {
    fn default() -> (r: Self)
        ensures
            r.level == 1 && r.exp == 0,
    {
        Buddy { level: 1, exp: 0 }
    }
}

/// One recorded attempt, with the evaluation that graded it, if one was read.
pub struct TrainingResult {
    pub timestamp: Timestamp,
    pub passed: bool,
    pub evaluation: Option<EvaluationScores>,
}

/// Passes and failures on one local calendar day.
#[derive(Clone, Copy, Debug, PartialEq, Eq, Structural)]
pub struct DailyStats {
    pub correct: usize,
    pub incorrect: usize,
}

impl DailyStats {
    /// All attempts of the day.
    pub fn total(&self) -> (r: usize)
        requires
            self.correct + self.incorrect <= usize::MAX,
        ensures
            r == self.correct + self.incorrect,
    {
        self.correct + self.incorrect
    }
}

/// Passes and failures in one seven-day window; window 1 is the oldest.
#[derive(Clone, Copy, Debug, PartialEq, Eq, Structural)]
pub struct WeeklyStats {
    pub week_number: usize,
    pub correct: usize,
    pub incorrect: usize,
}

/// Mean and median of one score over a set of evaluations, kept exact: the
/// mean is `total / count`, the median `(lower_middle + upper_middle) / 2`.
#[derive(Clone, Copy, Debug, PartialEq, Eq, Structural)]
pub struct EvaluationScoreStats {
    pub total: u128,
    pub count: usize,
    /// The middle score, or the lower of the two middle scores for an even count.
    pub lower_middle: u8,
    /// The middle score, or the upper of the two middle scores for an even count.
    pub upper_middle: u8,
}

/// Score statistics over the evaluations recorded in a window of days.
#[derive(Clone, Copy, Debug, PartialEq, Eq, Structural)]
pub struct EvaluationSummary {
    /// The number of attempts in the window that carry an evaluation.
    pub count: usize,
    pub importance: Option<EvaluationScoreStats>,
    pub conciseness: Option<EvaluationScoreStats>,
    pub accuracy: Option<EvaluationScoreStats>,
}

} // verus!
