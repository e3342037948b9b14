//! The training log and what is derived from it: the streak of consecutive
//! passes, achievement badges, and the buddy's level.
use vstd::prelude::*;
use crate::evaluation::{parse_evaluation, parse_spec, ParseError};
use crate::models::{Badge, BadgeType, Buddy, EvaluationScores, TrainingResult};
use crate::time::{earlier_than, now, Timestamp, SECS_PER_DAY};

verus! {

/// Badges are awarded at every multiple of this many passes.
pub const BADGE_STEP: usize = 5;

/// The largest streak that earns a badge.
pub const STREAK_BADGE_LIMIT: usize = 50;

/// The largest total of passes that earns a badge.
pub const MILESTONE_BADGE_LIMIT: usize = 100;

/// Days without training after which the buddy loses a level.
pub const DECAY_DAYS: i64 = 3;

/// The number of passed attempts in the log.
pub open spec fn passes(r: Seq<TrainingResult>) -> nat
    decreases r.len(),
{
    if r.len() == 0 {
        0
    } else {
        passes(r.drop_last()) + if r.last().passed {
            1nat
        } else {
            0nat
        }
    }
}

/// The number of passed attempts at the end of the log, after its last failure.
pub open spec fn trailing_passes(r: Seq<TrainingResult>) -> nat
    decreases r.len(),
{
    if r.len() > 0 && r.last().passed {
        1 + trailing_passes(r.drop_last())
    } else {
        0
    }
}

pub open spec fn has_badge(badges: Seq<Badge>, t: BadgeType) -> bool {
    exists|i: int| 0 <= i < badges.len() && (#[trigger] badges[i]).badge_type == t
}

/// No two badges are of the same kind and threshold.
pub open spec fn distinct_badges(badges: Seq<Badge>) -> bool {
    forall|i: int, j: int|
        0 <= i < j < badges.len() ==> (#[trigger] badges[i]).badge_type != (#[trigger] badges[j]).badge_type
}

/// The badges with one of type `t`, earned at `at`, added unless one is there.
pub open spec fn award(badges: Seq<Badge>, t: BadgeType, at: Timestamp) -> Seq<Badge> {
    if has_badge(badges, t) {
        badges
    } else {
        badges.push(Badge { badge_type: t, earned_at: at })
    }
}

/// The badges after a pass that brings the streak to `streak` and the total of
/// passes to `total`, at the moment `at`.
pub open spec fn awards_for(badges: Seq<Badge>, streak: int, total: int, at: Timestamp) -> Seq<
    Badge,
> {
    let with_streak = if streak % 5 == 0 && streak <= 50 {
        award(badges, BadgeType::ConsecutiveStreak(streak as usize), at)
    } else {
        badges
    };
    if total % 5 == 0 && total <= 100 {
        award(with_streak, BadgeType::CumulativeMilestone(total as usize), at)
    } else {
        with_streak
    }
}

/// The badges that the log earns, replayed from its start: each pass is
/// judged by the streak and total in force right after it, and the badge is
/// dated by the attempt.
pub open spec fn replay(r: Seq<TrainingResult>) -> Seq<Badge>
    decreases r.len(),
{
    if r.len() == 0 {
        Seq::empty()
    } else if r.last().passed {
        awards_for(replay(r.drop_last()), trailing_passes(r) as int, passes(r) as int, r.last().timestamp)
    } else {
        replay(r.drop_last())
    }
}

/// Experience needed to leave `level`.
pub open spec fn required_exp(level: u32) -> int {
    if level == 2 {
        10
    } else {
        5
    }
}

/// The buddy after one pass: one more experience point, and one level up
/// (with experience back to zero) once the level's requirement is met.
pub open spec fn gained(b: Buddy) -> Buddy {
    if b.exp + 1 >= required_exp(b.level) {
        Buddy {
            level: if b.level < u32::MAX {
                (b.level + 1) as u32
            } else {
                b.level
            },
            exp: 0,
        }
    } else {
        Buddy { level: b.level, exp: (b.exp + 1) as u32 }
    }
}

/// The buddy after a long idle period: one level down, never below one, and
/// no experience.
pub open spec fn decayed(b: Buddy) -> Buddy {
    Buddy {
        level: if b.level > 1 {
            (b.level - 1) as u32
        } else {
            1
        },
        exp: 0,
    }
}

/// At `now`, at least three days have passed since `last`.
pub open spec fn idle_for_decay(last: Timestamp, now: Timestamp) -> bool {
    !earlier_than(now, last.secs + DECAY_DAYS * SECS_PER_DAY, last.nanos as int)
}

/// The progress record: the log of attempts and what is derived from it.
pub struct TrainingStats {
    pub results: Vec<TrainingResult>,
    pub badges: Vec<Badge>,
    pub current_streak: usize,
    pub buddy: Buddy,
    pub last_training_at: Option<Timestamp>,
}

/// `new` is `old` after one attempt, passed or not, recorded at `now`.
pub open spec fn append_step(
    old: TrainingStats,
    new: TrainingStats,
    passed: bool,
    evaluation: Option<EvaluationScores>,
    now: Timestamp,
) -> bool {
    &&& new.results@ == old.results@.push(TrainingResult { timestamp: now, passed, evaluation })
    &&& new.last_training_at == Some(now)
    &&& new.current_streak == if passed {
        old.current_streak + 1
    } else {
        0
    }
    &&& new.badges@ == if passed {
        awards_for(old.badges@, old.current_streak + 1, passes(new.results@) as int, now)
    } else {
        old.badges@
    }
    &&& new.buddy == if passed {
        gained(old.buddy)
    } else {
        old.buddy
    }
}

proof fn lemma_counts_bounded(r: Seq<TrainingResult>)
    ensures
        trailing_passes(r) <= r.len(),
        passes(r) <= r.len(),
    decreases r.len(),
{
    if r.len() > 0 {
        lemma_counts_bounded(r.drop_last());
    }
}

/// The number of passed attempts in `results`.
fn count_passes(results: &Vec<TrainingResult>) -> (n: usize)
    ensures
        n == passes(results@),
{
    let mut n: usize = 0;
    let mut i: usize = 0;
    while i < results.len()
        invariant
            i <= results@.len(),
            n == passes(results@.take(i as int)),
            n <= i,
        decreases results@.len() - i,
    {
        assert(results@.take(i + 1).drop_last() =~= results@.take(i as int));
        if results[i].passed {
            n = n + 1;
        }
        i = i + 1;
    }
    assert(results@.take(i as int) =~= results@);
    n
}

/// Adds a badge of type `t`, earned at `at`, unless one is there.
fn award_badge(badges: &mut Vec<Badge>, t: BadgeType, at: Timestamp)
    ensures
        final(badges)@ == award(old(badges)@, t, at),
{
    let mut i: usize = 0;
    while i < badges.len()
        invariant
            i <= badges@.len(),
            forall|j: int| 0 <= j < i ==> (#[trigger] badges@[j]).badge_type != t,
        decreases badges@.len() - i,
    {
        if badges[i].badge_type == t {
            assert(has_badge(badges@, t));
            return;
        }
        i = i + 1;
    }
    badges.push(Badge { badge_type: t, earned_at: at });
}

/// Awards the badges that a pass bringing the streak to `streak` and the
/// total to `total` earns.
fn award_thresholds(badges: &mut Vec<Badge>, streak: usize, total: usize, at: Timestamp)
    ensures
        final(badges)@ == awards_for(old(badges)@, streak as int, total as int, at),
{
    if streak % BADGE_STEP == 0 && streak <= STREAK_BADGE_LIMIT {
        award_badge(badges, BadgeType::ConsecutiveStreak(streak), at);
    }
    if total % BADGE_STEP == 0 && total <= MILESTONE_BADGE_LIMIT {
        award_badge(badges, BadgeType::CumulativeMilestone(total), at);
    }
}

/// The buddy after one pass.
fn gain_exp(b: Buddy) -> (r: Buddy)
    ensures
        r == gained(b),
{
    let required: u32 = if b.level == 2 {
        10
    } else {
        5
    };
    if b.exp >= required - 1 {
        Buddy {
            level: if b.level < u32::MAX {
                b.level + 1
            } else {
                b.level
            },
            exp: 0,
        }
    } else {
        Buddy { level: b.level, exp: b.exp + 1 }
    }
}

impl TrainingStats {
    /// The streak counter agrees with the log.
    pub open spec fn streak_consistent(&self) -> bool {
        self.current_streak == trailing_passes(self.results@)
    }

    /// An empty record: no attempts, no badges, a level-one buddy.
    pub fn new() -> (r: Self)
        ensures
            r.results@.len() == 0,
            r.badges@.len() == 0,
            r.current_streak == 0,
            r.buddy == (Buddy { level: 1, exp: 0 }),
            r.last_training_at is None,
            r.streak_consistent(),
    {
        TrainingStats {
            results: Vec::new(),
            badges: Vec::new(),
            current_streak: 0,
            buddy: Buddy::default(),
            last_training_at: None,
        }
    }

    /// Records an attempt made at `now`: it joins the end of the log, the
    /// streak grows by one on a pass and drops to zero on a failure, a pass
    /// earns the badges its streak and total reach and one point for the
    /// buddy, and a failure takes nothing away.
    pub fn add_result_at(&mut self, passed: bool, evaluation: Option<EvaluationScores>, now: Timestamp)
        requires
            old(self).streak_consistent(),
        ensures
            append_step(*old(self), *final(self), passed, evaluation, now),
            final(self).streak_consistent(),
            distinct_badges(old(self).badges@) ==> distinct_badges(final(self).badges@),
    {
        let ghost before = self.results@;
        self.results.push(TrainingResult { timestamp: now, passed, evaluation });
        assert(self.results@.drop_last() =~= before);
        self.last_training_at = Some(now);
        if passed {
            let len = self.results.len();
            proof {
                lemma_counts_bounded(self.results@);
                assert(trailing_passes(self.results@) == self.current_streak + 1);
            }
            self.current_streak = self.current_streak + 1;
            let total = count_passes(&self.results);
            let ghost old_badges = self.badges@;
            award_thresholds(&mut self.badges, self.current_streak, total, now);
            proof {
                if distinct_badges(old_badges) {
                    lemma_awards_distinct(old_badges, self.current_streak as int, total as int, now);
                }
            }
            self.buddy = gain_exp(self.buddy);
        } else {
            self.current_streak = 0;
        }
    }

    /// Records an attempt made now, without an evaluation.
    pub fn add_result(&mut self, passed: bool)
        requires
            old(self).streak_consistent(),
        ensures
            final(self).results@.len() == old(self).results@.len() + 1,
            append_step(*old(self), *final(self), passed, None, final(self).results@.last().timestamp),
            final(self).streak_consistent(),
    {
        self.add_result_at(passed, None, now());
    }

    /// Records an attempt made now, with the evaluation that graded it.
    pub fn add_evaluated_result(&mut self, passed: bool, evaluation: EvaluationScores)
        requires
            old(self).streak_consistent(),
        ensures
            final(self).results@.len() == old(self).results@.len() + 1,
            append_step(
                *old(self),
                *final(self),
                passed,
                Some(evaluation),
                final(self).results@.last().timestamp,
            ),
            final(self).streak_consistent(),
    {
        self.add_result_at(passed, Some(evaluation), now());
    }

    /// Records the attempt that the evaluation text `response` grades, at
    /// `now`: where the text reads as an evaluation, with its verdict and
    /// scores; where it does not, as a failure without scores. Returns the
    /// verdict, or why the text could not be read.
    pub fn record_evaluation_at(&mut self, response: &str, now: Timestamp) -> (r: Result<
        bool,
        ParseError,
    >)
        requires
            old(self).streak_consistent(),
        ensures
            final(self).streak_consistent(),
            final(self).results@.len() == old(self).results@.len() + 1,
            match parse_spec(response@) {
                Ok(m) => r == Ok::<bool, ParseError>(m.overall_passed)
                    && final(self).results@.last().evaluation is Some
                    && final(self).results@.last().evaluation->0@ == m
                    && append_step(
                    *old(self),
                    *final(self),
                    m.overall_passed,
                    final(self).results@.last().evaluation,
                    now,
                ),
                Err(e) => r is Err && r->Err_0@ == e && append_step(
                    *old(self),
                    *final(self),
                    false,
                    None,
                    now,
                ),
            },
    {
        match parse_evaluation(response) {
            Ok(e) => {
                let passed = e.overall_passed;
                self.add_result_at(passed, Some(e), now);
                Ok(passed)
            },
            Err(err) => {
                self.add_result_at(false, None, now);
                Err(err)
            },
        }
    }

    /// Records, now, the attempt that the evaluation text `response` grades.
    pub fn record_evaluation(&mut self, response: &str) -> (r: Result<bool, ParseError>)
        requires
            old(self).streak_consistent(),
        ensures
            final(self).streak_consistent(),
            final(self).results@.len() == old(self).results@.len() + 1,
            match parse_spec(response@) {
                Ok(m) => r == Ok::<bool, ParseError>(m.overall_passed)
                    && final(self).results@.last().evaluation is Some
                    && final(self).results@.last().evaluation->0@ == m
                    && append_step(
                    *old(self),
                    *final(self),
                    m.overall_passed,
                    final(self).results@.last().evaluation,
                    final(self).results@.last().timestamp,
                ),
                Err(e) => r is Err && r->Err_0@ == e && append_step(
                    *old(self),
                    *final(self),
                    false,
                    None,
                    final(self).results@.last().timestamp,
                ),
            },
    {
        self.record_evaluation_at(response, now())
    }

    /// Sets the streak from the log alone: the passes after its last failure.
    pub fn recalculate_streak(&mut self)
        ensures
            final(self).current_streak == trailing_passes(final(self).results@),
            final(self).results@ == old(self).results@,
            final(self).badges@ == old(self).badges@,
            final(self).buddy == old(self).buddy,
            final(self).last_training_at == old(self).last_training_at,
    {
        let n = self.results.len();
        let mut count: usize = 0;
        let mut j: usize = n;
        assert(self.results@.take(n as int) =~= self.results@);
        while j > 0 && self.results[j - 1].passed
            invariant
                n == self.results@.len(),
                j <= n,
                count + j == n,
                trailing_passes(self.results@) == count + trailing_passes(
                    self.results@.take(j as int),
                ),
            decreases j,
        {
            assert(self.results@.take(j as int).drop_last() =~= self.results@.take(j - 1));
            count = count + 1;
            j = j - 1;
        }
        self.current_streak = count;
    }

    /// Replaces the badges by those that replaying the log earns.
    pub fn rebuild_badges_from_history(&mut self)
        ensures
            final(self).badges@ == replay(final(self).results@),
            distinct_badges(final(self).badges@),
            final(self).results@ == old(self).results@,
            final(self).current_streak == old(self).current_streak,
            final(self).buddy == old(self).buddy,
            final(self).last_training_at == old(self).last_training_at,
    {
        let mut badges: Vec<Badge> = Vec::new();
        let mut streak: usize = 0;
        let mut total: usize = 0;
        let n = self.results.len();
        let mut i: usize = 0;
        while i < n
            invariant
                n == self.results@.len(),
                i <= n,
                badges@ == replay(self.results@.take(i as int)),
                distinct_badges(badges@),
                streak == trailing_passes(self.results@.take(i as int)),
                total == passes(self.results@.take(i as int)),
                streak <= i,
                total <= i,
            decreases n - i,
        {
            assert(self.results@.take(i + 1).drop_last() =~= self.results@.take(i as int));
            if self.results[i].passed {
                streak = streak + 1;
                total = total + 1;
                let ghost old_badges = badges@;
                award_thresholds(&mut badges, streak, total, self.results[i].timestamp);
                proof {
                    lemma_awards_distinct(
                        old_badges,
                        streak as int,
                        total as int,
                        self.results@[i as int].timestamp,
                    );
                }
            } else {
                streak = 0;
            }
            i = i + 1;
        }
        assert(self.results@.take(n as int) =~= self.results@);
        self.badges = badges;
    }

    /// At `now`, takes one level (never below one) and all experience from a
    /// buddy left idle for three days or more, and restarts the idle period.
    pub fn apply_decay_at(&mut self, now: Timestamp)
        ensures
            final(self).results@ == old(self).results@,
            final(self).badges@ == old(self).badges@,
            final(self).current_streak == old(self).current_streak,
            match old(self).last_training_at {
                Some(last) => if idle_for_decay(last, now) {
                    final(self).buddy == decayed(old(self).buddy) && final(self).last_training_at
                        == Some(now)
                } else {
                    final(self).buddy == old(self).buddy && final(self).last_training_at
                        == old(self).last_training_at
                },
                None => final(self).buddy == old(self).buddy && final(self).last_training_at
                    is None,
            },
    {
        if let Some(last) = self.last_training_at {
            let due: i128 = last.secs as i128 + (DECAY_DAYS * SECS_PER_DAY) as i128;
            let now_secs = now.secs as i128;
            if now_secs > due || (now_secs == due && now.nanos >= last.nanos) {
                self.buddy = Buddy {
                    level: if self.buddy.level > 1 {
                        self.buddy.level - 1
                    } else {
                        1
                    },
                    exp: 0,
                };
                self.last_training_at = Some(now);
            }
        }
    }

    /// Brings a loaded record in line with its log at `now`: the streak is
    /// counted again, the badges replayed, and the idle rule applied.
    pub fn reconcile_at(&mut self, now: Timestamp)
        ensures
            final(self).results@ == old(self).results@,
            final(self).streak_consistent(),
            final(self).badges@ == replay(final(self).results@),
            distinct_badges(final(self).badges@),
            match old(self).last_training_at {
                Some(last) => if idle_for_decay(last, now) {
                    final(self).buddy == decayed(old(self).buddy) && final(self).last_training_at
                        == Some(now)
                } else {
                    final(self).buddy == old(self).buddy && final(self).last_training_at
                        == old(self).last_training_at
                },
                None => final(self).buddy == old(self).buddy && final(self).last_training_at
                    is None,
            },
    {
        self.recalculate_streak();
        self.rebuild_badges_from_history();
        self.apply_decay_at(now);
    }

    /// Brings a loaded record in line with its log, now.
    pub fn reconcile(&mut self)
        ensures
            final(self).results@ == old(self).results@,
            final(self).streak_consistent(),
            final(self).badges@ == replay(final(self).results@),
            distinct_badges(final(self).badges@),
    {
        self.reconcile_at(now());
    }
}

proof fn lemma_award_distinct(badges: Seq<Badge>, t: BadgeType, at: Timestamp)
    requires
        distinct_badges(badges),
    ensures
        distinct_badges(award(badges, t, at)),
        has_badge(award(badges, t, at), t),
        forall|u: BadgeType| #[trigger] has_badge(award(badges, t, at), u) <==> (has_badge(badges, u) || u == t),
{
    let after = award(badges, t, at);
    if !has_badge(badges, t) {
        assert(after[badges.len() as int].badge_type == t);
        assert forall|u: BadgeType| #[trigger] has_badge(after, u) <==> (has_badge(badges, u) || u == t) by {
            if has_badge(badges, u) {
                let i = choose|i: int| 0 <= i < badges.len() && (#[trigger] badges[i]).badge_type == u;
                assert(after[i] == badges[i]);
            }
            if has_badge(after, u) {
                let i = choose|i: int| 0 <= i < after.len() && (#[trigger] after[i]).badge_type == u;
                if i < badges.len() {
                    assert(after[i] == badges[i]);
                }
            }
        }
    }
}

proof fn lemma_awards_distinct(badges: Seq<Badge>, streak: int, total: int, at: Timestamp)
    requires
        distinct_badges(badges),
    ensures
        distinct_badges(awards_for(badges, streak, total, at)),
{
    let t1 = BadgeType::ConsecutiveStreak(streak as usize);
    let t2 = BadgeType::CumulativeMilestone(total as usize);
    lemma_award_distinct(badges, t1, at);
    let b1 = if streak % 5 == 0 && streak <= 50 {
        award(badges, t1, at)
    } else {
        badges
    };
    lemma_award_distinct(b1, t2, at);
}

proof fn lemma_replay_distinct(r: Seq<TrainingResult>)
    ensures
        distinct_badges(replay(r)),
    decreases r.len(),
{
    if r.len() > 0 {
        lemma_replay_distinct(r.drop_last());
        if r.last().passed {
            lemma_awards_distinct(
                replay(r.drop_last()),
                trailing_passes(r) as int,
                passes(r) as int,
                r.last().timestamp,
            );
        }
    }
}

proof fn lemma_append_step_keeps_replay(
    old: TrainingStats,
    new: TrainingStats,
    passed: bool,
    evaluation: Option<EvaluationScores>,
    now: Timestamp,
)
    requires
        old.badges@ == replay(old.results@),
        old.streak_consistent(),
        append_step(old, new, passed, evaluation, now),
    ensures
        new.badges@ == replay(new.results@),
        new.streak_consistent(),
{
    assert(new.results@.drop_last() =~= old.results@);
}

/// Recording attempts one at a time on a fresh record, as `add_result_at`
/// does, leaves the badges that `rebuild_badges_from_history` derives from
/// the same log, and the streak that `recalculate_streak` counts in it.
pub proof fn lemma_append_matches_rebuild(states: Seq<TrainingStats>, log: Seq<TrainingResult>)
    requires
        states.len() == log.len() + 1,
        states[0].results@.len() == 0,
        states[0].badges@.len() == 0,
        states[0].current_streak == 0,
        forall|k: int|
            0 <= k < log.len() ==> append_step(
                #[trigger] states[k],
                states[k + 1],
                log[k].passed,
                log[k].evaluation,
                log[k].timestamp,
            ),
    ensures
        states.last().results@ == log,
        states.last().badges@ == replay(log),
        states.last().current_streak == trailing_passes(log),
{
    lemma_append_prefix(states, log, log.len() as int);
    assert(log.take(log.len() as int) =~= log);
}

proof fn lemma_append_prefix(states: Seq<TrainingStats>, log: Seq<TrainingResult>, k: int)
    requires
        states.len() == log.len() + 1,
        states[0].results@.len() == 0,
        states[0].badges@.len() == 0,
        states[0].current_streak == 0,
        forall|k: int|
            0 <= k < log.len() ==> append_step(
                #[trigger] states[k],
                states[k + 1],
                log[k].passed,
                log[k].evaluation,
                log[k].timestamp,
            ),
        0 <= k <= log.len(),
    ensures
        states[k].results@ == log.take(k),
        states[k].badges@ == replay(log.take(k)),
        states[k].streak_consistent(),
    decreases k,
{
    if k == 0 {
        assert(states[0].results@ =~= log.take(0));
        assert(states[0].badges@ =~= Seq::<Badge>::empty());
    } else {
        lemma_append_prefix(states, log, k - 1);
        let a = log[k - 1];
        assert(append_step(states[k - 1], states[k], a.passed, a.evaluation, a.timestamp));
        lemma_append_step_keeps_replay(states[k - 1], states[k], a.passed, a.evaluation, a.timestamp);
        assert(states[k].results@ =~= log.take(k));
    }
}

/// A badge that `n` passes in a row, from a fresh log, earn: a streak badge
/// at each multiple of five up to 50, a milestone badge at each multiple of
/// five up to 100, both no further than `n`.
pub open spec fn earned_by_passes(t: BadgeType, n: int) -> bool {
    match t {
        BadgeType::ConsecutiveStreak(k) => k % 5 == 0 && 5 <= k && k <= n && k <= 50,
        BadgeType::CumulativeMilestone(k) => k % 5 == 0 && 5 <= k && k <= n && k <= 100,
    }
}

/// After `n` passes and no failure, the badges are exactly those that
/// `earned_by_passes` lists, each once.
pub proof fn lemma_badges_for_passes(log: Seq<TrainingResult>)
    requires
        forall|i: int| 0 <= i < log.len() ==> (#[trigger] log[i]).passed,
    ensures
        distinct_badges(replay(log)),
        forall|t: BadgeType| has_badge(replay(log), t) <==> earned_by_passes(t, log.len() as int),
    decreases log.len(),
{
    lemma_replay_distinct(log);
    if log.len() == 0 {
        assert forall|t: BadgeType| has_badge(replay(log), t) <==> earned_by_passes(t, 0) by {}
    } else {
        let prev = log.drop_last();
        assert forall|i: int| 0 <= i < prev.len() implies (#[trigger] prev[i]).passed by {
            assert(prev[i] == log[i]);
        }
        lemma_badges_for_passes(prev);
        lemma_all_passed_counts(log);
        let n = log.len() as int;
        let at = log.last().timestamp;
        let before = replay(prev);
        let t1 = BadgeType::ConsecutiveStreak(n as usize);
        let t2 = BadgeType::CumulativeMilestone(n as usize);
        lemma_award_distinct(before, t1, at);
        let b1 = if n % 5 == 0 && n <= 50 {
            award(before, t1, at)
        } else {
            before
        };
        lemma_award_distinct(b1, t2, at);
        assert(replay(log) == awards_for(before, n, n, at));
        assert forall|t: BadgeType| has_badge(replay(log), t) <==> earned_by_passes(t, n) by {
            assert(has_badge(b1, t) <==> (has_badge(before, t) || (n % 5 == 0 && n <= 50 && t
                == t1)));
        }
    }
}

proof fn lemma_all_passed_counts(log: Seq<TrainingResult>)
    requires
        forall|i: int| 0 <= i < log.len() ==> (#[trigger] log[i]).passed,
    ensures
        trailing_passes(log) == log.len(),
        passes(log) == log.len(),
    decreases log.len(),
{
    if log.len() > 0 {
        let prev = log.drop_last();
        assert forall|i: int| 0 <= i < prev.len() implies (#[trigger] prev[i]).passed by {
            assert(prev[i] == log[i]);
        }
        lemma_all_passed_counts(prev);
        assert(log.last() == log[log.len() - 1]);
    }
}

} // verus!
