//! Read-only rollups of the training log for reporting: passes and failures
//! per local day and per seven-day window, badges by kind, and score
//! statistics over recent evaluations.
use vstd::prelude::*;
use std::collections::HashMap;
use crate::models::{
    Badge, BadgeType, DailyStats, EvaluationScoreStats, EvaluationScores, EvaluationSummary,
    TrainingResult, WeeklyStats,
};
use crate::progress::TrainingStats;
use crate::time::{earlier, earlier_than, now, Timestamp, SECS_PER_WEEK};

verus! {

broadcast use vstd::std_specs::hash::group_hash_axioms;

/// The attempts of the log on local day `day` that passed, or that failed.
pub open spec fn count_on_day(r: Seq<TrainingResult>, day: int, passed: bool) -> nat
    decreases r.len(),
{
    if r.len() == 0 {
        0
    } else {
        count_on_day(r.drop_last(), day, passed) + if r.last().timestamp.day() == day
            && r.last().passed == passed {
            1nat
        } else {
            0nat
        }
    }
}

/// One bucket per local day of the `days` days that end with `today`, each
/// with the passes and failures of that day.
pub open spec fn daily_map(r: Seq<TrainingResult>, today: int, days: int) -> Map<i64, DailyStats> {
    Map::new(
        |d: i64| today - days < d <= today,
        |d: i64|
            DailyStats {
                correct: count_on_day(r, d as int, true) as usize,
                incorrect: count_on_day(r, d as int, false) as usize,
            },
    )
}

/// `t` lies in the seven-day window that ends `back` weeks before `now`.
pub open spec fn in_week(t: Timestamp, now: Timestamp, back: int) -> bool {
    !earlier_than(t, now.secs - (back + 1) * SECS_PER_WEEK, now.nanos as int) && earlier_than(
        t,
        now.secs - back * SECS_PER_WEEK,
        now.nanos as int,
    )
}

/// The attempts in the window that ends `back` weeks before `now` that
/// passed, or that failed.
pub open spec fn count_in_week(r: Seq<TrainingResult>, now: Timestamp, back: int, passed: bool) -> nat
    decreases r.len(),
{
    if r.len() == 0 {
        0
    } else {
        count_in_week(r.drop_last(), now, back, passed) + if in_week(r.last().timestamp, now, back)
            && r.last().passed == passed {
            1nat
        } else {
            0nat
        }
    }
}

/// The `weeks` windows that end at `now`, oldest first, numbered from one.
pub open spec fn weekly_seq(r: Seq<TrainingResult>, now: Timestamp, weeks: int) -> Seq<WeeklyStats> {
    Seq::new(
        weeks as nat,
        |w: int|
            WeeklyStats {
                week_number: (w + 1) as usize,
                correct: count_in_week(r, now, weeks - 1 - w, true) as usize,
                incorrect: count_in_week(r, now, weeks - 1 - w, false) as usize,
            },
    )
}

proof fn lemma_count_on_day_bounded(r: Seq<TrainingResult>, day: int, passed: bool)
    ensures
        count_on_day(r, day, passed) <= r.len(),
    decreases r.len(),
{
    if r.len() > 0 {
        lemma_count_on_day_bounded(r.drop_last(), day, passed);
    }
}

proof fn lemma_count_in_week_bounded(r: Seq<TrainingResult>, now: Timestamp, back: int, passed: bool)
    ensures
        count_in_week(r, now, back, passed) <= r.len(),
    decreases r.len(),
{
    if r.len() > 0 {
        lemma_count_in_week_bounded(r.drop_last(), now, back, passed);
    }
}

fn is_earlier_than(t: Timestamp, secs: i128, nanos: i128) -> (r: bool)
    ensures
        r == earlier_than(t, secs as int, nanos as int),
{
    (t.secs as i128) < secs || (t.secs as i128 == secs && (t.nanos as i128) < nanos)
}

impl TrainingStats {
    /// Passes and failures per local day, for the `days` days that end with
    /// the day `today`.
    pub fn daily_stats_on(&self, days: usize, today: i64) -> (r: HashMap<i64, DailyStats>)
        ensures
            r@ == daily_map(self.results@, today as int, days as int),
    {
        let mut buckets: Vec<DailyStats> = Vec::new();
        let mut i: usize = 0;
        while i < days
            invariant
                i <= days,
                buckets@.len() == i,
                forall|j: int| 0 <= j < i ==> #[trigger] buckets@[j] == (DailyStats { correct: 0, incorrect: 0 }),
            decreases days - i,
        {
            buckets.push(DailyStats { correct: 0, incorrect: 0 });
            i = i + 1;
        }
        let ghost r = self.results@;
        let n = self.results.len();
        let mut k: usize = 0;
        assert forall|j: int| 0 <= j < days implies #[trigger] buckets@[j] == (DailyStats {
            correct: count_on_day(r.take(0), today - j, true) as usize,
            incorrect: count_on_day(r.take(0), today - j, false) as usize,
        }) by {
            assert(r.take(0).len() == 0);
        }
        while k < n
            invariant
                n == r.len(),
                r == self.results@,
                k <= n,
                buckets@.len() == days,
                forall|j: int| 0 <= j < days ==> #[trigger] buckets@[j] == (DailyStats {
                    correct: count_on_day(r.take(k as int), today - j, true) as usize,
                    incorrect: count_on_day(r.take(k as int), today - j, false) as usize,
                }),
            decreases n - k,
        {
            let ghost before = buckets@;
            assert(r.take(k + 1).drop_last() =~= r.take(k as int));
            let d = self.results[k].timestamp.local_day();
            let off: i128 = today as i128 - d as i128;
            if 0 <= off && off < days as i128 {
                let j = off as usize;
                proof {
                    lemma_count_on_day_bounded(r.take(k as int), d as int, true);
                    lemma_count_on_day_bounded(r.take(k as int), d as int, false);
                }
                let b = buckets[j];
                if self.results[k].passed {
                    buckets.set(j, DailyStats { correct: b.correct + 1, incorrect: b.incorrect });
                } else {
                    buckets.set(j, DailyStats { correct: b.correct, incorrect: b.incorrect + 1 });
                }
                assert forall|m: int| 0 <= m < days implies #[trigger] buckets@[m] == (DailyStats {
                    correct: count_on_day(r.take(k + 1), today - m, true) as usize,
                    incorrect: count_on_day(r.take(k + 1), today - m, false) as usize,
                }) by {
                    if m != j {
                        assert(buckets@[m] == before[m]);
                    }
                }
            }
            k = k + 1;
        }
        assert(r.take(n as int) =~= r);
        let mut map: HashMap<i64, DailyStats> = HashMap::new();
        let mut i: usize = 0;
        while i < days
            invariant
                i <= days,
                r == self.results@,
                buckets@.len() == days,
                forall|j: int| 0 <= j < days ==> #[trigger] buckets@[j] == (DailyStats {
                    correct: count_on_day(r, today - j, true) as usize,
                    incorrect: count_on_day(r, today - j, false) as usize,
                }),
                map@ == daily_map(r, today as int, i as int),
            decreases days - i,
        {
            let key: i128 = today as i128 - i as i128;
            if key < i64::MIN as i128 {
                assert(daily_map(r, today as int, days as int) =~= daily_map(r, today as int, i as int));
                return map;
            }
            map.insert(key as i64, buckets[i]);
            i = i + 1;
            assert(map@ =~= daily_map(r, today as int, i as int));
        }
        map
    }

    /// Passes and failures per local day, for the `days` days that end today.
    pub fn get_daily_stats(&self, days: usize) -> (r: HashMap<i64, DailyStats>)
        ensures
            exists|today: i64| r@ == daily_map(self.results@, today as int, days as int),
    {
        let today = now().local_day();
        self.daily_stats_on(days, today)
    }

    /// Passes and failures in the `weeks` seven-day windows that end at `now`,
    /// oldest first.
    pub fn weekly_stats_at(&self, weeks: usize, now: Timestamp) -> (r: Vec<WeeklyStats>)
        ensures
            r@ == weekly_seq(self.results@, now, weeks as int),
    {
        let ghost r = self.results@;
        let n = self.results.len();
        let mut out: Vec<WeeklyStats> = Vec::new();
        let mut w: usize = 0;
        while w < weeks
            invariant
                n == r.len(),
                r == self.results@,
                w <= weeks,
                out@ == weekly_seq(r, now, weeks as int).take(w as int),
            decreases weeks - w,
        {
            let back: usize = weeks - 1 - w;
            assert(0 <= (back as i128 + 1) * 604800 <= 0x1_0000_0000_0000_0000 * 604800) by (nonlinear_arith)
                requires
                    back < 0x1_0000_0000_0000_0000,
            ;
            let start: i128 = now.secs as i128 - (back as i128 + 1) * (SECS_PER_WEEK as i128);
            let end: i128 = now.secs as i128 - (back as i128) * (SECS_PER_WEEK as i128);
            let nanos = now.nanos as i128;
            let mut correct: usize = 0;
            let mut incorrect: usize = 0;
            let mut k: usize = 0;
            while k < n
                invariant
                    n == r.len(),
                    r == self.results@,
                    k <= n,
                    start == now.secs - (back + 1) * SECS_PER_WEEK,
                    end == now.secs - back * SECS_PER_WEEK,
                    nanos == now.nanos,
                    correct == count_in_week(r.take(k as int), now, back as int, true),
                    incorrect == count_in_week(r.take(k as int), now, back as int, false),
                decreases n - k,
            {
                assert(r.take(k + 1).drop_last() =~= r.take(k as int));
                proof {
                    lemma_count_in_week_bounded(r.take(k as int), now, back as int, true);
                    lemma_count_in_week_bounded(r.take(k as int), now, back as int, false);
                }
                let t = self.results[k].timestamp;
                if !is_earlier_than(t, start, nanos) && is_earlier_than(t, end, nanos) {
                    if self.results[k].passed {
                        correct = correct + 1;
                    } else {
                        incorrect = incorrect + 1;
                    }
                }
                k = k + 1;
            }
            assert(r.take(n as int) =~= r);
            out.push(WeeklyStats { week_number: w + 1, correct, incorrect });
            w = w + 1;
            assert(out@ =~= weekly_seq(r, now, weeks as int).take(w as int));
        }
        assert(out@ =~= weekly_seq(r, now, weeks as int));
        out
    }

    /// Passes and failures in the `weeks` seven-day windows that end now,
    /// oldest first.
    pub fn get_weekly_stats(&self, weeks: usize) -> (r: Vec<WeeklyStats>)
        ensures
            exists|now: Timestamp| r@ == weekly_seq(self.results@, now, weeks as int),
    {
        self.weekly_stats_at(weeks, now())
    }
}


/// No badge of the sequence was earned before one that follows it.
pub open spec fn newest_first(b: Seq<Badge>) -> bool {
    forall|i: int, j: int|
        0 <= i < j < b.len() ==> !earlier((#[trigger] b[i]).earned_at, (#[trigger] b[j]).earned_at)
}

/// The streak badges of `s` (or, with `streak` false, its milestone badges), in order.
pub open spec fn of_kind(s: Seq<Badge>, streak: bool) -> Seq<Badge>
    decreases s.len(),
{
    if s.len() == 0 {
        Seq::empty()
    } else if (s.last().badge_type is ConsecutiveStreak) == streak {
        of_kind(s.drop_last(), streak).push(s.last())
    } else {
        of_kind(s.drop_last(), streak)
    }
}

/// Inserts `b` after the badges earned no earlier than it.
fn insert_newest_first(v: &mut Vec<Badge>, b: Badge)
    requires
        newest_first(old(v)@),
    ensures
        newest_first(final(v)@),
        final(v)@.to_multiset() == old(v)@.to_multiset().insert(b),
{
    let ghost s = v@;
    let mut p: usize = 0;
    while p < v.len() && !v[p].earned_at.is_before(&b.earned_at)
        invariant
            v@ == s,
            p <= s.len(),
            forall|j: int| 0 <= j < p ==> !earlier((#[trigger] s[j]).earned_at, b.earned_at),
        decreases s.len() - p,
    {
        p = p + 1;
    }
    v.insert(p, b);
    let ghost t = v@;
    proof {
        s.insert_ensures(p as int, b);
        assert forall|i: int, j: int| 0 <= i < j < t.len() implies !earlier(
            (#[trigger] t[i]).earned_at,
            (#[trigger] t[j]).earned_at,
        ) by {
            if j < p {
                assert(t[i] == s[i] && t[j] == s[j]);
            } else if j == p {
                assert(t[i] == s[i]);
            } else if i == p {
                assert(t[j] == s[j - 1]);
                assert(earlier(s[p as int].earned_at, b.earned_at));
                if j - 1 > p {
                    assert(!earlier(s[p as int].earned_at, s[j - 1].earned_at));
                }
            } else if i < p {
                assert(t[i] == s[i] && t[j] == s[j - 1]);
            } else {
                assert(t[i] == s[i - 1] && t[j] == s[j - 1]);
            }
        }
        assert(t.remove(p as int) =~= s);
        t.to_multiset_ensures();
        assert(t.to_multiset().count(b) > 0) by {
            assert(t.contains(b)) by {
                assert(t[p as int] == b);
            }
        }
        assert(t.to_multiset() =~= s.to_multiset().insert(b));
    }
}

impl TrainingStats {
    /// The streak badges and the milestone badges, each newest first.
    pub fn get_badges_by_type(&self) -> (r: (Vec<Badge>, Vec<Badge>))
        ensures
            newest_first(r.0@),
            r.0@.to_multiset() == of_kind(self.badges@, true).to_multiset(),
            newest_first(r.1@),
            r.1@.to_multiset() == of_kind(self.badges@, false).to_multiset(),
    {
        let ghost s = self.badges@;
        let mut streaks: Vec<Badge> = Vec::new();
        let mut milestones: Vec<Badge> = Vec::new();
        let mut i: usize = 0;
        while i < self.badges.len()
            invariant
                s == self.badges@,
                i <= s.len(),
                newest_first(streaks@),
                newest_first(milestones@),
                streaks@.to_multiset() == of_kind(s.take(i as int), true).to_multiset(),
                milestones@.to_multiset() == of_kind(s.take(i as int), false).to_multiset(),
            decreases s.len() - i,
        {
            let b = self.badges[i];
            assert(s.take(i + 1).drop_last() =~= s.take(i as int));
            proof {
                of_kind(s.take(i as int), true).to_multiset_ensures();
                of_kind(s.take(i as int), false).to_multiset_ensures();
            }
            match b.badge_type {
                BadgeType::ConsecutiveStreak(_) => insert_newest_first(&mut streaks, b),
                BadgeType::CumulativeMilestone(_) => insert_newest_first(&mut milestones, b),
            }
            i = i + 1;
        }
        assert(s.take(i as int) =~= s);
        (streaks, milestones)
    }

    /// All badges, newest first.
    pub fn get_badges(&self) -> (r: Vec<Badge>)
        ensures
            newest_first(r@),
            r@.to_multiset() == self.badges@.to_multiset(),
    {
        let ghost s = self.badges@;
        let mut out: Vec<Badge> = Vec::new();
        let mut i: usize = 0;
        assert(s.take(0) =~= out@);
        while i < self.badges.len()
            invariant
                s == self.badges@,
                i <= s.len(),
                newest_first(out@),
                out@.to_multiset() == s.take(i as int).to_multiset(),
            decreases s.len() - i,
        {
            assert(s.take(i + 1) =~= s.take(i as int).push(s[i as int]));
            proof {
                s.take(i as int).to_multiset_ensures();
            }
            insert_newest_first(&mut out, self.badges[i]);
            i = i + 1;
        }
        assert(s.take(i as int) =~= s);
        out
    }
}


/// The three graded scores of an evaluation.
#[derive(Clone, Copy, Debug, PartialEq, Eq, Structural)]
pub enum ScoreKind {
    Importance,
    Conciseness,
    Accuracy,
}

pub open spec fn score_of_kind(e: EvaluationScores, k: ScoreKind) -> u8 {
    match k {
        ScoreKind::Importance => e.importance,
        ScoreKind::Conciseness => e.conciseness,
        ScoreKind::Accuracy => e.accuracy,
    }
}

/// The `k` scores of the evaluated attempts made on local day `first_day` or later, in log order.
pub open spec fn recent_scores(r: Seq<TrainingResult>, first_day: int, k: ScoreKind) -> Seq<u8>
    decreases r.len(),
{
    if r.len() == 0 {
        Seq::empty()
    } else {
        let prev = recent_scores(r.drop_last(), first_day, k);
        match r.last().evaluation {
            Some(e) => if r.last().timestamp.day() >= first_day {
                prev.push(score_of_kind(e, k))
            } else {
                prev
            },
            None => prev,
        }
    }
}

/// The number of scores in `s` that are at most `v`.
pub open spec fn count_at_most(s: Seq<u8>, v: int) -> nat
    decreases s.len(),
{
    if s.len() == 0 {
        0
    } else {
        count_at_most(s.drop_last(), v) + if s.last() <= v {
            1nat
        } else {
            0nat
        }
    }
}

/// The score at position `k` (from zero) once `s` is sorted in ascending order:
/// at most `k` scores lie below it, and more than `k` at or below it.
pub open spec fn kth_smallest(s: Seq<u8>, k: int) -> int {
    choose|v: int| count_at_most(s, v - 1) <= k < #[trigger] count_at_most(s, v)
}

pub open spec fn sum_of(s: Seq<u8>) -> int
    decreases s.len(),
{
    if s.len() == 0 {
        0
    } else {
        sum_of(s.drop_last()) + s.last()
    }
}

/// Sum, count and the two middle values of the scores `s`.
pub open spec fn score_stats(s: Seq<u8>) -> EvaluationScoreStats {
    EvaluationScoreStats {
        total: sum_of(s) as u128,
        count: s.len() as usize,
        lower_middle: kth_smallest(s, (s.len() - 1) / 2) as u8,
        upper_middle: kth_smallest(s, s.len() as int / 2) as u8,
    }
}

/// Statistics of the scores `s`, where there are any.
pub open spec fn stats_if_any(s: Seq<u8>) -> Option<EvaluationScoreStats> {
    if s.len() == 0 {
        None
    } else {
        Some(score_stats(s))
    }
}

/// Score statistics over the evaluated attempts made on the `days` days that
/// end with `today`, or later.
pub open spec fn recent_summary(r: Seq<TrainingResult>, today: int, days: int) -> EvaluationSummary {
    let first = today - (days - 1);
    EvaluationSummary {
        count: recent_scores(r, first, ScoreKind::Importance).len() as usize,
        importance: stats_if_any(recent_scores(r, first, ScoreKind::Importance)),
        conciseness: stats_if_any(recent_scores(r, first, ScoreKind::Conciseness)),
        accuracy: stats_if_any(recent_scores(r, first, ScoreKind::Accuracy)),
    }
}

proof fn lemma_count_at_most_monotone(s: Seq<u8>, u: int, v: int)
    requires
        u <= v,
    ensures
        count_at_most(s, u) <= count_at_most(s, v),
    decreases s.len(),
{
    if s.len() > 0 {
        lemma_count_at_most_monotone(s.drop_last(), u, v);
    }
}

proof fn lemma_count_at_most_all(s: Seq<u8>)
    ensures
        count_at_most(s, 255) == s.len(),
        count_at_most(s, -1) == 0,
    decreases s.len(),
{
    if s.len() > 0 {
        lemma_count_at_most_all(s.drop_last());
    }
}

proof fn lemma_sum_bounded(s: Seq<u8>)
    ensures
        0 <= sum_of(s) <= 255 * s.len(),
    decreases s.len(),
{
    if s.len() > 0 {
        lemma_sum_bounded(s.drop_last());
    }
}

/// The number of scores in `s` that are at most `v`.
fn count_up_to(s: &Vec<u8>, v: u8) -> (c: usize)
    ensures
        c == count_at_most(s@, v as int),
{
    let mut c: usize = 0;
    let mut i: usize = 0;
    while i < s.len()
        invariant
            i <= s@.len(),
            c == count_at_most(s@.take(i as int), v as int),
            c <= i,
        decreases s@.len() - i,
    {
        assert(s@.take(i + 1).drop_last() =~= s@.take(i as int));
        if s[i] <= v {
            c = c + 1;
        }
        i = i + 1;
    }
    assert(s@.take(i as int) =~= s@);
    c
}

/// The score at position `k` of `s` sorted in ascending order.
fn kth(s: &Vec<u8>, k: usize) -> (r: u8)
    requires
        k < s@.len(),
    ensures
        r == kth_smallest(s@, k as int),
{
    proof {
        lemma_count_at_most_all(s@);
    }
    let mut v: u8 = 0;
    loop
        invariant
            k < s@.len(),
            count_at_most(s@, v - 1) <= k,
            count_at_most(s@, 255) == s@.len(),
        decreases 255 - v,
    {
        let c = count_up_to(s, v);
        if c > k || v == 255 {
            let ghost w = kth_smallest(s@, k as int);
            assert(count_at_most(s@, v - 1) <= k < count_at_most(s@, v as int));
            assert(w == v) by {
                if w < v {
                    lemma_count_at_most_monotone(s@, w, v - 1);
                }
                if w > v {
                    lemma_count_at_most_monotone(s@, v as int, w - 1);
                }
            }
            return v;
        }
        v = v + 1;
    }
}

/// Sum, count and middle values of `s`, where it holds any score.
fn stats_for(s: &Vec<u8>) -> (r: Option<EvaluationScoreStats>)
    ensures
        r == stats_if_any(s@),
{
    let n = s.len();
    if n == 0 {
        return None;
    }
    let mut total: u128 = 0;
    let mut i: usize = 0;
    while i < n
        invariant
            n == s@.len(),
            i <= n,
            total == sum_of(s@.take(i as int)),
        decreases n - i,
    {
        assert(s@.take(i + 1).drop_last() =~= s@.take(i as int));
        proof {
            lemma_sum_bounded(s@.take(i + 1));
            assert(255 * (i + 1) <= 255 * 0x1_0000_0000_0000_0000) by (nonlinear_arith)
                requires
                    i < 0x1_0000_0000_0000_0000,
            ;
        }
        total = total + s[i] as u128;
        i = i + 1;
    }
    assert(s@.take(n as int) =~= s@);
    let lower = kth(s, (n - 1) / 2);
    let upper = kth(s, n / 2);
    Some(EvaluationScoreStats { total, count: n, lower_middle: lower, upper_middle: upper })
}

impl TrainingStats {
    /// Score statistics over the evaluated attempts of the `days` days that
    /// end with the day `today`, and of any later day.
    pub fn evaluation_summary_on(&self, days: usize, today: i64) -> (r: EvaluationSummary)
        ensures
            r == recent_summary(self.results@, today as int, days as int),
    {
        let ghost r = self.results@;
        let ghost first = today - (days - 1);
        let first_day: i128 = today as i128 - days as i128 + 1;
        let n = self.results.len();
        let mut importance: Vec<u8> = Vec::new();
        let mut conciseness: Vec<u8> = Vec::new();
        let mut accuracy: Vec<u8> = Vec::new();
        let mut k: usize = 0;
        while k < n
            invariant
                n == r.len(),
                r == self.results@,
                k <= n,
                first_day == first,
                importance@ == recent_scores(r.take(k as int), first, ScoreKind::Importance),
                conciseness@ == recent_scores(r.take(k as int), first, ScoreKind::Conciseness),
                accuracy@ == recent_scores(r.take(k as int), first, ScoreKind::Accuracy),
            decreases n - k,
        {
            assert(r.take(k + 1).drop_last() =~= r.take(k as int));
            let res = &self.results[k];
            if let Some(e) = &res.evaluation {
                if res.timestamp.local_day() as i128 >= first_day {
                    importance.push(e.importance);
                    conciseness.push(e.conciseness);
                    accuracy.push(e.accuracy);
                }
            }
            k = k + 1;
        }
        assert(r.take(n as int) =~= r);
        EvaluationSummary {
            count: importance.len(),
            importance: stats_for(&importance),
            conciseness: stats_for(&conciseness),
            accuracy: stats_for(&accuracy),
        }
    }

    /// Score statistics over the evaluated attempts of the `days` days that
    /// end today.
    pub fn recent_evaluation_summary(&self, days: usize) -> (r: EvaluationSummary)
        ensures
            exists|today: i64| r == recent_summary(self.results@, today as int, days as int),
    {
        let today = now().local_day();
        self.evaluation_summary_on(days, today)
    }
}

} // verus!
