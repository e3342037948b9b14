use yomitore::models::{Badge, BadgeType, DailyStats, EvaluationScores, WeeklyStats};
use yomitore::progress::TrainingStats;
use yomitore::time::Timestamp;

const DAY: i64 = 86_400;

fn at(secs: i64) -> Timestamp {
    Timestamp { secs, nanos: 0, offset_secs: 0 }
}

fn scored(importance: u8, conciseness: u8, accuracy: u8) -> EvaluationScores {
    EvaluationScores {
        appropriate: true,
        importance,
        conciseness,
        accuracy,
        improvement1: String::new(),
        improvement2: String::new(),
        improvement3: String::new(),
        overall_passed: true,
    }
}

#[test]
fn daily_stats_week_with_today_and_yesterday() {
    let today: i64 = 20_000;
    let mut stats = TrainingStats::new();
    stats.add_result_at(true, None, at((today - 1) * DAY + 3_600));
    stats.add_result_at(true, None, at(today * DAY + 100));
    stats.add_result_at(false, None, at(today * DAY + 200));
    stats.add_result_at(true, None, at((today - 30) * DAY));
    let map = stats.daily_stats_on(7, today);
    assert_eq!(map.len(), 7);
    assert_eq!(map[&today], DailyStats { correct: 1, incorrect: 1 });
    assert_eq!(map[&(today - 1)], DailyStats { correct: 1, incorrect: 0 });
    for d in 2..7 {
        assert_eq!(map[&(today - d)], DailyStats { correct: 0, incorrect: 0 });
    }
    assert!(!map.contains_key(&(today - 7)));
    assert_eq!(map[&today].total(), 2);
}

#[test]
fn daily_stats_use_local_day() {
    let today: i64 = 20_000;
    let mut stats = TrainingStats::new();
    let late_utc = Timestamp { secs: today * DAY - 3_600, nanos: 0, offset_secs: 9 * 3_600 };
    let early_west = Timestamp { secs: today * DAY + 3_600, nanos: 0, offset_secs: -5 * 3_600 };
    stats.add_result_at(true, None, late_utc);
    stats.add_result_at(false, None, early_west);
    assert_eq!(late_utc.local_day(), today);
    assert_eq!(early_west.local_day(), today - 1);
    let map = stats.daily_stats_on(2, today);
    assert_eq!(map[&today], DailyStats { correct: 1, incorrect: 0 });
    assert_eq!(map[&(today - 1)], DailyStats { correct: 0, incorrect: 1 });
}

#[test]
fn local_day_before_epoch() {
    assert_eq!(at(-1).local_day(), -1);
    assert_eq!(at(-DAY).local_day(), -1);
    assert_eq!(at(-DAY - 1).local_day(), -2);
    assert_eq!(at(DAY - 1).local_day(), 0);
}

#[test]
fn daily_stats_zero_days_is_empty() {
    let stats = TrainingStats::new();
    assert!(stats.daily_stats_on(0, 5).is_empty());
}

#[test]
fn weekly_windows_end_now() {
    let now = Timestamp { secs: 100 * DAY, nanos: 500, offset_secs: 0 };
    let mut stats = TrainingStats::new();
    stats.add_result_at(true, None, Timestamp { secs: 100 * DAY, nanos: 499, offset_secs: 0 });
    stats.add_result_at(false, None, at(100 * DAY - 7 * DAY + 10));
    stats.add_result_at(true, None, Timestamp { secs: 100 * DAY - 7 * DAY, nanos: 499, offset_secs: 0 });
    stats.add_result_at(false, None, Timestamp { secs: 100 * DAY - 7 * DAY, nanos: 500, offset_secs: 0 });
    stats.add_result_at(true, None, at(100 * DAY - 20 * DAY));
    stats.add_result_at(true, None, now);
    let weeks = stats.weekly_stats_at(3, now);
    assert_eq!(
        weeks,
        vec![
            WeeklyStats { week_number: 1, correct: 1, incorrect: 0 },
            WeeklyStats { week_number: 2, correct: 1, incorrect: 0 },
            WeeklyStats { week_number: 3, correct: 1, incorrect: 2 },
        ]
    );
}

#[test]
fn badges_by_type_newest_first() {
    let mut stats = TrainingStats::new();
    stats.badges.push(Badge { badge_type: BadgeType::ConsecutiveStreak(5), earned_at: at(10) });
    stats.badges.push(Badge { badge_type: BadgeType::CumulativeMilestone(5), earned_at: at(10) });
    stats.badges.push(Badge { badge_type: BadgeType::CumulativeMilestone(10), earned_at: at(30) });
    stats.badges.push(Badge { badge_type: BadgeType::ConsecutiveStreak(10), earned_at: at(20) });
    let (streaks, milestones) = stats.get_badges_by_type();
    assert_eq!(
        streaks.iter().map(|b| b.badge_type).collect::<Vec<_>>(),
        vec![BadgeType::ConsecutiveStreak(10), BadgeType::ConsecutiveStreak(5)]
    );
    assert_eq!(
        milestones.iter().map(|b| b.badge_type).collect::<Vec<_>>(),
        vec![BadgeType::CumulativeMilestone(10), BadgeType::CumulativeMilestone(5)]
    );
    let all = stats.get_badges();
    assert_eq!(all.len(), 4);
    assert_eq!(all[0].earned_at, at(30));
    assert_eq!(all[1].earned_at, at(20));
}

#[test]
fn badge_labels() {
    let b = Badge { badge_type: BadgeType::ConsecutiveStreak(15), earned_at: at(0) };
    assert_eq!(b.get_icon(), "\u{1F525}");
    assert_eq!(b.get_display_text(), "15連");
    let c = Badge { badge_type: BadgeType::CumulativeMilestone(100), earned_at: at(0) };
    assert_eq!(c.get_icon(), "\u{2B50}");
    assert_eq!(c.get_display_text(), "累積100");
}

#[test]
fn summary_mean_and_median_of_two() {
    let today: i64 = 30_000;
    let mut stats = TrainingStats::new();
    stats.add_result_at(true, Some(scored(5, 2, 1)), at(today * DAY));
    stats.add_result_at(false, Some(scored(3, 4, 1)), at((today - 1) * DAY));
    stats.add_result_at(false, None, at(today * DAY));
    stats.add_result_at(true, Some(scored(1, 1, 1)), at((today - 9) * DAY));
    let s = stats.evaluation_summary_on(7, today);
    assert_eq!(s.count, 2);
    let imp = s.importance.unwrap();
    assert_eq!(imp.total as f32 / imp.count as f32, 4.0);
    assert_eq!((imp.lower_middle as f32 + imp.upper_middle as f32) / 2.0, 4.0);
    let con = s.conciseness.unwrap();
    assert_eq!((con.lower_middle, con.upper_middle), (2, 4));
    assert_eq!(con.total, 6);
}

#[test]
fn summary_median_of_odd_count() {
    let today: i64 = 30_000;
    let mut stats = TrainingStats::new();
    for (i, v) in [5u8, 1, 4, 2, 4].iter().enumerate() {
        stats.add_result_at(true, Some(scored(*v, 3, 3)), at(today * DAY + i as i64));
    }
    let s = stats.evaluation_summary_on(1, today);
    assert_eq!(s.count, 5);
    let imp = s.importance.unwrap();
    assert_eq!((imp.total, imp.count, imp.lower_middle, imp.upper_middle), (16, 5, 4, 4));
}

#[test]
fn summary_without_scores_has_no_stats() {
    let today: i64 = 30_000;
    let mut stats = TrainingStats::new();
    stats.add_result_at(true, None, at(today * DAY));
    stats.add_result_at(true, Some(scored(5, 5, 5)), at((today - 3) * DAY));
    let s = stats.evaluation_summary_on(3, today);
    assert_eq!(s.count, 0);
    assert!(s.importance.is_none());
    assert!(s.conciseness.is_none());
    assert!(s.accuracy.is_none());
    let empty = TrainingStats::new().evaluation_summary_on(7, today);
    assert_eq!(empty.count, 0);
    assert!(empty.importance.is_none());
}
