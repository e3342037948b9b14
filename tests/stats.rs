use yomitore::models::{BadgeType, Buddy};
use yomitore::progress::TrainingStats;
use yomitore::time::Timestamp;

fn at(secs: i64) -> Timestamp {
    Timestamp { secs, nanos: 0, offset_secs: 0 }
}

#[test]
fn test_badge_awarding_consecutive() {
    let mut stats = TrainingStats::new();
    for _ in 0..5 {
        stats.add_result(true);
    }
    let (consecutive, cumulative) = stats.get_badges_by_type();
    assert_eq!(consecutive.len(), 1);
    assert_eq!(cumulative.len(), 1);
    for _ in 0..5 {
        stats.add_result(true);
    }
    let (consecutive, cumulative) = stats.get_badges_by_type();
    assert_eq!(consecutive.len(), 2);
    assert_eq!(cumulative.len(), 2);
}

#[test]
fn test_streak_reset_on_incorrect() {
    let mut stats = TrainingStats::new();
    for _ in 0..5 {
        stats.add_result(true);
    }
    assert_eq!(stats.current_streak, 5);
    stats.add_result(false);
    assert_eq!(stats.current_streak, 0);
    let (consecutive, _) = stats.get_badges_by_type();
    assert_eq!(consecutive.len(), 1);
}

#[test]
fn test_rebuild_badges_from_history() {
    let mut stats = TrainingStats::new();
    for _ in 0..10 {
        stats.add_result(true);
    }
    stats.badges.clear();
    stats.current_streak = 0;
    stats.rebuild_badges_from_history();
    let (consecutive, cumulative) = stats.get_badges_by_type();
    assert_eq!(consecutive.len(), 2);
    assert_eq!(cumulative.len(), 2);
}

fn thresholds(stats: &TrainingStats) -> (Vec<usize>, Vec<usize>) {
    let mut streaks = Vec::new();
    let mut milestones = Vec::new();
    for b in &stats.badges {
        match b.badge_type {
            BadgeType::ConsecutiveStreak(n) => streaks.push(n),
            BadgeType::CumulativeMilestone(n) => milestones.push(n),
        }
    }
    streaks.sort();
    milestones.sort();
    (streaks, milestones)
}

#[test]
fn passes_in_a_row_earn_capped_thresholds() {
    let mut stats = TrainingStats::new();
    for i in 0..120 {
        stats.add_result_at(true, None, at(1_000 + i));
    }
    let (streaks, milestones) = thresholds(&stats);
    assert_eq!(streaks, (1..=10).map(|k| 5 * k).collect::<Vec<usize>>());
    assert_eq!(milestones, (1..=20).map(|k| 5 * k).collect::<Vec<usize>>());
    assert_eq!(stats.current_streak, 120);
}

#[test]
fn thirteen_passes_earn_five_and_ten() {
    let mut stats = TrainingStats::new();
    for i in 0..13 {
        stats.add_result_at(true, None, at(i));
    }
    let (streaks, milestones) = thresholds(&stats);
    assert_eq!(streaks, vec![5, 10]);
    assert_eq!(milestones, vec![5, 10]);
}

#[test]
fn failure_after_five_keeps_streak_badge() {
    let mut stats = TrainingStats::new();
    for i in 0..5 {
        stats.add_result_at(true, None, at(i));
    }
    stats.add_result_at(false, None, at(10));
    assert_eq!(stats.current_streak, 0);
    assert!(stats
        .badges
        .iter()
        .any(|b| b.badge_type == BadgeType::ConsecutiveStreak(5)));
    assert_eq!(stats.badges.len(), 2);
}

#[test]
fn rebuild_matches_incremental_over_mixed_log() {
    let pattern = [
        true, true, true, true, true, false, true, true, true, false, true, true, true, true,
        true, true, true, true, true, true, false, true,
    ];
    let mut stats = TrainingStats::new();
    for (i, p) in pattern.iter().enumerate() {
        stats.add_result_at(*p, None, at(100 * i as i64));
    }
    let incremental = stats.badges.clone();
    stats.badges.clear();
    stats.rebuild_badges_from_history();
    assert_eq!(stats.badges, incremental);
    let (streaks, milestones) = thresholds(&stats);
    assert_eq!(streaks, vec![5, 10]);
    assert_eq!(milestones, vec![5, 10, 15]);
}

#[test]
fn rebuild_dates_badges_by_attempt() {
    let mut stats = TrainingStats::new();
    for i in 0..5 {
        stats.add_result_at(true, None, at(50 + i));
    }
    stats.badges.clear();
    stats.rebuild_badges_from_history();
    assert_eq!(stats.badges.len(), 2);
    assert!(stats.badges.iter().all(|b| b.earned_at == at(54)));
}

#[test]
fn recalculate_streak_counts_trailing_passes() {
    let mut stats = TrainingStats::new();
    for (i, p) in [true, false, true, true, true].iter().enumerate() {
        stats.add_result_at(*p, None, at(i as i64));
    }
    stats.current_streak = 42;
    stats.recalculate_streak();
    assert_eq!(stats.current_streak, 3);
}

#[test]
fn recalculate_streak_on_empty_log() {
    let mut stats = TrainingStats::new();
    stats.current_streak = 7;
    stats.recalculate_streak();
    assert_eq!(stats.current_streak, 0);
}

#[test]
fn append_sets_last_training_time() {
    let mut stats = TrainingStats::new();
    stats.add_result_at(false, None, at(77));
    assert_eq!(stats.last_training_at, Some(at(77)));
    assert_eq!(stats.results.len(), 1);
    assert!(!stats.results[0].passed);
}

#[test]
fn buddy_levels_up_with_longer_second_level() {
    let mut stats = TrainingStats::new();
    assert_eq!(stats.buddy, Buddy { level: 1, exp: 0 });
    for i in 0..5 {
        stats.add_result_at(true, None, at(i));
    }
    assert_eq!(stats.buddy, Buddy { level: 2, exp: 0 });
    for i in 0..10 {
        stats.add_result_at(true, None, at(10 + i));
    }
    assert_eq!(stats.buddy, Buddy { level: 3, exp: 0 });
    for i in 0..5 {
        stats.add_result_at(true, None, at(30 + i));
    }
    assert_eq!(stats.buddy, Buddy { level: 4, exp: 0 });
}

#[test]
fn buddy_unchanged_by_failure() {
    let mut stats = TrainingStats::new();
    stats.add_result_at(true, None, at(1));
    stats.add_result_at(false, None, at(2));
    assert_eq!(stats.buddy, Buddy { level: 1, exp: 1 });
}

#[test]
fn buddy_decays_after_three_idle_days() {
    let mut stats = TrainingStats::new();
    stats.buddy = Buddy { level: 2, exp: 3 };
    stats.last_training_at = Some(at(0));
    let later = at(3 * 86_400 + 5);
    stats.apply_decay_at(later);
    assert_eq!(stats.buddy, Buddy { level: 1, exp: 0 });
    assert_eq!(stats.last_training_at, Some(later));
    stats.apply_decay_at(at(3 * 86_400 + 10));
    assert_eq!(stats.buddy, Buddy { level: 1, exp: 0 });
    assert_eq!(stats.last_training_at, Some(later));
}

#[test]
fn buddy_decay_exactly_at_three_days() {
    let mut stats = TrainingStats::new();
    stats.buddy = Buddy { level: 4, exp: 2 };
    stats.last_training_at = Some(at(1_000));
    stats.apply_decay_at(at(1_000 + 3 * 86_400 - 1));
    assert_eq!(stats.buddy, Buddy { level: 4, exp: 2 });
    stats.apply_decay_at(at(1_000 + 3 * 86_400));
    assert_eq!(stats.buddy, Buddy { level: 3, exp: 0 });
}

#[test]
fn buddy_never_decays_below_level_one() {
    let mut stats = TrainingStats::new();
    stats.buddy = Buddy { level: 1, exp: 4 };
    stats.last_training_at = Some(at(0));
    stats.apply_decay_at(at(10 * 86_400));
    assert_eq!(stats.buddy, Buddy { level: 1, exp: 0 });
}

#[test]
fn no_decay_without_training_time() {
    let mut stats = TrainingStats::new();
    stats.buddy = Buddy { level: 3, exp: 1 };
    stats.apply_decay_at(at(10 * 86_400));
    assert_eq!(stats.buddy, Buddy { level: 3, exp: 1 });
    assert_eq!(stats.last_training_at, None);
}

#[test]
fn reconcile_repairs_loaded_record() {
    let mut stats = TrainingStats::new();
    for i in 0..6 {
        stats.add_result_at(i != 2, None, at(i));
    }
    stats.badges.clear();
    stats.current_streak = 9;
    stats.buddy = Buddy { level: 2, exp: 3 };
    stats.reconcile_at(at(5 + 4 * 86_400));
    assert_eq!(stats.current_streak, 3);
    let (streaks, milestones) = thresholds(&stats);
    assert!(streaks.is_empty());
    assert_eq!(milestones, vec![5]);
    assert_eq!(stats.buddy, Buddy { level: 1, exp: 0 });
}

#[test]
fn recording_a_readable_evaluation() {
    let mut stats = TrainingStats::new();
    let text = "- appropriateness: yes\n- importance: 4\n- conciseness: 3\n- accuracy: 5\n\
                - improvement1: a\n- improvement2: b\n- improvement3: c\n- overall: pass\n";
    let r = stats.record_evaluation_at(text, at(5));
    assert_eq!(r.ok(), Some(true));
    assert_eq!(stats.current_streak, 1);
    let e = stats.results[0].evaluation.as_ref().unwrap();
    assert_eq!((e.importance, e.conciseness, e.accuracy), (4, 3, 5));
    assert!(stats.results[0].passed);
}

#[test]
fn recording_an_unreadable_evaluation_counts_as_failure() {
    let mut stats = TrainingStats::new();
    stats.add_result_at(true, None, at(1));
    let r = stats.record_evaluation_at("はい、よくできています。", at(5));
    assert!(r.is_err());
    assert_eq!(stats.current_streak, 0);
    assert_eq!(stats.results.len(), 2);
    assert!(!stats.results[1].passed);
    assert!(stats.results[1].evaluation.is_none());
}
