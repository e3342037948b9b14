use yomitore::evaluation::{format_evaluation, parse_evaluation, Field, ParseError};
use yomitore::models::EvaluationScores;

fn sample() -> EvaluationScores {
    EvaluationScores {
        appropriate: true,
        importance: 4,
        conciseness: 2,
        accuracy: 5,
        improvement1: "Name the main claim first".to_string(),
        improvement2: "Drop the second example: it repeats the first".to_string(),
        improvement3: "Keep the dates".to_string(),
        overall_passed: false,
    }
}

fn same(a: &EvaluationScores, b: &EvaluationScores) -> bool {
    a.appropriate == b.appropriate
        && a.importance == b.importance
        && a.conciseness == b.conciseness
        && a.accuracy == b.accuracy
        && a.improvement1 == b.improvement1
        && a.improvement2 == b.improvement2
        && a.improvement3 == b.improvement3
        && a.overall_passed == b.overall_passed
}

fn lines() -> Vec<String> {
    vec![
        "appropriateness: yes".to_string(),
        "importance: 4".to_string(),
        "conciseness: 2".to_string(),
        "accuracy: 5".to_string(),
        "improvement1: Name the main claim first".to_string(),
        "improvement2: Drop the second example: it repeats the first".to_string(),
        "improvement3: Keep the dates".to_string(),
        "overall: fail".to_string(),
    ]
}

#[test]
fn format_writes_canonical_lines() {
    let text = format_evaluation(&sample());
    assert_eq!(
        text,
        "- appropriateness: yes\n- importance: 4\n- conciseness: 2\n- accuracy: 5\n\
         - improvement1: Name the main claim first\n\
         - improvement2: Drop the second example: it repeats the first\n\
         - improvement3: Keep the dates\n- overall: fail\n"
    );
}

#[test]
fn parse_reads_back_formatted_text() {
    let x = sample();
    let parsed = parse_evaluation(&format_evaluation(&x)).ok().unwrap();
    assert!(same(&parsed, &x));
    let y = EvaluationScores {
        appropriate: false,
        importance: 1,
        conciseness: 5,
        accuracy: 3,
        improvement1: String::new(),
        improvement2: "x".to_string(),
        improvement3: "全体をもう少し短く".to_string(),
        overall_passed: true,
    };
    let parsed = parse_evaluation(&format_evaluation(&y)).ok().unwrap();
    assert!(same(&parsed, &y));
}

#[test]
fn parse_accepts_any_order_and_bullet() {
    let glyphs = ["-", "\u{2022}", "*", "\u{30FB}", "\u{2212}", ""];
    let base = lines();
    for shift in 0..8 {
        for (g, glyph) in glyphs.iter().enumerate() {
            let mut order: Vec<String> = Vec::new();
            for k in 0..8 {
                let line = &base[(k * 3 + shift) % 8];
                order.push(format!("{} {}", glyph, line));
                if k == g {
                    order.push("Some prose in between.".to_string());
                    order.push(String::new());
                }
            }
            if g % 2 == 0 {
                order.reverse();
            }
            let text = order.join("\n");
            let parsed = parse_evaluation(&text).ok().unwrap();
            assert!(same(&parsed, &sample()));
        }
    }
}

#[test]
fn parse_ignores_case_blanks_and_wide_colon() {
    let text = "Here is my verdict.\n\n  * Appropriateness : Yes, mostly\n\
                - IMPORTANCE：4 points\n- Conciseness: 2/5\n- accuracy:5\n\
                - improvement1:   Name the main claim first   \r\n\
                - improvement2: Drop the second example: it repeats the first\n\
                - improvement3: Keep the dates\n- Overall: FAIL\nThanks!";
    let parsed = parse_evaluation(text).ok().unwrap();
    assert!(same(&parsed, &sample()));
}

fn invalid_field(text: &str) -> Option<(Field, String)> {
    match parse_evaluation(text) {
        Err(ParseError::InvalidValue(f, raw)) => Some((f, raw)),
        _ => None,
    }
}

fn with_importance(value: &str) -> String {
    let mut ls = lines();
    ls[1] = format!("importance: {}", value);
    ls.join("\n")
}

#[test]
fn score_out_of_range_or_not_a_number_is_invalid() {
    assert_eq!(invalid_field(&with_importance("6")), Some((Field::Importance, "6".to_string())));
    assert_eq!(invalid_field(&with_importance("0")), Some((Field::Importance, "0".to_string())));
    assert_eq!(
        invalid_field(&with_importance("abc")),
        Some((Field::Importance, "abc".to_string()))
    );
    assert_eq!(
        invalid_field(&with_importance("  12 ")),
        Some((Field::Importance, "12".to_string()))
    );
    assert_eq!(
        invalid_field(&with_importance("99999999999999999999999")),
        Some((Field::Importance, "99999999999999999999999".to_string()))
    );
}

#[test]
fn leading_digits_give_the_score() {
    let parsed = parse_evaluation(&with_importance("03 of 5")).ok().unwrap();
    assert_eq!(parsed.importance, 3);
}

#[test]
fn verdict_without_marker_is_invalid() {
    let mut ls = lines();
    ls[0] = "appropriateness: maybe".to_string();
    assert_eq!(
        invalid_field(&ls.join("\n")),
        Some((Field::Appropriateness, "maybe".to_string()))
    );
    let mut ls = lines();
    ls[7] = "overall: ok".to_string();
    assert_eq!(invalid_field(&ls.join("\n")), Some((Field::Overall, "ok".to_string())));
}

#[test]
fn repeated_field_is_duplicate() {
    let mut ls = lines();
    ls.push("- accuracy: 3".to_string());
    assert!(matches!(
        parse_evaluation(&ls.join("\n")),
        Err(ParseError::DuplicateField(Field::Accuracy))
    ));
}

#[test]
fn duplicate_reported_before_later_invalid_value() {
    let mut ls = lines();
    ls.insert(2, "importance: 2".to_string());
    ls.push("accuracy: 9".to_string());
    assert!(matches!(
        parse_evaluation(&ls.join("\n")),
        Err(ParseError::DuplicateField(Field::Importance))
    ));
}

#[test]
fn absent_field_is_missing() {
    let mut ls = lines();
    ls.remove(5);
    assert!(matches!(
        parse_evaluation(&ls.join("\n")),
        Err(ParseError::MissingField(Field::Improvement2))
    ));
    assert!(matches!(
        parse_evaluation(""),
        Err(ParseError::MissingField(Field::Appropriateness))
    ));
}

#[test]
fn missing_is_first_in_canonical_order() {
    let mut ls = lines();
    ls.remove(7);
    ls.remove(3);
    assert!(matches!(
        parse_evaluation(&ls.join("\n")),
        Err(ParseError::MissingField(Field::Accuracy))
    ));
}
