use yomitore::keys::{initial_screen, return_from_report, StatusMessage};
use yomitore::models::decimal_string;
use yomitore::session::{
    calculate_max_scroll, generate_text_prompt, has_training_started, menu_down, menu_option,
    menu_up, ViewMode, MENU_LEN,
};

#[test]
fn max_scroll_counts_lines_less_inner_height() {
    assert_eq!(calculate_max_scroll("a\nb\nc\nd\ne", 4), 3);
    assert_eq!(calculate_max_scroll("a\nb\nc\nd\ne\n", 4), 3);
    assert_eq!(calculate_max_scroll("a\nb", 10), 0);
    assert_eq!(calculate_max_scroll("", 0), 0);
    assert_eq!(calculate_max_scroll("\n\n\n", 1), 3);
    assert_eq!(calculate_max_scroll("x\r\ny", 2), 2);
}

#[test]
fn training_started_only_with_a_text() {
    assert!(!has_training_started("Authenticating..."));
    assert!(!has_training_started("Failed to generate text: timeout"));
    assert!(has_training_started("本文"));
    assert!(has_training_started("Authenticating"));
}

#[test]
fn view_after_report() {
    let mut s = initial_screen();
    s.view_mode = ViewMode::Report;
    assert_eq!(return_from_report(&mut s, true), StatusMessage::NormalMode);
    assert_eq!(s.view_mode, ViewMode::Normal);
    s.view_mode = ViewMode::Help;
    assert_eq!(return_from_report(&mut s, false), StatusMessage::SelectLength);
    assert_eq!(s.view_mode, ViewMode::Menu);
}

#[test]
fn menu_moves_within_bounds() {
    assert_eq!(menu_up(0), 0);
    assert_eq!(menu_up(2), 1);
    assert_eq!(menu_down(MENU_LEN - 1), MENU_LEN - 1);
    assert_eq!(menu_down(0), 1);
    let values: Vec<u16> = (0..MENU_LEN).map(menu_option).collect();
    assert_eq!(values, vec![400, 720, 1440, 2880]);
}

#[test]
fn prompt_names_the_length() {
    assert_eq!(
        generate_text_prompt(720),
        "日本語の公的文書のようなお堅い文章を720文字程度で生成してください。"
    );
}

#[test]
fn decimal_rendering() {
    assert_eq!(decimal_string(0), "0");
    assert_eq!(decimal_string(9), "9");
    assert_eq!(decimal_string(10), "10");
    assert_eq!(decimal_string(18_446_744_073_709_551_615), "18446744073709551615");
}
