use yomitore::keys::{
    handle_key, initial_screen, key_context, Key, KeyContext, KeyPress, StatusMessage,
};
use yomitore::session::{AppAction, ViewMode};

fn press(key: Key) -> KeyPress {
    KeyPress { key, ctrl: false, shift: false }
}

fn ctx() -> KeyContext {
    KeyContext {
        summary_blank: false,
        has_evaluation: true,
        training_started: true,
        original_max_scroll: 2,
        overlay_max_scroll: 1,
    }
}

#[test]
fn menu_moves_and_starts() {
    let mut s = initial_screen();
    assert_eq!(s.character_count, 400);
    let out = handle_key(&mut s, press(Key::Char('j')), ctx());
    assert_eq!((s.selected_menu_item, s.character_count), (1, 720));
    assert!(out.action.is_none());
    handle_key(&mut s, press(Key::Down), ctx());
    handle_key(&mut s, press(Key::Down), ctx());
    handle_key(&mut s, press(Key::Down), ctx());
    assert_eq!((s.selected_menu_item, s.character_count), (3, 2880));
    handle_key(&mut s, press(Key::Up), ctx());
    assert_eq!((s.selected_menu_item, s.character_count), (2, 1440));
    let out = handle_key(&mut s, press(Key::Enter), ctx());
    assert_eq!(out.action, Some(AppAction::StartTraining));
    assert_eq!(s.character_count, 1440);
}

#[test]
fn report_and_help_return_to_right_view() {
    let mut s = initial_screen();
    let out = handle_key(&mut s, press(Key::Char('r')), ctx());
    assert_eq!(s.view_mode, ViewMode::Report);
    assert_eq!(out.status, Some(StatusMessage::ReportOpen));
    let not_started = KeyContext { training_started: false, ..ctx() };
    let out = handle_key(&mut s, press(Key::Char('r')), not_started);
    assert_eq!(s.view_mode, ViewMode::Menu);
    assert_eq!(out.status, Some(StatusMessage::SelectLength));
    handle_key(&mut s, press(Key::Char('h')), ctx());
    assert_eq!(s.view_mode, ViewMode::Help);
    handle_key(&mut s, press(Key::Down), ctx());
    handle_key(&mut s, press(Key::Down), ctx());
    handle_key(&mut s, press(Key::Up), ctx());
    assert_eq!(s.help_scroll, 1);
    let out = handle_key(&mut s, press(Key::Char('h')), ctx());
    assert_eq!(s.view_mode, ViewMode::Normal);
    assert_eq!(s.help_scroll, 0);
    assert_eq!(out.status, Some(StatusMessage::NormalMode));
}

#[test]
fn editing_submits_only_a_written_summary() {
    let mut s = initial_screen();
    s.view_mode = ViewMode::Normal;
    let out = handle_key(&mut s, press(Key::Char('i')), ctx());
    assert!(s.is_editing);
    assert_eq!(out.editor_focus, Some(true));
    let out = handle_key(&mut s, press(Key::Char('x')), ctx());
    assert!(out.forward_to_editor);
    let ctrl_s = KeyPress { key: Key::Char('s'), ctrl: true, shift: false };
    let blank = KeyContext { summary_blank: true, ..ctx() };
    let out = handle_key(&mut s, ctrl_s, blank);
    assert!(out.action.is_none());
    assert!(s.is_editing);
    let out = handle_key(&mut s, ctrl_s, ctx());
    assert_eq!(out.action, Some(AppAction::Evaluate));
    assert_eq!(out.editor_focus, Some(false));
    assert!(!s.is_editing);
}

#[test]
fn overlay_toggles_scrolls_and_moves_on() {
    let mut s = initial_screen();
    s.view_mode = ViewMode::Normal;
    handle_key(&mut s, press(Key::Char('e')), ctx());
    assert!(s.show_evaluation_overlay);
    let shift_down = KeyPress { key: Key::Down, ctrl: false, shift: true };
    handle_key(&mut s, shift_down, ctx());
    handle_key(&mut s, shift_down, ctx());
    assert_eq!(s.evaluation_overlay_scroll, 1);
    handle_key(&mut s, press(Key::Down), ctx());
    handle_key(&mut s, press(Key::Down), ctx());
    handle_key(&mut s, press(Key::Down), ctx());
    assert_eq!(s.original_text_scroll, 2);
    let out = handle_key(&mut s, press(Key::Char('i')), ctx());
    assert!(!s.is_editing);
    assert!(out.status.is_none());
    let out = handle_key(&mut s, press(Key::Char('n')), ctx());
    assert_eq!(out.action, Some(AppAction::NextTraining));
    assert!(!s.show_evaluation_overlay);
    handle_key(&mut s, press(Key::Char('q')), ctx());
    assert!(s.should_quit);
}

#[test]
fn context_from_texts() {
    let c = key_context(" \n\u{3000}", "a\nb\nc\nd\ne\nf", "", 10);
    assert!(c.summary_blank);
    assert!(!c.has_evaluation);
    assert!(c.training_started);
    assert_eq!(c.original_max_scroll, 6);
    assert_eq!(c.overlay_max_scroll, 0);
    let c = key_context("要約", "Authenticating...", "x", 40);
    assert!(!c.summary_blank);
    assert!(c.has_evaluation);
    assert!(!c.training_started);
}
