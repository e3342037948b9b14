//! What a key press does to the screen: a step from the screen state and the
//! key to the next state and the work to start. The terminal, the text
//! editor and the network stay with the caller.
use vstd::prelude::*;
use crate::evaluation::is_space;
use crate::session::{
    calculate_max_scroll, has_training_started, max_scroll, menu_option, menu_value, return_view,
    training_started, AppAction, ViewMode, MENU_LEN,
};

verus! {

/// A key, as far as the session tells keys apart.
#[derive(Clone, Copy, Debug, PartialEq, Eq, Structural)]
pub enum Key {
    Up,
    Down,
    Enter,
    Esc,
    Char(char),
    Other,
}

/// A pressed key and the modifiers held with it.
#[derive(Clone, Copy, Debug, PartialEq, Eq, Structural)]
pub struct KeyPress {
    pub key: Key,
    pub ctrl: bool,
    pub shift: bool,
}

/// The status line a key press asks for.
#[derive(Clone, Copy, Debug, PartialEq, Eq, Structural)]
pub enum StatusMessage {
    SelectLength,
    NormalMode,
    EditingMode,
    ReportOpen,
    HelpOpen,
}

/// The screen state that key presses change.
#[derive(Clone, Copy, Debug, PartialEq, Eq, Structural)]
pub struct ScreenState {
    pub view_mode: ViewMode,
    pub selected_menu_item: usize,
    pub character_count: u16,
    pub should_quit: bool,
    pub is_editing: bool,
    pub show_evaluation_overlay: bool,
    pub evaluation_overlay_scroll: u16,
    pub original_text_scroll: u16,
    pub help_scroll: u16,
}

/// What the caller knows when a key arrives.
#[derive(Clone, Copy, Debug, PartialEq, Eq, Structural)]
pub struct KeyContext {
    /// The summary being written holds nothing but blanks.
    pub summary_blank: bool,
    /// An evaluation text is there to show.
    pub has_evaluation: bool,
    /// A practice text is on screen.
    pub training_started: bool,
    /// The largest scroll offset of the practice text.
    pub original_max_scroll: u16,
    /// The largest scroll offset of the evaluation overlay.
    pub overlay_max_scroll: u16,
}

/// What a key press asks of the caller besides the new screen state.
#[derive(Clone, Copy, Debug, PartialEq, Eq, Structural)]
pub struct KeyOutcome {
    pub action: Option<AppAction>,
    pub status: Option<StatusMessage>,
    /// Give the text editor the focus (`Some(true)`) or take it (`Some(false)`).
    pub editor_focus: Option<bool>,
    /// Hand the key to the text editor.
    pub forward_to_editor: bool,
}

pub open spec fn outcome(
    action: Option<AppAction>,
    status: Option<StatusMessage>,
    editor_focus: Option<bool>,
    forward_to_editor: bool,
) -> KeyOutcome {
    KeyOutcome { action, status, editor_focus, forward_to_editor }
}

pub open spec fn nothing() -> KeyOutcome {
    outcome(None, None, None, false)
}

pub open spec fn is_up(k: Key) -> bool {
    k == Key::Up || k == Key::Char('k')
}

pub open spec fn is_down(k: Key) -> bool {
    k == Key::Down || k == Key::Char('j')
}

pub open spec fn sat_inc(x: u16) -> u16 {
    if x < u16::MAX {
        (x + 1) as u16
    } else {
        x
    }
}

pub open spec fn sat_dec(x: u16) -> u16 {
    if x > 0 {
        (x - 1) as u16
    } else {
        0
    }
}

pub open spec fn min16(a: u16, b: u16) -> u16 {
    if a <= b {
        a
    } else {
        b
    }
}

/// The screen state is one the session can be in.
pub open spec fn screen_ok(s: ScreenState) -> bool {
    s.selected_menu_item < MENU_LEN
}

/// The status line that goes with the view after leaving a report or the help.
pub open spec fn return_status(started: bool) -> StatusMessage {
    if started {
        StatusMessage::NormalMode
    } else {
        StatusMessage::SelectLength
    }
}

pub open spec fn menu_step(s: ScreenState, k: KeyPress) -> (ScreenState, KeyOutcome) {
    let key = k.key;
    if is_up(key) {
        if s.selected_menu_item > 0 {
            let i = (s.selected_menu_item - 1) as usize;
            (ScreenState { selected_menu_item: i, character_count: menu_value(i as int), ..s }, nothing())
        } else {
            (s, nothing())
        }
    } else if is_down(key) {
        if s.selected_menu_item < MENU_LEN - 1 {
            let i = (s.selected_menu_item + 1) as usize;
            (ScreenState { selected_menu_item: i, character_count: menu_value(i as int), ..s }, nothing())
        } else {
            (s, nothing())
        }
    } else if key == Key::Enter {
        (
            ScreenState { character_count: menu_value(s.selected_menu_item as int), ..s },
            outcome(Some(AppAction::StartTraining), None, None, false),
        )
    } else if key == Key::Char('r') {
        (
            ScreenState { view_mode: ViewMode::Report, ..s },
            outcome(None, Some(StatusMessage::ReportOpen), None, false),
        )
    } else if key == Key::Char('h') {
        (
            ScreenState { view_mode: ViewMode::Help, ..s },
            outcome(None, Some(StatusMessage::HelpOpen), None, false),
        )
    } else if key == Key::Char('q') {
        (ScreenState { should_quit: true, ..s }, nothing())
    } else {
        (s, nothing())
    }
}

pub open spec fn editing_step(s: ScreenState, k: KeyPress, c: KeyContext) -> (ScreenState, KeyOutcome) {
    if k.key == Key::Char('s') && k.ctrl {
        if !c.summary_blank {
            (
                ScreenState { is_editing: false, ..s },
                outcome(Some(AppAction::Evaluate), None, Some(false), false),
            )
        } else {
            (s, nothing())
        }
    } else if k.key == Key::Esc {
        (
            ScreenState { is_editing: false, ..s },
            outcome(None, Some(StatusMessage::NormalMode), Some(false), false),
        )
    } else {
        (s, outcome(None, None, None, true))
    }
}

pub open spec fn report_step(s: ScreenState, k: KeyPress, c: KeyContext) -> (ScreenState, KeyOutcome) {
    if k.key == Key::Char('r') {
        (
            ScreenState { view_mode: return_view(c.training_started), ..s },
            outcome(None, Some(return_status(c.training_started)), None, false),
        )
    } else if k.key == Key::Char('q') {
        (ScreenState { should_quit: true, ..s }, nothing())
    } else {
        (s, nothing())
    }
}

pub open spec fn help_step(s: ScreenState, k: KeyPress, c: KeyContext) -> (ScreenState, KeyOutcome) {
    if k.key == Key::Char('h') {
        (
            ScreenState { view_mode: return_view(c.training_started), help_scroll: 0, ..s },
            outcome(None, Some(return_status(c.training_started)), None, false),
        )
    } else if is_down(k.key) {
        (ScreenState { help_scroll: sat_inc(s.help_scroll), ..s }, nothing())
    } else if is_up(k.key) {
        (ScreenState { help_scroll: sat_dec(s.help_scroll), ..s }, nothing())
    } else if k.key == Key::Char('q') {
        (ScreenState { should_quit: true, ..s }, nothing())
    } else {
        (s, nothing())
    }
}

pub open spec fn normal_step(s: ScreenState, k: KeyPress, c: KeyContext) -> (ScreenState, KeyOutcome) {
    let key = k.key;
    if key == Key::Char('i') || key == Key::Enter {
        if !s.show_evaluation_overlay {
            (
                ScreenState { is_editing: true, ..s },
                outcome(None, Some(StatusMessage::EditingMode), Some(true), false),
            )
        } else {
            (s, nothing())
        }
    } else if key == Key::Char('e') {
        if c.has_evaluation {
            if s.show_evaluation_overlay {
                (ScreenState { show_evaluation_overlay: false, ..s }, nothing())
            } else {
                (
                    ScreenState { show_evaluation_overlay: true, evaluation_overlay_scroll: 0, ..s },
                    nothing(),
                )
            }
        } else {
            (s, nothing())
        }
    } else if key == Key::Char('n') {
        if s.show_evaluation_overlay {
            (
                ScreenState { show_evaluation_overlay: false, ..s },
                outcome(Some(AppAction::NextTraining), None, None, false),
            )
        } else {
            (s, nothing())
        }
    } else if key == Key::Char('r') {
        (
            ScreenState { view_mode: ViewMode::Report, ..s },
            outcome(None, Some(StatusMessage::ReportOpen), None, false),
        )
    } else if key == Key::Char('h') {
        (
            ScreenState { view_mode: ViewMode::Help, ..s },
            outcome(None, Some(StatusMessage::HelpOpen), None, false),
        )
    } else if key == Key::Char('q') {
        (ScreenState { should_quit: true, ..s }, nothing())
    } else if is_down(key) {
        if s.show_evaluation_overlay && k.shift {
            (
                ScreenState {
                    evaluation_overlay_scroll: min16(sat_inc(s.evaluation_overlay_scroll), c.overlay_max_scroll),
                    ..s
                },
                nothing(),
            )
        } else {
            (
                ScreenState {
                    original_text_scroll: min16(sat_inc(s.original_text_scroll), c.original_max_scroll),
                    ..s
                },
                nothing(),
            )
        }
    } else if is_up(key) {
        if s.show_evaluation_overlay && k.shift {
            (ScreenState { evaluation_overlay_scroll: sat_dec(s.evaluation_overlay_scroll), ..s }, nothing())
        } else {
            (ScreenState { original_text_scroll: sat_dec(s.original_text_scroll), ..s }, nothing())
        }
    } else {
        (s, nothing())
    }
}

/// The step a key press makes in the view on screen.
pub open spec fn key_step(s: ScreenState, k: KeyPress, c: KeyContext) -> (ScreenState, KeyOutcome) {
    match s.view_mode {
        ViewMode::Menu => menu_step(s, k),
        ViewMode::Report => report_step(s, k, c),
        ViewMode::Help => help_step(s, k, c),
        ViewMode::Normal => if s.is_editing {
            editing_step(s, k, c)
        } else {
            normal_step(s, k, c)
        },
    }
}

fn up_key(k: Key) -> (r: bool)
    ensures
        r == is_up(k),
{
    k == Key::Up || k == Key::Char('k')
}

fn down_key(k: Key) -> (r: bool)
    ensures
        r == is_down(k),
{
    k == Key::Down || k == Key::Char('j')
}

fn inc(x: u16) -> (r: u16)
    ensures
        r == sat_inc(x),
{
    x.saturating_add(1)
}

fn dec(x: u16) -> (r: u16)
    ensures
        r == sat_dec(x),
{
    x.saturating_sub(1)
}

/// Leaves a report or the help for the practice screen once training has
/// started, for the menu before; returns the status line that goes with it.
pub fn return_from_report(s: &mut ScreenState, started: bool) -> (r: StatusMessage)
    ensures
        *final(s) == (ScreenState { view_mode: return_view(started), ..*old(s) }),
        r == return_status(started),
{
    if started {
        s.view_mode = ViewMode::Normal;
        StatusMessage::NormalMode
    } else {
        s.view_mode = ViewMode::Menu;
        StatusMessage::SelectLength
    }
}

fn none() -> (r: KeyOutcome)
    ensures
        r == nothing(),
{
    KeyOutcome { action: None, status: None, editor_focus: None, forward_to_editor: false }
}

fn with_status(m: StatusMessage) -> (r: KeyOutcome)
    ensures
        r == outcome(None, Some(m), None, false),
{
    KeyOutcome { action: None, status: Some(m), editor_focus: None, forward_to_editor: false }
}

/// Applies a key press in the menu.
fn menu_key(s: &mut ScreenState, k: KeyPress) -> (r: KeyOutcome)
    requires
        screen_ok(*old(s)),
    ensures
        (*final(s), r) == menu_step(*old(s), k),
{
    let key = k.key;
    if up_key(key) {
        if s.selected_menu_item > 0 {
            s.selected_menu_item = s.selected_menu_item - 1;
            s.character_count = menu_option(s.selected_menu_item);
        }
        none()
    } else if down_key(key) {
        if s.selected_menu_item < MENU_LEN - 1 {
            s.selected_menu_item = s.selected_menu_item + 1;
            s.character_count = menu_option(s.selected_menu_item);
        }
        none()
    } else if key == Key::Enter {
        s.character_count = menu_option(s.selected_menu_item);
        KeyOutcome {
            action: Some(AppAction::StartTraining),
            status: None,
            editor_focus: None,
            forward_to_editor: false,
        }
    } else if key == Key::Char('r') {
        s.view_mode = ViewMode::Report;
        with_status(StatusMessage::ReportOpen)
    } else if key == Key::Char('h') {
        s.view_mode = ViewMode::Help;
        with_status(StatusMessage::HelpOpen)
    } else if key == Key::Char('q') {
        s.should_quit = true;
        none()
    } else {
        none()
    }
}

/// Applies a key press while the summary is being edited.
fn editing_key(s: &mut ScreenState, k: KeyPress, c: KeyContext) -> (r: KeyOutcome)
    ensures
        (*final(s), r) == editing_step(*old(s), k, c),
{
    if k.key == Key::Char('s') && k.ctrl {
        if !c.summary_blank {
            s.is_editing = false;
            KeyOutcome {
                action: Some(AppAction::Evaluate),
                status: None,
                editor_focus: Some(false),
                forward_to_editor: false,
            }
        } else {
            none()
        }
    } else if k.key == Key::Esc {
        s.is_editing = false;
        KeyOutcome {
            action: None,
            status: Some(StatusMessage::NormalMode),
            editor_focus: Some(false),
            forward_to_editor: false,
        }
    } else {
        KeyOutcome { action: None, status: None, editor_focus: None, forward_to_editor: true }
    }
}

/// Applies a key press on the report.
fn report_key(s: &mut ScreenState, k: KeyPress, c: KeyContext) -> (r: KeyOutcome)
    ensures
        (*final(s), r) == report_step(*old(s), k, c),
{
    if k.key == Key::Char('r') {
        let m = return_from_report(s, c.training_started);
        with_status(m)
    } else if k.key == Key::Char('q') {
        s.should_quit = true;
        none()
    } else {
        none()
    }
}

/// Applies a key press on the help.
fn help_key(s: &mut ScreenState, k: KeyPress, c: KeyContext) -> (r: KeyOutcome)
    ensures
        (*final(s), r) == help_step(*old(s), k, c),
{
    if k.key == Key::Char('h') {
        let m = return_from_report(s, c.training_started);
        s.help_scroll = 0;
        with_status(m)
    } else if down_key(k.key) {
        s.help_scroll = inc(s.help_scroll);
        none()
    } else if up_key(k.key) {
        s.help_scroll = dec(s.help_scroll);
        none()
    } else if k.key == Key::Char('q') {
        s.should_quit = true;
        none()
    } else {
        none()
    }
}

/// Applies a key press on the practice screen, outside the editor.
fn normal_key(s: &mut ScreenState, k: KeyPress, c: KeyContext) -> (r: KeyOutcome)
    ensures
        (*final(s), r) == normal_step(*old(s), k, c),
{
    let key = k.key;
    if key == Key::Char('i') || key == Key::Enter {
        if !s.show_evaluation_overlay {
            s.is_editing = true;
            KeyOutcome {
                action: None,
                status: Some(StatusMessage::EditingMode),
                editor_focus: Some(true),
                forward_to_editor: false,
            }
        } else {
            none()
        }
    } else if key == Key::Char('e') {
        if c.has_evaluation {
            s.show_evaluation_overlay = !s.show_evaluation_overlay;
            if s.show_evaluation_overlay {
                s.evaluation_overlay_scroll = 0;
            }
        }
        none()
    } else if key == Key::Char('n') {
        if s.show_evaluation_overlay {
            s.show_evaluation_overlay = false;
            KeyOutcome {
                action: Some(AppAction::NextTraining),
                status: None,
                editor_focus: None,
                forward_to_editor: false,
            }
        } else {
            none()
        }
    } else if key == Key::Char('r') {
        s.view_mode = ViewMode::Report;
        with_status(StatusMessage::ReportOpen)
    } else if key == Key::Char('h') {
        s.view_mode = ViewMode::Help;
        with_status(StatusMessage::HelpOpen)
    } else if key == Key::Char('q') {
        s.should_quit = true;
        none()
    } else if down_key(key) {
        if s.show_evaluation_overlay && k.shift {
            s.evaluation_overlay_scroll = inc(s.evaluation_overlay_scroll).min(c.overlay_max_scroll);
        } else {
            s.original_text_scroll = inc(s.original_text_scroll).min(c.original_max_scroll);
        }
        none()
    } else if up_key(key) {
        if s.show_evaluation_overlay && k.shift {
            s.evaluation_overlay_scroll = dec(s.evaluation_overlay_scroll);
        } else {
            s.original_text_scroll = dec(s.original_text_scroll);
        }
        none()
    } else {
        none()
    }
}

/// Applies a key press to the screen state: the new state, and what the
/// caller is to do (start work, set the status line, move the editor's focus,
/// or hand the key to the editor).
pub fn handle_key(s: &mut ScreenState, k: KeyPress, c: KeyContext) -> (r: KeyOutcome)
    requires
        screen_ok(*old(s)),
    ensures
        (*final(s), r) == key_step(*old(s), k, c),
        screen_ok(*final(s)),
{
    match s.view_mode {
        ViewMode::Menu => menu_key(s, k),
        ViewMode::Report => report_key(s, k, c),
        ViewMode::Help => help_key(s, k, c),
        ViewMode::Normal => if s.is_editing {
            editing_key(s, k, c)
        } else {
            normal_key(s, k, c)
        },
    }
}

/// The state the session starts in: the menu, on its first entry.
pub fn initial_screen() -> (r: ScreenState)
    ensures
        screen_ok(r),
        r.view_mode == ViewMode::Menu,
        r.selected_menu_item == 0,
        r.character_count == menu_value(0),
        !r.should_quit && !r.is_editing && !r.show_evaluation_overlay,
{
    ScreenState {
        view_mode: ViewMode::Menu,
        selected_menu_item: 0,
        character_count: 400,
        should_quit: false,
        is_editing: false,
        show_evaluation_overlay: false,
        evaluation_overlay_scroll: 0,
        original_text_scroll: 0,
        help_scroll: 0,
    }
}


/// Rows of the practice text box on a terminal `height` rows high.
pub open spec fn text_rows(height: u16) -> u16 {
    sat_sub(height / 2, 3)
}

/// Rows of the evaluation overlay, three quarters of the terminal, on a
/// terminal `height` rows high.
pub open spec fn overlay_rows(height: u16) -> u16 {
    sat_sub((height * 75 / 100) as u16, 4)
}

pub open spec fn sat_sub(a: u16, b: u16) -> u16 {
    if a >= b {
        (a - b) as u16
    } else {
        0
    }
}

/// `s` holds nothing but blanks.
pub open spec fn blank(s: Seq<char>) -> bool {
    forall|i: int| 0 <= i < s.len() ==> is_space(#[trigger] s[i])
}

fn is_blank(text: &str) -> (r: bool)
    ensures
        r == blank(text@),
{
    let n = text.unicode_len();
    let mut i: usize = 0;
    while i < n
        invariant
            n == text@.len(),
            i <= n,
            forall|j: int| 0 <= j < i ==> is_space(#[trigger] text@[j]),
        decreases n - i,
    {
        let c = text.get_char(i);
        if !(c == ' ' || c == '\t' || c == '\r' || c == '\n' || c == '\u{3000}') {
            return false;
        }
        i = i + 1;
    }
    true
}

/// What the session knows when a key arrives, from the summary being
/// written, the practice text, the evaluation text, and the terminal height.
pub fn key_context(summary: &str, original_text: &str, evaluation_text: &str, height: u16) -> (r:
    KeyContext)
    ensures
        r.summary_blank == blank(summary@),
        r.has_evaluation == (evaluation_text@.len() > 0),
        r.training_started == training_started(original_text@),
        r.original_max_scroll == max_scroll(original_text@, text_rows(height)),
        r.overlay_max_scroll == max_scroll(evaluation_text@, overlay_rows(height)),
{
    let overlay = ((height as u32 * 75 / 100) as u16).saturating_sub(4);
    let text = (height / 2).saturating_sub(3);
    KeyContext {
        summary_blank: is_blank(summary),
        has_evaluation: evaluation_text.unicode_len() > 0,
        training_started: has_training_started(original_text),
        original_max_scroll: calculate_max_scroll(original_text, text),
        overlay_max_scroll: calculate_max_scroll(evaluation_text, overlay),
    }
}

} // verus!
