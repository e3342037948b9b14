//! Screen-level decisions of the training session that do not depend on the
//! terminal: which view comes back after a report, the menu of text lengths,
//! the prompt that asks for a practice text, and how far a text can scroll.
use vstd::prelude::*;
use crate::evaluation::chars_of;
use crate::models::{decimal_string, decimal_text};

verus! {

/// The screen shown.
#[derive(Clone, Copy, Debug, PartialEq, Eq, Structural)]
pub enum ViewMode {
    Menu,
    Normal,
    Report,
    Help,
}

/// Work that a key press asks the session to start.
#[derive(Clone, Copy, Debug, PartialEq, Eq, Structural)]
pub enum AppAction {
    Evaluate,
    NextTraining,
    StartTraining,
}

/// The number of text lengths the menu offers.
pub const MENU_LEN: usize = 4;

/// The text length, in characters, of menu entry `i`.
pub open spec fn menu_value(i: int) -> u16 {
    if i == 0 {
        400
    } else if i == 1 {
        720
    } else if i == 2 {
        1440
    } else {
        2880
    }
}

/// The text length, in characters, of menu entry `i`.
pub fn menu_option(i: usize) -> (r: u16)
    requires
        i < MENU_LEN,
    ensures
        r == menu_value(i as int),
{
    if i == 0 {
        400
    } else if i == 1 {
        720
    } else if i == 2 {
        1440
    } else {
        2880
    }
}

/// The menu entry above `selected`, staying on the first.
pub fn menu_up(selected: usize) -> (r: usize)
    ensures
        r == if selected > 0 {
            selected - 1
        } else {
            0int
        },
{
    if selected > 0 {
        selected - 1
    } else {
        0
    }
}

/// The menu entry below `selected`, staying on the last.
pub fn menu_down(selected: usize) -> (r: usize)
    ensures
        r == if selected < MENU_LEN - 1 {
            selected + 1
        } else {
            selected as int
        },
{
    if selected < MENU_LEN - 1 {
        selected + 1
    } else {
        selected
    }
}

/// The text shown before any practice text arrives.
pub open spec fn placeholder_text() -> Seq<char> {
    "Authenticating..."@
}

/// The start of the text shown when no practice text could be had.
pub open spec fn failure_prefix() -> Seq<char> {
    "Failed to generate"@
}

fn same_text(a: &str, b: &str) -> (r: bool)
    ensures
        r == (a@ == b@),
{
    let n = a.unicode_len();
    if n != b.unicode_len() {
        return false;
    }
    let mut i: usize = 0;
    while i < n
        invariant
            n == a@.len() == b@.len(),
            i <= n,
            forall|j: int| 0 <= j < i ==> a@[j] == b@[j],
        decreases n - i,
    {
        if a.get_char(i) != b.get_char(i) {
            return false;
        }
        i = i + 1;
    }
    assert(a@ =~= b@);
    true
}

fn starts_with_text(a: &str, p: &str) -> (r: bool)
    ensures
        r == (p@.len() <= a@.len() && a@.take(p@.len() as int) == p@),
{
    let n = p.unicode_len();
    if n > a.unicode_len() {
        return false;
    }
    let mut i: usize = 0;
    while i < n
        invariant
            n == p@.len() <= a@.len(),
            i <= n,
            forall|j: int| 0 <= j < i ==> a@[j] == p@[j],
        decreases n - i,
    {
        if a.get_char(i) != p.get_char(i) {
            assert(a@.take(n as int)[i as int] != p@[i as int]);
            return false;
        }
        i = i + 1;
    }
    assert(a@.take(n as int) =~= p@);
    true
}

/// A practice text is on screen: neither the placeholder nor the report of
/// a failed request.
pub open spec fn training_started(s: Seq<char>) -> bool {
    s != placeholder_text() && !(failure_prefix().len() <= s.len() && s.take(
        failure_prefix().len() as int,
    ) == failure_prefix())
}

/// Whether a practice text is on screen: neither the placeholder nor the
/// report of a failed request.
pub fn has_training_started(original_text: &str) -> (r: bool)
    ensures
        r == training_started(original_text@),
{
    !same_text(original_text, "Authenticating...") && !starts_with_text(
        original_text,
        "Failed to generate",
    )
}

/// The view to go back to from a report or the help: the practice screen
/// once training has started, the menu before.
pub open spec fn return_view(started: bool) -> ViewMode {
    if started {
        ViewMode::Normal
    } else {
        ViewMode::Menu
    }
}

/// The request for a practice text of about `character_count` characters.
pub fn generate_text_prompt(character_count: u16) -> (r: String)
    ensures
        r@ == "日本語の公的文書のようなお堅い文章を"@ + decimal_text(character_count as nat)
            + "文字程度で生成してください。"@,
{
    let mut s = String::from_str("日本語の公的文書のようなお堅い文章を");
    let n = decimal_string(character_count as usize);
    s.append(n.as_str());
    s.append("文字程度で生成してください。");
    s
}

/// The number of newline characters in `s`.
pub open spec fn newlines(s: Seq<char>) -> nat
    decreases s.len(),
{
    if s.len() == 0 {
        0
    } else {
        newlines(s.drop_last()) + if s.last() == '\n' {
            1nat
        } else {
            0nat
        }
    }
}

/// The number of lines of `s`: one per newline, and one more for text after
/// the last newline.
pub open spec fn line_count(s: Seq<char>) -> nat {
    newlines(s) + if s.len() > 0 && s.last() != '\n' {
        1nat
    } else {
        0nat
    }
}

proof fn lemma_newlines_bounded(s: Seq<char>)
    ensures
        newlines(s) <= s.len(),
    decreases s.len(),
{
    if s.len() > 0 {
        lemma_newlines_bounded(s.drop_last());
    }
}

/// The largest scroll offset of `s` in a bordered box `visible_height` rows high.
pub open spec fn max_scroll(s: Seq<char>, visible_height: u16) -> u16 {
    let total = line_count(s) % 65536;
    let inner = if visible_height >= 2 {
        visible_height - 2
    } else {
        0
    };
    (if total >= inner {
        total - inner
    } else {
        0
    }) as u16
}

/// The largest scroll offset of `text` in a bordered box `visible_height`
/// rows high: its line count (kept to 16 bits) less the rows inside the
/// borders, and never below zero.
pub fn calculate_max_scroll(text: &str, visible_height: u16) -> (r: u16)
    ensures
        r == max_scroll(text@, visible_height),
{
    let chars = chars_of(text);
    let n = chars.len();
    let mut count: usize = 0;
    let mut i: usize = 0;
    while i < n
        invariant
            n == chars@.len(),
            chars@ == text@,
            i <= n,
            count == newlines(chars@.take(i as int)),
            count <= i,
        decreases n - i,
    {
        assert(chars@.take(i + 1).drop_last() =~= chars@.take(i as int));
        if chars[i] == '\n' {
            count = count + 1;
        }
        i = i + 1;
    }
    assert(chars@.take(n as int) =~= chars@);
    if n > 0 && chars[n - 1] != '\n' {
        proof {
            lemma_newlines_bounded(chars@.drop_last());
        }
        count = count + 1;
    }
    let total = (count % 65536) as u16;
    total.saturating_sub(visible_height.saturating_sub(2))
}

} // verus!
