//! Tolerant parsing of graded evaluation texts, and the canonical rendering
//! that the parser reads back unchanged.
//!
//! A text is read line by line. A line may start with blanks and one bullet
//! glyph; the part before its first colon names a field (compared without
//! regard to ASCII case, after trimming), and the part after it, trimmed, is
//! the field's value. Lines that name no field are ignored.
use vstd::prelude::*;
use crate::models::{EvaluationScores, EvaluationView};

verus! {

/// The eight fields of an evaluation, in canonical order.
#[derive(Clone, Copy, Debug, PartialEq, Eq, Structural)]
pub enum Field {
    Appropriateness,
    Importance,
    Conciseness,
    Accuracy,
    Improvement1,
    Improvement2,
    Improvement3,
    Overall,
}

impl Field {
    /// Position of the field in canonical order.
    pub open spec fn index(self) -> int {
        match self {
            Field::Appropriateness => 0,
            Field::Importance => 1,
            Field::Conciseness => 2,
            Field::Accuracy => 3,
            Field::Improvement1 => 4,
            Field::Improvement2 => 5,
            Field::Improvement3 => 6,
            Field::Overall => 7,
        }
    }
}

/// The field at position `i` of the canonical order.
pub open spec fn field_at(i: int) -> Field {
    if i <= 0 {
        Field::Appropriateness
    } else if i == 1 {
        Field::Importance
    } else if i == 2 {
        Field::Conciseness
    } else if i == 3 {
        Field::Accuracy
    } else if i == 4 {
        Field::Improvement1
    } else if i == 5 {
        Field::Improvement2
    } else if i == 6 {
        Field::Improvement3
    } else {
        Field::Overall
    }
}

/// The key that names a field, in lower case.
pub open spec fn key_name(f: Field) -> Seq<char> {
    match f {
        Field::Appropriateness => "appropriateness"@,
        Field::Importance => "importance"@,
        Field::Conciseness => "conciseness"@,
        Field::Accuracy => "accuracy"@,
        Field::Improvement1 => "improvement1"@,
        Field::Improvement2 => "improvement2"@,
        Field::Improvement3 => "improvement3"@,
        Field::Overall => "overall"@,
    }
}

/// A field value read from a line.
pub enum FieldValue {
    Flag(bool),
    Score(u8),
    Text(String),
}

pub enum FieldValueView {
    Flag(bool),
    Score(u8),
    Text(Seq<char>),
}

impl View for FieldValue {
    type V = FieldValueView;

    open spec fn view(&self) -> FieldValueView {
        match self {
            FieldValue::Flag(b) => FieldValueView::Flag(*b),
            FieldValue::Score(n) => FieldValueView::Score(*n),
            FieldValue::Text(t) => FieldValueView::Text(t@),
        }
    }
}

/// Why an evaluation text could not be read.
pub enum ParseError {
    /// The field was given on two lines.
    DuplicateField(Field),
    /// No line gives the field.
    MissingField(Field),
    /// The field's value (trimmed, as given) is not one the field accepts.
    InvalidValue(Field, String),
}

pub enum ParseErrorView {
    DuplicateField(Field),
    MissingField(Field),
    InvalidValue(Field, Seq<char>),
}

impl View for ParseError {
    type V = ParseErrorView;

    open spec fn view(&self) -> ParseErrorView {
        match self {
            ParseError::DuplicateField(f) => ParseErrorView::DuplicateField(*f),
            ParseError::MissingField(f) => ParseErrorView::MissingField(*f),
            ParseError::InvalidValue(f, raw) => ParseErrorView::InvalidValue(*f, raw@),
        }
    }
}

pub open spec fn is_space(c: char) -> bool {
    c == ' ' || c == '\t' || c == '\r' || c == '\n' || c == '\u{3000}'
}

/// The glyphs accepted in front of a field line.
pub open spec fn is_bullet(c: char) -> bool {
    c == '-' || c == '\u{2022}' || c == '*' || c == '\u{30FB}' || c == '\u{2212}'
}

pub open spec fn is_colon(c: char) -> bool {
    c == ':' || c == '\u{FF1A}'
}

pub open spec fn is_digit(c: char) -> bool {
    '0' <= c && c <= '9'
}

pub open spec fn trim_start(s: Seq<char>) -> Seq<char>
    decreases s.len(),
{
    if s.len() > 0 && is_space(s[0]) {
        trim_start(s.drop_first())
    } else {
        s
    }
}

pub open spec fn trim_end(s: Seq<char>) -> Seq<char>
    decreases s.len(),
{
    if s.len() > 0 && is_space(s.last()) {
        trim_end(s.drop_last())
    } else {
        s
    }
}

pub open spec fn trim(s: Seq<char>) -> Seq<char> {
    trim_end(trim_start(s))
}

/// `c` equals the lower-case character `k`, or is its ASCII upper-case form.
pub open spec fn ci_eq(c: char, k: char) -> bool {
    c == k || ('a' <= k && k <= 'z' && (c as u32) + 32 == (k as u32))
}

/// `s` is the lower-case word `k`, up to ASCII case.
pub open spec fn matches_ci(s: Seq<char>, k: Seq<char>) -> bool {
    s.len() == k.len() && forall|i: int| 0 <= i < s.len() ==> ci_eq(s[i], k[i])
}

/// `s` starts with the lower-case word `k`, up to ASCII case.
pub open spec fn starts_ci(s: Seq<char>, k: Seq<char>) -> bool {
    k.len() <= s.len() && forall|i: int| 0 <= i < k.len() ==> ci_eq(s[i], k[i])
}

/// The field that a (trimmed) key names, if any.
pub open spec fn field_of_key(k: Seq<char>) -> Option<Field> {
    if matches_ci(k, key_name(Field::Appropriateness)) {
        Some(Field::Appropriateness)
    } else if matches_ci(k, key_name(Field::Importance)) {
        Some(Field::Importance)
    } else if matches_ci(k, key_name(Field::Conciseness)) {
        Some(Field::Conciseness)
    } else if matches_ci(k, key_name(Field::Accuracy)) {
        Some(Field::Accuracy)
    } else if matches_ci(k, key_name(Field::Improvement1)) {
        Some(Field::Improvement1)
    } else if matches_ci(k, key_name(Field::Improvement2)) {
        Some(Field::Improvement2)
    } else if matches_ci(k, key_name(Field::Improvement3)) {
        Some(Field::Improvement3)
    } else if matches_ci(k, key_name(Field::Overall)) {
        Some(Field::Overall)
    } else {
        None
    }
}

/// The line with its leading blanks and one leading bullet glyph removed.
pub open spec fn strip_bullet(line: Seq<char>) -> Seq<char> {
    let t = trim_start(line);
    if t.len() > 0 && is_bullet(t[0]) {
        t.drop_first()
    } else {
        t
    }
}

/// `i` is the position of the first colon of `s`.
pub open spec fn first_colon_at(s: Seq<char>, i: int) -> bool {
    0 <= i < s.len() && is_colon(s[i]) && forall|j: int| 0 <= j < i ==> !is_colon(s[j])
}

/// The field that a line gives, with its trimmed value.
pub open spec fn classify(line: Seq<char>) -> Option<(Field, Seq<char>)> {
    let body = strip_bullet(line);
    if exists|i: int| first_colon_at(body, i) {
        let i = choose|i: int| first_colon_at(body, i);
        match field_of_key(trim(body.take(i))) {
            Some(f) => Some((f, trim(body.skip(i + 1)))),
            None => None,
        }
    } else {
        None
    }
}

/// Length of the run of ASCII digits that starts `s`.
pub open spec fn digit_run(s: Seq<char>) -> nat
    decreases s.len(),
{
    if s.len() > 0 && is_digit(s[0]) {
        1 + digit_run(s.drop_first())
    } else {
        0
    }
}

/// The number that a sequence of ASCII digits writes in decimal.
pub open spec fn digits_value(d: Seq<char>) -> int
    decreases d.len(),
{
    if d.len() == 0 {
        0
    } else {
        10 * digits_value(d.drop_last()) + (d.last() as u32 - '0' as u32)
    }
}

/// The value a field takes from its trimmed text, or `None` where the text is
/// not one the field accepts.
pub open spec fn interpret(f: Field, v: Seq<char>) -> Option<FieldValueView> {
    match f {
        Field::Appropriateness => if starts_ci(v, "yes"@) {
            Some(FieldValueView::Flag(true))
        } else if starts_ci(v, "no"@) {
            Some(FieldValueView::Flag(false))
        } else {
            None
        },
        Field::Overall => if starts_ci(v, "pass"@) {
            Some(FieldValueView::Flag(true))
        } else if starts_ci(v, "fail"@) {
            Some(FieldValueView::Flag(false))
        } else {
            None
        },
        Field::Importance | Field::Conciseness | Field::Accuracy => {
            let n = digits_value(v.take(digit_run(v) as int));
            if digit_run(v) > 0 && 1 <= n <= 5 {
                Some(FieldValueView::Score(n as u8))
            } else {
                None
            }
        },
        _ => Some(FieldValueView::Text(v)),
    }
}

/// Nothing read yet: one empty slot per field.
pub open spec fn empty_slots() -> Seq<Option<FieldValueView>> {
    Seq::new(8, |i: int| None)
}

/// Reads one line into the slots.
pub open spec fn step(slots: Seq<Option<FieldValueView>>, line: Seq<char>) -> Result<
    Seq<Option<FieldValueView>>,
    ParseErrorView,
> {
    match classify(line) {
        None => Ok(slots),
        Some((f, v)) => if slots[f.index()] is Some {
            Err(ParseErrorView::DuplicateField(f))
        } else {
            match interpret(f, v) {
                Some(x) => Ok(slots.update(f.index(), Some(x))),
                None => Err(ParseErrorView::InvalidValue(f, v)),
            }
        },
    }
}

/// Reads the lines in order, stopping at the first error.
pub open spec fn scan(lines: Seq<Seq<char>>) -> Result<Seq<Option<FieldValueView>>, ParseErrorView>
    decreases lines.len(),
{
    if lines.len() == 0 {
        Ok(empty_slots())
    } else {
        match scan(lines.drop_last()) {
            Ok(slots) => step(slots, lines.last()),
            Err(e) => Err(e),
        }
    }
}

/// The lines of a text: what lies between its newline characters.
pub open spec fn lines_of(s: Seq<char>) -> Seq<Seq<char>>
    decreases s.len(),
{
    if s.len() == 0 {
        seq![Seq::empty()]
    } else {
        let p = lines_of(s.drop_last());
        if s.last() == '\n' {
            p.push(Seq::empty())
        } else {
            p.update(p.len() - 1, p.last().push(s.last()))
        }
    }
}

pub open spec fn flag_of(o: Option<FieldValueView>) -> bool {
    match o {
        Some(FieldValueView::Flag(b)) => b,
        _ => false,
    }
}

pub open spec fn score_of(o: Option<FieldValueView>) -> u8 {
    match o {
        Some(FieldValueView::Score(n)) => n,
        _ => 0,
    }
}

pub open spec fn text_of(o: Option<FieldValueView>) -> Seq<char> {
    match o {
        Some(FieldValueView::Text(t)) => t,
        _ => Seq::empty(),
    }
}

/// The first field, from position `i` on in canonical order, whose slot is empty.
pub open spec fn first_missing_from(slots: Seq<Option<FieldValueView>>, i: int) -> Option<Field>
    decreases 8 - i,
{
    if i >= 8 {
        None
    } else if slots[i] is None {
        Some(field_at(i))
    } else {
        first_missing_from(slots, i + 1)
    }
}

/// The first field, in canonical order, whose slot is empty.
pub open spec fn first_missing(slots: Seq<Option<FieldValueView>>) -> Option<Field> {
    first_missing_from(slots, 0)
}

/// The evaluation once every line is read.
pub open spec fn finish(slots: Seq<Option<FieldValueView>>) -> Result<EvaluationView, ParseErrorView> {
    match first_missing(slots) {
        Some(f) => Err(ParseErrorView::MissingField(f)),
        None => Ok(
            EvaluationView {
                appropriate: flag_of(slots[0]),
                importance: score_of(slots[1]),
                conciseness: score_of(slots[2]),
                accuracy: score_of(slots[3]),
                improvement1: text_of(slots[4]),
                improvement2: text_of(slots[5]),
                improvement3: text_of(slots[6]),
                overall_passed: flag_of(slots[7]),
            },
        ),
    }
}

/// What reading the text `s` gives.
pub open spec fn parse_spec(s: Seq<char>) -> Result<EvaluationView, ParseErrorView> {
    match scan(lines_of(s)) {
        Ok(slots) => finish(slots),
        Err(e) => Err(e),
    }
}

fn space(c: char) -> (r: bool)
    ensures
        r == is_space(c),
{
    c == ' ' || c == '\t' || c == '\r' || c == '\n' || c == '\u{3000}'
}

fn bullet(c: char) -> (r: bool)
    ensures
        r == is_bullet(c),
{
    c == '-' || c == '\u{2022}' || c == '*' || c == '\u{30FB}' || c == '\u{2212}'
}

fn colon(c: char) -> (r: bool)
    ensures
        r == is_colon(c),
{
    c == ':' || c == '\u{FF1A}'
}

/// The characters of `text`, one by one.
pub(crate) fn chars_of(text: &str) -> (r: Vec<char>)
    ensures
        r@ == text@,
{
    let n = text.unicode_len();
    let mut r: Vec<char> = Vec::new();
    let mut i: usize = 0;
    while i < n
        invariant
            n == text@.len(),
            i <= n,
            r@ == text@.take(i as int),
        decreases n - i,
    {
        let c = text.get_char(i);
        r.push(c);
        i = i + 1;
        assert(r@ =~= text@.take(i as int));
    }
    assert(r@ =~= text@);
    r
}

proof fn lemma_trim_start_step(s: Seq<char>, lo: int, hi: int)
    requires
        0 <= lo < hi <= s.len(),
        is_space(s[lo]),
    ensures
        trim_start(s.subrange(lo, hi)) == trim_start(s.subrange(lo + 1, hi)),
{
    assert(s.subrange(lo, hi).drop_first() =~= s.subrange(lo + 1, hi));
}

proof fn lemma_trim_end_step(s: Seq<char>, lo: int, hi: int)
    requires
        0 <= lo < hi <= s.len(),
        is_space(s[hi - 1]),
    ensures
        trim_end(s.subrange(lo, hi)) == trim_end(s.subrange(lo, hi - 1)),
{
    assert(s.subrange(lo, hi).drop_last() =~= s.subrange(lo, hi - 1));
}

/// The position in `chars[lo..hi]` where its leading blanks end.
fn skip_spaces(chars: &Vec<char>, lo: usize, hi: usize) -> (a: usize)
    requires
        lo <= hi <= chars@.len(),
    ensures
        lo <= a <= hi,
        chars@.subrange(a as int, hi as int) == trim_start(chars@.subrange(lo as int, hi as int)),
{
    let mut a = lo;
    while a < hi && space(chars[a])
        invariant
            lo <= a <= hi <= chars@.len(),
            trim_start(chars@.subrange(lo as int, hi as int)) == trim_start(
                chars@.subrange(a as int, hi as int),
            ),
        decreases hi - a,
    {
        proof {
            lemma_trim_start_step(chars@, a as int, hi as int);
        }
        a = a + 1;
    }
    a
}

/// The bounds of `chars[lo..hi]` with its leading and trailing blanks removed.
fn trim_range(chars: &Vec<char>, lo: usize, hi: usize) -> (r: (usize, usize))
    requires
        lo <= hi <= chars@.len(),
    ensures
        lo <= r.0 <= r.1 <= hi,
        chars@.subrange(r.0 as int, r.1 as int) == trim(chars@.subrange(lo as int, hi as int)),
{
    let a = skip_spaces(chars, lo, hi);
    let mut b = hi;
    while b > a && space(chars[b - 1])
        invariant
            lo <= a <= b <= hi <= chars@.len(),
            trim_end(chars@.subrange(a as int, hi as int)) == trim_end(
                chars@.subrange(a as int, b as int),
            ),
        decreases b - a,
    {
        proof {
            lemma_trim_end_step(chars@, a as int, b as int);
        }
        b = b - 1;
    }
    (a, b)
}

fn char_ci_eq(c: char, k: char) -> (r: bool)
    ensures
        r == ci_eq(c, k),
{
    c == k || ('a' <= k && k <= 'z' && (c as u32) == (k as u32) - 32)
}

/// Whether `chars[a..b]` is the lower-case word `k`, up to ASCII case.
fn matches_word(chars: &Vec<char>, a: usize, b: usize, k: &str) -> (r: bool)
    requires
        a <= b <= chars@.len(),
    ensures
        r == matches_ci(chars@.subrange(a as int, b as int), k@),
{
    let n = k.unicode_len();
    if b - a != n {
        return false;
    }
    let mut i: usize = 0;
    while i < n
        invariant
            a <= b <= chars@.len(),
            b - a == n == k@.len(),
            i <= n,
            forall|j: int| 0 <= j < i ==> ci_eq(chars@[a + j], k@[j]),
        decreases n - i,
    {
        if !char_ci_eq(chars[a + i], k.get_char(i)) {
            assert(!ci_eq(chars@.subrange(a as int, b as int)[i as int], k@[i as int]));
            return false;
        }
        i = i + 1;
    }
    true
}

/// Whether `chars[a..b]` starts with the lower-case word `k`, up to ASCII case.
fn starts_with_word(chars: &Vec<char>, a: usize, b: usize, k: &str) -> (r: bool)
    requires
        a <= b <= chars@.len(),
    ensures
        r == starts_ci(chars@.subrange(a as int, b as int), k@),
{
    let n = k.unicode_len();
    if b - a < n {
        return false;
    }
    let mut i: usize = 0;
    while i < n
        invariant
            a <= b <= chars@.len(),
            n == k@.len(),
            n <= b - a,
            i <= n,
            forall|j: int| 0 <= j < i ==> ci_eq(chars@[a + j], k@[j]),
        decreases n - i,
    {
        if !char_ci_eq(chars[a + i], k.get_char(i)) {
            assert(!ci_eq(chars@.subrange(a as int, b as int)[i as int], k@[i as int]));
            return false;
        }
        i = i + 1;
    }
    true
}

/// The field that the key `chars[a..b]` names, if any.
fn field_for_key(chars: &Vec<char>, a: usize, b: usize) -> (r: Option<Field>)
    requires
        a <= b <= chars@.len(),
    ensures
        r == field_of_key(chars@.subrange(a as int, b as int)),
{
    if matches_word(chars, a, b, "appropriateness") {
        Some(Field::Appropriateness)
    } else if matches_word(chars, a, b, "importance") {
        Some(Field::Importance)
    } else if matches_word(chars, a, b, "conciseness") {
        Some(Field::Conciseness)
    } else if matches_word(chars, a, b, "accuracy") {
        Some(Field::Accuracy)
    } else if matches_word(chars, a, b, "improvement1") {
        Some(Field::Improvement1)
    } else if matches_word(chars, a, b, "improvement2") {
        Some(Field::Improvement2)
    } else if matches_word(chars, a, b, "improvement3") {
        Some(Field::Improvement3)
    } else if matches_word(chars, a, b, "overall") {
        Some(Field::Overall)
    } else {
        None
    }
}

/// A field named on a line, with the bounds of its value.
struct FieldSpan {
    field: Field,
    start: usize,
    end: usize,
}

/// The field that the line `chars[lo..hi]` gives, with the bounds of its
/// trimmed value.
fn classify_line(chars: &Vec<char>, lo: usize, hi: usize) -> (r: Option<FieldSpan>)
    requires
        lo <= hi <= chars@.len(),
    ensures
        match classify(chars@.subrange(lo as int, hi as int)) {
            None => r is None,
            Some((f, v)) => r is Some && r->0.field == f && lo <= r->0.start <= r->0.end <= hi
                && chars@.subrange(r->0.start as int, r->0.end as int) == v,
        },
{
    let ghost line = chars@.subrange(lo as int, hi as int);
    let t = skip_spaces(chars, lo, hi);
    let mut a = t;
    if a < hi && bullet(chars[a]) {
        a = a + 1;
        assert(chars@.subrange(t as int, hi as int).drop_first() =~= chars@.subrange(a as int, hi as int));
    }
    let ghost body = chars@.subrange(a as int, hi as int);
    assert(body == strip_bullet(line));
    let mut c = a;
    while c < hi && !colon(chars[c])
        invariant
            a <= c <= hi <= chars@.len(),
            body == chars@.subrange(a as int, hi as int),
            forall|j: int| a <= j < c ==> !is_colon(chars@[j]),
        decreases hi - c,
    {
        c = c + 1;
    }
    if c == hi {
        assert forall|i: int| !first_colon_at(body, i) by {
            if 0 <= i < body.len() {
                assert(body[i] == chars@[a + i]);
            }
        }
        return None;
    }
    let ghost i = (c - a) as int;
    assert(first_colon_at(body, i));
    let ghost k = choose|k: int| first_colon_at(body, k);
    assert(k == i) by {
        if k < i {
            assert(body[k] == chars@[a + k]);
        }
        if k > i {
            assert(!is_colon(body[i]));
        }
    }
    assert(body.take(i) =~= chars@.subrange(a as int, c as int));
    assert(body.skip(i + 1) =~= chars@.subrange(c + 1, hi as int));
    let (ka, kb) = trim_range(chars, a, c);
    match field_for_key(chars, ka, kb) {
        Some(f) => {
            let (va, vb) = trim_range(chars, c + 1, hi);
            Some(FieldSpan { field: f, start: va, end: vb })
        },
        None => None,
    }
}

proof fn lemma_digits_value_step(s: Seq<char>, a: int, i: int)
    requires
        0 <= a <= i < s.len(),
    ensures
        digits_value(s.subrange(a, i + 1)) == 10 * digits_value(s.subrange(a, i)) + (s[i] as u32
            - '0' as u32),
{
    assert(s.subrange(a, i + 1).drop_last() =~= s.subrange(a, i));
}

proof fn lemma_digit_run_step(s: Seq<char>, i: int, b: int)
    requires
        0 <= i < b <= s.len(),
        is_digit(s[i]),
    ensures
        digit_run(s.subrange(i, b)) == 1 + digit_run(s.subrange(i + 1, b)),
{
    assert(s.subrange(i, b).drop_first() =~= s.subrange(i + 1, b));
}

/// The score that `chars[a..b]` gives: its leading digits, where they write a
/// number from 1 to 5.
fn read_score(chars: &Vec<char>, a: usize, b: usize) -> (r: Option<u8>)
    requires
        a <= b <= chars@.len(),
    ensures
        ({
            let v = chars@.subrange(a as int, b as int);
            let n = digits_value(v.take(digit_run(v) as int));
            r == if digit_run(v) > 0 && 1 <= n <= 5 {
                Some(n as u8)
            } else {
                None::<u8>
            }
        }),
{
    let ghost v = chars@.subrange(a as int, b as int);
    let mut i = a;
    let mut acc: u8 = 0;
    while i < b && '0' <= chars[i] && chars[i] <= '9'
        invariant
            a <= i <= b <= chars@.len(),
            v == chars@.subrange(a as int, b as int),
            digit_run(v) == (i - a) + digit_run(chars@.subrange(i as int, b as int)),
            acc <= 6,
            acc < 6 ==> acc == digits_value(chars@.subrange(a as int, i as int)),
            acc == 6 ==> digits_value(chars@.subrange(a as int, i as int)) >= 6,
        decreases b - i,
    {
        proof {
            lemma_digit_run_step(chars@, i as int, b as int);
            lemma_digits_value_step(chars@, a as int, i as int);
        }
        let d = ((chars[i] as u32) - ('0' as u32)) as u8;
        if acc < 6 {
            let x = acc * 10 + d;
            acc = if x > 6 {
                6
            } else {
                x
            };
        }
        i = i + 1;
    }
    assert(v.take(digit_run(v) as int) =~= chars@.subrange(a as int, i as int));
    if i > a && 1 <= acc && acc <= 5 {
        Some(acc)
    } else {
        None
    }
}

/// The value that field `f` takes from the text `chars[a..b]`, which is also
/// `text[a..b]`.
fn read_value(text: &str, chars: &Vec<char>, f: Field, a: usize, b: usize) -> (r: Option<
    FieldValue,
>)
    requires
        chars@ == text@,
        a <= b <= chars@.len(),
    ensures
        match r {
            Some(x) => interpret(f, chars@.subrange(a as int, b as int)) == Some(x@),
            None => interpret(f, chars@.subrange(a as int, b as int)) is None,
        },
{
    match f {
        Field::Appropriateness => if starts_with_word(chars, a, b, "yes") {
            Some(FieldValue::Flag(true))
        } else if starts_with_word(chars, a, b, "no") {
            Some(FieldValue::Flag(false))
        } else {
            None
        },
        Field::Overall => if starts_with_word(chars, a, b, "pass") {
            Some(FieldValue::Flag(true))
        } else if starts_with_word(chars, a, b, "fail") {
            Some(FieldValue::Flag(false))
        } else {
            None
        },
        Field::Importance | Field::Conciseness | Field::Accuracy => match read_score(chars, a, b) {
            Some(n) => Some(FieldValue::Score(n)),
            None => None,
        },
        _ => Some(FieldValue::Text(String::from_str(text.substring_char(a, b)))),
    }
}

pub open spec fn slots_view(slots: Seq<Option<FieldValue>>) -> Seq<Option<FieldValueView>> {
    slots.map_values(
        |o: Option<FieldValue>|
            match o {
                Some(x) => Some(x@),
                None => None,
            },
    )
}

fn index_of(f: Field) -> (i: usize)
    ensures
        i == f.index(),
{
    match f {
        Field::Appropriateness => 0,
        Field::Importance => 1,
        Field::Conciseness => 2,
        Field::Accuracy => 3,
        Field::Improvement1 => 4,
        Field::Improvement2 => 5,
        Field::Improvement3 => 6,
        Field::Overall => 7,
    }
}

fn field_from_index(i: usize) -> (f: Field)
    requires
        i < 8,
    ensures
        f == field_at(i as int),
        f.index() == i,
{
    if i == 0 {
        Field::Appropriateness
    } else if i == 1 {
        Field::Importance
    } else if i == 2 {
        Field::Conciseness
    } else if i == 3 {
        Field::Accuracy
    } else if i == 4 {
        Field::Improvement1
    } else if i == 5 {
        Field::Improvement2
    } else if i == 6 {
        Field::Improvement3
    } else {
        Field::Overall
    }
}

/// Reads the line `chars[lo..hi]` into the slots.
fn read_line(
    text: &str,
    chars: &Vec<char>,
    slots: &mut Vec<Option<FieldValue>>,
    lo: usize,
    hi: usize,
) -> (r: Result<(), ParseError>)
    requires
        chars@ == text@,
        lo <= hi <= chars@.len(),
        old(slots)@.len() == 8,
    ensures
        final(slots)@.len() == 8,
        match step(slots_view(old(slots)@), chars@.subrange(lo as int, hi as int)) {
            Ok(next) => r is Ok && slots_view(final(slots)@) == next,
            Err(e) => r is Err && r->Err_0@ == e,
        },
{
    match classify_line(chars, lo, hi) {
        None => Ok(()),
        Some(span) => {
            let f = span.field;
            let a = span.start;
            let b = span.end;
            let i = index_of(f);
            if slots[i].is_some() {
                return Err(ParseError::DuplicateField(f));
            }
            match read_value(text, chars, f, a, b) {
                Some(x) => {
                    let ghost before = slots@;
                    slots.set(i, Some(x));
                    assert(slots_view(slots@) =~= slots_view(before).update(
                        f.index(),
                        Some(x@),
                    ));
                    Ok(())
                },
                None => Err(
                    ParseError::InvalidValue(f, String::from_str(text.substring_char(a, b))),
                ),
            }
        },
    }
}

fn slot_flag(o: &Option<FieldValue>) -> (r: bool)
    ensures
        r == flag_of(match o {
            Some(x) => Some(x@),
            None => None,
        }),
{
    match o {
        Some(FieldValue::Flag(b)) => *b,
        _ => false,
    }
}

fn slot_score(o: &Option<FieldValue>) -> (r: u8)
    ensures
        r == score_of(match o {
            Some(x) => Some(x@),
            None => None,
        }),
{
    match o {
        Some(FieldValue::Score(n)) => *n,
        _ => 0,
    }
}

fn slot_text(o: &Option<FieldValue>) -> (r: String)
    ensures
        r@ == text_of(match o {
            Some(x) => Some(x@),
            None => None,
        }),
{
    match o {
        Some(FieldValue::Text(t)) => t.clone(),
        _ => String::new(),
    }
}

/// The evaluation that the read slots make, or the first missing field.
fn finish_slots(slots: &Vec<Option<FieldValue>>) -> (r: Result<EvaluationScores, ParseError>)
    requires
        slots@.len() == 8,
    ensures
        match finish(slots_view(slots@)) {
            Ok(m) => r is Ok && r->Ok_0@ == m,
            Err(e) => r is Err && r->Err_0@ == e,
        },
{
    let ghost view = slots_view(slots@);
    let mut i: usize = 0;
    while i < 8
        invariant
            slots@.len() == 8,
            view == slots_view(slots@),
            i <= 8,
            first_missing(view) == first_missing_from(view, i as int),
        decreases 8 - i,
    {
        if slots[i].is_none() {
            return Err(ParseError::MissingField(field_from_index(i)));
        }
        i = i + 1;
    }
    Ok(
        EvaluationScores {
            appropriate: slot_flag(&slots[0]),
            importance: slot_score(&slots[1]),
            conciseness: slot_score(&slots[2]),
            accuracy: slot_score(&slots[3]),
            improvement1: slot_text(&slots[4]),
            improvement2: slot_text(&slots[5]),
            improvement3: slot_text(&slots[6]),
            overall_passed: slot_flag(&slots[7]),
        },
    )
}

/// Reads an evaluation from `text`.
///
/// Every line is read in order and the first duplicate field or unacceptable
/// value is reported; after the last line, the first field (in canonical
/// order) that no line gave is reported as missing.
pub fn parse_evaluation(text: &str) -> (r: Result<EvaluationScores, ParseError>)
    ensures
        match parse_spec(text@) {
            Ok(m) => r is Ok && r->Ok_0@ == m,
            Err(e) => r is Err && r->Err_0@ == e,
        },
{
    let chars = chars_of(text);
    let n = chars.len();
    let mut slots: Vec<Option<FieldValue>> = vec![None, None, None, None, None, None, None, None];
    assert(slots_view(slots@) =~= empty_slots());
    let mut start: usize = 0;
    let mut i: usize = 0;
    let ghost mut done: Seq<Seq<char>> = Seq::empty();
    let mut failure: Option<ParseError> = None;
    assert(chars@.take(0) =~= Seq::<char>::empty());
    assert(lines_of(chars@.take(0)) =~= done.push(chars@.subrange(0, 0)));
    while i < n
        invariant
            n == chars@.len(),
            chars@ == text@,
            start <= i <= n,
            slots@.len() == 8,
            lines_of(chars@.take(i as int)) == done.push(chars@.subrange(start as int, i as int)),
            scan(done) == match failure {
                None => Ok::<_, ParseErrorView>(slots_view(slots@)),
                Some(e) => Err(e@),
            },
        decreases n - i,
    {
        assert(chars@.take(i + 1).drop_last() =~= chars@.take(i as int));
        if chars[i] == '\n' {
            let ghost line = chars@.subrange(start as int, i as int);
            assert(done.push(line).drop_last() =~= done);
            if failure.is_none() {
                match read_line(text, &chars, &mut slots, start, i) {
                    Ok(()) => {},
                    Err(e) => {
                        failure = Some(e);
                    },
                }
            }
            proof {
                done = done.push(line);
            }
            start = i + 1;
            assert(chars@.subrange(start as int, i + 1) =~= Seq::<char>::empty());
        } else {
            assert(chars@.subrange(start as int, i + 1) =~= chars@.subrange(
                start as int,
                i as int,
            ).push(chars@[i as int]));
        }
        i = i + 1;
    }
    let ghost line = chars@.subrange(start as int, n as int);
    assert(chars@.take(n as int) =~= chars@);
    assert(done.push(line).drop_last() =~= done);
    if let Some(e) = failure {
        return Err(e);
    }
    match read_line(text, &chars, &mut slots, start, n) {
        Ok(()) => {},
        Err(e) => {
            return Err(e);
        },
    }
    finish_slots(&slots)
}

/// The text in which the formatter writes field `f` of `m`.
pub open spec fn value_text(m: EvaluationView, f: Field) -> Seq<char> {
    match f {
        Field::Appropriateness => if m.appropriate {
            "yes"@
        } else {
            "no"@
        },
        Field::Importance => score_text(m.importance),
        Field::Conciseness => score_text(m.conciseness),
        Field::Accuracy => score_text(m.accuracy),
        Field::Improvement1 => m.improvement1,
        Field::Improvement2 => m.improvement2,
        Field::Improvement3 => m.improvement3,
        Field::Overall => if m.overall_passed {
            "pass"@
        } else {
            "fail"@
        },
    }
}

pub open spec fn score_text(n: u8) -> Seq<char> {
    if n == 1 {
        "1"@
    } else if n == 2 {
        "2"@
    } else if n == 3 {
        "3"@
    } else if n == 4 {
        "4"@
    } else {
        "5"@
    }
}

/// The line that gives field `f` of `m` behind the glyph `bullet`.
pub open spec fn field_line(bullet: char, f: Field, m: EvaluationView) -> Seq<char> {
    seq![bullet, ' '] + key_name(f) + ": "@ + value_text(m, f)
}

/// The lines, each followed by a newline character.
pub open spec fn join_lines(ls: Seq<Seq<char>>) -> Seq<char>
    decreases ls.len(),
{
    if ls.len() == 0 {
        Seq::empty()
    } else {
        join_lines(ls.drop_last()) + ls.last() + "\n"@
    }
}

/// The canonical rendering: one `- key: value` line per field, in canonical order.
pub open spec fn format_spec(m: EvaluationView) -> Seq<char> {
    join_lines(Seq::new(8, |i: int| field_line('-', field_at(i), m)))
}

/// A text value that the parser reads back as it is: one line, no blanks at its ends.
pub open spec fn valid_text(t: Seq<char>) -> bool {
    trim(t) == t && forall|i: int| 0 <= i < t.len() ==> t[i] != '\n'
}

/// An evaluation that the formatter can write and the parser read back.
pub open spec fn valid_evaluation(m: EvaluationView) -> bool {
    &&& 1 <= m.importance <= 5
    &&& 1 <= m.conciseness <= 5
    &&& 1 <= m.accuracy <= 5
    &&& valid_text(m.improvement1)
    &&& valid_text(m.improvement2)
    &&& valid_text(m.improvement3)
}

fn key_text(f: Field) -> (r: &'static str)
    ensures
        r@ == key_name(f),
{
    match f {
        Field::Appropriateness => "appropriateness",
        Field::Importance => "importance",
        Field::Conciseness => "conciseness",
        Field::Accuracy => "accuracy",
        Field::Improvement1 => "improvement1",
        Field::Improvement2 => "improvement2",
        Field::Improvement3 => "improvement3",
        Field::Overall => "overall",
    }
}

fn score_str(n: u8) -> (r: &'static str)
    ensures
        r@ == score_text(n),
{
    if n == 1 {
        "1"
    } else if n == 2 {
        "2"
    } else if n == 3 {
        "3"
    } else if n == 4 {
        "4"
    } else {
        "5"
    }
}

fn value_str<'a>(e: &'a EvaluationScores, f: Field) -> (r: &'a str)
    ensures
        r@ == value_text(e@, f),
{
    match f {
        Field::Appropriateness => if e.appropriate {
            "yes"
        } else {
            "no"
        },
        Field::Importance => score_str(e.importance),
        Field::Conciseness => score_str(e.conciseness),
        Field::Accuracy => score_str(e.accuracy),
        Field::Improvement1 => e.improvement1.as_str(),
        Field::Improvement2 => e.improvement2.as_str(),
        Field::Improvement3 => e.improvement3.as_str(),
        Field::Overall => if e.overall_passed {
            "pass"
        } else {
            "fail"
        },
    }
}

/// Writes `e` as one `- key: value` line per field, in canonical order.
pub fn format_evaluation(e: &EvaluationScores) -> (r: String)
    ensures
        r@ == format_spec(e@),
{
    let ghost lines = Seq::new(8, |i: int| field_line('-', field_at(i), e@));
    let mut out = String::new();
    let mut i: usize = 0;
    proof {
        reveal_strlit("- ");
    }
    assert(lines.take(0) =~= Seq::<Seq<char>>::empty());
    while i < 8
        invariant
            i <= 8,
            lines == Seq::new(8, |i: int| field_line('-', field_at(i), e@)),
            out@ == join_lines(lines.take(i as int)),
            "- "@ == seq!['-', ' '],
        decreases 8 - i,
    {
        let f = field_from_index(i);
        let ghost before = out@;
        out.append("- ");
        out.append(key_text(f));
        out.append(": ");
        out.append(value_str(e, f));
        out.append("\n");
        assert(lines.take(i + 1).drop_last() =~= lines.take(i as int));
        assert(out@ =~= before + lines[i as int] + "\n"@);
        i = i + 1;
    }
    assert(lines.take(8) =~= lines);
    out
}

pub open spec fn is_key_char(c: char) -> bool {
    ('a' <= c && c <= 'z') || ('0' <= c && c <= '9')
}

/// What the parser reads for field `f` from the text that the formatter writes.
pub open spec fn expected_value(m: EvaluationView, f: Field) -> FieldValueView {
    match f {
        Field::Appropriateness => FieldValueView::Flag(m.appropriate),
        Field::Importance => FieldValueView::Score(m.importance),
        Field::Conciseness => FieldValueView::Score(m.conciseness),
        Field::Accuracy => FieldValueView::Score(m.accuracy),
        Field::Improvement1 => FieldValueView::Text(m.improvement1),
        Field::Improvement2 => FieldValueView::Text(m.improvement2),
        Field::Improvement3 => FieldValueView::Text(m.improvement3),
        Field::Overall => FieldValueView::Flag(m.overall_passed),
    }
}

/// The lines that give each field of `order`, in that order, behind the glyph
/// of the same position in `bullets`.
pub open spec fn lines_for(order: Seq<Field>, bullets: Seq<char>, m: EvaluationView) -> Seq<
    Seq<char>,
> {
    Seq::new(order.len(), |i: int| field_line(bullets[i], order[i], m))
}

/// The slots once the fields of `order` are read from the lines that give them.
pub open spec fn slots_for(order: Seq<Field>, m: EvaluationView) -> Seq<Option<FieldValueView>> {
    Seq::new(
        8,
        |j: int|
            if order.contains(field_at(j)) {
                Some(expected_value(m, field_at(j)))
            } else {
                None
            },
    )
}

proof fn lemma_field_index(f: Field)
    ensures
        0 <= f.index() < 8,
        field_at(f.index()) == f,
{
}

proof fn lemma_field_at(j: int)
    requires
        0 <= j < 8,
    ensures
        field_at(j).index() == j,
{
}

/// Every key is a non-empty word of lower-case ASCII letters and digits.
proof fn lemma_key_chars(f: Field)
    ensures
        key_name(f).len() > 0,
        forall|j: int| 0 <= j < key_name(f).len() ==> is_key_char(#[trigger] key_name(f)[j]),
{
    reveal_strlit("appropriateness");
    reveal_strlit("importance");
    reveal_strlit("conciseness");
    reveal_strlit("accuracy");
    reveal_strlit("improvement1");
    reveal_strlit("improvement2");
    reveal_strlit("improvement3");
    reveal_strlit("overall");
}

/// Each key names its own field.
proof fn lemma_field_of_key(f: Field)
    ensures
        field_of_key(key_name(f)) == Some(f),
{
    reveal_strlit("appropriateness");
    reveal_strlit("importance");
    reveal_strlit("conciseness");
    reveal_strlit("accuracy");
    reveal_strlit("improvement1");
    reveal_strlit("improvement2");
    reveal_strlit("improvement3");
    reveal_strlit("overall");
    let k = key_name(f);
    assert(matches_ci(k, k));
    if f == Field::Improvement2 || f == Field::Improvement3 {
        assert(!ci_eq(k[11], key_name(Field::Improvement1)[11]));
    }
    if f == Field::Improvement3 {
        assert(!ci_eq(k[11], key_name(Field::Improvement2)[11]));
    }
}

/// The formatter writes each value as a text that the parser reads back as it is.
proof fn lemma_value_text(m: EvaluationView, f: Field)
    requires
        valid_evaluation(m),
    ensures
        valid_text(value_text(m, f)),
        interpret(f, value_text(m, f)) == Some(expected_value(m, f)),
{
    reveal_strlit("yes");
    reveal_strlit("no");
    reveal_strlit("pass");
    reveal_strlit("fail");
    reveal_strlit("1");
    reveal_strlit("2");
    reveal_strlit("3");
    reveal_strlit("4");
    reveal_strlit("5");
    let v = value_text(m, f);
    match f {
        Field::Importance | Field::Conciseness | Field::Accuracy => {
            let n = if f == Field::Importance {
                m.importance
            } else if f == Field::Conciseness {
                m.conciseness
            } else {
                m.accuracy
            };
            assert(v == score_text(n));
            assert(v.len() == 1);
            assert(v.drop_first().len() == 0);
            assert(v.drop_last().len() == 0);
            assert(digit_run(v.drop_first()) == 0);
            assert(digit_run(v) == 1);
            assert(v.take(1) =~= v);
            assert(digits_value(v.drop_last()) == 0);
            assert(trim_start(v) == v);
            assert(trim_end(v) == v);
        },
        Field::Appropriateness | Field::Overall => {
            assert(trim_start(v) == v);
            assert(trim_end(v) == v);
            if f == Field::Appropriateness && !m.appropriate {
                assert(!starts_ci(v, "yes"@));
            }
            if f == Field::Overall && !m.overall_passed {
                assert(!ci_eq(v[0], "pass"@[0]));
                assert(!starts_ci(v, "pass"@));
            }
        },
        _ => {},
    }
}

proof fn lemma_lines_of_len(s: Seq<char>)
    ensures
        lines_of(s).len() >= 1,
    decreases s.len(),
{
    if s.len() > 0 {
        lemma_lines_of_len(s.drop_last());
    }
}

/// Appending text without a newline extends the last line.
proof fn lemma_lines_of_append(p: Seq<char>, q: Seq<char>)
    requires
        forall|j: int| 0 <= j < q.len() ==> q[j] != '\n',
    ensures
        lines_of(p + q) == lines_of(p).update(lines_of(p).len() - 1, lines_of(p).last() + q),
    decreases q.len(),
{
    lemma_lines_of_len(p);
    if q.len() == 0 {
        assert(p + q =~= p);
        assert(lines_of(p).last() + q =~= lines_of(p).last());
        assert(lines_of(p).update(lines_of(p).len() - 1, lines_of(p).last() + q) =~= lines_of(p));
    } else {
        let q0 = q.drop_last();
        lemma_lines_of_append(p, q0);
        assert((p + q).drop_last() =~= p + q0);
        assert((p + q).last() == q.last());
        assert((lines_of(p).last() + q0).push(q.last()) =~= lines_of(p).last() + q);
        assert(lines_of(p + q) =~= lines_of(p).update(
            lines_of(p).len() - 1,
            lines_of(p).last() + q,
        ));
    }
}

/// The lines of joined lines are those lines, and the empty one after the
/// last newline.
proof fn lemma_lines_of_join(ls: Seq<Seq<char>>)
    requires
        forall|k: int, j: int| 0 <= k < ls.len() && 0 <= j < ls[k].len() ==> ls[k][j] != '\n',
    ensures
        lines_of(join_lines(ls)) == ls.push(Seq::empty()),
    decreases ls.len(),
{
    reveal_strlit("\n");
    if ls.len() == 0 {
        assert(lines_of(Seq::empty()) =~= ls.push(Seq::empty()));
    } else {
        let init = ls.drop_last();
        assert forall|k: int, j: int| 0 <= k < init.len() && 0 <= j < init[k].len() implies init[k][j]
            != '\n' by {
            assert(init[k] == ls[k]);
        }
        lemma_lines_of_join(init);
        let p = join_lines(init);
        let last = ls.last();
        assert forall|j: int| 0 <= j < last.len() implies last[j] != '\n' by {
            assert(ls[ls.len() - 1] == last);
        }
        lemma_lines_of_append(p, last);
        let x = p + last;
        assert(lines_of(x) =~= ls);
        assert(join_lines(ls) =~= x.push('\n'));
        assert(x.push('\n').drop_last() =~= x);
    }
}

/// A line that the formatter writes, behind any bullet glyph, gives its field
/// and the field's value text.
proof fn lemma_classify_field_line(g: char, f: Field, m: EvaluationView)
    requires
        is_bullet(g),
        valid_evaluation(m),
    ensures
        classify(field_line(g, f, m)) == Some((f, value_text(m, f))),
        forall|j: int| 0 <= j < field_line(g, f, m).len() ==> field_line(g, f, m)[j] != '\n',
{
    reveal_strlit(": ");
    let k = key_name(f);
    let v = value_text(m, f);
    lemma_key_chars(f);
    lemma_value_text(m, f);
    lemma_field_of_key(f);
    let line = field_line(g, f, m);
    assert(line =~= seq![g, ' '] + k + seq![':', ' '] + v);
    assert(trim_start(line) == line);
    let body = line.drop_first();
    assert(strip_bullet(line) == body);
    assert(body =~= seq![' '] + k + seq![':', ' '] + v);
    let i: int = 1 + k.len() as int;
    assert forall|j: int| 0 <= j < i implies !is_colon(#[trigger] body[j]) by {
        if j > 0 {
            assert(body[j] == k[j - 1]);
            assert(is_key_char(k[j - 1]));
        }
    }
    assert(first_colon_at(body, i));
    let c = choose|c: int| first_colon_at(body, c);
    assert(c == i) by {
        if c < i {
            assert(!is_colon(body[c]));
        }
        if c > i {
            assert(!is_colon(body[i]));
        }
    }
    assert(body.take(i) =~= seq![' '] + k);
    assert((seq![' '] + k).drop_first() =~= k);
    assert(is_key_char(k[0]));
    assert(trim_start(k) == k);
    assert(is_key_char(k.last()));
    assert(trim_end(k) == k);
    assert(trim(body.take(i)) == k);
    assert(body.skip(i + 1) =~= seq![' '] + v);
    assert((seq![' '] + v).drop_first() =~= v);
    assert(trim(body.skip(i + 1)) == trim(v));
    assert forall|j: int| 0 <= j < line.len() implies line[j] != '\n' by {
        if 2 <= j < 2 + k.len() {
            assert(line[j] == k[j - 2]);
            assert(is_key_char(k[j - 2]));
        } else if j >= 4 + k.len() {
            assert(line[j] == v[j - 4 - k.len()]);
        }
    }
}

proof fn lemma_scan_lines(order: Seq<Field>, bullets: Seq<char>, m: EvaluationView, k: int)
    requires
        valid_evaluation(m),
        bullets.len() == order.len(),
        forall|i: int| 0 <= i < bullets.len() ==> is_bullet(#[trigger] bullets[i]),
        forall|i: int, j: int| 0 <= i < j < order.len() ==> order[i] != order[j],
        0 <= k <= order.len(),
    ensures
        scan(lines_for(order, bullets, m).take(k)) == Ok::<_, ParseErrorView>(
            slots_for(order.take(k), m),
        ),
    decreases k,
{
    let lines = lines_for(order, bullets, m);
    if k == 0 {
        assert(lines.take(0) =~= Seq::<Seq<char>>::empty());
        assert(slots_for(order.take(0), m) =~= empty_slots());
    } else {
        lemma_scan_lines(order, bullets, m, k - 1);
        let f = order[k - 1];
        assert(lines.take(k).drop_last() =~= lines.take(k - 1));
        assert(lines.take(k).last() == field_line(bullets[k - 1], f, m));
        lemma_classify_field_line(bullets[k - 1], f, m);
        lemma_value_text(m, f);
        lemma_field_index(f);
        let before = slots_for(order.take(k - 1), m);
        assert(!order.take(k - 1).contains(f)) by {
            if order.take(k - 1).contains(f) {
                let i = choose|i: int| 0 <= i < k - 1 && #[trigger] order.take(k - 1)[i] == f;
                assert(order[i] == order[k - 1]);
            }
        }
        assert(before[f.index()] is None);
        let after = slots_for(order.take(k), m);
        assert forall|j: int| 0 <= j < 8 implies #[trigger] after[j] == before.update(
            f.index(),
            Some(expected_value(m, f)),
        )[j] by {
            lemma_field_at(j);
            if order.take(k).contains(field_at(j)) {
                let i = choose|i: int| 0 <= i < k && #[trigger] order.take(k)[i] == field_at(j);
                if i < k - 1 {
                    assert(order.take(k - 1)[i] == field_at(j));
                }
            }
            if order.take(k - 1).contains(field_at(j)) {
                let i = choose|i: int| 0 <= i < k - 1 && #[trigger] order.take(k - 1)[i] == field_at(j);
                assert(order.take(k)[i] == field_at(j));
            }
            if j == f.index() {
                assert(order.take(k)[k - 1] == f);
            }
        }
        assert(after =~= before.update(f.index(), Some(expected_value(m, f))));
    }
}

/// Whatever the order of the field lines and whichever bullet glyphs stand in
/// front of them, reading the lines of a valid evaluation gives it back.
pub proof fn lemma_parse_any_order(m: EvaluationView, order: Seq<Field>, bullets: Seq<char>)
    requires
        valid_evaluation(m),
        bullets.len() == order.len(),
        forall|i: int| 0 <= i < bullets.len() ==> is_bullet(#[trigger] bullets[i]),
        forall|i: int, j: int| 0 <= i < j < order.len() ==> order[i] != order[j],
        forall|f: Field| order.contains(f),
    ensures
        parse_spec(join_lines(lines_for(order, bullets, m))) == Ok::<_, ParseErrorView>(m),
{
    let lines = lines_for(order, bullets, m);
    assert forall|k: int, j: int| 0 <= k < lines.len() && 0 <= j < lines[k].len() implies lines[k][j]
        != '\n' by {
        lemma_classify_field_line(bullets[k], order[k], m);
    }
    lemma_lines_of_join(lines);
    lemma_scan_lines(order, bullets, m, order.len() as int);
    assert(lines.take(order.len() as int) =~= lines);
    assert(order.take(order.len() as int) =~= order);
    let all = lines.push(Seq::empty());
    assert(all.drop_last() =~= lines);
    let e = Seq::<char>::empty();
    assert(trim_start(e) == e);
    assert(strip_bullet(e) == e);
    assert(classify(e) is None);
    let slots = slots_for(order, m);
    assert forall|j: int| 0 <= j < 8 implies #[trigger] slots[j] == Some(
        expected_value(m, field_at(j)),
    ) by {
        assert(order.contains(field_at(j)));
    }
    assert(first_missing_from(slots, 8) is None);
    assert(first_missing_from(slots, 7) is None);
    assert(first_missing_from(slots, 6) is None);
    assert(first_missing_from(slots, 5) is None);
    assert(first_missing_from(slots, 4) is None);
    assert(first_missing_from(slots, 3) is None);
    assert(first_missing_from(slots, 2) is None);
    assert(first_missing_from(slots, 1) is None);
    assert(first_missing(slots) is None);
}

/// Reading what the formatter writes gives back the evaluation.
pub proof fn lemma_format_round_trip(m: EvaluationView)
    requires
        valid_evaluation(m),
    ensures
        parse_spec(format_spec(m)) == Ok::<_, ParseErrorView>(m),
{
    let order = Seq::new(8, |i: int| field_at(i));
    let bullets = Seq::new(8, |i: int| '-');
    assert(lines_for(order, bullets, m) =~= Seq::new(8, |i: int| field_line('-', field_at(i), m)));
    assert forall|i: int, j: int| 0 <= i < j < order.len() implies order[i] != order[j] by {
        lemma_field_at(i);
        lemma_field_at(j);
    }
    assert forall|f: Field| order.contains(f) by {
        lemma_field_index(f);
        assert(order[f.index()] == f);
    }
    lemma_parse_any_order(m, order, bullets);
}


proof fn lemma_first_missing_is(slots: Seq<Option<FieldValueView>>, f: Field, i: int)
    requires
        0 <= i <= f.index(),
        forall|j: int| 0 <= j < f.index() ==> (#[trigger] slots[j]) is Some,
        slots[f.index()] is None,
    ensures
        first_missing_from(slots, i) == Some(f),
    decreases f.index() - i,
{
    lemma_field_index(f);
    if i < f.index() {
        lemma_first_missing_is(slots, f, i + 1);
    }
}

/// Where the lines give every field but `f`, each once, in any order and
/// behind any bullet glyphs, reading them reports `f` as missing.
pub proof fn lemma_absent_field_missing(
    m: EvaluationView,
    order: Seq<Field>,
    bullets: Seq<char>,
    f: Field,
)
    requires
        valid_evaluation(m),
        bullets.len() == order.len(),
        forall|i: int| 0 <= i < bullets.len() ==> is_bullet(#[trigger] bullets[i]),
        forall|i: int, j: int| 0 <= i < j < order.len() ==> order[i] != order[j],
        forall|g: Field| order.contains(g) <==> g != f,
    ensures
        parse_spec(join_lines(lines_for(order, bullets, m))) == Err::<EvaluationView, _>(
            ParseErrorView::MissingField(f),
        ),
{
    let lines = lines_for(order, bullets, m);
    assert forall|k: int, j: int| 0 <= k < lines.len() && 0 <= j < lines[k].len() implies lines[k][j]
        != '\n' by {
        lemma_classify_field_line(bullets[k], order[k], m);
    }
    lemma_lines_of_join(lines);
    lemma_scan_lines(order, bullets, m, order.len() as int);
    assert(lines.take(order.len() as int) =~= lines);
    assert(order.take(order.len() as int) =~= order);
    let all = lines.push(Seq::empty());
    assert(all.drop_last() =~= lines);
    let e = Seq::<char>::empty();
    assert(trim_start(e) == e);
    assert(strip_bullet(e) == e);
    assert(classify(e) is None);
    let slots = slots_for(order, m);
    lemma_field_index(f);
    assert forall|j: int| 0 <= j < f.index() implies (#[trigger] slots[j]) is Some by {
        lemma_field_at(j);
        assert(order.contains(field_at(j)));
    }
    assert(!order.contains(f));
    lemma_first_missing_is(slots, f, 0);
}

/// Where the lines give fields each once and then one of them, `f`, again,
/// reading them reports `f` as given twice.
pub proof fn lemma_repeated_field_duplicate(
    m: EvaluationView,
    order: Seq<Field>,
    bullets: Seq<char>,
    f: Field,
    again: EvaluationView,
    g: char,
)
    requires
        valid_evaluation(m),
        valid_evaluation(again),
        bullets.len() == order.len(),
        forall|i: int| 0 <= i < bullets.len() ==> is_bullet(#[trigger] bullets[i]),
        is_bullet(g),
        forall|i: int, j: int| 0 <= i < j < order.len() ==> order[i] != order[j],
        order.contains(f),
    ensures
        parse_spec(join_lines(lines_for(order, bullets, m).push(field_line(g, f, again)))) == Err::<
            EvaluationView,
            _,
        >(ParseErrorView::DuplicateField(f)),
{
    let first = lines_for(order, bullets, m);
    let lines = first.push(field_line(g, f, again));
    lemma_classify_field_line(g, f, again);
    assert forall|k: int, j: int| 0 <= k < lines.len() && 0 <= j < lines[k].len() implies lines[k][j]
        != '\n' by {
        if k < first.len() {
            lemma_classify_field_line(bullets[k], order[k], m);
        }
    }
    lemma_lines_of_join(lines);
    lemma_scan_lines(order, bullets, m, order.len() as int);
    assert(first.take(order.len() as int) =~= first);
    assert(order.take(order.len() as int) =~= order);
    assert(lines.drop_last() =~= first);
    lemma_field_index(f);
    let slots = slots_for(order, m);
    assert(slots[f.index()] is Some);
    let dup = Err::<Seq<Option<FieldValueView>>, _>(ParseErrorView::DuplicateField(f));
    assert(scan(first) == Ok::<_, ParseErrorView>(slots));
    assert(lines.last() == field_line(g, f, again));
    assert(step(slots, field_line(g, f, again)) == dup);
    assert(scan(lines) == dup);
    let all = lines.push(Seq::empty());
    assert(all.drop_last() =~= lines);
    assert(scan(all) == dup);
}

} // verus!
