//! Terminal output as coloured text: the escape sequences that select colours, and
//! the spans that the text between them is shown in.

use vstd::prelude::*;
use vstd::slice::slice_subrange;

use crate::ascii::{is_digit, is_shown};
use crate::palette::{default_color, foreground, Color};
use crate::strings::to_chars;

verus! {

/// The number that the digits of `s` spell in base ten.
pub open spec fn decimal(s: Seq<char>) -> nat
    decreases s.len(),
{
    if s.len() == 0 {
        0
    } else {
        decimal(s.drop_last()) * 10 + (s.last() as int - '0' as int) as nat
    }
}

/// The code that the digits of `s` spell: none for no digits, and none for a number
/// of more than eight bits.
pub open spec fn code_of(s: Seq<char>) -> Option<int> {
    if s.len() > 0 && decimal(s) <= 255 {
        Some(decimal(s) as int)
    } else {
        None
    }
}

/// A character that a list of codes is written with.
pub open spec fn parameter(c: char) -> bool {
    crate::ascii::digit(c) || c == ';'
}

/// `s` is written like a list of codes: digits and semicolons, nothing else.
pub open spec fn code_list(s: Seq<char>) -> bool {
    forall|i: int| 0 <= i < s.len() ==> parameter(#[trigger] s[i])
}

/// A character that may stand in a control sequence before the one that ends it:
/// digits and semicolons, private markers such as `?`, and intermediate characters
/// such as the space.
pub open spec fn in_sequence(c: char) -> bool {
    ' ' <= c <= '?'
}

/// A character that can end any control sequence: a letter, or another of the visible
/// characters from `@` on.
pub open spec fn ends_sequence(c: char) -> bool {
    '@' <= c <= '~'
}

/// The number of characters of `s` before its first semicolon.
pub open spec fn field_len(s: Seq<char>) -> nat
    decreases s.len(),
{
    if s.len() == 0 || s[0] == ';' {
        0
    } else {
        1 + field_len(s.skip(1))
    }
}

/// The number of characters at the start of `s` that may stand in a control sequence
/// before the one that ends it.
pub open spec fn params_len(s: Seq<char>) -> nat
    decreases s.len(),
{
    if s.len() == 0 || !in_sequence(s[0]) {
        0
    } else {
        1 + params_len(s.skip(1))
    }
}

/// The number of characters of `s` before its first escape character.
pub open spec fn run_len(s: Seq<char>) -> nat
    decreases s.len(),
{
    if s.len() == 0 || s[0] == '\x1b' {
        0
    } else {
        1 + run_len(s.skip(1))
    }
}

/// The number of characters of the escape sequence at the start of `s`: the escape
/// character alone, or, where a `[` follows, all characters through the one that ends
/// the control sequence, if there is one. Whatever follows a list of codes ends it.
/// Any other sequence is broken off by a character that cannot end it, such as an
/// escape character or a line feed, which is then no part of the sequence.
pub open spec fn sequence_len(s: Seq<char>) -> nat {
    if s.len() >= 2 && s[1] == '[' {
        let end = 2 + params_len(s.skip(2));
        if end < s.len() && (code_list(s.subrange(2, end as int)) || ends_sequence(s[end as int])) {
            end + 1
        } else {
            end
        }
    } else {
        1
    }
}

/// How text is drawn at some point: in which colour, and whether colours selected
/// from here on are bright.
#[derive(Clone, Copy, PartialEq, Eq, Structural, Debug)]
pub struct Pen {
    pub color: Color,
    pub bold: bool,
}

impl Pen {
    /// The pen that text starts with.
    pub open spec fn plain() -> Pen {
        Pen { color: crate::palette::white(), bold: false }
    }

    /// The pen after one code. Codes that mean nothing here leave it as it is.
    pub open spec fn after_code(self, code: Option<int>) -> Pen {
        match code {
            None => self,
            Some(n) => if n == 0 {
                Pen::plain()
            } else if n == 1 {
                Pen { color: self.color, bold: true }
            } else {
                match crate::palette::foreground_color(n, self.bold) {
                    Some(color) => Pen { color, bold: self.bold },
                    None => self,
                }
            },
        }
    }

    /// The pen after the codes in `params`, which semicolons part.
    pub open spec fn after_codes(self, params: Seq<char>) -> Pen
        decreases params.len(),
    {
        let n = field_len(params) as int;
        let pen = self.after_code(code_of(params.take(n)));
        if n < params.len() {
            pen.after_codes(params.skip(n + 1))
        } else {
            pen
        }
    }

    /// The pen after the escape sequence at the start of `s`. Only a list of codes that
    /// `m` ends changes it.
    pub open spec fn after_sequence(self, s: Seq<char>) -> Pen {
        if s.len() >= 2 && s[1] == '[' {
            let end = 2 + params_len(s.skip(2)) as int;
            if end < s.len() && s[end] == 'm' && code_list(s.subrange(2, end)) {
                self.after_codes(s.subrange(2, end))
            } else {
                self
            }
        } else {
            self
        }
    }
}

/// The characters of `s` that are shown.
pub open spec fn visible(s: Seq<char>) -> Seq<char>
    decreases s.len(),
{
    if s.len() == 0 {
        Seq::empty()
    } else if crate::ascii::shown(s.last()) {
        visible(s.drop_last()).push(s.last())
    } else {
        visible(s.drop_last())
    }
}

/// A piece of text in one colour.
#[verifier::ext_equal]
pub struct Span {
    pub text: Seq<char>,
    pub color: Color,
}

/// The spans for one run of text: none where nothing of it is shown.
pub open spec fn run_spans(run: Seq<char>, color: Color) -> Seq<Span> {
    if visible(run).len() == 0 {
        Seq::empty()
    } else {
        seq![Span { text: visible(run), color }]
    }
}

/// The spans that `s` is shown as when it starts with `pen`: what is shown of the
/// text before the first escape sequence, in the pen's colour, then the spans of
/// the text behind that sequence, with the pen that it leaves.
pub open spec fn spans_of(s: Seq<char>, pen: Pen) -> Seq<Span>
    decreases s.len(),
{
    let n = run_len(s) as int;
    let head = run_spans(s.take(n), pen.color);
    if n < s.len() {
        proof {
            lemma_sequence_len(s.skip(n));
        }
        let k = sequence_len(s.skip(n)) as int;
        head + spans_of(s.skip(n + k), pen.after_sequence(s.skip(n)))
    } else {
        head
    }
}

/// A piece of text in one colour.
#[derive(Debug)]
pub struct Section {
    pub text: String,
    pub color: Color,
}

impl View for Section {
    type V = Span;

    open spec fn view(&self) -> Span {
        Span { text: self.text@, color: self.color }
    }
}

/// The spans that `sections` hold.
pub open spec fn sections_view(sections: Seq<Section>) -> Seq<Span> {
    Seq::new(sections.len(), |i: int| sections[i]@)
}

proof fn lemma_params_len(s: Seq<char>)
    ensures
        params_len(s) <= s.len(),
        params_len(s) < s.len() ==> !in_sequence(s[params_len(s) as int]),
    decreases s.len(),
{
    if s.len() > 0 && in_sequence(s[0]) {
        lemma_params_len(s.skip(1));
    }
}

/// An escape sequence is not empty and ends within the text it is read from.
pub proof fn lemma_sequence_len(s: Seq<char>)
    requires
        s.len() > 0,
    ensures
        1 <= sequence_len(s) <= s.len(),
{
    if s.len() >= 2 {
        lemma_params_len(s.skip(2));
    }
}

/// Reads the code that the digits of `field` spell.
pub fn parse_code(field: &[char]) -> (r: Option<u8>)
    requires
        forall|i: int| 0 <= i < field@.len() ==> crate::ascii::digit(#[trigger] field@[i]),
    ensures
        match r {
            Some(n) => code_of(field@) == Some(n as int),
            None => code_of(field@) is None,
        },
{
    let mut value: u32 = 0;
    let mut i: usize = 0;
    while i < field.len()
        invariant
            i <= field@.len(),
            forall|i: int| 0 <= i < field@.len() ==> crate::ascii::digit(#[trigger] field@[i]),
            value <= 255 ==> value == decimal(field@.take(i as int)),
            value > 255 ==> decimal(field@.take(i as int)) > 255,
            value <= 2559,
        decreases field@.len() - i,
    {
        assert(crate::ascii::digit(field@[i as int]));
        assert(field@.take(i + 1).drop_last() =~= field@.take(i as int));
        if value <= 255 {
            value = value * 10 + (field[i] as u32 - '0' as u32);
        }
        i = i + 1;
    }
    assert(field@.take(i as int) =~= field@);
    if field.len() > 0 && value <= 255 {
        Some(value as u8)
    } else {
        None
    }
}

impl Pen {
    /// The pen that text starts with.
    pub fn new() -> (r: Pen)
        ensures
            r == Pen::plain(),
    {
        Pen { color: default_color(), bold: false }
    }

    /// Follows one code.
    pub fn apply_code(&mut self, code: u8)
        ensures
            *final(self) == old(self).after_code(Some(code as int)),
    {
        match code {
            0 => {
                *self = Pen::new();
            },
            1 => {
                self.bold = true;
            },
            _ => {
                if let Some(color) = foreground(code, self.bold) {
                    self.color = color;
                }
            },
        }
    }

    /// Follows the codes in `params` from the first to the last.
    pub fn apply_codes(&mut self, params: &[char])
        requires
            code_list(params@),
        ensures
            *final(self) == old(self).after_codes(params@),
    {
        let ghost end = self.after_codes(params@);
        let mut start: usize = 0;
        assert(params@.skip(0) =~= params@);
        loop
            invariant_except_break
                start <= params@.len(),
                code_list(params@),
                self.after_codes(params@.skip(start as int)) == end,
            ensures
                *self == end,
            decreases params@.len() - start,
        {
            let ghost rest = params@.skip(start as int);
            let n = field_end(params, start);
            proof {
                lemma_field_len(rest);
                assert(params@.subrange(start as int, n as int) =~= rest.take(n - start));
            }
            let field = slice_subrange(params, start, n);
            assert forall|i: int| 0 <= i < field@.len() implies crate::ascii::digit(
                #[trigger] field@[i],
            ) by {
                assert(field@[i] == rest[i]);
                assert(parameter(params@[start + i]));
            }
            if let Some(code) = parse_code(field) {
                self.apply_code(code);
            }
            if n == params.len() {
                break;
            }
            assert(rest.skip(n - start + 1) =~= params@.skip(n + 1));
            start = n + 1;
        }
    }
}

proof fn lemma_field_len(s: Seq<char>)
    ensures
        field_len(s) <= s.len(),
        forall|i: int| 0 <= i < field_len(s) ==> #[trigger] s[i] != ';',
        field_len(s) < s.len() ==> s[field_len(s) as int] == ';',
    decreases s.len(),
{
    if s.len() > 0 && s[0] != ';' {
        lemma_field_len(s.skip(1));
        assert forall|i: int| 0 <= i < field_len(s) implies #[trigger] s[i] != ';' by {
            if i > 0 {
                assert(s[i] == s.skip(1)[i - 1]);
            }
        }
    }
}

/// The index of the first semicolon of `params` from `start` on, or its length.
fn field_end(params: &[char], start: usize) -> (n: usize)
    requires
        start <= params@.len(),
    ensures
        n == start + field_len(params@.skip(start as int)),
        start <= n <= params@.len(),
{
    let mut n: usize = start;
    while n < params.len() && params[n] != ';'
        invariant
            start <= n <= params@.len(),
            field_len(params@.skip(start as int)) == (n - start) + field_len(
                params@.skip(n as int),
            ),
        decreases params@.len() - n,
    {
        assert(params@.skip(n as int).skip(1) =~= params@.skip(n + 1));
        n = n + 1;
    }
    n
}

/// The index of the first character of `chars` from `start` on that cannot stand in a
/// control sequence before its end, or the length of `chars`.
fn params_end(chars: &[char], start: usize) -> (n: usize)
    requires
        start <= chars@.len(),
    ensures
        n == start + params_len(chars@.skip(start as int)),
        start <= n <= chars@.len(),
{
    let mut n: usize = start;
    while n < chars.len() && ' ' <= chars[n] && chars[n] <= '?'
        invariant
            start <= n <= chars@.len(),
            params_len(chars@.skip(start as int)) == (n - start) + params_len(
                chars@.skip(n as int),
            ),
        decreases chars@.len() - n,
    {
        assert(chars@.skip(n as int).skip(1) =~= chars@.skip(n + 1));
        n = n + 1;
    }
    n
}

/// Whether `params` is written like a list of codes.
pub fn is_code_list(params: &[char]) -> (r: bool)
    ensures
        r == code_list(params@),
{
    let mut i: usize = 0;
    while i < params.len()
        invariant
            i <= params@.len(),
            forall|j: int| 0 <= j < i ==> parameter(#[trigger] params@[j]),
        decreases params@.len() - i,
    {
        if !is_digit(params[i]) && params[i] != ';' {
            assert(!parameter(params@[i as int]));
            return false;
        }
        i = i + 1;
    }
    true
}

/// Follows the escape sequence that starts at `chars[start]` and returns the index
/// behind it.
fn follow_sequence(pen: &mut Pen, chars: &[char], start: usize) -> (next: usize)
    requires
        start < chars@.len(),
    ensures
        next == start + sequence_len(chars@.skip(start as int)),
        start < next <= chars@.len(),
        *final(pen) == old(pen).after_sequence(chars@.skip(start as int)),
{
    let ghost s = chars@.skip(start as int);
    let len = chars.len();
    if start + 1 < len && chars[start + 1] == '[' {
        assert(s.skip(2) =~= chars@.skip(start + 2));
        let end = params_end(chars, start + 2);
        if end < chars.len() {
            let params = slice_subrange(chars, start + 2, end);
            assert(params@ =~= s.subrange(2, end - start));
            let codes = is_code_list(params);
            if codes && chars[end] == 'm' {
                pen.apply_codes(params);
            }
            if codes || ('@' <= chars[end] && chars[end] <= '~') {
                end + 1
            } else {
                end
            }
        } else {
            end
        }
    } else {
        start + 1
    }
}

/// Reads the run of text that starts at `chars[start]`: what is shown of it, and the
/// index behind it.
fn read_run(chars: &[char], start: usize) -> (r: (String, usize))
    requires
        start <= chars@.len(),
    ensures
        r.1 == start + run_len(chars@.skip(start as int)),
        start <= r.1 <= chars@.len(),
        r.0@ == visible(chars@.subrange(start as int, r.1 as int)),
        r.1 < chars@.len() ==> chars@[r.1 as int] == '\x1b',
{
    let mut text = String::new();
    let mut i: usize = start;
    while i < chars.len() && chars[i] != '\x1b'
        invariant
            start <= i <= chars@.len(),
            run_len(chars@.skip(start as int)) == (i - start) + run_len(chars@.skip(i as int)),
            text@ == visible(chars@.subrange(start as int, i as int)),
        decreases chars@.len() - i,
    {
        assert(chars@.skip(i as int).skip(1) =~= chars@.skip(i + 1));
        assert(chars@.subrange(start as int, i + 1).drop_last() =~= chars@.subrange(
            start as int,
            i as int,
        ));
        if is_shown(chars[i]) {
            text.push(chars[i]);
        }
        i = i + 1;
    }
    (text, i)
}

/// Turns terminal output into pieces of coloured text.
pub fn parse_ansi_to_layout(text: &str) -> (r: Vec<Section>)
    ensures
        sections_view(r@) == spans_of(text@, Pen::plain()),
{
    let chars = to_chars(text);
    let mut sections: Vec<Section> = Vec::new();
    let mut pen = Pen::new();
    let mut i: usize = 0;
    assert(chars@.skip(0) =~= chars@);
    assert(sections_view(sections@) =~= Seq::empty());
    assert(Seq::<Span>::empty() + spans_of(chars@, pen) =~= spans_of(chars@, pen));
    loop
        invariant_except_break
            i <= chars@.len(),
            sections_view(sections@) + spans_of(chars@.skip(i as int), pen) == spans_of(
                chars@,
                Pen::plain(),
            ),
        ensures
            sections_view(sections@) == spans_of(chars@, Pen::plain()),
        decreases chars@.len() - i,
    {
        let ghost rest = chars@.skip(i as int);
        let ghost before = sections_view(sections@);
        let (run, next) = read_run(chars.as_slice(), i);
        let ghost n = next - i;
        let ghost head = run_spans(rest.take(n), pen.color);
        assert(chars@.subrange(i as int, next as int) =~= rest.take(n));
        if !run.as_str().is_empty() {
            sections.push(Section { text: run, color: pen.color });
        }
        assert(sections_view(sections@) =~= before + head);
        if next == chars.len() {
            break;
        }
        assert(rest.skip(n) =~= chars@.skip(next as int));
        i = follow_sequence(&mut pen, chars.as_slice(), next);
        assert(rest.skip(n + sequence_len(rest.skip(n))) =~= chars@.skip(i as int));
        assert(before + (head + spans_of(chars@.skip(i as int), pen)) =~= before + head + spans_of(
            chars@.skip(i as int),
            pen,
        ));
    }
    sections
}

/// The text of `spans` in one piece.
pub open spec fn joined(spans: Seq<Span>) -> Seq<char>
    decreases spans.len(),
{
    if spans.len() == 0 {
        Seq::empty()
    } else {
        spans[0].text + joined(spans.skip(1))
    }
}

/// `s` without its escape sequences.
pub open spec fn stripped(s: Seq<char>) -> Seq<char>
    decreases s.len(),
{
    let n = run_len(s) as int;
    if n < s.len() {
        proof {
            lemma_sequence_len(s.skip(n));
        }
        s.take(n) + stripped(s.skip(n + sequence_len(s.skip(n)) as int))
    } else {
        s
    }
}

/// The pen that the escape sequences of `s` leave, when it starts with `pen`.
pub open spec fn pen_after(s: Seq<char>, pen: Pen) -> Pen
    decreases s.len(),
{
    let n = run_len(s) as int;
    if n < s.len() {
        proof {
            lemma_sequence_len(s.skip(n));
        }
        pen_after(s.skip(n + sequence_len(s.skip(n)) as int), pen.after_sequence(s.skip(n)))
    } else {
        pen
    }
}

/// The characters that `spans` show, each with its colour.
pub open spec fn painted(spans: Seq<Span>) -> Seq<(char, Color)>
    decreases spans.len(),
{
    if spans.len() == 0 {
        Seq::empty()
    } else {
        colored(spans[0].text, spans[0].color) + painted(spans.skip(1))
    }
}

/// The characters of `text`, all in the same colour.
pub open spec fn colored(text: Seq<char>, color: Color) -> Seq<(char, Color)> {
    Seq::new(text.len(), |i: int| (text[i], color))
}

/// The boundary between `a` and `b` falls inside an escape sequence of `a + b`.
pub open spec fn cut_sequence(a: Seq<char>, b: Seq<char>) -> bool
    decreases a.len(),
{
    let n = run_len(a) as int;
    if n < a.len() {
        let k = sequence_len((a + b).skip(n)) as int;
        n + k > a.len() || (k >= 1 && cut_sequence(a.skip(n + k), b))
    } else {
        false
    }
}

proof fn lemma_visible(s: Seq<char>)
    ensures
        forall|i: int| 0 <= i < visible(s).len() ==> crate::ascii::shown(#[trigger] visible(s)[i]),
    decreases s.len(),
{
    if s.len() > 0 {
        let t = visible(s.drop_last());
        lemma_visible(s.drop_last());
        assert forall|i: int| 0 <= i < visible(s).len() implies crate::ascii::shown(
            #[trigger] visible(s)[i],
        ) by {
            if i < t.len() {
                assert(visible(s)[i] == t[i]);
            }
        }
    }
}

proof fn lemma_visible_add(a: Seq<char>, b: Seq<char>)
    ensures
        visible(a + b) == visible(a) + visible(b),
    decreases b.len(),
{
    if b.len() == 0 {
        assert(a + b =~= a);
        assert(visible(a) + visible(b) =~= visible(a));
    } else {
        assert((a + b).drop_last() =~= a + b.drop_last());
        lemma_visible_add(a, b.drop_last());
        assert(visible(a + b) =~= visible(a) + visible(b));
    }
}

proof fn lemma_run_len(s: Seq<char>)
    ensures
        run_len(s) <= s.len(),
        run_len(s) < s.len() ==> s[run_len(s) as int] == '\x1b',
    decreases s.len(),
{
    if s.len() > 0 && s[0] != '\x1b' {
        lemma_run_len(s.skip(1));
    }
}

proof fn lemma_run_len_add(a: Seq<char>, b: Seq<char>)
    ensures
        run_len(a) < a.len() ==> run_len(a + b) == run_len(a),
        run_len(a) >= a.len() ==> run_len(a + b) == a.len() + run_len(b),
    decreases a.len(),
{
    if a.len() == 0 {
        assert(a + b =~= b);
    } else {
        assert((a + b)[0] == a[0]);
        if a[0] != '\x1b' {
            assert((a + b).skip(1) =~= a.skip(1) + b);
            lemma_run_len_add(a.skip(1), b);
        }
    }
}

proof fn lemma_params_len_prefix(a: Seq<char>, b: Seq<char>)
    requires
        params_len(a + b) <= a.len(),
    ensures
        params_len(a) == params_len(a + b),
    decreases a.len(),
{
    if a.len() > 0 {
        assert((a + b)[0] == a[0]);
        if in_sequence(a[0]) {
            assert((a + b).skip(1) =~= a.skip(1) + b);
            lemma_params_len_prefix(a.skip(1), b);
        }
    }
}

/// An escape sequence that ends within `a` does not depend on what follows.
proof fn lemma_sequence_prefix(a: Seq<char>, b: Seq<char>, pen: Pen)
    requires
        a.len() > 0,
        sequence_len(a + b) <= a.len(),
    ensures
        sequence_len(a) == sequence_len(a + b),
        pen.after_sequence(a) == pen.after_sequence(a + b),
{
    let s = a + b;
    if s.len() >= 2 && s[1] == '[' {
        lemma_params_len(s.skip(2));
        let end = 2 + params_len(s.skip(2)) as int;
        if end < s.len() {
            assert(s.skip(2) =~= a.skip(2) + b);
            lemma_params_len_prefix(a.skip(2), b);
            assert(s.subrange(2, end) =~= a.subrange(2, end));
        } else {
            assert(s =~= a);
        }
    }
}

proof fn lemma_joined_add(a: Seq<Span>, b: Seq<Span>)
    ensures
        joined(a + b) == joined(a) + joined(b),
    decreases a.len(),
{
    if a.len() == 0 {
        assert(a + b =~= b);
        assert(joined(a) + joined(b) =~= joined(b));
    } else {
        assert((a + b).skip(1) =~= a.skip(1) + b);
        lemma_joined_add(a.skip(1), b);
        assert(joined(a + b) =~= joined(a) + joined(b));
    }
}

proof fn lemma_painted_add(a: Seq<Span>, b: Seq<Span>)
    ensures
        painted(a + b) == painted(a) + painted(b),
    decreases a.len(),
{
    if a.len() == 0 {
        assert(a + b =~= b);
        assert(painted(a) + painted(b) =~= painted(b));
    } else {
        assert((a + b).skip(1) =~= a.skip(1) + b);
        lemma_painted_add(a.skip(1), b);
        assert(painted(a + b) =~= painted(a) + painted(b));
    }
}

proof fn lemma_run_spans(run: Seq<char>, color: Color)
    ensures
        joined(run_spans(run, color)) == visible(run),
        painted(run_spans(run, color)) == colored(visible(run), color),
{
    let spans = run_spans(run, color);
    if visible(run).len() == 0 {
        assert(joined(spans) =~= visible(run));
        assert(painted(spans) =~= colored(visible(run), color));
    } else {
        assert(spans.skip(1) =~= Seq::empty());
        assert(joined(spans.skip(1)) =~= Seq::empty());
        assert(painted(spans.skip(1)) =~= Seq::empty());
        assert(joined(spans) =~= visible(run));
        assert(painted(spans) =~= colored(visible(run), color));
    }
}

/// A span with some text, all of which is shown.
pub open spec fn legible(span: Span) -> bool {
    &&& span.text.len() > 0
    &&& forall|i: int| 0 <= i < span.text.len() ==> crate::ascii::shown(#[trigger] span.text[i])
}

/// No span is empty, and only characters that are shown get into one: no escape
/// character does, and no control character but for white space.
pub proof fn lemma_spans_show_only_text(s: Seq<char>, pen: Pen)
    ensures
        forall|i: int| 0 <= i < spans_of(s, pen).len() ==> legible(#[trigger] spans_of(s, pen)[i]),
    decreases s.len(),
{
    let n = run_len(s) as int;
    let head = run_spans(s.take(n), pen.color);
    lemma_visible(s.take(n));
    if n < s.len() {
        lemma_sequence_len(s.skip(n));
        let k = sequence_len(s.skip(n)) as int;
        let tail = spans_of(s.skip(n + k), pen.after_sequence(s.skip(n)));
        lemma_spans_show_only_text(s.skip(n + k), pen.after_sequence(s.skip(n)));
        assert forall|i: int| 0 <= i < spans_of(s, pen).len() implies legible(
            #[trigger] spans_of(s, pen)[i],
        ) by {
            if i < head.len() {
                assert(spans_of(s, pen)[i] == head[i]);
            } else {
                assert(spans_of(s, pen)[i] == tail[i - head.len()]);
            }
        }
    }
}

/// The text of the spans is what is shown of the input without its escape
/// sequences, whatever colours those select.
pub proof fn lemma_text_of_spans(s: Seq<char>, pen: Pen)
    ensures
        joined(spans_of(s, pen)) == visible(stripped(s)),
    decreases s.len(),
{
    let n = run_len(s) as int;
    lemma_run_len(s);
    lemma_run_spans(s.take(n), pen.color);
    if n < s.len() {
        lemma_sequence_len(s.skip(n));
        let k = sequence_len(s.skip(n)) as int;
        let rest = s.skip(n + k);
        let next = pen.after_sequence(s.skip(n));
        lemma_text_of_spans(rest, next);
        lemma_joined_add(run_spans(s.take(n), pen.color), spans_of(rest, next));
        lemma_visible_add(s.take(n), stripped(rest));
    } else {
        assert(s.take(n) =~= s);
    }
}

/// Text without escape sequences is one span in the pen's colour.
pub proof fn lemma_plain_text(s: Seq<char>, pen: Pen)
    requires
        forall|i: int| 0 <= i < s.len() ==> #[trigger] s[i] != '\x1b',
    ensures
        spans_of(s, pen) == run_spans(s, pen.color),
{
    lemma_run_len(s);
    assert(s.take(s.len() as int) =~= s);
}

/// A control sequence takes up its characters and the one that ends it.
proof fn lemma_whole_sequence(p: Seq<char>, f: char, rest: Seq<char>)
    requires
        forall|i: int| 0 <= i < p.len() ==> in_sequence(#[trigger] p[i]),
        !in_sequence(f),
    ensures
        ({
            let s = seq!['\x1b', '['] + p + seq![f] + rest;
            let end = 2 + p.len() as int;
            &&& params_len(s.skip(2)) == p.len()
            &&& s.subrange(2, end) == p
            &&& s[end] == f
            &&& s.skip(end + 1) == rest
        }),
{
    let s = seq!['\x1b', '['] + p + seq![f] + rest;
    let tail = seq![f] + rest;
    let end = 2 + p.len() as int;
    assert(s.skip(2) =~= p + tail);
    lemma_params_then(p, tail);
    assert(s.subrange(2, end) =~= p);
    assert(s.skip(end + 1) =~= rest);
}

proof fn lemma_params_then(p: Seq<char>, tail: Seq<char>)
    requires
        forall|i: int| 0 <= i < p.len() ==> in_sequence(#[trigger] p[i]),
        tail.len() > 0,
        !in_sequence(tail[0]),
    ensures
        params_len(p + tail) == p.len(),
    decreases p.len(),
{
    if p.len() == 0 {
        assert(p + tail =~= tail);
    } else {
        assert((p + tail)[0] == p[0]);
        assert((p + tail).skip(1) =~= p.skip(1) + tail);
        assert forall|i: int| 0 <= i < p.skip(1).len() implies in_sequence(
            #[trigger] p.skip(1)[i],
        ) by {
            assert(p.skip(1)[i] == p[i + 1]);
        }
        lemma_params_then(p.skip(1), tail);
    }
}

/// Text that starts with an escape sequence is shown like what follows the sequence,
/// with the pen that the sequence leaves.
proof fn lemma_leading_sequence(s: Seq<char>, pen: Pen)
    requires
        s.len() > 0,
        s[0] == '\x1b',
    ensures
        spans_of(s, pen) == spans_of(s.skip(sequence_len(s) as int), pen.after_sequence(s)),
{
    lemma_sequence_len(s);
    let tail = spans_of(s.skip(sequence_len(s) as int), pen.after_sequence(s));
    assert(s.skip(0) =~= s);
    assert(visible(s.take(0)).len() == 0);
    assert(run_spans(s.take(0), pen.color) + tail =~= tail);
}

/// A list of codes that `m` ends colours what follows it and shows nothing itself.
pub proof fn lemma_color_sequence(params: Seq<char>, rest: Seq<char>, pen: Pen)
    requires
        code_list(params),
    ensures
        spans_of(seq!['\x1b', '['] + params + seq!['m'] + rest, pen) == spans_of(
            rest,
            pen.after_codes(params),
        ),
{
    assert forall|i: int| 0 <= i < params.len() implies in_sequence(#[trigger] params[i]) by {
        assert(parameter(params[i]));
    }
    lemma_whole_sequence(params, 'm', rest);
    lemma_leading_sequence(seq!['\x1b', '['] + params + seq!['m'] + rest, pen);
}

/// A control sequence that is not a list of codes ended by `m` has no effect: neither
/// its private markers nor anything else of it is shown, and what follows is shown as
/// if the sequence were not there.
pub proof fn lemma_control_sequence_ignored(p: Seq<char>, f: char, rest: Seq<char>, pen: Pen)
    requires
        forall|i: int| 0 <= i < p.len() ==> in_sequence(#[trigger] p[i]),
        !in_sequence(f),
        code_list(p) || ends_sequence(f),
        !(f == 'm' && code_list(p)),
    ensures
        spans_of(seq!['\x1b', '['] + p + seq![f] + rest, pen) == spans_of(rest, pen),
{
    lemma_whole_sequence(p, f, rest);
    lemma_leading_sequence(seq!['\x1b', '['] + p + seq![f] + rest, pen);
}

/// `q` is a list of codes that `m` ends.
pub open spec fn selects_colors(q: Seq<char>) -> bool {
    &&& q.len() >= 3
    &&& q[1] == '['
    &&& q.last() == 'm'
    &&& code_list(q.subrange(2, q.len() - 1))
}

/// An escape sequence of any form, whole or broken off, has no effect unless it is a
/// list of codes that `m` ends: what follows it is shown as if the sequence were not
/// there.
pub proof fn lemma_other_sequence(q: Seq<char>, rest: Seq<char>, pen: Pen)
    requires
        q.len() > 0,
        q[0] == '\x1b',
        sequence_len(q + rest) == q.len(),
        !selects_colors(q),
    ensures
        spans_of(q + rest, pen) == spans_of(rest, pen),
{
    let s = q + rest;
    assert(s[0] == q[0]);
    assert(s.skip(q.len() as int) =~= rest);
    if s.len() >= 2 && s[1] == '[' {
        let end = 2 + params_len(s.skip(2)) as int;
        if end < s.len() && s[end] == 'm' {
            assert(q.subrange(2, q.len() - 1) =~= s.subrange(2, end));
            assert(s[end] == q.last());
        }
    }
    lemma_leading_sequence(s, pen);
}

/// Codes are followed from left to right: a list of codes does what its parts do
/// one after the other.
pub proof fn lemma_codes_in_order(pen: Pen, a: Seq<char>, b: Seq<char>)
    ensures
        pen.after_codes(a + seq![';'] + b) == pen.after_codes(a).after_codes(b),
    decreases a.len(),
{
    let s = a + seq![';'] + b;
    let n = field_len(a) as int;
    lemma_field_len(a);
    lemma_field_len_add(a, b);
    assert(s.take(n) =~= a.take(n));
    let next = pen.after_code(code_of(a.take(n)));
    if n < a.len() {
        assert(s.skip(n + 1) =~= a.skip(n + 1) + seq![';'] + b);
        lemma_codes_in_order(next, a.skip(n + 1), b);
    } else {
        assert(s.skip(n + 1) =~= b);
    }
}

proof fn lemma_field_len_add(a: Seq<char>, b: Seq<char>)
    ensures
        field_len(a + seq![';'] + b) == field_len(a),
    decreases a.len(),
{
    let s = a + seq![';'] + b;
    if a.len() == 0 {
        assert(s[0] == ';');
    } else {
        assert(s[0] == a[0]);
        if a[0] != ';' {
            assert(s.skip(1) =~= a.skip(1) + seq![';'] + b);
            lemma_field_len_add(a.skip(1), b);
        }
    }
}

/// The code 0 takes the pen back to where text starts, whatever came before it.
pub proof fn lemma_reset(pen: Pen, a: Seq<char>)
    ensures
        pen.after_codes(seq!['0']) == Pen::plain(),
        pen.after_codes(a + seq![';'] + seq!['0']) == Pen::plain(),
{
    lemma_zero(pen);
    lemma_zero(pen.after_codes(a));
    lemma_codes_in_order(pen, a, seq!['0']);
}

proof fn lemma_zero(pen: Pen)
    ensures
        pen.after_codes(seq!['0']) == Pen::plain(),
{
    let s = seq!['0'];
    assert(s.skip(1) =~= Seq::empty());
    assert(field_len(s.skip(1)) == 0);
    assert(field_len(s) == 1);
    assert(s.take(1) =~= s);
    assert(s.drop_last() =~= Seq::empty());
    assert(decimal(s.drop_last()) == 0);
    assert(decimal(s) == 0);
}

/// Output that is appended neither changes nor recolours what was shown before it,
/// and is coloured by the pen that the earlier output left, unless the boundary
/// falls inside an escape sequence.
pub proof fn lemma_appended_output(a: Seq<char>, b: Seq<char>, pen: Pen)
    requires
        !cut_sequence(a, b),
    ensures
        painted(spans_of(a + b, pen)) == painted(spans_of(a, pen)) + painted(
            spans_of(b, pen_after(a, pen)),
        ),
    decreases a.len(),
{
    let s = a + b;
    let n = run_len(a) as int;
    lemma_run_len(a);
    lemma_run_len_add(a, b);
    if n < a.len() {
        assert(s.take(n) =~= a.take(n));
        assert(s.skip(n) =~= a.skip(n) + b);
        let head = run_spans(a.take(n), pen.color);
        let k = sequence_len(s.skip(n)) as int;
        lemma_sequence_len(s.skip(n));
        lemma_sequence_prefix(a.skip(n), b, pen);
        let next = pen.after_sequence(a.skip(n));
        let rest = a.skip(n + k);
        assert(s.skip(n + k) =~= rest + b);
        lemma_appended_output(rest, b, next);
        lemma_painted_add(head, spans_of(rest + b, next));
        lemma_painted_add(head, spans_of(rest, next));
        assert(painted(spans_of(s, pen)) =~= painted(spans_of(a, pen)) + painted(
            spans_of(b, pen_after(a, pen)),
        ));
    } else {
        let m = run_len(b) as int;
        lemma_run_len(b);
        assert(a.take(n) =~= a);
        assert(s.take(n + m) =~= a + b.take(m));
        lemma_visible_add(a, b.take(m));
        lemma_run_spans(a, pen.color);
        lemma_run_spans(b.take(m), pen.color);
        lemma_run_spans(a + b.take(m), pen.color);
        assert(colored(visible(a) + visible(b.take(m)), pen.color) =~= colored(
            visible(a),
            pen.color,
        ) + colored(visible(b.take(m)), pen.color));
        if m < b.len() {
            assert(s.skip(n + m) =~= b.skip(m));
            let k = sequence_len(b.skip(m)) as int;
            lemma_sequence_len(b.skip(m));
            assert(s.skip(n + m + k) =~= b.skip(m + k));
            let tail = spans_of(b.skip(m + k), pen.after_sequence(b.skip(m)));
            lemma_painted_add(run_spans(a + b.take(m), pen.color), tail);
            lemma_painted_add(run_spans(b.take(m), pen.color), tail);
        }
        assert(painted(spans_of(s, pen)) =~= painted(spans_of(a, pen)) + painted(
            spans_of(b, pen),
        ));
    }
}

/// Text can be cut before an escape sequence, unless the cut falls inside one: what
/// stands before the cut is shown as it is alone, and what follows as it is alone with
/// the pen that the earlier text leaves.
proof fn lemma_cut_before_sequence(a: Seq<char>, b: Seq<char>, pen: Pen)
    requires
        b.len() > 0,
        b[0] == '\x1b',
        !cut_sequence(a, b),
    ensures
        spans_of(a + b, pen) == spans_of(a, pen) + spans_of(b, pen_after(a, pen)),
    decreases a.len(),
{
    let s = a + b;
    let n = run_len(a) as int;
    lemma_run_len(a);
    lemma_run_len_add(a, b);
    assert(s.take(n) =~= a.take(n));
    assert(s.skip(n) =~= a.skip(n) + b);
    let head = run_spans(a.take(n), pen.color);
    if n < a.len() {
        let k = sequence_len(s.skip(n)) as int;
        lemma_sequence_len(s.skip(n));
        lemma_sequence_prefix(a.skip(n), b, pen);
        let next = pen.after_sequence(a.skip(n));
        let rest = a.skip(n + k);
        assert(s.skip(n + k) =~= rest + b);
        lemma_cut_before_sequence(rest, b, next);
        assert(spans_of(s, pen) =~= spans_of(a, pen) + spans_of(b, pen_after(a, pen)));
    } else {
        let k = sequence_len(b) as int;
        lemma_sequence_len(b);
        lemma_leading_sequence(b, pen);
        assert(s.skip(n) =~= b);
        assert(s.skip(n + k) =~= b.skip(k));
        assert(spans_of(s, pen) =~= spans_of(a, pen) + spans_of(b, pen));
    }
}

/// What follows a reset is shown as if it stood alone, and what stands before it too,
/// unless the reset is cut into by a list of codes that nothing ended.
pub proof fn lemma_after_reset(a: Seq<char>, rest: Seq<char>, pen: Pen)
    requires
        !cut_sequence(a, seq!['\x1b', '['] + seq!['0'] + seq!['m'] + rest),
    ensures
        spans_of(a + (seq!['\x1b', '['] + seq!['0'] + seq!['m'] + rest), pen) == spans_of(a, pen)
            + spans_of(rest, Pen::plain()),
{
    let next = pen_after(a, pen);
    lemma_cut_before_sequence(a, seq!['\x1b', '['] + seq!['0'] + seq!['m'] + rest, pen);
    lemma_color_sequence(seq!['0'], rest, next);
    lemma_zero(next);
}

} // verus!
