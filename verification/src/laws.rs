//! What the terminal does, stated over plain bytes, characters and numbers: every
//! class of input by its range, every outcome by its value.

use vstd::prelude::*;
use vstd::utf8::{decode_utf8, encode_utf8, valid_utf8};

use crate::ansi::{Pen, Section, Span};
use crate::outgoing::{Fault, Origin};
use crate::palette::Color;
use crate::screen::ScreenView;
use crate::session::{InputEvent, PtyWrite, PtyWriteView, TermionView};

verus! {

// Shell output and the cursor.

/// A byte of the ASCII alphabet, A to Z or a to z.
pub open spec fn letter(b: u8) -> bool {
    (65 <= b <= 90) || (97 <= b <= 122)
}

/// No byte of `s` is a letter.
pub open spec fn letterless(s: Seq<u8>) -> bool {
    forall|i: int| 0 <= i < s.len() ==> !letter(#[trigger] s[i])
}

proof fn lemma_first_byte(v: ScreenView, c: u8, rest: Seq<u8>)
    requires
        c != 27,
    ensures
        v.after(seq![c] + rest) == v.put(c).after(rest),
{
    let s = seq![c] + rest;
    assert(s[0] == c);
    assert(s.skip(1) =~= rest);
}

/// Empty output changes nothing.
pub proof fn law_no_output(v: ScreenView)
    ensures
        v.after(Seq::empty()) == v,
{
}

/// Each of the bytes 32 to 126, and a tab, is buffered and moves the cursor one
/// column to the right, whatever comes before it and behind it.
pub proof fn law_cell(v: ScreenView, c: u8, rest: Seq<u8>)
    requires
        (32 <= c <= 126) || c == 9,
    ensures
        v.after(seq![c] + rest) == (ScreenView {
            buf: v.buf.push(c),
            col: v.col + 1,
            row: v.row,
        }).after(rest),
{
    lemma_first_byte(v, c, rest);
}

/// A line feed is buffered and moves the cursor to the start of the next row.
pub proof fn law_line_feed(v: ScreenView, rest: Seq<u8>)
    ensures
        v.after(seq![10u8] + rest) == (ScreenView {
            buf: v.buf.push(10u8),
            col: 0,
            row: v.row + 1,
        }).after(rest),
{
    lemma_first_byte(v, 10u8, rest);
}

/// A carriage return is buffered and moves the cursor to the start of its row.
pub proof fn law_carriage_return(v: ScreenView, rest: Seq<u8>)
    ensures
        v.after(seq![13u8] + rest) == (ScreenView {
            buf: v.buf.push(13u8),
            col: 0,
            row: v.row,
        }).after(rest),
{
    lemma_first_byte(v, 13u8, rest);
}

/// A backspace or a delete takes the last byte off the buffer and moves the cursor
/// one column to the left, each as far as there is something to take or a column to
/// go to. The row stays.
pub proof fn law_erase(before: Seq<u8>, c: u8, col: int, row: int, erase: u8, rest: Seq<u8>)
    requires
        col > 0,
        erase == 8 || erase == 127,
    ensures
        (ScreenView { buf: before.push(c), col, row }).after(seq![erase] + rest) == (ScreenView {
            buf: before,
            col: col - 1,
            row,
        }).after(rest),
        (ScreenView { buf: before.push(c), col: 0, row }).after(seq![erase] + rest) == (ScreenView {
            buf: before,
            col: 0,
            row,
        }).after(rest),
        (ScreenView { buf: Seq::empty(), col, row }).after(seq![erase] + rest) == (ScreenView {
            buf: Seq::empty(),
            col: col - 1,
            row,
        }).after(rest),
        (ScreenView { buf: Seq::empty(), col: 0, row }).after(seq![erase] + rest) == (ScreenView {
            buf: Seq::empty(),
            col: 0,
            row,
        }).after(rest),
{
    assert(before.push(c).drop_last() =~= before);
    lemma_first_byte(ScreenView { buf: before.push(c), col, row }, erase, rest);
    lemma_first_byte(ScreenView { buf: before.push(c), col: 0, row }, erase, rest);
    lemma_first_byte(ScreenView { buf: Seq::empty(), col, row }, erase, rest);
    lemma_first_byte(ScreenView { buf: Seq::empty(), col: 0, row }, erase, rest);
}

/// Every other control byte, and every byte from 128 on, is passed over.
pub proof fn law_passed_over(v: ScreenView, c: u8, rest: Seq<u8>)
    requires
        c < 32 || c >= 128,
        c != 8 && c != 9 && c != 10 && c != 13 && c != 27,
    ensures
        v.after(seq![c] + rest) == v.after(rest),
{
    lemma_first_byte(v, c, rest);
}

proof fn lemma_csi_len_is(p: Seq<u8>, f: u8, rest: Seq<u8>)
    requires
        letterless(p),
        letter(f),
    ensures
        crate::screen::csi_len(p + seq![f] + rest) == p.len() + 1,
    decreases p.len(),
{
    let s = p + seq![f] + rest;
    if p.len() == 0 {
        assert(s[0] == f);
    } else {
        assert(s[0] == p[0]);
        assert(!letter(p[0]));
        assert(s.skip(1) =~= p.skip(1) + seq![f] + rest);
        assert forall|i: int| 0 <= i < p.skip(1).len() implies !letter(#[trigger] p.skip(1)[i]) by {
            assert(p.skip(1)[i] == p[i + 1]);
        }
        lemma_csi_len_is(p.skip(1), f, rest);
    }
}

proof fn lemma_csi_len_open(p: Seq<u8>)
    requires
        letterless(p),
    ensures
        crate::screen::csi_len(p) == p.len(),
    decreases p.len(),
{
    if p.len() > 0 {
        assert(!letter(p[0]));
        assert forall|i: int| 0 <= i < p.skip(1).len() implies !letter(#[trigger] p.skip(1)[i]) by {
            assert(p.skip(1)[i] == p[i + 1]);
        }
        lemma_csi_len_open(p.skip(1));
    }
}

/// A control sequence ends at its first letter, whichever it is: through that letter
/// it is buffered and leaves the cursor alone, and what follows is output like any
/// other.
pub proof fn law_control_sequence(v: ScreenView, p: Seq<u8>, f: u8, rest: Seq<u8>)
    requires
        letterless(p),
        letter(f),
    ensures
        crate::screen::escape_len(seq![27u8, 91u8] + p + seq![f] + rest) == p.len() + 3,
        v.after(seq![27u8, 91u8] + p + seq![f] + rest) == (ScreenView {
            buf: v.buf + (seq![27u8, 91u8] + p + seq![f]),
            col: v.col,
            row: v.row,
        }).after(rest),
{
    let s = seq![27u8, 91u8] + p + seq![f] + rest;
    let n = p.len() as int + 3;
    assert(s.skip(2) =~= p + seq![f] + rest);
    lemma_csi_len_is(p, f, rest);
    assert(s[1] == 91u8);
    assert(s.take(n) =~= seq![27u8, 91u8] + p + seq![f]);
    assert(s.skip(n) =~= rest);
}

/// A control sequence without a letter takes up all of the chunk.
pub proof fn law_open_control_sequence(v: ScreenView, p: Seq<u8>)
    requires
        letterless(p),
    ensures
        v.after(seq![27u8, 91u8] + p) == (ScreenView {
            buf: v.buf + (seq![27u8, 91u8] + p),
            col: v.col,
            row: v.row,
        }),
{
    let s = seq![27u8, 91u8] + p;
    assert(s.skip(2) =~= p);
    lemma_csi_len_open(p);
    crate::screen::lemma_escape_keeps_cursor(v, s);
}

/// An escape byte that no `[` follows is buffered alone.
pub proof fn law_lone_escape_byte(v: ScreenView, rest: Seq<u8>)
    requires
        rest.len() == 0 || rest[0] != 91,
    ensures
        v.after(seq![27u8] + rest) == (ScreenView {
            buf: v.buf.push(27u8),
            col: v.col,
            row: v.row,
        }).after(rest),
{
    let s = seq![27u8] + rest;
    if rest.len() > 0 {
        assert(s[1] == rest[0]);
    }
    assert(s.take(1) =~= seq![27u8]);
    assert(s.skip(1) =~= rest);
    assert(v.buf + seq![27u8] =~= v.buf.push(27u8));
}

/// There is one line more than there are line feeds: nothing is one line, and adding
/// a byte adds a line exactly if it is a line feed.
pub proof fn law_line_count(s: Seq<u8>, b: u8)
    ensures
        crate::screen::line_count(Seq::empty()) == 1,
        b == 10 ==> crate::screen::line_count(s.push(b)) == crate::screen::line_count(s) + 1,
        b != 10 ==> crate::screen::line_count(s.push(b)) == crate::screen::line_count(s),
{
    assert(s.push(b).drop_last() =~= s);
}

/// Reading a number of 64 bits as signed keeps it modulo two to the 64 and brings it
/// into the signed range.
pub proof fn law_as_signed(x: u64)
    ensures
        -0x8000_0000_0000_0000 <= crate::screen::as_signed(x as int) <= 0x7fff_ffff_ffff_ffff,
        crate::screen::as_signed(x as int) == x || crate::screen::as_signed(x as int) == x
            - 0x1_0000_0000_0000_0000,
{
}

// Colour codes.

/// A decimal digit.
pub open spec fn decimal_digit(c: char) -> bool {
    48 <= c as int <= 57
}

/// `s` holds nothing but decimal digits.
pub open spec fn digits(s: Seq<char>) -> bool {
    forall|i: int| 0 <= i < s.len() ==> decimal_digit(#[trigger] s[i])
}

/// `s` holds nothing but decimal digits and semicolons.
pub open spec fn digits_and_semicolons(s: Seq<char>) -> bool {
    forall|i: int| 0 <= i < s.len() ==> (decimal_digit(#[trigger] s[i]) || s[i] as int == 59)
}

/// No digits are worth nothing, and a digit behind others is worth its place in 0 to
/// 9, added to ten times what the others are worth.
pub proof fn law_decimal(s: Seq<char>, d: char, k: int)
    requires
        0 <= k <= 9,
        d as int == 48 + k,
    ensures
        crate::ansi::decimal(Seq::empty()) == 0,
        crate::ansi::decimal(s.push(d)) == 10 * crate::ansi::decimal(s) + k,
{
    assert(s.push(d).drop_last() =~= s);
}

/// Digits spell a code exactly if there are any and they are worth at most 255, and
/// the code is what they are worth.
pub proof fn law_code_is_value(s: Seq<char>, n: int)
    ensures
        crate::ansi::code_of(s) == Some(n) <==> (s.len() > 0 && n == crate::ansi::decimal(s) && n
            <= 255),
        crate::ansi::code_of(s) is None <==> (s.len() == 0 || crate::ansi::decimal(s) > 255),
{
}

proof fn lemma_decimal_zero_first(s: Seq<char>)
    ensures
        crate::ansi::decimal(seq!['0'] + s) == crate::ansi::decimal(s),
    decreases s.len(),
{
    let t = seq!['0'] + s;
    if s.len() == 0 {
        assert(t =~= seq!['0']);
        assert(t.drop_last() =~= Seq::empty());
        assert(crate::ansi::decimal(t.drop_last()) == 0);
    } else {
        assert(t.drop_last() =~= seq!['0'] + s.drop_last());
        assert(t.last() == s.last());
        lemma_decimal_zero_first(s.drop_last());
    }
}

/// A zero in front changes no code.
pub proof fn law_leading_zero(s: Seq<char>, pen: Pen)
    requires
        s.len() > 0,
        digits(s),
    ensures
        crate::ansi::code_of(seq!['0'] + s) == crate::ansi::code_of(s),
        pen.after_codes(seq!['0'] + s) == pen.after_codes(s),
{
    lemma_decimal_zero_first(s);
    assert forall|i: int| 0 <= i < (seq!['0'] + s).len() implies decimal_digit(
        #[trigger] (seq!['0'] + s)[i],
    ) by {
        if i > 0 {
            assert((seq!['0'] + s)[i] == s[i - 1]);
        }
    }
    lemma_one_field(pen, s);
    lemma_one_field(pen, seq!['0'] + s);
}

/// The digits of `n` in base ten.
pub open spec fn spelled(n: nat) -> Seq<char>
    decreases n,
{
    if n < 10 {
        seq![(48 + n) as char]
    } else {
        spelled(n / 10).push((48 + n % 10) as char)
    }
}

/// Every number up to 255, written out in base ten, is read back as the code that it
/// is; larger numbers are no codes.
pub proof fn law_spelled_code(n: nat)
    ensures
        digits(spelled(n)),
        spelled(n).len() > 0,
        crate::ansi::decimal(spelled(n)) == n,
        n <= 255 ==> crate::ansi::code_of(spelled(n)) == Some(n as int),
        n > 255 ==> crate::ansi::code_of(spelled(n)) is None,
    decreases n,
{
    if n < 10 {
        let d = (48 + n) as char;
        assert(d as int == 48 + n);
        assert(spelled(n) =~= Seq::empty().push(d));
        law_decimal(Seq::empty(), d, n as int);
    } else {
        let d = (48 + n % 10) as char;
        assert(d as int == 48 + n % 10);
        law_spelled_code(n / 10);
        law_decimal(spelled(n / 10), d, (n % 10) as int);
        assert forall|i: int| 0 <= i < spelled(n).len() implies decimal_digit(
            #[trigger] spelled(n)[i],
        ) by {
            if i < spelled(n / 10).len() {
                assert(spelled(n)[i] == spelled(n / 10)[i]);
            }
        }
    }
}

proof fn lemma_field_len_digits(s: Seq<char>)
    requires
        digits(s),
    ensures
        crate::ansi::field_len(s) == s.len(),
    decreases s.len(),
{
    if s.len() > 0 {
        assert(decimal_digit(s[0]));
        assert forall|i: int| 0 <= i < s.skip(1).len() implies decimal_digit(
            #[trigger] s.skip(1)[i],
        ) by {
            assert(s.skip(1)[i] == s[i + 1]);
        }
        lemma_field_len_digits(s.skip(1));
    }
}

proof fn lemma_one_field(pen: Pen, s: Seq<char>)
    requires
        digits(s),
    ensures
        pen.after_codes(s) == pen.after_code(crate::ansi::code_of(s)),
{
    lemma_field_len_digits(s);
    assert(s.take(s.len() as int) =~= s);
}

/// The opaque colour of the given parts.
pub open spec fn rgb(r: u8, g: u8, b: u8) -> Color {
    Color { r, g, b, a: 255 }
}

/// The colours that the codes 30 to 37 and 39 select, normal and bright; no other code
/// selects one.
pub proof fn law_palette(n: int, bright: bool)
    ensures
        crate::palette::white() == rgb(255, 255, 255),
        crate::palette::foreground_color(30, false) == Some(rgb(0, 0, 0)),
        crate::palette::foreground_color(30, true) == Some(rgb(96, 96, 96)),
        crate::palette::foreground_color(31, false) == Some(rgb(139, 0, 0)),
        crate::palette::foreground_color(31, true) == Some(rgb(255, 0, 0)),
        crate::palette::foreground_color(32, false) == Some(rgb(0, 100, 0)),
        crate::palette::foreground_color(32, true) == Some(rgb(0, 255, 0)),
        crate::palette::foreground_color(33, false) == Some(rgb(128, 128, 0)),
        crate::palette::foreground_color(33, true) == Some(rgb(255, 255, 0)),
        crate::palette::foreground_color(34, false) == Some(rgb(0, 0, 255)),
        crate::palette::foreground_color(34, true) == Some(rgb(100, 149, 237)),
        crate::palette::foreground_color(35, false) == Some(rgb(128, 0, 128)),
        crate::palette::foreground_color(35, true) == Some(rgb(255, 0, 255)),
        crate::palette::foreground_color(36, false) == Some(rgb(0, 128, 128)),
        crate::palette::foreground_color(36, true) == Some(rgb(0, 255, 255)),
        crate::palette::foreground_color(37, false) == Some(rgb(220, 220, 220)),
        crate::palette::foreground_color(37, true) == Some(rgb(255, 255, 255)),
        crate::palette::foreground_color(39, bright) == Some(rgb(255, 255, 255)),
        n < 30 || n == 38 || n > 39 ==> crate::palette::foreground_color(n, bright) is None,
{
}

/// What one code does to any pen: 0 gives white and not bold, 1 turns bold on and keeps
/// the colour, a code of the palette gives the colour that goes with the pen's boldness
/// and keeps that, and every other code, or none, leaves the pen as it is.
pub proof fn law_one_code(pen: Pen, n: int)
    ensures
        pen.after_code(None) == pen,
        pen.after_code(Some(0)) == (Pen { color: rgb(255, 255, 255), bold: false }),
        pen.after_code(Some(1)) == (Pen { color: pen.color, bold: true }),
        (30 <= n <= 37) || n == 39 ==> {
            &&& crate::palette::foreground_color(n, pen.bold) == Some(
                pen.after_code(Some(n)).color,
            )
            &&& pen.after_code(Some(n)).bold == pen.bold
        },
        n < 0 || (2 <= n < 30) || n == 38 || n > 39 ==> pen.after_code(Some(n)) == pen,
{
}

/// Digits that stand alone in a list of codes do what the code does that they are worth;
/// digits worth more than 255, and no digits at all, do nothing.
pub proof fn law_one_field(pen: Pen, s: Seq<char>)
    requires
        digits(s),
    ensures
        s.len() == 0 || crate::ansi::decimal(s) > 255 ==> pen.after_codes(s) == pen,
        s.len() > 0 && crate::ansi::decimal(s) <= 255 ==> pen.after_codes(s) == pen.after_code(
            Some(crate::ansi::decimal(s) as int),
        ),
{
    lemma_one_field(pen, s);
}

/// A code written out in base ten, with a zero in front or without, does what the code
/// does.
pub proof fn law_spelled_field(pen: Pen, n: nat)
    requires
        n <= 255,
    ensures
        pen.after_codes(spelled(n)) == pen.after_code(Some(n as int)),
        pen.after_codes(seq!['0'] + spelled(n)) == pen.after_code(Some(n as int)),
{
    law_spelled_code(n);
    law_one_field(pen, spelled(n));
    law_leading_zero(spelled(n), pen);
}

/// Bold only chooses among colours selected after it: it changes none that is there, and
/// a colour of the palette is the same whatever colour it replaces.
pub proof fn law_bold_looks_ahead(pen: Pen, other: Pen, n: int)
    requires
        (30 <= n <= 37) || n == 39,
        pen.bold == other.bold,
    ensures
        pen.after_code(Some(1)).color == pen.color,
        pen.after_code(Some(n)) == other.after_code(Some(n)),
{
}

/// What may stand in a list of codes: digits and semicolons.
pub proof fn law_code_list(s: Seq<char>)
    ensures
        crate::ansi::code_list(s) == digits_and_semicolons(s),
        digits(s) ==> forall|i: int| 0 <= i < s.len() ==> crate::ascii::digit(#[trigger] s[i]),
{
    if crate::ansi::code_list(s) {
        assert forall|i: int| 0 <= i < s.len() implies (decimal_digit(#[trigger] s[i])
            || s[i] as int == 59) by {
            assert(crate::ansi::parameter(s[i]));
        }
    }
    if digits_and_semicolons(s) {
        assert forall|i: int| 0 <= i < s.len() implies crate::ansi::parameter(#[trigger] s[i]) by {
            assert(decimal_digit(s[i]) || s[i] as int == 59);
        }
    }
}

// Text and the spans it is shown as.

/// A character that is shown: a visible ASCII character, or a space, tab, line feed,
/// form feed or carriage return.
pub open spec fn displayed(c: char) -> bool {
    let n = c as int;
    (32 <= n <= 126) || n == 9 || n == 10 || n == 12 || n == 13
}

/// No character of `s` is an escape character.
pub open spec fn escapeless(s: Seq<char>) -> bool {
    forall|i: int| 0 <= i < s.len() ==> (#[trigger] s[i]) as int != 27
}

/// All characters of `s` are from the space to the question mark.
pub open spec fn inner(s: Seq<char>) -> bool {
    forall|i: int| 0 <= i < s.len() ==> 32 <= (#[trigger] s[i]) as int <= 63
}

/// Text starts out white and not bold.
pub proof fn law_plain_pen()
    ensures
        Pen::plain() == (Pen { color: rgb(255, 255, 255), bold: false }),
{
}

/// A character adds to what is shown exactly if it is displayed, and then itself, at the
/// end.
pub proof fn law_visible(s: Seq<char>, c: char)
    ensures
        crate::ansi::visible(Seq::empty()) == Seq::<char>::empty(),
        displayed(c) ==> crate::ansi::visible(s.push(c)) == crate::ansi::visible(s).push(c),
        !displayed(c) ==> crate::ansi::visible(s.push(c)) == crate::ansi::visible(s),
{
    assert(s.push(c).drop_last() =~= s);
}

/// Text without an escape character is one span of what is shown of it, in the colour of
/// the pen, or no span where nothing is.
pub proof fn law_run(run: Seq<char>, pen: Pen)
    requires
        escapeless(run),
    ensures
        crate::ansi::visible(run).len() == 0 ==> crate::ansi::spans_of(run, pen) == Seq::<
            Span,
        >::empty(),
        crate::ansi::visible(run).len() > 0 ==> crate::ansi::spans_of(run, pen) == seq![
            Span { text: crate::ansi::visible(run), color: pen.color },
        ],
{
    assert forall|i: int| 0 <= i < run.len() implies #[trigger] run[i] != '\x1b' by {
        assert(run[i] as int != 27);
    }
    crate::ansi::lemma_plain_text(run, pen);
}

/// Text before an escape character is shown on its own, with the pen as it is, and what
/// follows starts with the same pen.
pub proof fn law_run_then_escape(run: Seq<char>, rest: Seq<char>, pen: Pen)
    requires
        escapeless(run),
    ensures
        crate::ansi::spans_of(run + (seq!['\x1b'] + rest), pen) == crate::ansi::spans_of(run, pen)
            + crate::ansi::spans_of(seq!['\x1b'] + rest, pen),
{
    lemma_run_len_is(run, rest);
    lemma_run_len_is(Seq::empty(), rest);
    let b = seq!['\x1b'] + rest;
    let s = run + b;
    let n = run.len() as int;
    assert(Seq::<char>::empty() + b =~= b);
    assert(s.take(n) =~= run);
    assert(s.skip(n) =~= b);
    assert(b.skip(0) =~= b);
    let k = crate::ansi::sequence_len(b) as int;
    crate::ansi::lemma_sequence_len(b);
    assert(s.skip(n + k) =~= b.skip(k));
    assert(crate::ansi::visible(b.take(0)).len() == 0);
    let tail = crate::ansi::spans_of(b.skip(k), pen.after_sequence(b));
    assert(crate::ansi::spans_of(b, pen) =~= tail);
    law_run(run, pen);
    assert forall|i: int| 0 <= i < run.len() implies #[trigger] run[i] != '\x1b' by {
        assert(run[i] as int != 27);
    }
    crate::ansi::lemma_plain_text(run, pen);
    assert(crate::ansi::spans_of(s, pen) == crate::ansi::run_spans(run, pen.color) + tail);
}

proof fn lemma_run_len_is(run: Seq<char>, rest: Seq<char>)
    requires
        escapeless(run),
    ensures
        crate::ansi::run_len(run + (seq!['\x1b'] + rest)) == run.len(),
    decreases run.len(),
{
    let s = run + (seq!['\x1b'] + rest);
    if run.len() == 0 {
        assert(s[0] == '\x1b');
    } else {
        assert(s[0] == run[0]);
        assert(run[0] as int != 27);
        assert(s.skip(1) =~= run.skip(1) + (seq!['\x1b'] + rest));
        assert forall|i: int| 0 <= i < run.skip(1).len() implies (#[trigger] run.skip(
            1,
        )[i]) as int != 27 by {
            assert(run.skip(1)[i] == run[i + 1]);
        }
        lemma_run_len_is(run.skip(1), rest);
    }
}

/// An escape character that no `[` follows shows nothing and changes nothing.
pub proof fn law_lone_escape(rest: Seq<char>, pen: Pen)
    requires
        rest.len() == 0 || rest[0] != '[',
    ensures
        crate::ansi::spans_of(seq!['\x1b'] + rest, pen) == crate::ansi::spans_of(rest, pen),
{
    let q = seq!['\x1b'];
    let s = q + rest;
    if rest.len() > 0 {
        assert(s[1] == rest[0]);
    }
    crate::ansi::lemma_other_sequence(q, rest, pen);
}

/// A list of codes and an `m` show nothing and colour what follows.
pub proof fn law_colors_follow(p: Seq<char>, rest: Seq<char>, pen: Pen)
    requires
        digits_and_semicolons(p),
    ensures
        crate::ansi::spans_of(seq!['\x1b', '['] + p + seq!['m'] + rest, pen)
            == crate::ansi::spans_of(rest, pen.after_codes(p)),
{
    law_code_list(p);
    crate::ansi::lemma_color_sequence(p, rest, pen);
}

proof fn lemma_inner(p: Seq<char>)
    requires
        inner(p),
    ensures
        forall|i: int| 0 <= i < p.len() ==> crate::ansi::in_sequence(#[trigger] p[i]),
{
    assert forall|i: int| 0 <= i < p.len() implies crate::ansi::in_sequence(#[trigger] p[i]) by {
        assert(32 <= p[i] as int <= 63);
    }
}

/// Any other control sequence shows nothing and changes nothing: one that a character
/// from `@` to `~` ends, and a list of codes, whatever ends it.
pub proof fn law_other_control_sequence(p: Seq<char>, f: char, rest: Seq<char>, pen: Pen)
    requires
        inner(p),
        !(32 <= f as int <= 63),
        digits_and_semicolons(p) || 64 <= f as int <= 126,
        !(f == 'm' && digits_and_semicolons(p)),
    ensures
        crate::ansi::spans_of(seq!['\x1b', '['] + p + seq![f] + rest, pen)
            == crate::ansi::spans_of(rest, pen),
{
    law_code_list(p);
    lemma_inner(p);
    crate::ansi::lemma_control_sequence_ignored(p, f, rest, pen);
}

/// A control sequence that is no list of codes is broken off by any other character,
/// which then counts as text or starts the next sequence.
pub proof fn law_broken_off(p: Seq<char>, f: char, rest: Seq<char>, pen: Pen)
    requires
        inner(p),
        !digits_and_semicolons(p),
        (f as int) < 32 || (f as int) > 126,
    ensures
        crate::ansi::spans_of(seq!['\x1b', '['] + p + (seq![f] + rest), pen)
            == crate::ansi::spans_of(seq![f] + rest, pen),
{
    law_code_list(p);
    let q = seq!['\x1b', '['] + p;
    let tail = seq![f] + rest;
    let s = q + tail;
    assert(s.skip(2) =~= p + tail);
    assert(tail[0] == f);
    lemma_params_len_is(p, tail);
    let end = 2 + p.len() as int;
    assert(s.subrange(2, end) =~= p);
    assert(s[end] == f);
    assert(s[1] == '[');
    if crate::ansi::selects_colors(q) {
        assert(q.last() == p.last());
        assert(32 <= p[p.len() - 1] as int <= 63);
    }
    crate::ansi::lemma_other_sequence(q, tail, pen);
}

proof fn lemma_params_len_is(p: Seq<char>, tail: Seq<char>)
    requires
        inner(p),
        tail.len() == 0 || !(32 <= tail[0] as int <= 63),
    ensures
        crate::ansi::params_len(p + tail) == p.len(),
    decreases p.len(),
{
    let s = p + tail;
    if p.len() == 0 {
        assert(s =~= tail);
    } else {
        assert(s[0] == p[0]);
        assert(32 <= p[0] as int <= 63);
        assert(s.skip(1) =~= p.skip(1) + tail);
        assert forall|i: int| 0 <= i < p.skip(1).len() implies 32 <= (#[trigger] p.skip(
            1,
        )[i]) as int <= 63 by {
            assert(p.skip(1)[i] == p[i + 1]);
        }
        lemma_params_len_is(p.skip(1), tail);
    }
}

/// A control sequence that the text ends in shows nothing.
pub proof fn law_unfinished(p: Seq<char>, pen: Pen)
    requires
        inner(p),
    ensures
        crate::ansi::spans_of(seq!['\x1b', '['] + p, pen) == Seq::<Span>::empty(),
{
    let q = seq!['\x1b', '['] + p;
    let none = Seq::<char>::empty();
    assert(q + none =~= q);
    assert(q.skip(2) =~= p);
    assert(p + none =~= p);
    lemma_params_len_is(p, none);
    assert(q[1] == '[');
    if crate::ansi::selects_colors(q) {
        assert(q.last() == p[p.len() - 1]);
        assert(32 <= p[p.len() - 1] as int <= 63);
    }
    crate::ansi::lemma_other_sequence(q, none, pen);
    law_run(none, pen);
    assert(crate::ansi::visible(none).len() == 0);
}

/// The spans of sections are their texts and their colours, one for one.
pub proof fn law_sections(sections: Seq<Section>, i: int)
    requires
        0 <= i < sections.len(),
    ensures
        crate::ansi::sections_view(sections).len() == sections.len(),
        crate::ansi::sections_view(sections)[i].text == sections[i].text@,
        crate::ansi::sections_view(sections)[i].color == sections[i].color,
{
}

/// The classes of bytes and characters, by their numbers.
pub proof fn law_classes(b: u8, c: char)
    ensures
        crate::ascii::alphabetic(b) == letter(b),
        crate::ascii::graphic(b) == (33 <= b <= 126),
        crate::ascii::cell(b) == ((32 <= b <= 126) || b == 9),
        crate::ascii::digit(c) == decimal_digit(c),
        crate::ascii::shown(c) == displayed(c),
{
}

// Cleaning the output.

/// `pattern` stands somewhere in `s`.
pub open spec fn stands_in(pattern: Seq<char>, s: Seq<char>) -> bool {
    exists|i: int|
        0 <= i && i + pattern.len() <= s.len() && #[trigger] s.subrange(i, i + pattern.len())
            == pattern
}

/// The two sequences of bracketed paste, character by character.
pub proof fn law_paste_sequences()
    ensures
        crate::strings::paste_on() == seq!['\x1b', '[', '?', '2', '0', '0', '4', 'h'],
        crate::strings::paste_off() == seq!['\x1b', '[', '?', '2', '0', '0', '4', 'l'],
{
}

/// A pattern that stands nowhere is not removed.
pub proof fn law_absent_pattern(s: Seq<char>, pattern: Seq<char>)
    requires
        pattern.len() > 0,
        !stands_in(pattern, s),
    ensures
        crate::strings::remove_all(s, pattern) == s,
{
    assert forall|i: int| 0 <= i < s.len() implies !crate::strings::starts_with(
        #[trigger] s.skip(i),
        pattern,
    ) by {
        if crate::strings::starts_with(s.skip(i), pattern) {
            assert(s.skip(i).take(pattern.len() as int) =~= s.subrange(i, i + pattern.len()));
        }
    }
    crate::strings::lemma_absent_pattern(s, pattern);
}

/// What stands in a part of the text stands in the text.
proof fn lemma_stands_in_part(pattern: Seq<char>, a: Seq<char>, b: Seq<char>, c: Seq<char>)
    requires
        stands_in(pattern, b),
    ensures
        stands_in(pattern, a + b + c),
{
    let i = choose|i: int|
        0 <= i && i + pattern.len() <= b.len() && #[trigger] b.subrange(i, i + pattern.len())
            == pattern;
    let s = a + b + c;
    let j = a.len() + i;
    assert(s.subrange(j, j + pattern.len()) =~= b.subrange(i, i + pattern.len()));
}

/// Cleaning removes nothing but the two sequences: text in which neither stands is left
/// as it is, whatever other escape sequences it holds.
pub proof fn law_nothing_else_removed(s: Seq<char>)
    requires
        !stands_in(seq!['\x1b', '[', '?', '2', '0', '0', '4', 'h'], s),
        !stands_in(seq!['\x1b', '[', '?', '2', '0', '0', '4', 'l'], s),
    ensures
        crate::strings::without_paste_mode(s) == s,
{
    law_paste_sequences();
    law_absent_pattern(s, crate::strings::paste_on());
    law_absent_pattern(s, crate::strings::paste_off());
}

/// A sequence that turns bracketed paste on is taken out, and nothing around it.
pub proof fn law_paste_on_removed(a: Seq<char>, b: Seq<char>)
    requires
        !stands_in(seq!['\x1b', '[', '?', '2', '0', '0', '4', 'h'], a + b),
        !stands_in(seq!['\x1b', '[', '?', '2', '0', '0', '4', 'l'], a + b),
    ensures
        crate::strings::without_paste_mode(
            a + seq!['\x1b', '[', '?', '2', '0', '0', '4', 'h'] + b,
        ) == a + b,
{
    law_paste_sequences();
    let on = crate::strings::paste_on();
    lemma_parts_hold_none(on, a, b);
    crate::strings::lemma_paste_heads();
    crate::strings::lemma_occurrence_removed(a, on, b);
    law_absent_pattern(a, on);
    law_absent_pattern(b, on);
    law_absent_pattern(a + b, crate::strings::paste_off());
}

proof fn lemma_parts_hold_none(pattern: Seq<char>, a: Seq<char>, b: Seq<char>)
    requires
        !stands_in(pattern, a + b),
    ensures
        !stands_in(pattern, a),
        !stands_in(pattern, b),
{
    let none = Seq::<char>::empty();
    if stands_in(pattern, a) {
        lemma_stands_in_part(pattern, none, a, b);
        assert(none + a + b =~= a + b);
    }
    if stands_in(pattern, b) {
        lemma_stands_in_part(pattern, a, b, none);
        assert(a + b + none =~= a + b);
    }
}

/// A sequence that turns bracketed paste off is taken out, and nothing around it.
pub proof fn law_paste_off_removed(a: Seq<char>, b: Seq<char>)
    requires
        !stands_in(seq!['\x1b', '[', '?', '2', '0', '0', '4', 'h'], a + b),
        !stands_in(seq!['\x1b', '[', '?', '2', '0', '0', '4', 'l'], a + b),
    ensures
        crate::strings::without_paste_mode(
            a + seq!['\x1b', '[', '?', '2', '0', '0', '4', 'l'] + b,
        ) == a + b,
{
    law_paste_sequences();
    let on = crate::strings::paste_on();
    let off = crate::strings::paste_off();
    lemma_parts_hold_none(on, a, b);
    lemma_parts_hold_none(off, a, b);
    lemma_no_on_around_off(a, b);
    law_absent_pattern(a + off + b, on);
    crate::strings::lemma_paste_heads();
    crate::strings::lemma_occurrence_removed(a, off, b);
    law_absent_pattern(a, off);
    law_absent_pattern(b, off);
}

proof fn lemma_no_on_around_off(a: Seq<char>, b: Seq<char>)
    requires
        !stands_in(crate::strings::paste_on(), a),
        !stands_in(crate::strings::paste_on(), b),
    ensures
        !stands_in(crate::strings::paste_on(), a + crate::strings::paste_off() + b),
{
    let on = crate::strings::paste_on();
    let off = crate::strings::paste_off();
    let s = a + off + b;
    if stands_in(on, s) {
        let i = choose|i: int|
            0 <= i && i + on.len() <= s.len() && #[trigger] s.subrange(i, i + on.len()) == on;
        let w = s.subrange(i, i + on.len());
        let n = a.len() as int;
        assert(w[0] == s[i] && w[7] == s[i + 7]);
        if i + 8 <= n {
            assert(a.subrange(i, i + on.len()) =~= w);
        } else if i < n {
            // The escape character of the second sequence would be inside the first.
            assert(s[n] == off[0]);
            assert(w[n - i] == s[n]);
        } else if i == n {
            assert(s[i + 7] == off[7]);
        } else if i < n + 8 {
            assert(s[i] == off[i - n]);
        } else {
            let j = i - n - 8;
            assert(b.subrange(j, j + on.len()) =~= w);
        }
    }
}

/// Every sequence that turns bracketed paste off parts the text, where none turns it on:
/// what stands before it and what stands behind it are cleaned apart.
pub proof fn law_paste_off_parts(a: Seq<char>, b: Seq<char>)
    requires
        !stands_in(
            seq!['\x1b', '[', '?', '2', '0', '0', '4', 'h'],
            a + seq!['\x1b', '[', '?', '2', '0', '0', '4', 'l'] + b,
        ),
    ensures
        crate::strings::without_paste_mode(
            a + seq!['\x1b', '[', '?', '2', '0', '0', '4', 'l'] + b,
        ) == crate::strings::without_paste_mode(a) + crate::strings::without_paste_mode(b),
{
    law_paste_sequences();
    let on = crate::strings::paste_on();
    let off = crate::strings::paste_off();
    lemma_parts_hold_none(on, a + off, b);
    lemma_parts_hold_none(on, a, off);
    law_absent_pattern(a + off + b, on);
    law_absent_pattern(a, on);
    law_absent_pattern(b, on);
    crate::strings::lemma_paste_heads();
    crate::strings::lemma_occurrence_removed(a, off, b);
}

/// Every sequence that turns bracketed paste on, however many there are, is taken out of
/// the text before those that turn it off are looked for. Where taking them out puts no
/// new one together, the text is cleaned as if they had never been there.
pub proof fn law_paste_on_goes_first(a: Seq<char>, b: Seq<char>)
    ensures
        ({
            let on = seq!['\x1b', '[', '?', '2', '0', '0', '4', 'h'];
            let off = seq!['\x1b', '[', '?', '2', '0', '0', '4', 'l'];
            let t = crate::strings::remove_all(a, on) + crate::strings::remove_all(b, on);
            let cleaned = crate::strings::without_paste_mode(a + on + b);
            &&& cleaned == crate::strings::remove_all(t, off)
            &&& !stands_in(on, t) ==> cleaned == crate::strings::without_paste_mode(t)
        }),
{
    law_paste_sequences();
    let on = crate::strings::paste_on();
    let t = crate::strings::remove_all(a, on) + crate::strings::remove_all(b, on);
    crate::strings::lemma_paste_heads();
    crate::strings::lemma_occurrence_removed(a, on, b);
    if !stands_in(on, t) {
        law_absent_pattern(t, on);
    }
}

// Typing.

/// Nothing is blank, and a character keeps a text blank exactly if it is white space,
/// which in ASCII are the tab, the four characters behind it and the space.
pub proof fn law_blank(s: Seq<char>, c: char)
    ensures
        crate::strings::blank(Seq::empty()),
        crate::strings::blank(s.push(c)) == (crate::strings::blank(s)
            && crate::strings::white_space(c)),
        (c as int) < 128 ==> crate::strings::white_space(c) == ((9 <= c as int <= 13) || c as int
            == 32),
{
    let t = s.push(c);
    if crate::strings::blank(t) {
        assert(t[s.len() as int] == c);
        assert forall|i: int| 0 <= i < s.len() implies crate::strings::white_space(
            #[trigger] s[i],
        ) by {
            assert(t[i] == s[i]);
        }
    }
    if crate::strings::blank(s) && crate::strings::white_space(c) {
        assert forall|i: int| 0 <= i < t.len() implies crate::strings::white_space(
            #[trigger] t[i],
        ) by {
            if i < s.len() {
                assert(t[i] == s[i]);
            }
        }
    }
}

/// The screen, the history and the place where the cursor was last seen are the same in
/// both sessions.
pub open spec fn same_but_command(v: TermionView, w: TermionView) -> bool {
    &&& v.screen == w.screen
    &&& v.history == w.history
    &&& v.seen_col == w.seen_col
    &&& v.seen_row == w.seen_row
}

/// Typed text joins the command, and the bytes that go to the shell are UTF-8 for just
/// that text.
pub proof fn law_typing(v: TermionView, text: String)
    ensures
        v.after_event(InputEvent::Text(text)).command == v.command + text@,
        same_but_command(v, v.after_event(InputEvent::Text(text))),
        v.sent_by(InputEvent::Text(text)) matches PtyWriteView::All(bytes, origin) && {
            &&& origin == Origin::Typed
            &&& valid_utf8(bytes)
            &&& decode_utf8(bytes) == text@
        },
{
    vstd::utf8::encode_utf8_valid_utf8(text@);
    vstd::utf8::encode_utf8_decode_utf8(text@);
}

/// Enter sends one line feed and empties the command. The command becomes the latest of
/// the history exactly if some character of it is not white space; the commands before
/// it stay.
pub proof fn law_enter(v: TermionView)
    ensures
        ({
            let w = v.after_event(InputEvent::Enter { pressed: true });
            let kept = exists|i: int|
                0 <= i < v.command.len() && !crate::strings::white_space(#[trigger] v.command[i]);
            &&& w.command.len() == 0
            &&& kept ==> w.history == v.history.push(v.command)
            &&& !kept ==> w.history == v.history
            &&& w.screen == v.screen
            &&& w.seen_col == v.seen_col
            &&& w.seen_row == v.seen_row
        }),
        v.sent_by(InputEvent::Enter { pressed: true }) == PtyWriteView::All(
            seq![10u8],
            Origin::Typed,
        ),
{
}

/// A press of backspace takes the last character off the command exactly if it sends a
/// delete to the shell, and it sends nothing exactly if the command is empty.
pub proof fn law_backspace(v: TermionView)
    ensures
        ({
            let w = v.after_event(InputEvent::Backspace { pressed: true });
            let sent = v.sent_by(InputEvent::Backspace { pressed: true });
            &&& (w.command.len() < v.command.len()) <==> sent == PtyWriteView::Once(seq![127u8])
            &&& (v.command.len() == 0) <==> sent == PtyWriteView::Nothing
            &&& v.command.len() == 0 ==> w.command == v.command
            &&& v.command.len() > 0 ==> v.command == w.command.push(v.command.last())
            &&& same_but_command(v, w)
        }),
{
    if v.command.len() > 0 {
        assert(v.command.drop_last().push(v.command.last()) =~= v.command);
    }
}

/// Keys that are released, and all other events, change nothing and send nothing.
pub proof fn law_idle_events(v: TermionView)
    ensures
        v.after_event(InputEvent::Enter { pressed: false }) == v,
        v.after_event(InputEvent::Backspace { pressed: false }) == v,
        v.after_event(InputEvent::Other) == v,
        v.sent_by(InputEvent::Enter { pressed: false }) == PtyWriteView::Nothing,
        v.sent_by(InputEvent::Backspace { pressed: false }) == PtyWriteView::Nothing,
        v.sent_by(InputEvent::Other) == PtyWriteView::Nothing,
{
}

/// The line that a shell holds after it got some bytes, when it held `line` before: a
/// line feed enters it, a delete takes its last character off, and text is added.
pub open spec fn shell_line(line: Seq<char>, sent: PtyWriteView) -> Seq<char> {
    match sent {
        PtyWriteView::Nothing => line,
        PtyWriteView::Once(bytes) => if bytes == seq![127u8] && line.len() > 0 {
            line.drop_last()
        } else {
            line + decode_utf8(bytes)
        },
        PtyWriteView::All(bytes, _) => if bytes == seq![10u8] {
            Seq::empty()
        } else {
            line + decode_utf8(bytes)
        },
    }
}

/// The line that the shell holds stays equal to the command of the session, event by
/// event, for typed text other than a lone line feed.
pub proof fn law_shell_keeps_up(v: TermionView, event: InputEvent)
    requires
        event matches InputEvent::Text(text) ==> text@ != seq!['\n'],
    ensures
        shell_line(v.command, v.sent_by(event)) == v.after_event(event).command,
{
    match event {
        InputEvent::Text(text) => {
            let bytes = encode_utf8(text@);
            vstd::utf8::encode_utf8_decode_utf8(text@);
            if bytes == seq![10u8] {
                let nl = seq!['\n'];
                assert(nl.drop_first() =~= Seq::empty());
                assert(encode_utf8(nl.drop_first()) =~= Seq::empty());
                assert(10u32 & 0x7f == 10) by (bit_vector);
                assert(encode_utf8(nl) =~= seq![10u8]);
                vstd::utf8::encode_utf8_decode_utf8(nl);
            }
        },
        InputEvent::Enter { pressed } => {},
        InputEvent::Backspace { pressed } => {
            assert(seq![127u8] =~= seq![crate::ascii::DEL]);
        },
        InputEvent::Other => {},
    }
}

/// The session after a series of events.
pub open spec fn after_events(v: TermionView, events: Seq<InputEvent>) -> TermionView
    decreases events.len(),
{
    if events.len() == 0 {
        v
    } else {
        after_events(v, events.drop_last()).after_event(events.last())
    }
}

/// All commands are stored: whatever events follow, the history starts with the commands
/// that were in it.
pub proof fn law_history_is_kept(v: TermionView, events: Seq<InputEvent>, i: int)
    requires
        0 <= i < v.history.len(),
    ensures
        v.history.len() <= after_events(v, events).history.len(),
        after_events(v, events).history[i] == v.history[i],
    decreases events.len(),
{
    if events.len() > 0 {
        law_history_is_kept(v, events.drop_last(), i);
        crate::session::lemma_history_grows(after_events(v, events.drop_last()), events.last());
    }
}

/// What an event sends is what its view says: nothing, one attempt, or all of it.
pub proof fn law_write_view(write: PtyWrite)
    ensures
        match write {
            PtyWrite::Nothing => write@ == PtyWriteView::Nothing,
            PtyWrite::Once(bytes) => write@ == PtyWriteView::Once(bytes@),
            PtyWrite::All(out) => write@ == PtyWriteView::All(out@, out.from()),
        },
{
}

/// The commands of the history are the strings that hold them, one for one.
pub proof fn law_commands_view(commands: Seq<String>, i: int)
    requires
        0 <= i < commands.len(),
    ensures
        crate::session::commands_view(commands).len() == commands.len(),
        crate::session::commands_view(commands)[i] == commands[i]@,
{
}

/// The user is told about every failed write but one kind: a closed shell while typing.
pub proof fn law_reported(origin: Origin, fault: Fault)
    ensures
        !crate::outgoing::reported(origin, fault) <==> (origin == Origin::Typed && fault
            == Fault::BrokenPipe),
{
}

/// Dropping the command, or taking in output, changes nothing else of a session.
pub proof fn law_one_part_changes(v: TermionView, command: Seq<char>, screen: ScreenView)
    ensures
        v.with_command(command).command == command,
        same_but_command(v, v.with_command(command)),
        v.with_screen(screen).screen == screen,
        v.with_screen(screen).history == v.history,
        v.with_screen(screen).command == v.command,
        v.with_screen(screen).seen_col == v.seen_col,
        v.with_screen(screen).seen_row == v.seen_row,
{
}

// Following the cursor.

/// The cursor counts as unmoved exactly where it was last seen, in column and row.
pub proof fn law_cursor_moved(v: TermionView)
    ensures
        !v.cursor_moved() <==> (v.screen.col, v.screen.row) == (v.seen_col, v.seen_row),
{
}

/// Bringing the cursor into view remembers its place and changes nothing else.
pub proof fn law_cursor_seen(v: TermionView)
    ensures
        (v.cursor_seen().seen_col, v.cursor_seen().seen_row) == (v.screen.col, v.screen.row),
        v.cursor_seen().screen == v.screen,
        v.cursor_seen().history == v.history,
        v.cursor_seen().command == v.command,
{
}

/// After the cursor was seen, a line that grows to the right and a new line each count as
/// movement, and a control sequence does not.
pub proof fn law_output_moves_cursor(v: TermionView, s: Seq<u8>, p: Seq<u8>, f: u8)
    requires
        s.len() > 0,
        forall|i: int| 0 <= i < s.len() ==> 32 <= #[trigger] s[i] <= 126 || s[i] == 9,
        letterless(p),
        letter(f),
    ensures
        v.cursor_seen().with_screen(v.screen.after(s)).cursor_moved(),
        v.cursor_seen().with_screen(v.screen.after(seq![10u8])).cursor_moved(),
        !v.cursor_seen().with_screen(
            v.screen.after(seq![27u8, 91u8] + p + seq![f]),
        ).cursor_moved(),
{
    let none = Seq::<u8>::empty();
    assert forall|i: int| 0 <= i < s.len() implies crate::ascii::cell(#[trigger] s[i]) by {
        assert(32 <= s[i] <= 126 || s[i] == 9);
    }
    crate::screen::lemma_cells(v.screen, s);
    law_line_feed(v.screen, none);
    assert(seq![10u8] + none =~= seq![10u8]);
    law_control_sequence(v.screen, p, f, none);
    assert(seq![27u8, 91u8] + p + seq![f] + none =~= seq![27u8, 91u8] + p + seq![f]);
}

} // verus!
