//! The screen buffer, its cursor, and what a chunk of shell output does to them.

use vstd::prelude::*;

use crate::ascii::{BS, CR, DEL, ESC, LF};
use crate::ascii::{is_alphabetic, is_cell};

verus! {

/// The number of bytes of `s` up to and including its first letter; all of them
/// where there is none.
pub open spec fn csi_len(s: Seq<u8>) -> nat
    decreases s.len(),
{
    if s.len() == 0 {
        0
    } else if crate::ascii::alphabetic(s[0]) {
        1
    } else {
        1 + csi_len(s.skip(1))
    }
}

/// The number of bytes of the escape sequence at the start of `s`, which starts
/// with an escape byte: the escape byte alone, or, where a `[` follows, all bytes
/// through the letter that ends the control sequence.
pub open spec fn escape_len(s: Seq<u8>) -> nat {
    if s.len() >= 2 && s[1] == 0x5b {
        2 + csi_len(s.skip(2))
    } else {
        1
    }
}

/// What a screen holds: the buffered bytes, and the cursor's column and row.
#[verifier::ext_equal]
pub struct ScreenView {
    pub buf: Seq<u8>,
    pub col: int,
    pub row: int,
}

impl ScreenView {
    /// The screen after the byte `c`, which is not an escape byte.
    pub open spec fn put(self, c: u8) -> ScreenView {
        if c == BS || c == DEL {
            ScreenView {
                buf: if self.buf.len() > 0 {
                    self.buf.drop_last()
                } else {
                    self.buf
                },
                col: if self.col > 0 {
                    self.col - 1
                } else {
                    0
                },
                row: self.row,
            }
        } else if c == LF {
            ScreenView { buf: self.buf.push(c), col: 0, row: self.row + 1 }
        } else if c == CR {
            ScreenView { buf: self.buf.push(c), col: 0, row: self.row }
        } else if crate::ascii::cell(c) {
            ScreenView { buf: self.buf.push(c), col: self.col + 1, row: self.row }
        } else {
            self
        }
    }

    /// The screen with `s` added to the buffer and the cursor where it was.
    pub open spec fn append(self, s: Seq<u8>) -> ScreenView {
        ScreenView { buf: self.buf + s, col: self.col, row: self.row }
    }

    /// The screen after the chunk `s`: escape sequences are buffered as they are,
    /// every other byte is put on its own.
    pub open spec fn after(self, s: Seq<u8>) -> ScreenView
        decreases s.len(),
    {
        if s.len() == 0 {
            self
        } else if s[0] == ESC {
            proof {
                lemma_escape_len(s);
            }
            let n = escape_len(s) as int;
            self.append(s.take(n)).after(s.skip(n))
        } else {
            self.put(s[0]).after(s.skip(1))
        }
    }
}

/// A control sequence ends within the bytes it is read from.
proof fn lemma_csi_len(s: Seq<u8>)
    ensures
        csi_len(s) <= s.len(),
        s.len() > 0 ==> csi_len(s) >= 1,
    decreases s.len(),
{
    if s.len() > 0 && !crate::ascii::alphabetic(s[0]) {
        lemma_csi_len(s.skip(1));
    }
}

/// An escape sequence is not empty and ends within the bytes it is read from.
pub proof fn lemma_escape_len(s: Seq<u8>)
    requires
        s.len() > 0,
    ensures
        1 <= escape_len(s) <= s.len(),
{
    if s.len() >= 2 {
        lemma_csi_len(s.skip(2));
    }
}

/// The cursor never moves up, and moves down at most one row per byte.
pub proof fn lemma_row_bounds(v: ScreenView, s: Seq<u8>)
    ensures
        v.row <= v.after(s).row <= v.row + s.len(),
    decreases s.len(),
{
    if s.len() > 0 {
        if s[0] == ESC {
            lemma_escape_len(s);
            let n = escape_len(s) as int;
            lemma_row_bounds(v.append(s.take(n)), s.skip(n));
        } else {
            lemma_row_bounds(v.put(s[0]), s.skip(1));
        }
    }
}

/// Copies the escape sequence that starts at `incoming[start]` to the end of `buf`
/// and returns the index behind it.
fn copy_escape(buf: &mut Vec<u8>, incoming: &[u8], start: usize) -> (next: usize)
    requires
        start < incoming@.len(),
        incoming@[start as int] == ESC,
    ensures
        next == start + escape_len(incoming@.skip(start as int)),
        start < next <= incoming@.len(),
        final(buf)@ == old(buf)@ + incoming@.subrange(start as int, next as int),
{
    let ghost s = incoming@.skip(start as int);
    proof {
        lemma_escape_len(s);
    }
    buf.push(incoming[start]);
    let mut i: usize = start + 1;
    if i < incoming.len() && incoming[i] == 0x5b {
        buf.push(incoming[i]);
        i = i + 1;
        assert(s.skip(2) =~= incoming@.skip(i as int));
        while i < incoming.len()
            invariant_except_break
                escape_len(s) == (i - start) + csi_len(incoming@.skip(i as int)),
            invariant
                start + 2 <= i <= incoming@.len(),
                s == incoming@.skip(start as int),
                buf@ == old(buf)@ + incoming@.subrange(start as int, i as int),
            ensures
                escape_len(s) == i - start,
            decreases incoming@.len() - i,
        {
            let c = incoming[i];
            assert(incoming@.skip(i as int)[0] == c);
            assert(incoming@.skip(i as int).skip(1) =~= incoming@.skip(i + 1));
            buf.push(c);
            i = i + 1;
            if is_alphabetic(c) {
                break;
            }
        }
    }
    i
}

/// The bytes received from the shell and the position of the cursor.
pub struct Screen {
    buf: Vec<u8>,
    cursor_pos: (usize, usize),
}

impl View for Screen {
    type V = ScreenView;

    closed spec fn view(&self) -> ScreenView {
        ScreenView {
            buf: self.buf@,
            col: self.cursor_pos.0 as int,
            row: self.cursor_pos.1 as int,
        }
    }
}

impl Screen {
    /// A screen's column is backed by at least as many buffered bytes, and its row is
    /// one that can be counted.
    pub open spec fn wf(&self) -> bool {
        &&& 0 <= self@.col <= self@.buf.len()
        &&& 0 <= self@.row <= usize::MAX
    }

    /// The rows that `incoming` moves down can still be counted. The first
    /// alternative implies the second, which is the exact condition.
    pub open spec fn has_room(&self, incoming: &[u8]) -> bool {
        ||| self@.row + incoming.len() <= usize::MAX
        ||| self@.after(incoming@).row <= usize::MAX
    }

    /// An empty screen with the cursor in its first cell.
    pub fn new() -> (r: Screen)
        ensures
            r.wf(),
            r@ == (ScreenView { buf: Seq::empty(), col: 0, row: 0 }),
    {
        Screen { buf: Vec::new(), cursor_pos: (0, 0) }
    }

    /// Takes in a chunk of shell output.
    pub fn ingest(&mut self, incoming: &[u8])
        requires
            old(self).wf(),
            old(self).has_room(incoming),
        ensures
            final(self).wf(),
            final(self)@ == old(self)@.after(incoming@),
    {
        let mut i: usize = 0;
        let ghost end = self@.after(incoming@);
        proof {
            lemma_row_bounds(self@, incoming@);
            assert(incoming@.skip(0) =~= incoming@);
        }
        while i < incoming.len()
            invariant
                i <= incoming@.len(),
                self.wf(),
                end.row <= usize::MAX,
                self@.after(incoming@.skip(i as int)) == end,
            decreases incoming@.len() - i,
        {
            let ghost before = self@;
            let ghost rest = incoming@.skip(i as int);
            let c = incoming[i];
            assert(rest[0] == c);
            if c == ESC {
                let next = copy_escape(&mut self.buf, incoming, i);
                proof {
                    let n = escape_len(rest) as int;
                    assert(incoming@.subrange(i as int, next as int) =~= rest.take(n));
                    assert(rest.skip(n) =~= incoming@.skip(next as int));
                    assert(self@ =~= before.append(rest.take(n)));
                }
                i = next;
            } else {
                proof {
                    lemma_row_bounds(before.put(c), rest.skip(1));
                    assert(rest.skip(1) =~= incoming@.skip(i + 1));
                }
                if c == BS || c == DEL {
                    if self.cursor_pos.0 > 0 {
                        self.cursor_pos.0 = self.cursor_pos.0 - 1;
                    }
                    let _ = self.buf.pop();
                } else if c == LF {
                    self.cursor_pos = (0, 1 + self.cursor_pos.1);
                    self.buf.push(c);
                } else if c == CR {
                    self.cursor_pos.0 = 0;
                    self.buf.push(c);
                } else if is_cell(c) {
                    self.buf.push(c);
                    // The column stays within the buffer's length, so it cannot overflow.
                    assert(self.buf.len() <= usize::MAX);
                    self.cursor_pos = (1 + self.cursor_pos.0, self.cursor_pos.1);
                }
                assert(self@ =~= before.put(c));
                i = i + 1;
            }
        }
        assert(incoming@.skip(i as int) =~= Seq::empty());
    }

    /// The buffered bytes.
    pub fn contents(&self) -> (r: &[u8])
        ensures
            r@ == self@.buf,
    {
        self.buf.as_slice()
    }

    /// The cursor's column and row.
    pub fn cursor_pos(&self) -> (r: (usize, usize))
        ensures
            r.0 == self@.col,
            r.1 == self@.row,
    {
        self.cursor_pos
    }
}

/// The number of line feeds in `s`.
pub open spec fn feeds(s: Seq<u8>) -> nat
    decreases s.len(),
{
    if s.len() == 0 {
        0
    } else {
        feeds(s.drop_last()) + if s.last() == LF {
            1nat
        } else {
            0
        }
    }
}

/// The number of lines of `s`: line feeds part them, so there is always one.
pub open spec fn line_count(s: Seq<u8>) -> nat {
    feeds(s) + 1
}

/// `x` read as a signed number of 64 bits.
pub open spec fn as_signed(x: int) -> int {
    if x <= i64::MAX {
        x
    } else {
        x - 0x1_0000_0000_0000_0000
    }
}

/// The distance from the end of `content` to row `row` can be computed in 64 bits.
/// The first alternative implies the second, which is the exact condition.
pub open spec fn offset_fits(row: int, content: Seq<u8>) -> bool {
    ||| row <= i64::MAX && content.len() < i64::MAX && content.len() < usize::MAX
    ||| {
        &&& line_count(content) <= usize::MAX
        &&& i64::MIN <= as_signed(row) - as_signed(line_count(content) as int) <= i64::MAX
    }
}

/// There are at most as many line feeds as bytes.
proof fn lemma_feeds_bound(s: Seq<u8>)
    ensures
        feeds(s) <= s.len(),
    decreases s.len(),
{
    if s.len() > 0 {
        lemma_feeds_bound(s.drop_last());
    }
}

/// Where the cell at `character_pos` lies relative to the lower left corner of
/// `content`, in cells: columns to the right, and rows below the last line's
/// lower edge, negative above it.
pub fn cursor_cell_offset(character_pos: &(usize, usize), content: &[u8]) -> (r: (usize, i64))
    requires
        offset_fits(character_pos.1 as int, content@),
    ensures
        r.0 == character_pos.0,
        r.1 == as_signed(character_pos.1 as int) - as_signed(line_count(content@) as int),
{
    let mut found: usize = 0;
    let mut i: usize = 0;
    while i < content.len()
        invariant
            i <= content@.len(),
            found <= i,
            found == feeds(content@.take(i as int)),
        decreases content@.len() - i,
    {
        assert(content@.take(i + 1).drop_last() =~= content@.take(i as int));
        if content[i] == LF {
            found = found + 1;
        }
        i = i + 1;
    }
    assert(content@.take(i as int) =~= content@);
    proof {
        lemma_feeds_bound(content@);
    }
    let num_lines: u64 = (found + 1) as u64;
    let row: u64 = character_pos.1 as u64;
    (character_pos.0, to_signed(row) - to_signed(num_lines))
}

/// `x` read as a signed number.
fn to_signed(x: u64) -> (r: i64)
    ensures
        r == as_signed(x as int),
{
    let r = #[verifier::truncate] (x as i64);
    assert(x <= 0x7fff_ffff_ffff_ffff ==> x as i64 == x) by (bit_vector);
    assert(x > 0x7fff_ffff_ffff_ffff ==> x as i64 == x - 0x1_0000_0000_0000_0000) by (bit_vector);
    r
}

/// The boundary between `a` and `b` falls inside an escape sequence of `a + b`.
pub open spec fn cut_inside(a: Seq<u8>, b: Seq<u8>) -> bool
    decreases a.len(),
{
    if a.len() == 0 {
        false
    } else if a[0] == ESC {
        let n = escape_len(a + b) as int;
        n > a.len() || (n >= 1 && cut_inside(a.skip(n), b))
    } else {
        cut_inside(a.skip(1), b)
    }
}

/// A control sequence that ends within `a` does not depend on what follows.
proof fn lemma_csi_len_prefix(a: Seq<u8>, b: Seq<u8>)
    requires
        csi_len(a + b) <= a.len(),
    ensures
        csi_len(a) == csi_len(a + b),
    decreases a.len(),
{
    if a.len() == 0 {
        lemma_csi_len(a + b);
    } else if !crate::ascii::alphabetic(a[0]) {
        assert((a + b)[0] == a[0]);
        assert((a + b).skip(1) =~= a.skip(1) + b);
        lemma_csi_len_prefix(a.skip(1), b);
    }
}

/// Output can be taken in as one chunk or as two, with the same result, unless the
/// cut falls inside an escape sequence.
pub proof fn lemma_chunks(v: ScreenView, a: Seq<u8>, b: Seq<u8>)
    requires
        !cut_inside(a, b),
    ensures
        v.after(a + b) == v.after(a).after(b),
    decreases a.len(),
{
    if a.len() == 0 {
        assert(a + b =~= b);
    } else {
        assert((a + b)[0] == a[0]);
        if a[0] == ESC {
            let n = escape_len(a + b) as int;
            lemma_escape_len(a + b);
            if a.len() >= 2 {
                assert((a + b)[1] == a[1]);
                if a[1] == 0x5b {
                    assert((a + b).skip(2) =~= a.skip(2) + b);
                    lemma_csi_len_prefix(a.skip(2), b);
                }
            }
            assert(escape_len(a) == n);
            assert((a + b).take(n) =~= a.take(n));
            assert((a + b).skip(n) =~= a.skip(n) + b);
            lemma_chunks(v.append(a.take(n)), a.skip(n), b);
        } else {
            assert((a + b).skip(1) =~= a.skip(1) + b);
            lemma_chunks(v.put(a[0]), a.skip(1), b);
        }
    }
}

/// Plain characters are buffered as they are, and the cursor moves right by one
/// cell for each.
pub proof fn lemma_cells(v: ScreenView, s: Seq<u8>)
    requires
        forall|i: int| 0 <= i < s.len() ==> crate::ascii::cell(#[trigger] s[i]),
    ensures
        v.after(s) == (ScreenView { buf: v.buf + s, col: v.col + s.len(), row: v.row }),
    decreases s.len(),
{
    if s.len() == 0 {
        assert(v.buf + s =~= v.buf);
    } else {
        assert(crate::ascii::cell(s[0]));
        assert forall|i: int| 0 <= i < s.skip(1).len() implies crate::ascii::cell(
            #[trigger] s.skip(1)[i],
        ) by {
            assert(s.skip(1)[i] == s[i + 1]);
        }
        lemma_cells(v.put(s[0]), s.skip(1));
        assert(v.buf.push(s[0]) + s.skip(1) =~= v.buf + s);
    }
}

/// An escape sequence is buffered as it is and leaves the cursor where it was.
pub proof fn lemma_escape_keeps_cursor(v: ScreenView, s: Seq<u8>)
    requires
        s.len() > 0,
        s[0] == ESC,
        escape_len(s) == s.len(),
    ensures
        v.after(s) == (ScreenView { buf: v.buf + s, col: v.col, row: v.row }),
{
    let n = s.len() as int;
    assert(s.take(n) =~= s);
    assert(s.skip(n) =~= Seq::empty());
    assert(v.append(s).after(Seq::empty()) == v.append(s));
}

/// Two bytes, neither an escape byte, are put one after the other.
proof fn lemma_two(v: ScreenView, a: u8, b: u8)
    requires
        a != ESC,
        b != ESC,
    ensures
        v.after(seq![a, b]) == v.put(a).put(b),
{
    let s = seq![a, b];
    assert(s.skip(1) =~= seq![b]);
    assert(seq![b].skip(1) =~= Seq::empty());
    assert(v.put(a).put(b).after(Seq::empty()) == v.put(a).put(b));
    assert(v.put(a).after(seq![b]) == v.put(a).put(b).after(seq![b].skip(1)));
}

/// A backspace takes back a plain character: the screen is as it was before both.
pub proof fn lemma_backspace_undoes(v: ScreenView, c: u8, erase: u8)
    requires
        v.col >= 0,
        crate::ascii::cell(c),
        erase == BS || erase == DEL,
    ensures
        v.after(seq![c, erase]) == v,
{
    lemma_two(v, c, erase);
    assert(v.buf.push(c).drop_last() =~= v.buf);
}

/// Control characters that mean nothing to the screen leave it as it was.
pub proof fn lemma_ignored(v: ScreenView, s: Seq<u8>)
    requires
        forall|i: int|
            0 <= i < s.len() ==> {
                let c = #[trigger] s[i];
                c != ESC && c != BS && c != DEL && c != LF && c != CR && !crate::ascii::cell(c)
            },
    ensures
        v.after(s) == v,
    decreases s.len(),
{
    if s.len() > 0 {
        let c = s[0];
        assert(v.put(c) == v);
        assert forall|i: int| 0 <= i < s.skip(1).len() implies {
            let c = #[trigger] s.skip(1)[i];
            c != ESC && c != BS && c != DEL && c != LF && c != CR && !crate::ascii::cell(c)
        } by {
            assert(s.skip(1)[i] == s[i + 1]);
        }
        lemma_ignored(v, s.skip(1));
    }
}

/// Putting sequences together adds up their line feeds.
proof fn lemma_feeds_add(a: Seq<u8>, b: Seq<u8>)
    ensures
        feeds(a + b) == feeds(a) + feeds(b),
    decreases b.len(),
{
    if b.len() == 0 {
        assert(a + b =~= a);
    } else {
        assert((a + b).drop_last() =~= a + b.drop_last());
        lemma_feeds_add(a, b.drop_last());
    }
}

/// The chunk `s` neither erases a line feed from the buffer nor brings one in
/// inside an escape sequence.
pub open spec fn keeps_lines(v: ScreenView, s: Seq<u8>) -> bool
    decreases s.len(),
{
    if s.len() == 0 {
        true
    } else if s[0] == ESC {
        proof {
            lemma_escape_len(s);
        }
        let n = escape_len(s) as int;
        feeds(s.take(n)) == 0 && keeps_lines(v.append(s.take(n)), s.skip(n))
    } else {
        &&& (s[0] == BS || s[0] == DEL) ==> (v.buf.len() == 0 || v.buf.last() != LF)
        &&& keeps_lines(v.put(s[0]), s.skip(1))
    }
}

/// The cursor keeps its distance from the last line of the buffer, unless a line
/// feed is erased or comes inside an escape sequence.
pub proof fn lemma_row_follows_lines(v: ScreenView, s: Seq<u8>)
    requires
        keeps_lines(v, s),
    ensures
        v.after(s).row - line_count(v.after(s).buf) == v.row - line_count(v.buf),
    decreases s.len(),
{
    if s.len() > 0 {
        if s[0] == ESC {
            lemma_escape_len(s);
            let n = escape_len(s) as int;
            lemma_feeds_add(v.buf, s.take(n));
            lemma_row_follows_lines(v.append(s.take(n)), s.skip(n));
        } else {
            assert(v.buf.push(s[0]).drop_last() =~= v.buf);
            lemma_row_follows_lines(v.put(s[0]), s.skip(1));
        }
    }
}

/// On a screen that was empty before, the cursor is on the last line: its lower edge
/// is one row below the cursor's upper edge.
pub proof fn lemma_cursor_on_last_line(s: Seq<u8>)
    requires
        keeps_lines(ScreenView { buf: Seq::empty(), col: 0, row: 0 }, s),
    ensures
        ({
            let end = (ScreenView { buf: Seq::empty(), col: 0, row: 0 }).after(s);
            end.row - line_count(end.buf) == -1
        }),
{
    lemma_row_follows_lines(ScreenView { buf: Seq::empty(), col: 0, row: 0 }, s);
}

/// Output made of plain characters, line ends and escape sequences: nothing of it
/// is dropped, and nothing is erased.
pub open spec fn kept_output(s: Seq<u8>) -> bool
    decreases s.len(),
{
    if s.len() == 0 {
        true
    } else if s[0] == ESC {
        proof {
            lemma_escape_len(s);
        }
        kept_output(s.skip(escape_len(s) as int))
    } else {
        (crate::ascii::cell(s[0]) || s[0] == LF || s[0] == CR) && kept_output(s.skip(1))
    }
}

/// Such output is buffered as it is.
pub proof fn lemma_kept_output(v: ScreenView, s: Seq<u8>)
    requires
        kept_output(s),
    ensures
        v.after(s).buf == v.buf + s,
    decreases s.len(),
{
    if s.len() == 0 {
        assert(v.buf + s =~= v.buf);
    } else if s[0] == ESC {
        lemma_escape_len(s);
        let n = escape_len(s) as int;
        lemma_kept_output(v.append(s.take(n)), s.skip(n));
        assert(v.buf + s.take(n) + s.skip(n) =~= v.buf + s);
    } else {
        lemma_kept_output(v.put(s[0]), s.skip(1));
        assert(v.buf.push(s[0]) + s.skip(1) =~= v.buf + s);
    }
}

} // verus!
