//! A terminal session: the screen, the command being typed, and the commands typed
//! before.

use vstd::prelude::*;
use vstd::string::{StrSliceExecFns, StringExecFns};
use vstd::utf8::{decode_utf8, encode_utf8, valid_utf8};

use crate::ascii::{DEL, LF};
use crate::outgoing::{Fault, Origin, Outgoing};
use crate::screen::{Screen, ScreenView};
use crate::strings::{decode_lossy, is_blank, remove_paste_mode};

verus! {

/// What one attempt to read from the shell came to.
pub enum ReadOutcome<'a> {
    /// These bytes were read; none means that the shell is gone.
    Data(&'a [u8]),
    /// Nothing was read.
    Failed(Fault),
}

/// What to do after one attempt to read.
#[derive(Clone, Copy, PartialEq, Eq, Structural, Debug)]
pub enum ReadStep {
    /// The shell is gone: there is nothing to draw.
    Stop,
    /// Draw the session, and tell the user about the fault if so asked.
    Draw { report: bool },
}

/// An event of the user interface.
pub enum InputEvent {
    /// Text was typed.
    Text(String),
    /// The enter key was pressed or released.
    Enter { pressed: bool },
    /// The backspace key was pressed or released.
    Backspace { pressed: bool },
    /// Anything else.
    Other,
}

/// Bytes that an event sends to the shell.
pub enum PtyWrite {
    /// None.
    Nothing,
    /// These, in one attempt whose outcome does not matter.
    Once(Vec<u8>),
    /// These, in as many attempts as it takes.
    All(Outgoing),
}

/// The bytes of a `PtyWrite`.
pub enum PtyWriteView {
    Nothing,
    Once(Seq<u8>),
    All(Seq<u8>, Origin),
}

impl View for PtyWrite {
    type V = PtyWriteView;

    open spec fn view(&self) -> PtyWriteView {
        match self {
            PtyWrite::Nothing => PtyWriteView::Nothing,
            PtyWrite::Once(bytes) => PtyWriteView::Once(bytes@),
            PtyWrite::All(out) => PtyWriteView::All(out@, out.from()),
        }
    }
}

impl PtyWrite {
    /// The bytes are in a valid state.
    pub open spec fn wf(&self) -> bool {
        self matches PtyWrite::All(out) ==> out.wf()
    }
}

/// What a session holds.
#[verifier::ext_equal]
pub struct TermionView {
    /// The screen.
    pub screen: ScreenView,
    /// The commands that were entered, the oldest first.
    pub history: Seq<Seq<char>>,
    /// What was typed since the last command was entered.
    pub command: Seq<char>,
    /// The column and row of the cursor when it was last brought into view.
    pub seen_col: int,
    pub seen_row: int,
}

impl TermionView {
    /// The session with another command being typed.
    pub open spec fn with_command(self, command: Seq<char>) -> TermionView {
        TermionView {
            screen: self.screen,
            history: self.history,
            command,
            seen_col: self.seen_col,
            seen_row: self.seen_row,
        }
    }

    /// The session with another screen.
    pub open spec fn with_screen(self, screen: ScreenView) -> TermionView {
        TermionView {
            screen,
            history: self.history,
            command: self.command,
            seen_col: self.seen_col,
            seen_row: self.seen_row,
        }
    }

    /// The cursor is not where it was last brought into view.
    pub open spec fn cursor_moved(self) -> bool {
        self.screen.col != self.seen_col || self.screen.row != self.seen_row
    }

    /// The session with the cursor brought into view.
    pub open spec fn cursor_seen(self) -> TermionView {
        TermionView {
            screen: self.screen,
            history: self.history,
            command: self.command,
            seen_col: self.screen.col,
            seen_row: self.screen.row,
        }
    }

    /// The session after the command was entered: it joins the history unless it
    /// is blank, and the next one starts empty.
    pub open spec fn entered(self) -> TermionView {
        TermionView {
            screen: self.screen,
            history: if crate::strings::blank(self.command) {
                self.history
            } else {
                self.history.push(self.command)
            },
            command: Seq::empty(),
            seen_col: self.seen_col,
            seen_row: self.seen_row,
        }
    }

    /// The session after an event.
    pub open spec fn after_event(self, event: InputEvent) -> TermionView {
        match event {
            InputEvent::Text(text) => self.with_command(self.command + text@),
            InputEvent::Enter { pressed } => if pressed {
                self.entered()
            } else {
                self
            },
            InputEvent::Backspace { pressed } => if pressed && self.command.len() > 0 {
                self.with_command(self.command.drop_last())
            } else {
                self
            },
            InputEvent::Other => self,
        }
    }

    /// The bytes that an event sends to the shell: typed text as UTF-8, a line feed
    /// for enter, and a delete for a backspace that takes something back.
    pub open spec fn sent_by(self, event: InputEvent) -> PtyWriteView {
        match event {
            InputEvent::Text(text) => PtyWriteView::All(encode_utf8(text@), Origin::Typed),
            InputEvent::Enter { pressed } => if pressed {
                PtyWriteView::All(seq![LF], Origin::Typed)
            } else {
                PtyWriteView::Nothing
            },
            InputEvent::Backspace { pressed } => if pressed && self.command.len() > 0 {
                PtyWriteView::Once(seq![DEL])
            } else {
                PtyWriteView::Nothing
            },
            InputEvent::Other => PtyWriteView::Nothing,
        }
    }
}

/// A terminal session.
pub struct Termion {
    screen: Screen,
    command_history: Vec<String>,
    current_command: String,
    prev_cursor_pos: (usize, usize),
}

/// The contents of `commands`.
pub open spec fn commands_view(commands: Seq<String>) -> Seq<Seq<char>> {
    Seq::new(commands.len(), |i: int| commands[i]@)
}

impl View for Termion {
    type V = TermionView;

    closed spec fn view(&self) -> TermionView {
        TermionView {
            screen: self.screen@,
            history: commands_view(self.command_history@),
            command: self.current_command@,
            seen_col: self.prev_cursor_pos.0 as int,
            seen_row: self.prev_cursor_pos.1 as int,
        }
    }
}

impl Termion {
    /// The screen is in a valid state, and no command of the history is blank.
    pub open spec fn wf(&self) -> bool {
        &&& 0 <= self@.screen.col <= self@.screen.buf.len()
        &&& 0 <= self@.screen.row <= usize::MAX
        &&& forall|i: int|
            0 <= i < self@.history.len() ==> !crate::strings::blank(#[trigger] self@.history[i])
    }

    /// The rows that `incoming` moves down can still be counted. The first
    /// alternative implies the second, which is the exact condition.
    pub open spec fn has_room(&self, incoming: &[u8]) -> bool {
        ||| self@.screen.row + incoming.len() <= usize::MAX
        ||| self@.screen.after(incoming@).row <= usize::MAX
    }

    /// A session with an empty screen in which nothing was typed yet.
    pub fn new() -> (r: Termion)
        ensures
            r.wf(),
            r@ == (TermionView {
                screen: ScreenView { buf: Seq::empty(), col: 0, row: 0 },
                history: Seq::empty(),
                command: Seq::empty(),
                seen_col: 0,
                seen_row: 0,
            }),
    {
        let r = Termion {
            screen: Screen::new(),
            command_history: Vec::new(),
            current_command: String::new(),
            prev_cursor_pos: (0, 0),
        };
        assert(r@.history =~= Seq::empty());
        r
    }

    /// Takes in what was read from the shell, and says how to go on.
    pub fn on_read(&mut self, outcome: ReadOutcome) -> (r: ReadStep)
        requires
            old(self).wf(),
            outcome matches ReadOutcome::Data(bytes) ==> old(self).has_room(bytes),
        ensures
            final(self).wf(),
            match outcome {
                ReadOutcome::Data(bytes) => {
                    &&& final(self)@ == old(self)@.with_screen(old(self)@.screen.after(bytes@))
                    &&& r == if bytes@.len() == 0 {
                        ReadStep::Stop
                    } else {
                        ReadStep::Draw { report: false }
                    }
                },
                ReadOutcome::Failed(fault) => {
                    &&& final(self)@ == old(self)@
                    &&& r == (ReadStep::Draw { report: fault != Fault::WouldBlock })
                },
            },
    {
        match outcome {
            ReadOutcome::Data(bytes) => {
                if bytes.len() == 0 {
                    return ReadStep::Stop;
                }
                self.screen.ingest(bytes);
                assert(self@.history =~= old(self)@.history);
                ReadStep::Draw { report: false }
            },
            ReadOutcome::Failed(fault) => {
                let quiet = fault == Fault::WouldBlock;
                ReadStep::Draw { report: !quiet }
            },
        }
    }

    /// Follows an event of the user interface, and returns what to send to the
    /// shell.
    pub fn on_event(&mut self, event: InputEvent) -> (r: PtyWrite)
        requires
            old(self).wf(),
        ensures
            final(self).wf(),
            final(self)@ == old(self)@.after_event(event),
            r.wf(),
            r@ == old(self)@.sent_by(event),
    {
        match event {
            InputEvent::Text(text) => {
                self.current_command.append(text.as_str());
                PtyWrite::All(Outgoing::new(text.as_str().as_bytes_vec(), Origin::Typed))
            },
            InputEvent::Enter { pressed } => {
                if pressed {
                    let ghost before = self@;
                    if !is_blank(self.current_command.as_str()) {
                        self.command_history.push(self.current_command.clone());
                        assert(self@.history =~= before.history.push(before.command));
                    }
                    self.current_command = String::new();
                    let bytes: Vec<u8> = vec![LF];
                    assert(bytes@ =~= seq![LF]);
                    PtyWrite::All(Outgoing::new(bytes, Origin::Typed))
                } else {
                    PtyWrite::Nothing
                }
            },
            InputEvent::Backspace { pressed } => {
                if pressed && !self.current_command.as_str().is_empty() {
                    let _ = self.current_command.pop();
                    let bytes: Vec<u8> = vec![DEL];
                    assert(bytes@ =~= seq![DEL]);
                    PtyWrite::Once(bytes)
                } else {
                    PtyWrite::Nothing
                }
            },
            InputEvent::Other => PtyWrite::Nothing,
        }
    }

    /// The commands that were entered, the oldest first.
    pub fn command_history(&self) -> (r: &[String])
        ensures
            commands_view(r@) == self@.history,
    {
        self.command_history.as_slice()
    }

    /// What was typed since the last command was entered.
    pub fn current_command(&self) -> (r: &str)
        ensures
            r@ == self@.command,
    {
        self.current_command.as_str()
    }

    /// Enters a command of the history again: drops what was being typed, and
    /// returns the command and a line feed for the shell.
    pub fn run_from_history(&mut self, index: usize) -> (r: Outgoing)
        requires
            old(self).wf(),
            index < old(self)@.history.len(),
        ensures
            final(self).wf(),
            final(self)@ == old(self)@.with_command(Seq::empty()),
            r.wf(),
            r@ == encode_utf8(old(self)@.history[index as int].push('\n')),
            r.from() == Origin::History,
    {
        self.current_command = String::new();
        let mut line = self.command_history[index].clone();
        line.push('\n');
        Outgoing::new(line.as_str().as_bytes_vec(), Origin::History)
    }

    /// The bytes on the screen.
    pub fn contents(&self) -> (r: &[u8])
        ensures
            r@ == self@.screen.buf,
    {
        self.screen.contents()
    }

    /// The cursor's column and row.
    pub fn cursor_pos(&self) -> (r: (usize, usize))
        ensures
            r.0 == self@.screen.col,
            r.1 == self@.screen.row,
    {
        self.screen.cursor_pos()
    }

    /// The text on the screen, with the escape sequences that colour it.
    pub fn output_text(&self) -> (r: String)
        ensures
            r@ == crate::strings::without_paste_mode(
                crate::strings::lossy_text(self@.screen.buf),
            ),
            valid_utf8(self@.screen.buf) ==> r@ == crate::strings::without_paste_mode(
                decode_utf8(self@.screen.buf),
            ),
    {
        let raw = decode_lossy(self.screen.contents());
        remove_paste_mode(raw.as_str())
    }

    /// Whether the cursor moved since it was last brought into view, which it then
    /// is.
    pub fn take_cursor_moved(&mut self) -> (r: bool)
        requires
            old(self).wf(),
        ensures
            final(self).wf(),
            r == old(self)@.cursor_moved(),
            r == ((old(self)@.screen.col, old(self)@.screen.row) != (
                old(self)@.seen_col,
                old(self)@.seen_row,
            )),
            final(self)@ == old(self)@.cursor_seen(),
    {
        let now = self.screen.cursor_pos();
        if now.0 != self.prev_cursor_pos.0 || now.1 != self.prev_cursor_pos.1 {
            self.prev_cursor_pos = now;
            assert(self@.history =~= old(self)@.history);
            true
        } else {
            false
        }
    }
}

/// The session after `n` presses of the backspace key.
pub open spec fn after_backspaces(v: TermionView, n: nat) -> TermionView
    decreases n,
{
    if n == 0 {
        v
    } else {
        after_backspaces(
            v.after_event(InputEvent::Backspace { pressed: true }),
            (n - 1) as nat,
        )
    }
}

/// Typing text and then pressing backspace once for each of its characters leaves
/// the session as it was.
pub proof fn lemma_backspaces_undo_typing(v: TermionView, text: String)
    ensures
        after_backspaces(v.after_event(InputEvent::Text(text)), text@.len()) == v,
{
    lemma_erase(v, text@);
}

proof fn lemma_erase(v: TermionView, typed: Seq<char>)
    ensures
        after_backspaces(v.with_command(v.command + typed), typed.len()) == v,
    decreases typed.len(),
{
    if typed.len() == 0 {
        assert(v.command + typed =~= v.command);
        assert(v.with_command(v.command) =~= v);
    } else {
        let t = v.with_command(v.command + typed);
        assert((v.command + typed).drop_last() =~= v.command + typed.drop_last());
        assert(t.after_event(InputEvent::Backspace { pressed: true }) =~= v.with_command(
            v.command + typed.drop_last(),
        ));
        lemma_erase(v, typed.drop_last());
    }
}

/// An event never changes or removes a command of the history, and adds at most the
/// one that was being typed.
pub proof fn lemma_history_grows(v: TermionView, event: InputEvent)
    ensures
        v.after_event(event).history == v.history || v.after_event(event).history
            == v.history.push(v.command),
{
}

/// Events leave the screen alone: only what the shell answers changes it.
pub proof fn lemma_events_leave_screen(v: TermionView, event: InputEvent)
    ensures
        v.after_event(event).screen == v.screen,
{
}

/// Once the cursor was brought into view it counts as unmoved until the shell moves
/// it: no event does.
pub proof fn lemma_cursor_seen_once(v: TermionView, event: InputEvent)
    ensures
        !v.cursor_seen().cursor_moved(),
        !v.cursor_seen().after_event(event).cursor_moved(),
{
}

/// Text that is typed and entered joins the history together with what was typed
/// before it, unless all of that is blank, and the command line is empty again.
pub proof fn lemma_typed_command_is_kept(v: TermionView, text: String)
    ensures
        ({
            let line = v.command + text@;
            let end = v.after_event(InputEvent::Text(text)).after_event(
                InputEvent::Enter { pressed: true },
            );
            &&& end.command.len() == 0
            &&& end.history == if crate::strings::blank(line) {
                v.history
            } else {
                v.history.push(line)
            }
        }),
{
}

proof fn lemma_encode_add(a: Seq<char>, b: Seq<char>)
    ensures
        encode_utf8(a + b) == encode_utf8(a) + encode_utf8(b),
    decreases a.len(),
{
    if a.len() == 0 {
        assert(a + b =~= b);
        assert(encode_utf8(a) + encode_utf8(b) =~= encode_utf8(b));
    } else {
        assert((a + b).drop_first() =~= a.drop_first() + b);
        lemma_encode_add(a.drop_first(), b);
        assert(encode_utf8(a + b) =~= encode_utf8(a) + encode_utf8(b));
    }
}

/// A command of the history sends the same bytes when it is clicked as when its
/// text is typed and entered.
pub proof fn lemma_clicked_like_typed(v: TermionView, text: String, index: int)
    requires
        0 <= index < v.history.len(),
        text@ == v.history[index],
    ensures
        v.sent_by(InputEvent::Text(text)) matches PtyWriteView::All(typed, _)
            && v.after_event(InputEvent::Text(text)).sent_by(InputEvent::Enter { pressed: true })
            matches PtyWriteView::All(entered, _)
            && encode_utf8(v.history[index].push('\n')) == typed + entered,
{
    let nl = seq!['\n'];
    lemma_encode_add(text@, nl);
    assert(text@.push('\n') =~= text@ + nl);
    assert(nl.drop_first() =~= Seq::empty());
    assert(encode_utf8(nl.drop_first()) =~= Seq::empty());
    assert(10u32 & 0x7f == 10) by (bit_vector);
    assert(encode_utf8(nl) =~= seq![LF]);
}

/// Text that a shell prints with no escape sequences and no erasing.
pub open spec fn plain_output(s: Seq<u8>) -> bool {
    forall|i: int|
        0 <= i < s.len() ==> {
            let c = #[trigger] s[i];
            crate::ascii::cell(c) || c == LF || c == crate::ascii::CR
        }
}

/// The characters of ASCII bytes.
pub open spec fn ascii_text(s: Seq<u8>) -> Seq<char> {
    Seq::new(s.len(), |i: int| s[i] as char)
}

proof fn lemma_plain_is_kept(s: Seq<u8>)
    requires
        plain_output(s),
    ensures
        crate::screen::kept_output(s),
    decreases s.len(),
{
    if s.len() > 0 {
        let c = s[0];
        assert(crate::ascii::cell(c) || c == LF || c == crate::ascii::CR);
        assert forall|i: int| 0 <= i < s.skip(1).len() implies {
            let c = #[trigger] s.skip(1)[i];
            crate::ascii::cell(c) || c == LF || c == crate::ascii::CR
        } by {
            assert(s.skip(1)[i] == s[i + 1]);
        }
        lemma_plain_is_kept(s.skip(1));
    }
}

proof fn lemma_ascii_decoded(s: Seq<u8>)
    requires
        forall|i: int| 0 <= i < s.len() ==> #[trigger] s[i] < 128,
    ensures
        valid_utf8(s),
        decode_utf8(s) == ascii_text(s),
{
    let t = ascii_text(s);
    assert(vstd::utf8::is_ascii_chars(t));
    vstd::utf8::is_ascii_chars_encode_utf8(t);
    assert forall|i: int| 0 <= i < s.len() implies encode_utf8(t)[i] == #[trigger] s[i] by {
        assert(t[i] as u8 == encode_utf8(t)[i]);
    }
    assert(encode_utf8(t) =~= s);
    vstd::utf8::encode_utf8_valid_utf8(t);
    vstd::utf8::encode_utf8_decode_utf8(t);
}

proof fn lemma_all_visible(s: Seq<char>)
    requires
        forall|i: int| 0 <= i < s.len() ==> crate::ascii::shown(#[trigger] s[i]),
    ensures
        crate::ansi::visible(s) == s,
    decreases s.len(),
{
    if s.len() > 0 {
        lemma_all_visible(s.drop_last());
        assert(s.drop_last().push(s.last()) =~= s);
    }
}

/// What a shell prints plainly on an empty screen is shown as it was printed, in
/// one span in the default colour.
pub proof fn lemma_plain_output_is_shown(s: Seq<u8>)
    requires
        s.len() > 0,
        plain_output(s),
    ensures
        ({
            let buf = (ScreenView { buf: Seq::empty(), col: 0, row: 0 }).after(s).buf;
            &&& valid_utf8(buf)
            &&& crate::ansi::spans_of(
                crate::strings::without_paste_mode(decode_utf8(buf)),
                crate::ansi::Pen::plain(),
            ) == seq![
                crate::ansi::Span { text: ascii_text(s), color: crate::palette::white() },
            ]
        }),
{
    let v = ScreenView { buf: Seq::empty(), col: 0, row: 0 };
    let t = ascii_text(s);
    lemma_plain_is_kept(s);
    crate::screen::lemma_kept_output(v, s);
    assert(v.buf + s =~= s);
    assert forall|i: int| 0 <= i < s.len() implies #[trigger] s[i] < 128 by {}
    lemma_ascii_decoded(s);
    assert forall|i: int| 0 <= i < t.len() implies #[trigger] t[i] != '\x1b'
        && crate::ascii::shown(t[i]) by {
        assert(crate::ascii::cell(s[i]) || s[i] == LF || s[i] == crate::ascii::CR);
    }
    crate::strings::lemma_no_paste_mode(t);
    crate::ansi::lemma_plain_text(t, crate::ansi::Pen::plain());
    lemma_all_visible(t);
}

} // verus!
