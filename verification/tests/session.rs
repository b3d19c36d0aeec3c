use termion::ansi::parse_ansi_to_layout;
use termion::outgoing::{Fault, Origin, Outgoing, WriteOutcome, WriteStep};
use termion::palette::Color;
use termion::session::{InputEvent, PtyWrite, ReadOutcome, ReadStep, Termion};

fn all(write: PtyWrite) -> Vec<u8> {
    match write {
        PtyWrite::All(out) => out.pending().to_vec(),
        _ => panic!("expected bytes to be sent"),
    }
}

fn text(t: &str) -> InputEvent {
    InputEvent::Text(t.to_string())
}

const ENTER: InputEvent = InputEvent::Enter { pressed: true };
const BACKSPACE: InputEvent = InputEvent::Backspace { pressed: true };

#[test]
fn new_session_is_empty() {
    let mut term = Termion::new();
    assert_eq!(term.contents(), b"");
    assert_eq!(term.cursor_pos(), (0, 0));
    assert_eq!(term.current_command(), "");
    assert!(term.command_history().is_empty());
    assert_eq!(term.output_text(), "");
    assert!(!term.take_cursor_moved());
}

#[test]
fn typed_text_is_sent_and_remembered() {
    let mut term = Termion::new();
    assert_eq!(all(term.on_event(text("l"))), b"l");
    assert_eq!(all(term.on_event(text("s \u{e9}"))), "s \u{e9}".as_bytes());
    assert_eq!(term.current_command(), "ls \u{e9}");
    assert_eq!(all(term.on_event(text(""))), b"");
    assert_eq!(term.current_command(), "ls \u{e9}");
    assert_eq!(term.contents(), b"");
}

#[test]
fn enter_moves_the_command_to_the_history() {
    let mut term = Termion::new();
    term.on_event(text(" ls "));
    assert_eq!(all(term.on_event(ENTER)), b"\n");
    assert_eq!(term.current_command(), "");
    assert_eq!(term.command_history(), [" ls ".to_string()]);
    term.on_event(text("pwd"));
    term.on_event(ENTER);
    assert_eq!(term.command_history(), [" ls ".to_string(), "pwd".to_string()]);
}

#[test]
fn blank_commands_are_not_kept() {
    let mut term = Termion::new();
    assert_eq!(all(term.on_event(ENTER)), b"\n");
    term.on_event(text(" \t\u{a0}"));
    assert_eq!(all(term.on_event(ENTER)), b"\n");
    assert!(term.command_history().is_empty());
    assert_eq!(term.current_command(), "");
}

#[test]
fn backspace_takes_back_one_character() {
    let mut term = Termion::new();
    assert!(matches!(term.on_event(BACKSPACE), PtyWrite::Nothing));
    term.on_event(text("a\u{2603}"));
    match term.on_event(BACKSPACE) {
        PtyWrite::Once(bytes) => assert_eq!(bytes, b"\x7f"),
        _ => panic!("expected one write"),
    }
    assert_eq!(term.current_command(), "a");
    term.on_event(BACKSPACE);
    assert_eq!(term.current_command(), "");
    assert!(matches!(term.on_event(BACKSPACE), PtyWrite::Nothing));
}

#[test]
fn backspaces_undo_typing() {
    let mut term = Termion::new();
    term.on_event(text("ab"));
    term.on_event(text("x\u{e9}z"));
    for _ in 0..3 {
        term.on_event(BACKSPACE);
    }
    assert_eq!(term.current_command(), "ab");
}

#[test]
fn released_and_other_keys_do_nothing() {
    let mut term = Termion::new();
    term.on_event(text("ls"));
    assert!(matches!(term.on_event(InputEvent::Enter { pressed: false }), PtyWrite::Nothing));
    assert!(matches!(term.on_event(InputEvent::Backspace { pressed: false }), PtyWrite::Nothing));
    assert!(matches!(term.on_event(InputEvent::Other), PtyWrite::Nothing));
    assert_eq!(term.current_command(), "ls");
    assert!(term.command_history().is_empty());
}

#[test]
fn clicked_command_sends_what_typing_sends() {
    let mut term = Termion::new();
    let mut typed = all(term.on_event(text("echo \u{e9}")));
    typed.extend(all(term.on_event(ENTER)));
    term.on_event(text("half"));
    let out = term.run_from_history(0);
    assert_eq!(out.pending(), &typed[..]);
    assert_eq!(out.pending(), "echo \u{e9}\n".as_bytes());
    assert_eq!(term.current_command(), "");
    assert_eq!(term.command_history(), ["echo \u{e9}".to_string()]);
}

#[test]
fn reads_drive_the_session() {
    let mut term = Termion::new();
    assert_eq!(term.on_read(ReadOutcome::Data(b"")), ReadStep::Stop);
    assert_eq!(term.on_read(ReadOutcome::Data(b"$ ")), ReadStep::Draw { report: false });
    assert_eq!(term.contents(), b"$ ");
    assert_eq!(term.cursor_pos(), (2, 0));
    let quiet = ReadStep::Draw { report: false };
    let loud = ReadStep::Draw { report: true };
    assert_eq!(term.on_read(ReadOutcome::Failed(Fault::WouldBlock)), quiet);
    assert_eq!(term.on_read(ReadOutcome::Failed(Fault::BrokenPipe)), loud);
    assert_eq!(term.on_read(ReadOutcome::Failed(Fault::Other)), loud);
    assert_eq!(term.contents(), b"$ ");
}

#[test]
fn cursor_movement_is_told_once() {
    let mut term = Termion::new();
    term.on_read(ReadOutcome::Data(b"a\n"));
    assert!(term.take_cursor_moved());
    assert!(!term.take_cursor_moved());
    term.on_event(text("x"));
    assert!(!term.take_cursor_moved());
    term.on_read(ReadOutcome::Data(b"\n\x7f"));
    assert!(term.take_cursor_moved());
}

#[test]
fn output_is_cleaned_and_decoded() {
    let mut term = Termion::new();
    term.on_read(ReadOutcome::Data(b"\x1b[?2004h\x1b[1;32mok\x1b[0m $ \x1b[?2004l"));
    assert_eq!(term.output_text(), "\x1b[1;32mok\x1b[0m $ ");
    term.on_read(ReadOutcome::Data(b"\x1b[\xff\xc3m"));
    assert_eq!(term.output_text(), "\x1b[1;32mok\x1b[0m $ \x1b[\u{fffd}\u{fffd}m");
}

#[test]
fn valid_utf8_in_a_sequence_is_decoded() {
    let mut term = Termion::new();
    term.on_read(ReadOutcome::Data("\x1b[\u{e9}m".as_bytes()));
    assert_eq!(term.output_text(), "\x1b[\u{e9}m");
}

#[test]
fn plain_output_is_shown_as_printed() {
    let mut term = Termion::new();
    term.on_read(ReadOutcome::Data(b"hello\r\n\tworld"));
    let shown = parse_ansi_to_layout(&term.output_text());
    assert_eq!(shown.len(), 1);
    assert_eq!(shown[0].text, "hello\r\n\tworld");
    assert_eq!(shown[0].color, Color { r: 255, g: 255, b: 255, a: 255 });
}

#[test]
fn bytes_go_out_in_order() {
    let mut out = Outgoing::new(b"hello".to_vec(), Origin::Typed);
    let mut sent: Vec<u8> = Vec::new();
    for n in [2usize, 0, 1] {
        sent.extend(&out.pending()[..n]);
        assert_eq!(out.step(WriteOutcome::Written(n)), WriteStep::Continue);
        assert!(!out.is_done());
    }
    sent.extend(out.pending());
    assert_eq!(out.step(WriteOutcome::Written(2)), WriteStep::Done);
    assert!(out.is_done());
    assert_eq!(sent, b"hello");
    assert_eq!(out.pending(), b"");
}

#[test]
fn nothing_to_send_is_done_at_once() {
    assert!(Outgoing::new(vec![], Origin::Typed).is_done());
}

#[test]
fn failed_writes_stop() {
    let cases = [
        (Origin::Typed, Fault::BrokenPipe, false),
        (Origin::Typed, Fault::WouldBlock, true),
        (Origin::Typed, Fault::Other, true),
        (Origin::History, Fault::BrokenPipe, true),
        (Origin::History, Fault::WouldBlock, true),
        (Origin::History, Fault::Other, true),
    ];
    for (origin, fault, report) in cases {
        let mut out = Outgoing::new(b"ab".to_vec(), origin);
        out.step(WriteOutcome::Written(1));
        assert_eq!(out.step(WriteOutcome::Failed(fault)), WriteStep::Stop { report });
        assert_eq!(out.pending(), b"b");
    }
}
