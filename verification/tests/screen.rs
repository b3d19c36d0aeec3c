use termion::screen::{cursor_cell_offset, Screen};

fn after(chunks: &[&[u8]]) -> (Vec<u8>, (usize, usize)) {
    let mut screen = Screen::new();
    for chunk in chunks {
        screen.ingest(chunk);
    }
    (screen.contents().to_vec(), screen.cursor_pos())
}

#[test]
fn new_screen_is_empty() {
    assert_eq!(after(&[]), (vec![], (0, 0)));
    assert_eq!(after(&[b""]), (vec![], (0, 0)));
}

#[test]
fn plain_characters_move_the_cursor_right() {
    assert_eq!(after(&[b"ls -l\t~!"]), (b"ls -l\t~!".to_vec(), (8, 0)));
}

#[test]
fn line_feed_and_carriage_return() {
    assert_eq!(after(&[b"ab\ncd"]), (b"ab\ncd".to_vec(), (2, 1)));
    assert_eq!(after(&[b"ab\rc"]), (b"ab\rc".to_vec(), (1, 0)));
    assert_eq!(after(&[b"ab\r\n"]), (b"ab\r\n".to_vec(), (0, 1)));
}

#[test]
fn backspace_takes_back_a_character() {
    assert_eq!(after(&[b"ab\x08"]), (b"a".to_vec(), (1, 0)));
    assert_eq!(after(&[b"ab\x7f"]), (b"a".to_vec(), (1, 0)));
    assert_eq!(after(&[b"\x7f"]), (vec![], (0, 0)));
    assert_eq!(after(&[b"a\n\x08"]), (b"a".to_vec(), (0, 1)));
    assert_eq!(after(&[b"xy", b"z\x7f"]), after(&[b"xy"]));
}

#[test]
fn escape_sequences_are_buffered_in_place() {
    assert_eq!(after(&[b"\x1b[1;34mhi"]), (b"\x1b[1;34mhi".to_vec(), (2, 0)));
    assert_eq!(after(&[b"\x1b[?2004h$ "]), (b"\x1b[?2004h$ ".to_vec(), (2, 0)));
    assert_eq!(after(&[b"a\x1b[1\n2Kb"]), (b"a\x1b[1\n2Kb".to_vec(), (2, 0)));
    assert_eq!(after(&[b"\x1b[12"]), (b"\x1b[12".to_vec(), (0, 0)));
    assert_eq!(after(&[b"\x1bc"]), (b"\x1bc".to_vec(), (1, 0)));
    assert_eq!(after(&[b"\x1b"]), (b"\x1b".to_vec(), (0, 0)));
    assert_eq!(after(&[b"\x1b\x1b[m"]), (b"\x1b\x1b[m".to_vec(), (0, 0)));
}

#[test]
fn backspace_after_an_escape_sequence_takes_its_last_byte() {
    assert_eq!(after(&[b"a\x1b[0m\x7f"]), (b"a\x1b[0".to_vec(), (0, 0)));
}

#[test]
fn other_control_characters_are_dropped() {
    assert_eq!(after(&[b"a\x00\x07\x0b\x0cb\x80\xff"]), (b"ab".to_vec(), (2, 0)));
    assert_eq!(after(&["h\u{e9}".as_bytes()]), (b"h".to_vec(), (1, 0)));
}

#[test]
fn chunks_can_be_cut_outside_escape_sequences() {
    let whole = after(&[b"ab\x1b[31mc\nd\x7fe"]);
    assert_eq!(after(&[b"ab", b"\x1b[31mc\nd\x7fe"]), whole);
    assert_eq!(after(&[b"ab\x1b[31m", b"c\n", b"d", b"\x7fe"]), whole);
}

#[test]
fn a_cut_inside_an_escape_sequence_moves_the_cursor() {
    assert_eq!(after(&[b"\x1b[31m"]), (b"\x1b[31m".to_vec(), (0, 0)));
    assert_eq!(after(&[b"\x1b[3", b"1m"]), (b"\x1b[31m".to_vec(), (2, 0)));
    assert_eq!(after(&[b"\x1b", b"[31m"]), (b"\x1b[31m".to_vec(), (4, 0)));
}

#[test]
fn the_row_only_grows() {
    let (_, (_, row)) = after(&[b"\n\x7f\n\x7f\n"]);
    assert_eq!(row, 3);
}

#[test]
fn cursor_offset_counts_lines() {
    assert_eq!(cursor_cell_offset(&(0, 0), b""), (0, -1));
    assert_eq!(cursor_cell_offset(&(4, 2), b"a\nb\nabcd"), (4, -1));
    assert_eq!(cursor_cell_offset(&(1, 5), b"a\n"), (1, 3));
    assert_eq!(cursor_cell_offset(&(7, 0), b"\n\n\n"), (7, -4));
}

#[test]
fn cursor_offset_wraps_large_rows() {
    assert_eq!(cursor_cell_offset(&(0, usize::MAX), b""), (0, -2));
    assert_eq!(cursor_cell_offset(&(0, i64::MAX as usize), b""), (0, i64::MAX - 1));
}

#[test]
fn the_cursor_stays_on_the_last_line() {
    let mut screen = Screen::new();
    screen.ingest(b"one\r\ntwo\x1b[1m\nthr\x7fee");
    assert_eq!(cursor_cell_offset(&screen.cursor_pos(), screen.contents()).1, -1);
    screen.ingest(b"\n\x7f");
    assert_eq!(cursor_cell_offset(&screen.cursor_pos(), screen.contents()).1, 0);
}

#[test]
fn kept_output_is_buffered_as_it_is() {
    let output = b"\x1b[1;34m~\x1b[0m $ ls\r\n\x1b[32mfile\x1b[0m\tx";
    assert_eq!(after(&[b"> ", output]).0, [&b"> "[..], &output[..]].concat());
}
