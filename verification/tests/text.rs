use termion::strings::{from_chars, is_blank, remove_paste_mode, to_chars};

const ON: &str = "\x1b[?2004h";
const OFF: &str = "\x1b[?2004l";

#[test]
fn paste_mode_sequences_are_removed() {
    assert_eq!(remove_paste_mode(&format!("{}$ ls{}\nfile", ON, OFF)), "$ ls\nfile");
    assert_eq!(remove_paste_mode(&format!("{}{}a{}", ON, ON, ON)), "a");
    assert_eq!(remove_paste_mode(ON), "");
}

#[test]
fn other_text_is_kept() {
    assert_eq!(remove_paste_mode(""), "");
    assert_eq!(remove_paste_mode("[?2004h"), "[?2004h");
    assert_eq!(remove_paste_mode("\x1b[?2004"), "\x1b[?2004");
    assert_eq!(remove_paste_mode("\x1b[1;34m\u{e9}\u{2603}"), "\x1b[1;34m\u{e9}\u{2603}");
}

#[test]
fn removal_runs_once_from_left_to_right() {
    assert_eq!(remove_paste_mode(&format!("\x1b[?20{}04h", ON)), ON);
    assert_eq!(remove_paste_mode(&format!("\x1b[?2004{}h", OFF)), ON);
    assert_eq!(remove_paste_mode(&format!("\x1b[?2004{}l", ON)), "");
}

#[test]
fn removal_agrees_with_std() {
    let texts = ["", "\x1b\x1b[?2004h\x1b[?2004", "a\x1b[?2004lb\x1b[?2004h", "\x1b[?2004\x1b[?2004hl"];
    for text in texts {
        assert_eq!(remove_paste_mode(text), text.replace(ON, "").replace(OFF, ""));
    }
}

#[test]
fn characters_and_back() {
    let text = "a\u{e9}\u{2603}\u{1f600}\n";
    assert_eq!(to_chars(text), vec!['a', '\u{e9}', '\u{2603}', '\u{1f600}', '\n']);
    assert_eq!(from_chars(&to_chars(text)), text);
    assert_eq!(from_chars(&[]), "");
}

#[test]
fn blank_text() {
    assert!(is_blank(""));
    assert!(is_blank(" \t\n\x0b\x0c\r\u{85}\u{a0}\u{3000}"));
    assert!(!is_blank(" ls "));
    assert!(!is_blank("\u{200b}"));
}

#[test]
fn white_space_is_the_unicode_property() {
    let mut found: Vec<u32> = Vec::new();
    for n in 0..=0x10ffffu32 {
        if let Some(c) = char::from_u32(n) {
            if is_blank(&c.to_string()) {
                found.push(n);
            }
        }
    }
    let mut expected: Vec<u32> = (0x09..=0x0d).collect();
    expected.extend([0x20, 0x85, 0xa0, 0x1680]);
    expected.extend(0x2000..=0x200a);
    expected.extend([0x2028, 0x2029, 0x202f, 0x205f, 0x3000]);
    assert_eq!(found, expected);
}
