use termion::ansi::{is_code_list, parse_ansi_to_layout, parse_code, Pen};
use termion::ascii::{is_alphabetic, is_cell, is_digit, is_shown};
use termion::palette::{default_color, foreground, Color};

fn rgb(r: u8, g: u8, b: u8) -> Color {
    Color { r, g, b, a: 255 }
}

fn sections(text: &str) -> Vec<(String, Color)> {
    parse_ansi_to_layout(text).into_iter().map(|s| (s.text, s.color)).collect()
}

fn piece(text: &str, color: Color) -> (String, Color) {
    (text.to_string(), color)
}

const WHITE: Color = Color { r: 255, g: 255, b: 255, a: 255 };

#[test]
fn normal_colors() {
    assert_eq!(foreground(30, false), Some(rgb(0, 0, 0)));
    assert_eq!(foreground(31, false), Some(rgb(0x8b, 0, 0)));
    assert_eq!(foreground(32, false), Some(rgb(0, 0x64, 0)));
    assert_eq!(foreground(33, false), Some(rgb(128, 128, 0)));
    assert_eq!(foreground(34, false), Some(rgb(0, 0, 255)));
    assert_eq!(foreground(35, false), Some(rgb(128, 0, 128)));
    assert_eq!(foreground(36, false), Some(rgb(0, 128, 128)));
    assert_eq!(foreground(37, false), Some(rgb(220, 220, 220)));
    assert_eq!(foreground(39, false), Some(WHITE));
    assert_eq!(default_color(), WHITE);
}

#[test]
fn bright_colors() {
    assert_eq!(foreground(30, true), Some(rgb(96, 96, 96)));
    assert_eq!(foreground(31, true), Some(rgb(255, 0, 0)));
    assert_eq!(foreground(32, true), Some(rgb(0, 255, 0)));
    assert_eq!(foreground(33, true), Some(rgb(255, 255, 0)));
    assert_eq!(foreground(34, true), Some(rgb(100, 149, 237)));
    assert_eq!(foreground(35, true), Some(rgb(255, 0, 255)));
    assert_eq!(foreground(36, true), Some(rgb(0, 255, 255)));
    assert_eq!(foreground(37, true), Some(WHITE));
    assert_eq!(foreground(39, true), Some(WHITE));
}

#[test]
fn colors_agree_with_egui() {
    let pairs = [
        (foreground(30, false), egui::Color32::BLACK),
        (foreground(30, true), egui::Color32::DARK_GRAY),
        (foreground(31, false), egui::Color32::DARK_RED),
        (foreground(31, true), egui::Color32::RED),
        (foreground(32, false), egui::Color32::DARK_GREEN),
        (foreground(32, true), egui::Color32::GREEN),
        (foreground(33, true), egui::Color32::YELLOW),
        (foreground(34, false), egui::Color32::BLUE),
        (foreground(37, false), egui::Color32::LIGHT_GRAY),
        (foreground(37, true), egui::Color32::WHITE),
    ];
    for (color, expected) in pairs {
        let c = color.unwrap();
        assert_eq!([c.r, c.g, c.b, c.a], expected.to_array());
    }
}

#[test]
fn codes_without_a_color() {
    for code in [0u8, 1, 2, 7, 29, 38, 40, 90, 255] {
        assert_eq!(foreground(code, false), None);
        assert_eq!(foreground(code, true), None);
    }
}

#[test]
fn codes_are_read_in_base_ten() {
    let read = |s: &str| parse_code(&s.chars().collect::<Vec<char>>());
    assert_eq!(read(""), None);
    assert_eq!(read("0"), Some(0));
    assert_eq!(read("31"), Some(31));
    assert_eq!(read("00031"), Some(31));
    assert_eq!(read("255"), Some(255));
    assert_eq!(read("256"), None);
    assert_eq!(read("2560"), None);
    assert_eq!(read("99999999999999999999999999"), None);
    for n in 0..1000u32 {
        assert_eq!(read(&n.to_string()), n.to_string().parse::<u8>().ok());
    }
}

#[test]
fn codes_are_followed_in_order() {
    let follow = |s: &str| {
        let mut pen = Pen::new();
        pen.apply_codes(&s.chars().collect::<Vec<char>>());
        pen
    };
    assert_eq!(follow(""), Pen::new());
    assert_eq!(follow("1;34"), Pen { color: rgb(100, 149, 237), bold: true });
    assert_eq!(follow("34;1"), Pen { color: rgb(0, 0, 255), bold: true });
    assert_eq!(follow("1;34;0"), Pen::new());
    assert_eq!(follow("1;31;39"), Pen { color: WHITE, bold: true });
    assert_eq!(follow(";;32;"), Pen { color: rgb(0, 100, 0), bold: false });
    assert_eq!(follow("38;5;300;31"), Pen { color: rgb(139, 0, 0), bold: false });
}

#[test]
fn one_code_at_a_time() {
    let mut pen = Pen::new();
    pen.apply_code(1);
    assert_eq!(pen, Pen { color: WHITE, bold: true });
    pen.apply_code(31);
    assert_eq!(pen, Pen { color: rgb(255, 0, 0), bold: true });
    pen.apply_code(77);
    assert_eq!(pen, Pen { color: rgb(255, 0, 0), bold: true });
    pen.apply_code(0);
    assert_eq!(pen, Pen::new());
}

#[test]
fn plain_text_is_one_white_section() {
    assert_eq!(sections(""), vec![]);
    assert_eq!(sections("hello\n\tworld"), vec![piece("hello\n\tworld", WHITE)]);
}

#[test]
fn a_prompt_is_colored() {
    assert_eq!(
        sections("\x1b[1;34m~/src\x1b[1;33m(main)\x1b[0m $ ls"),
        vec![
            piece("~/src", rgb(100, 149, 237)),
            piece("(main)", rgb(255, 255, 0)),
            piece(" $ ls", WHITE),
        ]
    );
}

#[test]
fn an_empty_code_list_changes_nothing() {
    assert_eq!(
        sections("\x1b[31ma\x1b[mb"),
        vec![piece("a", rgb(139, 0, 0)), piece("b", rgb(139, 0, 0))]
    );
}

#[test]
fn other_sequences_only_part_the_text() {
    assert_eq!(sections("a\x1b[2Kb"), vec![piece("a", WHITE), piece("b", WHITE)]);
    assert_eq!(sections("\x1b[2J\x1b[10;20Hb"), vec![piece("b", WHITE)]);
    assert_eq!(sections("a\x1bcb"), vec![piece("a", WHITE), piece("cb", WHITE)]);
    assert_eq!(sections("\x1b[?25l"), vec![]);
}

#[test]
fn unfinished_sequences_show_nothing() {
    assert_eq!(sections("a\x1b"), vec![piece("a", WHITE)]);
    assert_eq!(sections("a\x1b["), vec![piece("a", WHITE)]);
    assert_eq!(sections("a\x1b[1;3"), vec![piece("a", WHITE)]);
}

#[test]
fn control_and_other_characters_are_left_out() {
    assert_eq!(sections("a\x07\x08\u{e9}\u{fffd}\x0bb\x0cc"), vec![piece("ab\x0cc", WHITE)]);
    assert_eq!(sections("\x1b[31m\x07\x1b[32mx"), vec![piece("x", rgb(0, 100, 0))]);
}

#[test]
fn appended_output_keeps_earlier_colors() {
    let painted = |text: &str| {
        let mut chars = vec![];
        for (t, c) in sections(text) {
            for ch in t.chars() {
                chars.push((ch, c));
            }
        }
        chars
    };
    let first = painted("\x1b[32mok");
    let both = painted("\x1b[32mok then");
    assert_eq!(both[..first.len()].to_vec(), first);
    assert_eq!(both[first.len()], (' ', rgb(0, 100, 0)));
}

#[test]
fn classes_agree_with_std() {
    for b in 0..=255u8 {
        assert_eq!(is_alphabetic(b), b.is_ascii_alphabetic());
        assert_eq!(is_cell(b), b.is_ascii_graphic() || b == b' ' || b == b'\t');
    }
    for n in 0..0x3000u32 {
        if let Some(c) = char::from_u32(n) {
            assert_eq!(is_digit(c), c.is_ascii_digit());
            assert_eq!(is_shown(c), c.is_ascii_graphic() || c.is_ascii_whitespace());
        }
    }
}

#[test]
fn private_and_intermediate_characters_are_not_shown() {
    assert_eq!(sections("\x1b[?25hX"), vec![piece("X", WHITE)]);
    assert_eq!(sections("\x1b[?2004h$ "), vec![piece("$ ", WHITE)]);
    assert_eq!(sections("\x1b[>0;276;0cX"), vec![piece("X", WHITE)]);
    assert_eq!(sections("\x1b[2 qX"), vec![piece("X", WHITE)]);
    assert_eq!(sections("\x1b[38:5:1mX"), vec![piece("X", WHITE)]);
    assert_eq!(sections("\x1b[?31mX"), vec![piece("X", WHITE)]);
    assert_eq!(sections("a\x1b[?25"), vec![piece("a", WHITE)]);
}

#[test]
fn an_escape_breaks_off_a_private_sequence() {
    assert_eq!(sections("\x1b[31ma\x1b[?25\x1b[0mb"), vec![
        piece("a", rgb(139, 0, 0)),
        piece("b", WHITE),
    ]);
    assert_eq!(sections("\x1b[3\x1b[0mb"), vec![piece("[0mb", WHITE)]);
}

#[test]
fn text_after_a_reset_is_shown_as_if_alone() {
    let rest = "x\x1b[1;32my";
    let mut expected = sections("\x1b[1;31ma\x1b[2K");
    expected.extend(sections(rest));
    assert_eq!(sections(&format!("\x1b[1;31ma\x1b[2K\x1b[0m{}", rest)), expected);
}

#[test]
fn code_lists_are_digits_and_semicolons() {
    assert!(is_code_list(&[]));
    assert!(is_code_list(&['1', ';', ';', '9']));
    assert!(!is_code_list(&['?', '2', '5']));
    assert!(!is_code_list(&['3', '8', ':']));
}

#[test]
fn white_space_breaks_off_a_private_sequence_and_is_shown() {
    assert_eq!(sections("\x1b[?\nX"), vec![piece("\nX", WHITE)]);
    assert_eq!(sections("\x1b[?25\tX"), vec![piece("\tX", WHITE)]);
    assert_eq!(sections("\x1b[>\rX"), vec![piece("\rX", WHITE)]);
    assert_eq!(sections("\x1b[1 \x0cX"), vec![piece("\x0cX", WHITE)]);
    assert_eq!(sections("\x1b[?\u{e9}X"), vec![piece("X", WHITE)]);
    assert_eq!(sections("\x1b[?1@X\x1b[?1~Y"), vec![piece("X", WHITE), piece("Y", WHITE)]);
}

#[test]
fn whatever_follows_a_code_list_ends_it() {
    assert_eq!(sections("\x1b[31\nX"), vec![piece("X", WHITE)]);
    assert_eq!(sections("\x1b[\nX"), vec![piece("X", WHITE)]);
}
