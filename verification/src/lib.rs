//! The model of a small terminal emulator: what the bytes of a shell do to the
//! screen buffer and its cursor, how the buffered output is turned into coloured
//! text, how typed input becomes commands and bytes for the shell.

pub mod ansi;
pub mod ascii;
pub mod laws;
pub mod outgoing;
pub mod palette;
pub mod screen;
pub mod session;
pub mod strings;
