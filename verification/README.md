# termion

The model of a small terminal emulator, written in Verus, and a window around it.

- `src/screen.rs`: what shell output does to the screen buffer and the cursor
- `src/ansi.rs`: coloured text from buffered output and its escape sequences
- `src/palette.rs`: the colours, taken from `egui`
- `src/session.rs`: a session: typed input, the command history, what is sent to the shell
- `src/outgoing.rs`: bytes on their way to the shell, in as many writes as it takes
- `src/strings.rs`, `src/ascii.rs`: strings as sequences of characters, ASCII classes
- `app/`: the window (`eframe`) and the shell's pseudo terminal (`nix`)
