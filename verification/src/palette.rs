//! The colours that text is shown in.

use vstd::prelude::*;

verus! {

/// A colour: red, green and blue, and how opaque it is.
#[derive(Clone, Copy, PartialEq, Eq, Structural, Debug)]
pub struct Color {
    pub r: u8,
    pub g: u8,
    pub b: u8,
    pub a: u8,
}

/// The fully opaque colour of the given parts.
pub open spec fn opaque(r: u8, g: u8, b: u8) -> Color {
    Color { r, g, b, a: 255 }
}

/// White, the colour of text that asks for none.
pub open spec fn white() -> Color {
    opaque(255, 255, 255)
}

/// The colour that the code `code` selects, in its normal or its bright variant;
/// none for a code that selects no colour.
pub open spec fn foreground_color(code: int, bright: bool) -> Option<Color> {
    if code == 30 {
        Some(if bright { opaque(96, 96, 96) } else { opaque(0, 0, 0) })
    } else if code == 31 {
        Some(if bright { opaque(255, 0, 0) } else { opaque(139, 0, 0) })
    } else if code == 32 {
        Some(if bright { opaque(0, 255, 0) } else { opaque(0, 100, 0) })
    } else if code == 33 {
        Some(if bright { opaque(255, 255, 0) } else { opaque(128, 128, 0) })
    } else if code == 34 {
        Some(if bright { opaque(100, 149, 237) } else { opaque(0, 0, 255) })
    } else if code == 35 {
        Some(if bright { opaque(255, 0, 255) } else { opaque(128, 0, 128) })
    } else if code == 36 {
        Some(if bright { opaque(0, 255, 255) } else { opaque(0, 128, 128) })
    } else if code == 37 {
        Some(if bright { white() } else { opaque(220, 220, 220) })
    } else if code == 39 {
        Some(white())
    } else {
        None
    }
}

/// Wraps `egui::Color32::from_rgb`, read back with `to_array`: the three parts as
/// given, fully opaque.
#[verifier::external_body]
fn egui_rgb(r: u8, g: u8, b: u8) -> (c: [u8; 4])
    ensures
        c@ == seq![r, g, b, 255u8],
{
    egui::Color32::from_rgb(r, g, b).to_array()
}

/// Wraps the constant `egui::Color32::WHITE`: 255, 255, 255, opaque.
#[verifier::external_body]
fn egui_white() -> (c: [u8; 4])
    ensures
        c@ == seq![255u8, 255u8, 255u8, 255u8],
{
    egui::Color32::WHITE.to_array()
}

/// Wraps the constant `egui::Color32::LIGHT_GRAY`: 220, 220, 220, opaque.
#[verifier::external_body]
fn egui_light_gray() -> (c: [u8; 4])
    ensures
        c@ == seq![220u8, 220u8, 220u8, 255u8],
{
    egui::Color32::LIGHT_GRAY.to_array()
}

/// Wraps the constant `egui::Color32::DARK_GRAY`: 96, 96, 96, opaque.
#[verifier::external_body]
fn egui_dark_gray() -> (c: [u8; 4])
    ensures
        c@ == seq![96u8, 96u8, 96u8, 255u8],
{
    egui::Color32::DARK_GRAY.to_array()
}

/// Wraps the constant `egui::Color32::BLACK`: 0, 0, 0, opaque.
#[verifier::external_body]
fn egui_black() -> (c: [u8; 4])
    ensures
        c@ == seq![0u8, 0u8, 0u8, 255u8],
{
    egui::Color32::BLACK.to_array()
}

/// Wraps the constant `egui::Color32::RED`: 255, 0, 0, opaque.
#[verifier::external_body]
fn egui_red() -> (c: [u8; 4])
    ensures
        c@ == seq![255u8, 0u8, 0u8, 255u8],
{
    egui::Color32::RED.to_array()
}

/// Wraps the constant `egui::Color32::DARK_RED`: 139, 0, 0, opaque.
#[verifier::external_body]
fn egui_dark_red() -> (c: [u8; 4])
    ensures
        c@ == seq![139u8, 0u8, 0u8, 255u8],
{
    egui::Color32::DARK_RED.to_array()
}

/// Wraps the constant `egui::Color32::GREEN`: 0, 255, 0, opaque.
#[verifier::external_body]
fn egui_green() -> (c: [u8; 4])
    ensures
        c@ == seq![0u8, 255u8, 0u8, 255u8],
{
    egui::Color32::GREEN.to_array()
}

/// Wraps the constant `egui::Color32::DARK_GREEN`: 0, 100, 0, opaque.
#[verifier::external_body]
fn egui_dark_green() -> (c: [u8; 4])
    ensures
        c@ == seq![0u8, 100u8, 0u8, 255u8],
{
    egui::Color32::DARK_GREEN.to_array()
}

/// Wraps the constant `egui::Color32::YELLOW`: 255, 255, 0, opaque.
#[verifier::external_body]
fn egui_yellow() -> (c: [u8; 4])
    ensures
        c@ == seq![255u8, 255u8, 0u8, 255u8],
{
    egui::Color32::YELLOW.to_array()
}

/// Wraps the constant `egui::Color32::BLUE`: 0, 0, 255, opaque.
#[verifier::external_body]
fn egui_blue() -> (c: [u8; 4])
    ensures
        c@ == seq![0u8, 0u8, 255u8, 255u8],
{
    egui::Color32::BLUE.to_array()
}

/// The colour with the given four parts.
fn from_array(c: [u8; 4]) -> (r: Color)
    ensures
        r == (Color { r: c@[0], g: c@[1], b: c@[2], a: c@[3] }),
{
    Color { r: c[0], g: c[1], b: c[2], a: c[3] }
}

/// White.
pub fn default_color() -> (r: Color)
    ensures
        r == white(),
{
    from_array(egui_white())
}

/// The colour that `code` selects in its normal or its bright variant.
pub fn foreground(code: u8, bright: bool) -> (r: Option<Color>)
    ensures
        r == foreground_color(code as int, bright),
{
    match code {
        30 => Some(from_array(if bright { egui_dark_gray() } else { egui_black() })),
        31 => Some(from_array(if bright { egui_red() } else { egui_dark_red() })),
        32 => Some(from_array(if bright { egui_green() } else { egui_dark_green() })),
        33 => Some(from_array(if bright { egui_yellow() } else { egui_rgb(128, 128, 0) })),
        34 => Some(from_array(if bright { egui_rgb(100, 149, 237) } else { egui_blue() })),
        35 => Some(from_array(if bright { egui_rgb(255, 0, 255) } else { egui_rgb(128, 0, 128) })),
        36 => Some(from_array(if bright { egui_rgb(0, 255, 255) } else { egui_rgb(0, 128, 128) })),
        37 => Some(from_array(if bright { egui_white() } else { egui_light_gray() })),
        39 => Some(from_array(egui_white())),
        _ => None,
    }
}

} // verus!
