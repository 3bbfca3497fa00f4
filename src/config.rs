//! Configuration values that drive the report's colouring.

use vstd::prelude::*;

verus! {

/// The palette of terminal colours: the sixteen named colours and one
/// arbitrary RGB colour.
#[derive(Clone, Copy, Debug, PartialEq, Eq, Structural)]
pub enum LocalColor {
    Black,
    Red,
    Green,
    Yellow,
    Blue,
    Magenta,
    Cyan,
    White,
    BrightBlack,
    BrightRed,
    BrightGreen,
    BrightYellow,
    BrightBlue,
    BrightMagenta,
    BrightCyan,
    BrightWhite,
    TrueColor { r: u8, g: u8, b: u8 },
}

/// One band of a [`ConditionalColour`]: values reaching `min` take `colour`.
pub struct ColouringLevel<T: PartialOrd> {
    /// The minimum value the comparison value should reach before this colour is used.
    pub min: T,
    /// The colour to use.
    pub colour: LocalColor,
}

/// A value-to-colour mapping: a default colour and bands checked in order.
///
/// The bands are expected in ascending order of `min`; they are not sorted here.
pub struct ConditionalColour<T: PartialOrd> {
    /// The colour used when the value is below the first band's minimum.
    pub default_colour: LocalColor,
    /// The bands, checked in order.
    pub levels: Vec<ColouringLevel<T>>,
}

/// Configuration for one system service.
pub struct ServiceConfig {
    /// Colouring of the service's memory usage, compared in bytes.
    pub memory_usage: Option<ConditionalColour<u64>>,
}

/// Configuration for one user's last logins.
pub struct UserLastLoginConfig {
    /// Optionally set the colour of the username.
    pub username_colour: Option<LocalColor>,
    /// Optionally limit the number of logins shown for the user.
    pub max_lines: Option<usize>,
}

} // verus!
