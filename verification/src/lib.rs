//! Terminal text decoration: ANSI style attributes with an escape-sequence
//! encoder, hexadecimal colour parsing, and a small catalogue of box-drawing
//! and arrowhead glyphs.

pub mod characters;
pub mod digits;
pub mod style;

pub use characters::Utf8;
pub use style::HexError;
pub use style::Style;
pub use style::as_rgb;
pub use style::style;
pub use style::styler;
pub use style::to_rgb;
