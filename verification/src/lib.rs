//! Text-layout helpers for a terminal interface.
//!
//! Four independent, side-effect-free operations:
//!
//! * [`get_cursor_position`]: the display column of the cursor of an edited line;
//! * [`title_spans`]: the styled fragments of a row of bracketed titles;
//! * [`first_similarity`]: the first candidate that completes a typed prefix;
//! * [`wrap_once`]: a wrapping policy that breaks a paragraph once, after its first line.
//!
//! Every function carries a contract over the mathematical view of its arguments.

pub mod cursor;
pub mod encoding;
pub mod similarity;
pub mod title;
pub mod unicode;
pub mod wrap;

pub use cursor::{get_cursor_position, TextBuffer};
pub use similarity::first_similarity;
pub use title::{title_spans, Color, Span, Style, TitleStyle};
pub use wrap::{wrap_once, Word};
