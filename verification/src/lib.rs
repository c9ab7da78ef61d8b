//! Status-line formatter for a window-manager event stream.
//!
//! The library decodes one compact event line at a time into tokens of
//! (marker, label), renders each token as a padded, optionally colorized
//! fragment, and hands back the bytes of the finished status line. All of
//! the decoding and rendering logic is verified; process supervision and
//! the actual I/O live outside the library.

pub mod color;
pub mod render;
pub mod supervisor;
pub mod token;

pub use color::Color;
pub use color::Colors;
pub use color::DrawColor;
pub use render::bytes_eq;
pub use render::print_bspwm;
pub use render::process_line;
pub use supervisor::CleanupLatch;
pub use token::Token;
pub use token::tokenize;
