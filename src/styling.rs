//! Styles, the codes they write, and the theme that picks one per key and value.
pub mod ansi;
pub mod style;
pub mod theme;

pub use style::{AnsiColor, Label, Style, StyleBuilder, Styler};
pub use theme::Theme;
