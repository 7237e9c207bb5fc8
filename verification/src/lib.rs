//! Recording of glyph outlines, selection of the closed contours that a
//! synthetic bold overlay widens, and loading of fonts for PDF output.

pub mod font;
pub mod laws;
pub mod outline;

pub use outline::{ContourView, GlyphOutline, OpenView, OutlineView, PathEl};
pub use font::{build_font, font_result, FontError};
