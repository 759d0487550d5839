//! Styled terminal segments.
//!
//! A segment is a piece of status-line text together with an optional set of
//! visual attributes.  The attributes are written by the user in a compact
//! whitespace-token mini-language (for example `"bg:#050505 underline fg:120"`),
//! which this crate parses and folds into a normalized [`style::StyleAttributes`]
//! value.  A configuration field holding a segment may be either a bare string
//! or a record carrying both the text and a style specification; the
//! [`segment`] module decodes both shapes.

pub mod color;
pub mod segment;
pub mod style;
pub mod text;
