//! Region annotation and highlighting engine for floor-plan markup.
//!
//! The engine treats a vector-markup document as an annotated text blob:
//! it extracts named regions by scanning for a tag attribute, derives the
//! selectable option axes (floors and slots) from the tag components, and
//! rewrites the text in place to express visual state (focused, unfocused,
//! highlighted) without a structural parser.

pub mod text;
pub mod theme;
pub mod tag;
pub mod edit;
pub mod scan;
pub mod maps;
pub mod derive;
pub mod svg;
pub mod entity;
pub mod laws;
