//! The style directives the engine writes into the markup.
//!
//! Three literal tokens express visual state. Replace-versus-insert
//! detection during annotation matches them by exact substring search, so
//! the engine relies on their byte-for-byte spelling.

use vstd::prelude::*;
use crate::text::str_to_chars;

verus! {

/// Styling parameters of the focused state, as the view layer configures
/// them.
#[derive(Clone, Debug, PartialEq, Eq)]
pub struct Focus {
    pub stroke: String,
}

/// Styling parameters of the unfocused state.
#[derive(Clone, Debug, PartialEq, Eq)]
pub struct Unfocus {
    pub stroke: String,
    pub fill: String,
}

/// The token marking a region of the active floor.
pub open spec fn focus_style() -> Seq<char> {
    "style=\"stroke: #000000 !important\""@
}

/// The token marking a region outside the active floor.
pub open spec fn unfocus_style() -> Seq<char> {
    "style=\"stroke: none !important; fill: none !important\""@
}

/// The token marking the shapes of the highlighted slot.
pub open spec fn highlight_style() -> Seq<char> {
    "style=\"stroke: red !important; fill: red !important\""@
}

/// The focus token as character cells.
pub fn focus_style_chars() -> (r: Vec<char>)
    ensures
        r@ == focus_style(),
{
    str_to_chars("style=\"stroke: #000000 !important\"")
}

/// The unfocus token as character cells.
pub fn unfocus_style_chars() -> (r: Vec<char>)
    ensures
        r@ == unfocus_style(),
{
    str_to_chars("style=\"stroke: none !important; fill: none !important\"")
}

/// The highlight token as character cells.
pub fn highlight_style_chars() -> (r: Vec<char>)
    ensures
        r@ == highlight_style(),
{
    str_to_chars("style=\"stroke: red !important; fill: red !important\"")
}

} // verus!
