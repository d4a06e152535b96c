use vstd::prelude::*;

verus! {

/// The conditions that the heatmap pipeline reports to its caller.
#[derive(Debug, PartialEq, Eq)]
pub enum HeatmapError {
    /// A color field that is not `#RRGGBB` hex; holds the text after the `#`.
    MalformedColor(String),
    /// A date field without a numeric month between hyphens; holds the date.
    InvalidDate(String),
    /// A cell glyph whose display width is not the expected one; holds the
    /// measured width.
    InvalidGlyphWidth(usize),
}

} // verus!
