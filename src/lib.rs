//! Terminal heatmap of a daily contribution calendar: the grid layout, the
//! month label line and the colored cells, with their contracts.

pub mod color;
pub mod error;
pub mod grid;
pub mod labels;
pub mod render;
