//! A dense two-dimensional grid: a row-major buffer of homogeneous elements
//! with coordinate-based access, parsing from textual sources, neighbor
//! enumeration, and plain or color-annotated rendering.

pub mod error;
pub mod grid;
pub mod laws;
pub mod neighbors;
pub mod nested;
pub mod parse;
pub mod pos;
pub mod pretty;
pub mod render;
pub mod text;

pub use error::GridError;
pub use grid::Grid;
pub use pos::Pos;
pub use pretty::PrettyGrid;
pub use render::ToText;
