//! Screen-cell state of a grid-based text display.
//!
//! A host sends incremental events (style definitions, line updates, scroll
//! requests, clears); the [`Editor`] merges them into a grid of styled
//! character cells and, once per frame, compacts that grid into the shortest
//! list of same-style text runs for a renderer to paint.

pub mod command;
pub mod compaction;
pub mod editor;
pub mod grid;
pub mod state;
pub mod style;

pub use command::{CursorType, DrawCommand, DrawOutcome, GridCell, GridLineCell};
pub use editor::Editor;
pub use state::EditorView;
pub use style::{Color, Colors, Style};
