//! The values that cross the library's border: line updates coming in from the
//! host, draw commands going out to the renderer, and the cursor's shape.

use vstd::prelude::*;
use crate::style::Style;

verus! {

/// One cell of the grid: empty, or a character with the style it is painted in.
pub type GridCell = Option<(char, Style)>;

/// A line update: `text` is to be written into row `row` of grid `grid`, its
/// first character at column `col_start`, in the style that `style_id` names.
/// Without a `style_id` the update continues in the style of the update before.
pub struct GridLineCell {
    pub grid: usize,
    pub text: String,
    pub row: usize,
    pub col_start: usize,
    pub style_id: Option<u64>,
}

impl GridLineCell {
    pub fn new(grid: usize, text: String, row: usize, col_start: usize, style_id: Option<u64>) -> (line: GridLineCell)
        ensures
            line.grid == grid,
            line.text == text,
            line.row == row,
            line.col_start == col_start,
            line.style_id == style_id,
    {
        GridLineCell { grid, text, row, col_start, style_id }
    }
}

/// What a draw command says, as plain mathematics.
pub ghost struct Run {
    pub text: Seq<char>,
    pub row: int,
    pub col_start: int,
    pub style: Style,
}

/// An instruction to the renderer: paint `text` in row `row`, from column
/// `col_start` on, one character per column, all of it in `style`.
#[derive(Debug, Clone)]
pub struct DrawCommand {
    pub text: String,
    pub row: usize,
    pub col_start: usize,
    pub style: Style,
}

impl View for DrawCommand {
    type V = Run;

    open spec fn view(&self) -> Run {
        Run { text: self.text@, row: self.row as int, col_start: self.col_start as int, style: self.style }
    }
}

impl DrawCommand {
    pub fn new(text: String, row: usize, col_start: usize, style: Style) -> (command: DrawCommand)
        ensures
            command.text == text,
            command.row == row,
            command.col_start == col_start,
            command.style == style,
    {
        DrawCommand { text, row, col_start, style }
    }
}

/// What a list of draw commands says: the run of each, in order.
pub open spec fn runs_of(commands: Seq<DrawCommand>) -> Seq<Run> {
    commands.map_values(|command: DrawCommand| command@)
}

/// What became of a line update.
#[derive(Clone, Copy, Debug, PartialEq, Eq, Structural)]
pub enum DrawOutcome {
    /// The grid has the row, and took the characters that fit into it.
    Written,
    /// The grid has no such row; the update was dropped.
    OutOfBounds,
}

/// The shape in which the cursor is drawn.
#[derive(Clone, Copy, Debug, PartialEq, Eq, Structural)]
pub enum CursorType {
    Block,
    Horizontal,
    Vertical,
}

} // verus!
