//! An editor session as mathematics: what each event does to the state, and
//! what follows from that.

use vstd::prelude::*;
use crate::command::{CursorType, GridCell, Run};
use crate::compaction::{frame, lemma_empty_grid_has_empty_frame};
use crate::grid::{
    blank_grid, in_grid, is_rectangular, lemma_shift_by_nothing, lemma_shift_keeps_shape,
    lemma_shift_there_and_back, lemma_write_keeps_shape, line_written, region_shifted, source_region,
    Region,
};
use crate::style::{Color, Colors, Style};

verus! {

/// An editor's state as mathematics.
pub ghost struct EditorView {
    pub cells: Seq<Seq<GridCell>>,
    pub cursor_pos: (usize, usize),
    pub cursor_type: CursorType,
    pub size: (usize, usize),
    pub default_colors: Colors,
    pub defined_styles: Map<u64, Style>,
    pub previous_style: Option<Style>,
}

impl EditorView {
    /// The colors of a session that has not been told any: white on black,
    /// decorations in grey.
    pub open spec fn initial_colors() -> Colors {
        Colors {
            foreground: Some(Color::white()),
            background: Some(Color::black()),
            special: Some(Color::grey()),
        }
    }

    /// The state in which a session of the given size starts.
    pub open spec fn initial(width: usize, height: usize) -> EditorView {
        EditorView {
            cells: blank_grid(width as nat, height as nat),
            cursor_pos: (0, 0),
            cursor_type: CursorType::Block,
            size: (width, height),
            default_colors: Self::initial_colors(),
            defined_styles: Map::empty(),
            previous_style: None,
        }
    }

    /// The grid's invariant: all its rows have one width.
    pub open spec fn wf(self) -> bool {
        is_rectangular(self.cells)
    }

    /// The default style: the default colors, every attribute off.
    pub open spec fn default_style(self) -> Style {
        Style::plain(self.default_colors)
    }

    /// Whether a line update may name `style_id`: the host must have defined
    /// the style it names. Zero needs no definition, nor does naming none.
    pub open spec fn defines(self, style_id: Option<u64>) -> bool {
        match style_id {
            Some(id) => id == 0 || self.defined_styles.contains_key(id),
            None => true,
        }
    }

    /// The style in which a line update that names `style_id` is written.
    /// Zero is the default style, whatever the host has defined under it; any
    /// other number is the style defined under it. An update that names none
    /// is written in the style of the update before it, or in the default
    /// style if none came before.
    pub open spec fn style_for(self, style_id: Option<u64>) -> Style {
        match style_id {
            Some(id) => if id == 0 {
                self.default_style()
            } else {
                self.defined_styles[id]
            },
            None => match self.previous_style {
                Some(previous) => previous,
                None => self.default_style(),
            },
        }
    }

    /// The state after a line update: the text is written into the grid, and
    /// its style is remembered, whether or not a cell took a character.
    pub open spec fn drawn(self, row: int, col_start: int, text: Seq<char>, style_id: Option<u64>) -> EditorView {
        let style = self.style_for(style_id);
        EditorView {
            cells: line_written(self.cells, row, col_start, text, style),
            previous_style: Some(style),
            ..self
        }
    }

    /// Whether the content of `region` can move by `rows` rows up and `cols`
    /// columns to the left: every cell whose content is to be kept must be a
    /// cell of the grid. A region of which nothing is kept can always move.
    pub open spec fn can_scroll(self, region: Region, rows: int, cols: int) -> bool {
        source_region(region, rows, cols).within(self.cells)
    }

    /// The state after the content of `region` moved by `rows` rows up and
    /// `cols` columns to the left. Only the grid changes.
    pub open spec fn scrolled(self, region: Region, rows: int, cols: int) -> EditorView {
        EditorView { cells: region_shifted(self.cells, region, rows, cols), ..self }
    }

    /// What a lookup of style `id` gives: the default style for zero, the
    /// style defined under any other number, nothing for a number that the
    /// host has not defined.
    pub open spec fn resolved(self, id: u64) -> Option<Style> {
        if id == 0 {
            Some(self.default_style())
        } else if self.defined_styles.contains_key(id) {
            Some(self.defined_styles[id])
        } else {
            None
        }
    }

    /// The state after the host answered a request for a new size: the size
    /// is recorded if the host granted it, and nothing changes if it did not.
    /// The grid keeps its shape and content until it is next cleared.
    pub open spec fn resized(self, new_width: usize, new_height: usize, granted: bool) -> EditorView {
        if granted {
            EditorView { size: (new_width, new_height), ..self }
        } else {
            self
        }
    }

    /// The draw commands of the grid: its runs, row by row, left to right.
    pub open spec fn frame(self) -> Seq<Run> {
        frame(self.cells)
    }

    /// The state after a clear: a blank grid of the recorded size, and no
    /// style left over from an earlier line update.
    pub open spec fn cleared(self) -> EditorView {
        EditorView {
            cells: blank_grid(self.size.0 as nat, self.size.1 as nat),
            previous_style: None,
            ..self
        }
    }
}

/// Clearing the grid and then building the draw commands gives no command,
/// whatever the editor held before.
pub proof fn lemma_cleared_frame_is_empty(state: EditorView)
    ensures
        state.cleared().frame() == Seq::<Run>::empty(),
{
    lemma_empty_grid_has_empty_frame(state.cleared().cells);
}

/// A line update that names no style, coming right after one that named a
/// style, is written in that same style, whichever rows the two go to: the
/// style that the second resolves to is the first one's, every cell that the
/// second writes carries it, and it stays the style to continue in.
pub proof fn lemma_style_carries_over(
    state: EditorView,
    row: int,
    col_start: int,
    text: Seq<char>,
    style_id: u64,
    next_row: int,
    next_col_start: int,
    next_text: Seq<char>,
)
    ensures
        ({
            let style = state.style_for(Some(style_id));
            let first = state.drawn(row, col_start, text, Some(style_id));
            let second = first.drawn(next_row, next_col_start, next_text, None);
            &&& first.style_for(None) == style
            &&& second.previous_style == Some(style)
            &&& forall|col: int|
                in_grid(state.cells, next_row, col) && next_col_start <= col < next_col_start
                    + next_text.len() ==> #[trigger] second.cells[next_row][col] == Some(
                    (next_text[col - next_col_start], style),
                )
        }),
{
    let style = state.style_for(Some(style_id));
    let first = state.drawn(row, col_start, text, Some(style_id));
    lemma_write_keeps_shape(state.cells, row, col_start, text, style);
}

/// A line update that names style zero is written in the default style: the
/// default colors of that moment, every attribute off, no blending. What the
/// host has defined, under zero or any other number, plays no part.
pub proof fn lemma_style_zero_is_default(state: EditorView, row: int, col_start: int, text: Seq<char>)
    ensures
        ({
            let style = Style {
                colors: state.default_colors,
                reverse: false,
                italic: false,
                bold: false,
                strikethrough: false,
                underline: false,
                undercurl: false,
                blend: 0,
            };
            let after = state.drawn(row, col_start, text, Some(0));
            &&& state.style_for(Some(0)) == style
            &&& after.previous_style == Some(style)
            &&& forall|col: int|
                in_grid(state.cells, row, col) && col_start <= col < col_start + text.len()
                    ==> #[trigger] after.cells[row][col] == Some((text[col - col_start], style))
        }),
{
}

/// A line update keeps the grid's shape, and with it the grid's invariant.
pub proof fn lemma_draw_keeps_shape(
    state: EditorView,
    row: int,
    col_start: int,
    text: Seq<char>,
    style_id: Option<u64>,
)
    ensures
        state.drawn(row, col_start, text, style_id).cells.len() == state.cells.len(),
        forall|r: int|
            0 <= r < state.cells.len() ==> (#[trigger] state.drawn(
                row,
                col_start,
                text,
                style_id,
            ).cells[r]).len() == state.cells[r].len(),
        state.wf() ==> state.drawn(row, col_start, text, style_id).wf(),
{
    lemma_write_keeps_shape(state.cells, row, col_start, text, state.style_for(style_id));
}

/// A scroll keeps the grid's shape, and with it the grid's invariant.
pub proof fn lemma_scroll_keeps_shape(state: EditorView, region: Region, rows: int, cols: int)
    ensures
        state.scrolled(region, rows, cols).cells.len() == state.cells.len(),
        forall|r: int|
            0 <= r < state.cells.len() ==> (#[trigger] state.scrolled(region, rows, cols).cells[r]).len()
                == state.cells[r].len(),
        state.wf() ==> state.scrolled(region, rows, cols).wf(),
{
    lemma_shift_keeps_shape(state.cells, region, rows, cols);
}

/// A scroll by no rows and no columns leaves the editor as it is.
pub proof fn lemma_scroll_by_nothing(state: EditorView, region: Region)
    ensures
        state.scrolled(region, 0, 0) == state,
{
    lemma_shift_by_nothing(state.cells, region);
}

/// Scrolling a region and then scrolling it back by the same distance
/// restores every cell whose content the first scroll kept and moved to a
/// place inside the grid, and leaves alone every cell that neither held such
/// content nor took it in. Outside the grid nothing changes at all.
pub proof fn lemma_scroll_there_and_back(state: EditorView, region: Region, rows: int, cols: int)
    ensures
        ({
            let back = state.scrolled(region, rows, cols).scrolled(region, -rows, -cols);
            let kept = source_region(region, rows, cols);
            &&& back == (EditorView { cells: back.cells, ..state })
            &&& forall|row: int, col: int|
                in_grid(state.cells, row, col) && kept.contains(row, col) && in_grid(
                    state.cells,
                    row - rows,
                    col - cols,
                ) ==> #[trigger] back.cells[row][col] == state.cells[row][col]
            &&& forall|row: int, col: int|
                in_grid(state.cells, row, col) && !kept.contains(row, col) && !kept.moved(
                    rows,
                    cols,
                ).contains(row, col) ==> #[trigger] back.cells[row][col] == state.cells[row][col]
        }),
{
    lemma_shift_there_and_back(state.cells, region, rows, cols);
}

} // verus!
