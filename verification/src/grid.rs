//! The cell grid as mathematics: a sequence of rows, each a sequence of cells.
//!
//! Everything the editor does to its grid is stated here first, as a function
//! from the grid before to the grid after.

use vstd::prelude::*;
use crate::command::GridCell;
use crate::style::Style;

verus! {

/// The cells of a grid held in vectors, row by row.
pub open spec fn cells_of(grid: Vec<Vec<GridCell>>) -> Seq<Seq<GridCell>> {
    Seq::new(grid@.len(), |row: int| grid@[row]@)
}

/// Whether every row of the grid is as wide as every other.
pub open spec fn is_rectangular(cells: Seq<Seq<GridCell>>) -> bool {
    forall|row: int| 0 <= row < cells.len() ==> (#[trigger] cells[row]).len() == cells[0].len()
}

/// Whether (`row`, `col`) is a cell of the grid.
pub open spec fn in_grid(cells: Seq<Seq<GridCell>>, row: int, col: int) -> bool {
    0 <= row < cells.len() && 0 <= col < cells[row].len()
}

/// The grid of `height` rows and `width` columns with every cell empty.
pub open spec fn blank_grid(width: nat, height: nat) -> Seq<Seq<GridCell>> {
    Seq::new(height, |row: int| Seq::new(width, |col: int| None::<(char, Style)>))
}

/// A row after `text` was written into it in `style`, its first character at
/// `col_start`. Characters that fall beyond the row's end are lost.
pub open spec fn row_written(row: Seq<GridCell>, col_start: int, text: Seq<char>, style: Style) -> Seq<
    GridCell,
> {
    Seq::new(
        row.len(),
        |col: int|
            if col_start <= col < col_start + text.len() {
                Some((text[col - col_start], style))
            } else {
                row[col]
            },
    )
}

/// A grid after `text` was written into its row `row`. A row that the grid
/// does not have takes nothing.
pub open spec fn line_written(
    cells: Seq<Seq<GridCell>>,
    row: int,
    col_start: int,
    text: Seq<char>,
    style: Style,
) -> Seq<Seq<GridCell>> {
    if 0 <= row < cells.len() {
        cells.update(row, row_written(cells[row], col_start, text, style))
    } else {
        cells
    }
}

/// A rectangle of cells: rows from `top` up to, not including, `bottom`, and
/// columns from `left` up to, not including, `right`.
pub ghost struct Region {
    pub top: int,
    pub bottom: int,
    pub left: int,
    pub right: int,
}

impl Region {
    pub open spec fn contains(self, row: int, col: int) -> bool {
        self.top <= row < self.bottom && self.left <= col < self.right
    }

    pub open spec fn is_empty(self) -> bool {
        self.top >= self.bottom || self.left >= self.right
    }

    /// Whether every cell of the region is a cell of the grid.
    pub open spec fn within(self, cells: Seq<Seq<GridCell>>) -> bool {
        forall|row: int, col: int| self.contains(row, col) ==> in_grid(cells, row, col)
    }

    /// The region moved by `rows` rows up and `cols` columns to the left.
    pub open spec fn moved(self, rows: int, cols: int) -> Region {
        Region {
            top: self.top - rows,
            bottom: self.bottom - rows,
            left: self.left - cols,
            right: self.right - cols,
        }
    }
}

/// The part of a scroll region whose content is kept when the region's content
/// moves by `rows` rows up and `cols` columns to the left: what would leave the
/// region is cut off, at the top and left for a positive distance, at the
/// bottom and right for a negative one.
pub open spec fn source_region(region: Region, rows: int, cols: int) -> Region {
    Region {
        top: if rows > 0 { region.top + rows } else { region.top },
        bottom: if rows < 0 { region.bottom + rows } else { region.bottom },
        left: if cols > 0 { region.left + cols } else { region.left },
        right: if cols < 0 { region.right + cols } else { region.right },
    }
}

/// A grid after the content of a scroll region moved by `rows` rows up and
/// `cols` columns to the left. A cell takes the content of the cell that lies
/// `rows` below and `cols` to the right of it, if that cell is in the source
/// region; every other cell keeps its content.
pub open spec fn region_shifted(cells: Seq<Seq<GridCell>>, region: Region, rows: int, cols: int) -> Seq<
    Seq<GridCell>,
> {
    let source = source_region(region, rows, cols);
    Seq::new(
        cells.len(),
        |row: int|
            Seq::new(
                cells[row].len(),
                |col: int|
                    if source.contains(row + rows, col + cols) {
                        cells[row + rows][col + cols]
                    } else {
                        cells[row][col]
                    },
            ),
    )
}

/// A grid part of the way through a shift. The kept content is moved cell by
/// cell in reading order; here the cells above row `next_row`, and those in
/// that row left of `next_col`, have reached their new place, and the others
/// have not moved yet.
pub open spec fn shifted_until(
    cells: Seq<Seq<GridCell>>,
    source: Region,
    rows: int,
    cols: int,
    next_row: int,
    next_col: int,
) -> Seq<Seq<GridCell>> {
    Seq::new(
        cells.len(),
        |row: int|
            Seq::new(
                cells[row].len(),
                |col: int|
                    if source.contains(row + rows, col + cols) && (row + rows < next_row || (row + rows
                        == next_row && col + cols < next_col)) {
                        cells[row + rows][col + cols]
                    } else {
                        cells[row][col]
                    },
            ),
    )
}

/// Before the first cell has moved the grid is as it was.
pub proof fn lemma_shift_begins(cells: Seq<Seq<GridCell>>, source: Region, rows: int, cols: int)
    ensures
        shifted_until(cells, source, rows, cols, source.top, source.left) == cells,
{
    assert(shifted_until(cells, source, rows, cols, source.top, source.left) =~~= cells);
}

/// Moving the cell at (`row`, `col`) writes its content into the cell `rows`
/// above and `cols` to the left of it, if the grid has that cell, and changes
/// nothing otherwise.
pub proof fn lemma_shift_moves_cell(
    cells: Seq<Seq<GridCell>>,
    source: Region,
    rows: int,
    cols: int,
    row: int,
    col: int,
)
    requires
        source.contains(row, col),
    ensures
        shifted_until(cells, source, rows, cols, row, col + 1) == ({
            let current = shifted_until(cells, source, rows, cols, row, col);
            if in_grid(cells, row - rows, col - cols) {
                current.update(row - rows, current[row - rows].update(col - cols, cells[row][col]))
            } else {
                current
            }
        }),
{
    let current = shifted_until(cells, source, rows, cols, row, col);
    let next = shifted_until(cells, source, rows, cols, row, col + 1);
    if in_grid(cells, row - rows, col - cols) {
        assert(next =~~= current.update(
            row - rows,
            current[row - rows].update(col - cols, cells[row][col]),
        ));
    } else {
        assert(next =~~= current);
    }
}

/// With the last cell of a row moved, the next row is about to begin.
pub proof fn lemma_shift_ends_row(cells: Seq<Seq<GridCell>>, source: Region, rows: int, cols: int, row: int)
    ensures
        shifted_until(cells, source, rows, cols, row, source.right) == shifted_until(
            cells,
            source,
            rows,
            cols,
            row + 1,
            source.left,
        ),
{
    assert(shifted_until(cells, source, rows, cols, row, source.right) =~~= shifted_until(
        cells,
        source,
        rows,
        cols,
        row + 1,
        source.left,
    ));
}

/// With the last row moved the shift is done.
pub proof fn lemma_shift_ends(cells: Seq<Seq<GridCell>>, region: Region, rows: int, cols: int)
    ensures
        ({
            let source = source_region(region, rows, cols);
            shifted_until(cells, source, rows, cols, source.bottom, source.left) == region_shifted(
                cells,
                region,
                rows,
                cols,
            )
        }),
{
    let source = source_region(region, rows, cols);
    assert(shifted_until(cells, source, rows, cols, source.bottom, source.left) =~~= region_shifted(
        cells,
        region,
        rows,
        cols,
    ));
}

/// A shift that keeps no content leaves the grid as it is.
pub proof fn lemma_shift_of_nothing(cells: Seq<Seq<GridCell>>, region: Region, rows: int, cols: int)
    requires
        source_region(region, rows, cols).is_empty(),
    ensures
        region_shifted(cells, region, rows, cols) == cells,
{
    assert(region_shifted(cells, region, rows, cols) =~~= cells);
}

/// Writing a line keeps the grid's shape: as many rows, each as wide as before.
pub proof fn lemma_write_keeps_shape(
    cells: Seq<Seq<GridCell>>,
    row: int,
    col_start: int,
    text: Seq<char>,
    style: Style,
)
    ensures
        line_written(cells, row, col_start, text, style).len() == cells.len(),
        forall|r: int|
            0 <= r < cells.len() ==> (#[trigger] line_written(cells, row, col_start, text, style)[r]).len()
                == cells[r].len(),
        is_rectangular(cells) ==> is_rectangular(line_written(cells, row, col_start, text, style)),
{
    let written = line_written(cells, row, col_start, text, style);
    if is_rectangular(cells) {
        assert forall|r: int| 0 <= r < written.len() implies (#[trigger] written[r]).len()
            == written[0].len() by {
            assert(cells[r].len() == cells[0].len());
        }
    }
}

/// A shift keeps the grid's shape: as many rows, each as wide as before.
pub proof fn lemma_shift_keeps_shape(cells: Seq<Seq<GridCell>>, region: Region, rows: int, cols: int)
    ensures
        region_shifted(cells, region, rows, cols).len() == cells.len(),
        forall|row: int|
            0 <= row < cells.len() ==> (#[trigger] region_shifted(cells, region, rows, cols)[row]).len()
                == cells[row].len(),
        is_rectangular(cells) ==> is_rectangular(region_shifted(cells, region, rows, cols)),
{
    let shifted = region_shifted(cells, region, rows, cols);
    if is_rectangular(cells) {
        assert forall|row: int| 0 <= row < shifted.len() implies (#[trigger] shifted[row]).len()
            == shifted[0].len() by {
            assert(cells[row].len() == cells[0].len());
        }
    }
}

/// A shift by no rows and no columns leaves the grid as it is.
pub proof fn lemma_shift_by_nothing(cells: Seq<Seq<GridCell>>, region: Region)
    ensures
        region_shifted(cells, region, 0, 0) == cells,
{
    assert(region_shifted(cells, region, 0, 0) =~~= cells);
}

/// A shift changes nothing outside the place that the kept content moves to.
pub proof fn lemma_shift_changes_destination_only(
    cells: Seq<Seq<GridCell>>,
    region: Region,
    rows: int,
    cols: int,
)
    ensures
        forall|row: int, col: int|
            in_grid(cells, row, col) && !source_region(region, rows, cols).moved(rows, cols).contains(
                row,
                col,
            ) ==> #[trigger] region_shifted(cells, region, rows, cols)[row][col] == cells[row][col],
{
}

/// Shifting a region's content and then shifting it back by the same distance
/// restores every cell of the content that the first shift kept, provided the
/// place it was moved to lies in the grid, so that it was not dropped on the
/// way. Cells that neither held kept content nor took it in are untouched.
/// The cells that took the content in and held none of it keep what the first
/// shift wrote into them: what they held before is not brought back.
pub proof fn lemma_shift_there_and_back(cells: Seq<Seq<GridCell>>, region: Region, rows: int, cols: int)
    ensures
        forall|row: int, col: int|
            in_grid(cells, row, col) && source_region(region, rows, cols).contains(row, col) && in_grid(
                cells,
                row - rows,
                col - cols,
            ) ==> #[trigger] region_shifted(
                region_shifted(cells, region, rows, cols),
                region,
                -rows,
                -cols,
            )[row][col] == cells[row][col],
        forall|row: int, col: int|
            in_grid(cells, row, col) && !source_region(region, rows, cols).contains(row, col)
                && !source_region(region, rows, cols).moved(rows, cols).contains(row, col)
                ==> #[trigger] region_shifted(
                region_shifted(cells, region, rows, cols),
                region,
                -rows,
                -cols,
            )[row][col] == cells[row][col],
{
    let kept = source_region(region, rows, cols);
    let there = region_shifted(cells, region, rows, cols);
    let back = region_shifted(there, region, -rows, -cols);
    assert(source_region(region, -rows, -cols) == kept.moved(rows, cols));
    assert forall|row: int, col: int|
        in_grid(cells, row, col) && kept.contains(row, col) && in_grid(
            cells,
            row - rows,
            col - cols,
        ) implies #[trigger] back[row][col] == cells[row][col] by {
        assert(kept.moved(rows, cols).contains(row - rows, col - cols));
        assert(back[row][col] == there[row - rows][col - cols]);
        assert(there[row - rows][col - cols] == cells[row][col]);
    }
}

} // verus!
