//! Compaction of a grid into draw commands.
//!
//! A run is a maximal stretch of filled cells in one row that share a style.
//! The frame of a grid is the list of its runs, row by row and left to right.

use vstd::prelude::*;
use crate::command::{runs_of, DrawCommand, GridCell, Run};
use crate::style::Style;

verus! {

/// Whether column `col` of `row` holds a character painted in `style`.
pub open spec fn continues(row: Seq<GridCell>, col: int, style: Style) -> bool {
    0 <= col < row.len() && row[col].is_some() && row[col].unwrap().1 == style
}

/// How many cells in a row, from column `from` on, hold a character painted in
/// `style` before the first that does not.
pub open spec fn run_length(row: Seq<GridCell>, from: int, style: Style) -> nat
    decreases row.len() - from,
{
    if continues(row, from, style) {
        1 + run_length(row, from + 1, style)
    } else {
        0
    }
}

/// The characters of the `len` cells from column `from` on.
pub open spec fn run_text(row: Seq<GridCell>, from: int, len: nat) -> Seq<char> {
    Seq::new(len, |k: int| row[from + k].unwrap().0)
}

/// The runs of `row` that start at column `from` or to its right, given that
/// no run reaches across `from` from the left.
pub open spec fn row_runs(row: Seq<GridCell>, row_index: int, from: int) -> Seq<Run>
    decreases row.len() - from,
    via row_runs_terminates
{
    if 0 <= from < row.len() {
        match row[from] {
            None => row_runs(row, row_index, from + 1),
            Some(cell) => {
                let len = 1 + run_length(row, from + 1, cell.1);
                seq![Run { text: run_text(row, from, len), row: row_index, col_start: from, style: cell.1 }]
                    + row_runs(row, row_index, from + len)
            },
        }
    } else {
        Seq::empty()
    }
}

#[via_fn]
proof fn row_runs_terminates(row: Seq<GridCell>, row_index: int, from: int) {
    if 0 <= from < row.len() && row[from].is_some() {
        lemma_run_stays_in_row(row, from + 1, row[from].unwrap().1);
    }
}

/// A run ends where its row ends, at the latest.
pub proof fn lemma_run_stays_in_row(row: Seq<GridCell>, from: int, style: Style)
    requires
        0 <= from <= row.len(),
    ensures
        from + run_length(row, from, style) <= row.len(),
    decreases row.len() - from,
{
    if continues(row, from, style) {
        lemma_run_stays_in_row(row, from + 1, style);
    }
}

/// The runs of the first `rows` rows of a grid.
pub open spec fn frame_of(cells: Seq<Seq<GridCell>>, rows: int) -> Seq<Run>
    decreases rows,
{
    if rows <= 0 {
        Seq::empty()
    } else {
        frame_of(cells, rows - 1) + row_runs(cells[rows - 1], rows - 1, 0)
    }
}

/// The frame of a grid: the runs of all its rows.
pub open spec fn frame(cells: Seq<Seq<GridCell>>) -> Seq<Run> {
    frame_of(cells, cells.len() as int)
}

/// Whether `run` is a run of `row`: a stretch of filled cells, all painted in
/// the run's style, whose characters the run's text holds in order, and which
/// can be made longer at neither end.
pub open spec fn is_run(row: Seq<GridCell>, row_index: int, run: Run) -> bool {
    &&& run.row == row_index
    &&& run.text.len() > 0
    &&& 0 <= run.col_start
    &&& run.col_start + run.text.len() <= row.len()
    &&& forall|k: int|
        0 <= k < run.text.len() ==> row[run.col_start + k] == Some((#[trigger] run.text[k], run.style))
    &&& !continues(row, run.col_start - 1, run.style)
    &&& !continues(row, run.col_start + run.text.len(), run.style)
}

/// Whether `run` covers the cell at (`row`, `col`).
pub open spec fn covers(run: Run, row: int, col: int) -> bool {
    run.row == row && run.col_start <= col < run.col_start + run.text.len()
}

/// Whether `first` lies wholly before `second` in reading order: in a row
/// above it, or in the same row and ending where `second` starts or earlier.
pub open spec fn comes_before(first: Run, second: Run) -> bool {
    first.row < second.row || (first.row == second.row && first.col_start + first.text.len()
        <= second.col_start)
}

/// Whether the cell at `col` and its left neighbour are not two filled cells
/// of one style, so that no run reaches across the border between them.
pub open spec fn breaks_at(row: Seq<GridCell>, col: int) -> bool {
    forall|style: Style| !(continues(row, col - 1, style) && #[trigger] continues(row, col, style))
}

/// The cells that `run_length` counts continue the style, and the cell behind
/// them does not.
proof fn lemma_run_length_cells(row: Seq<GridCell>, from: int, style: Style)
    ensures
        forall|k: int| from <= k < from + run_length(row, from, style) ==> continues(row, k, style),
        !continues(row, from + run_length(row, from, style), style),
    decreases row.len() - from,
{
    if continues(row, from, style) {
        lemma_run_length_cells(row, from + 1, style);
    }
}

/// What holds of the runs that `row_runs` lists from column `from` on, where
/// no run reaches across `from`: each is a run of the row that starts at `from`
/// or later, they come in order without overlap, and every filled cell from
/// `from` on is covered by one of them.
proof fn lemma_row_runs(row: Seq<GridCell>, row_index: int, from: int)
    requires
        0 <= from <= row.len(),
        breaks_at(row, from),
    ensures
        forall|i: int|
            0 <= i < row_runs(row, row_index, from).len() ==> {
                &&& is_run(row, row_index, #[trigger] row_runs(row, row_index, from)[i])
                &&& from <= row_runs(row, row_index, from)[i].col_start
            },
        forall|i: int, j: int|
            0 <= i < j < row_runs(row, row_index, from).len() ==> comes_before(
                #[trigger] row_runs(row, row_index, from)[i],
                #[trigger] row_runs(row, row_index, from)[j],
            ),
        forall|col: int|
            from <= col < row.len() && (#[trigger] row[col]).is_some() ==> exists|i: int|
                0 <= i < row_runs(row, row_index, from).len() && covers(
                    #[trigger] row_runs(row, row_index, from)[i],
                    row_index,
                    col,
                ),
    decreases row.len() - from,
{
    let runs = row_runs(row, row_index, from);
    if from < row.len() {
        match row[from] {
            None => {
                lemma_row_runs(row, row_index, from + 1);
                let rest = row_runs(row, row_index, from + 1);
                assert(runs == rest);
                assert forall|col: int| from <= col < row.len() && (#[trigger] row[col]).is_some() implies exists|
                    i: int,
                |
                    0 <= i < runs.len() && covers(#[trigger] runs[i], row_index, col) by {
                    assert(from + 1 <= col);
                }
            },
            Some(cell) => {
                let style = cell.1;
                let len = 1 + run_length(row, from + 1, style);
                let first = Run { text: run_text(row, from, len as nat), row: row_index, col_start: from, style };
                let rest = row_runs(row, row_index, from + len);
                lemma_run_length_cells(row, from + 1, style);
                lemma_run_stays_in_row(row, from + 1, style);
                assert(continues(row, from, style));
                assert(continues(row, from + len - 1, style));
                assert(breaks_at(row, from + len));
                lemma_row_runs(row, row_index, from + len);
                assert(runs == seq![first] + rest);
                assert(runs[0] == first);
                assert forall|i: int| 1 <= i < runs.len() implies runs[i] == rest[i - 1] by {}
                assert(is_run(row, row_index, first)) by {
                    assert forall|k: int| 0 <= k < first.text.len() implies row[from + k] == Some(
                        (#[trigger] first.text[k], style),
                    ) by {
                        assert(continues(row, from + k, style));
                    }
                }
                assert forall|i: int| 0 <= i < runs.len() implies is_run(row, row_index, #[trigger] runs[i])
                    && from <= runs[i].col_start by {
                    if i > 0 {
                        assert(runs[i] == rest[i - 1]);
                    }
                }
                assert forall|i: int, j: int| 0 <= i < j < runs.len() implies comes_before(
                    #[trigger] runs[i],
                    #[trigger] runs[j],
                ) by {
                    assert(runs[j] == rest[j - 1]);
                    if i > 0 {
                        assert(runs[i] == rest[i - 1]);
                    }
                }
                assert forall|col: int| from <= col < row.len() && (#[trigger] row[col]).is_some() implies exists|
                    i: int,
                |
                    0 <= i < runs.len() && covers(#[trigger] runs[i], row_index, col) by {
                    if col < from + len {
                        assert(covers(runs[0], row_index, col));
                    } else {
                        let i = choose|i: int| 0 <= i < rest.len() && covers(#[trigger] rest[i], row_index, col);
                        assert(runs[i + 1] == rest[i]);
                        assert(covers(runs[i + 1], row_index, col));
                    }
                }
            },
        }
    }
}

/// What holds of the runs of the first `rows` rows of a grid: each is a run of
/// its row, they come in reading order without overlap, and every filled cell
/// of those rows is covered by one of them.
proof fn lemma_frame_of(cells: Seq<Seq<GridCell>>, rows: int)
    requires
        0 <= rows <= cells.len(),
    ensures
        forall|i: int|
            0 <= i < frame_of(cells, rows).len() ==> {
                &&& 0 <= (#[trigger] frame_of(cells, rows)[i]).row < rows
                &&& is_run(cells[frame_of(cells, rows)[i].row], frame_of(cells, rows)[i].row, frame_of(cells, rows)[i])
            },
        forall|i: int, j: int|
            0 <= i < j < frame_of(cells, rows).len() ==> comes_before(
                #[trigger] frame_of(cells, rows)[i],
                #[trigger] frame_of(cells, rows)[j],
            ),
        forall|row: int, col: int|
            0 <= row < rows && 0 <= col < cells[row].len() && (#[trigger] cells[row][col]).is_some()
                ==> exists|i: int|
                0 <= i < frame_of(cells, rows).len() && covers(#[trigger] frame_of(cells, rows)[i], row, col),
    decreases rows,
{
    if rows > 0 {
        let above = frame_of(cells, rows - 1);
        let last = row_runs(cells[rows - 1], rows - 1, 0);
        let all = frame_of(cells, rows);
        lemma_frame_of(cells, rows - 1);
        lemma_row_runs(cells[rows - 1], rows - 1, 0);
        assert(all == above + last);
        assert forall|i: int| 0 <= i < all.len() implies 0 <= (#[trigger] all[i]).row < rows && is_run(
            cells[all[i].row],
            all[i].row,
            all[i],
        ) by {
            if i < above.len() {
                assert(all[i] == above[i]);
            } else {
                assert(all[i] == last[i - above.len()]);
            }
        }
        assert forall|i: int, j: int| 0 <= i < j < all.len() implies comes_before(
            #[trigger] all[i],
            #[trigger] all[j],
        ) by {
            if j < above.len() {
                assert(all[i] == above[i] && all[j] == above[j]);
            } else if i < above.len() {
                assert(all[i] == above[i] && all[j] == last[j - above.len()]);
            } else {
                assert(all[i] == last[i - above.len()] && all[j] == last[j - above.len()]);
            }
        }
        assert forall|row: int, col: int|
            0 <= row < rows && 0 <= col < cells[row].len() && (#[trigger] cells[row][col]).is_some() implies exists|
            i: int,
        |
            0 <= i < all.len() && covers(#[trigger] all[i], row, col) by {
            if row < rows - 1 {
                let i = choose|i: int| 0 <= i < above.len() && covers(#[trigger] above[i], row, col);
                assert(all[i] == above[i]);
                assert(covers(all[i], row, col));
            } else {
                let i = choose|i: int| 0 <= i < last.len() && covers(#[trigger] last[i], row, col);
                assert(all[i + above.len()] == last[i]);
                assert(covers(all[i + above.len()], row, col));
            }
        }
    }
}

/// A frame is as short as it can be. Every draw command is a run of its row:
/// it covers filled cells of its own style only, never an empty cell, and the
/// cells next to its two ends do not continue it. So two commands that follow
/// one another in a row without a gap between them differ in style.
pub proof fn lemma_frame_is_minimal(cells: Seq<Seq<GridCell>>)
    ensures
        forall|i: int|
            0 <= i < frame(cells).len() ==> {
                &&& 0 <= (#[trigger] frame(cells)[i]).row < cells.len()
                &&& is_run(cells[frame(cells)[i].row], frame(cells)[i].row, frame(cells)[i])
            },
        forall|i: int|
            0 <= i < frame(cells).len() - 1 && (#[trigger] frame(cells)[i]).row == frame(cells)[i + 1].row
                && frame(cells)[i].col_start + frame(cells)[i].text.len() == frame(cells)[i + 1].col_start
                ==> frame(cells)[i].style != frame(cells)[i + 1].style,
{
    lemma_frame_of(cells, cells.len() as int);
    let runs = frame(cells);
    assert forall|i: int|
        0 <= i < runs.len() - 1 && (#[trigger] runs[i]).row == runs[i + 1].row && runs[i].col_start
            + runs[i].text.len() == runs[i + 1].col_start implies runs[i].style != runs[i + 1].style by {
        let next = runs[i + 1];
        assert(is_run(cells[next.row], next.row, next));
        assert(cells[next.row][next.col_start + 0] == Some((next.text[0], next.style)));
    }
}

/// The draw commands of a frame come in reading order, row by row from the
/// top and left to right within a row, and no two of them share a cell.
pub proof fn lemma_frame_is_ordered(cells: Seq<Seq<GridCell>>)
    ensures
        forall|i: int, j: int|
            0 <= i < j < frame(cells).len() ==> comes_before(
                #[trigger] frame(cells)[i],
                #[trigger] frame(cells)[j],
            ),
{
    lemma_frame_of(cells, cells.len() as int);
}

/// A frame leaves out no character: every filled cell of the grid is covered
/// by a draw command.
pub proof fn lemma_frame_is_complete(cells: Seq<Seq<GridCell>>)
    ensures
        forall|row: int, col: int|
            0 <= row < cells.len() && 0 <= col < cells[row].len() && (#[trigger] cells[row][col]).is_some()
                ==> exists|i: int|
                0 <= i < frame(cells).len() && covers(#[trigger] frame(cells)[i], row, col),
{
    lemma_frame_of(cells, cells.len() as int);
    let runs = frame_of(cells, cells.len() as int);
    assert forall|row: int, col: int|
        0 <= row < cells.len() && 0 <= col < cells[row].len() && (#[trigger] cells[row][col]).is_some() implies exists|
        i: int,
    |
        0 <= i < frame(cells).len() && covers(#[trigger] frame(cells)[i], row, col) by {
        let i = choose|i: int| 0 <= i < runs.len() && covers(#[trigger] runs[i], row, col);
        assert(covers(frame(cells)[i], row, col));
    }
}

/// Whether `runs` is a list of draw commands that paints the grid with as few
/// commands as can be: each is a run of its row, they come in reading order
/// without overlap, and every filled cell is covered by one of them.
pub open spec fn paints(runs: Seq<Run>, cells: Seq<Seq<GridCell>>) -> bool {
    &&& forall|i: int|
        0 <= i < runs.len() ==> {
            &&& 0 <= (#[trigger] runs[i]).row < cells.len()
            &&& is_run(cells[runs[i].row], runs[i].row, runs[i])
        }
    &&& forall|i: int, j: int| 0 <= i < j < runs.len() ==> comes_before(#[trigger] runs[i], #[trigger] runs[j])
    &&& forall|row: int, col: int|
        0 <= row < cells.len() && 0 <= col < cells[row].len() && (#[trigger] cells[row][col]).is_some()
            ==> exists|i: int| 0 <= i < runs.len() && covers(#[trigger] runs[i], row, col)
}

/// Two runs of a row that cover one cell are the same run.
proof fn lemma_run_is_fixed_by_cell(row: Seq<GridCell>, row_index: int, first: Run, second: Run, col: int)
    requires
        is_run(row, row_index, first),
        is_run(row, row_index, second),
        covers(first, row_index, col),
        covers(second, row_index, col),
    ensures
        first == second,
{
    assert(row[first.col_start + (col - first.col_start)] == Some(
        (first.text[col - first.col_start], first.style),
    ));
    assert(row[second.col_start + (col - second.col_start)] == Some(
        (second.text[col - second.col_start], second.style),
    ));
    let style = first.style;
    assert(second.style == style);
    if first.col_start < second.col_start {
        let k = second.col_start - 1 - first.col_start;
        assert(row[first.col_start + k] == Some((first.text[k], style)));
        assert(continues(row, second.col_start - 1, style));
    }
    if second.col_start < first.col_start {
        let k = first.col_start - 1 - second.col_start;
        assert(row[second.col_start + k] == Some((second.text[k], style)));
        assert(continues(row, first.col_start - 1, style));
    }
    let start = first.col_start;
    if first.text.len() < second.text.len() {
        let k = first.text.len() as int;
        assert(row[start + k] == Some((second.text[k], style)));
        assert(continues(row, start + k, style));
    }
    if second.text.len() < first.text.len() {
        let k = second.text.len() as int;
        assert(row[start + k] == Some((first.text[k], style)));
        assert(continues(row, start + k, style));
    }
    assert forall|k: int| 0 <= k < first.text.len() implies first.text[k] == second.text[k] by {
        assert(row[start + k] == Some((first.text[k], style)));
        assert(row[start + k] == Some((second.text[k], style)));
    }
    assert(first.text =~= second.text);
}

/// Every run that one painting list holds, any other painting list of the
/// same grid holds too.
proof fn lemma_painting_lists_share_runs(cells: Seq<Seq<GridCell>>, one: Seq<Run>, other: Seq<Run>, j: int)
    requires
        paints(one, cells),
        paints(other, cells),
        0 <= j < other.len(),
    ensures
        exists|i: int| 0 <= i < one.len() && #[trigger] one[i] == other[j],
{
    let run = other[j];
    let row = cells[run.row];
    assert(is_run(row, run.row, run));
    assert(row[run.col_start + 0] == Some((run.text[0], run.style)));
    assert(cells[run.row][run.col_start].is_some());
    let i = choose|i: int| 0 <= i < one.len() && covers(#[trigger] one[i], run.row, run.col_start);
    assert(covers(run, run.row, run.col_start));
    lemma_run_is_fixed_by_cell(row, run.row, one[i], run, run.col_start);
    assert(one[i] == other[j]);
}

/// Two painting lists of one grid agree in their first `count` commands.
proof fn lemma_painting_lists_agree(cells: Seq<Seq<GridCell>>, one: Seq<Run>, other: Seq<Run>, count: int)
    requires
        paints(one, cells),
        paints(other, cells),
        0 <= count <= one.len(),
    ensures
        count <= other.len(),
        forall|k: int| 0 <= k < count ==> one[k] == other[k],
    decreases count,
{
    if count > 0 {
        let k = count - 1;
        lemma_painting_lists_agree(cells, one, other, k);
        lemma_painting_lists_share_runs(cells, other, one, k);
        let j = choose|j: int| 0 <= j < other.len() && #[trigger] other[j] == one[k];
        assert(is_run(cells[one[k].row], one[k].row, one[k]));
        if j < k {
            assert(one[j] == other[j]);
            assert(comes_before(one[j], one[k]));
            assert(false);
        }
        assert(k < other.len());
        if j > k {
            lemma_painting_lists_share_runs(cells, one, other, k);
            let i = choose|i: int| 0 <= i < one.len() && #[trigger] one[i] == other[k];
            assert(is_run(cells[other[k].row], other[k].row, other[k]));
            assert(comes_before(other[k], other[j]));
            if i < k {
                assert(other[i] == one[i]);
                assert(comes_before(other[i], other[k]));
                assert(false);
            } else if i > k {
                assert(comes_before(one[k], one[i]));
                assert(false);
            } else {
                assert(false);
            }
        }
    }
}

/// The frame is the only list of draw commands that paints the grid.
pub proof fn lemma_frame_is_the_painting(cells: Seq<Seq<GridCell>>, runs: Seq<Run>)
    ensures
        paints(frame(cells), cells),
        paints(runs, cells) ==> runs == frame(cells),
{
    lemma_frame_is_minimal(cells);
    lemma_frame_is_ordered(cells);
    lemma_frame_is_complete(cells);
    if paints(runs, cells) {
        lemma_painting_lists_agree(cells, runs, frame(cells), runs.len() as int);
        lemma_painting_lists_agree(cells, frame(cells), runs, frame(cells).len() as int);
        assert(runs =~= frame(cells));
    }
}

/// A grid without a filled cell has an empty frame.
pub proof fn lemma_empty_grid_has_empty_frame(cells: Seq<Seq<GridCell>>)
    requires
        forall|row: int, col: int|
            0 <= row < cells.len() && 0 <= col < cells[row].len() ==> (#[trigger] cells[row][col]).is_none(),
    ensures
        frame(cells) == Seq::<Run>::empty(),
{
    lemma_frame_is_minimal(cells);
    let runs = frame(cells);
    if runs.len() > 0 {
        let run = runs[0];
        assert(is_run(cells[run.row], run.row, run));
        assert(cells[run.row][run.col_start + 0] == Some((run.text[0], run.style)));
        assert(false);
    }
    assert(runs =~= Seq::<Run>::empty());
}

/// A stretch of cells that all continue `style`, and that the cell behind it
/// does not continue, is as long as the run from its first cell.
proof fn lemma_run_length_of_stretch(row: Seq<GridCell>, from: int, end: int, style: Style)
    requires
        0 <= from <= end <= row.len(),
        forall|k: int| from <= k < end ==> continues(row, k, style),
        !continues(row, end, style),
    ensures
        run_length(row, from, style) == end - from,
    decreases end - from,
{
    if from < end {
        lemma_run_length_of_stretch(row, from + 1, end, style);
    }
}

/// `String::push` of std: the string afterwards is the string before with
/// `character` added at its end.
#[verifier::external_body]
fn push_char(text: &mut String, character: char)
    ensures
        final(text)@ == old(text)@.push(character),
{
    text.push(character);
}

/// Moves an open command, if there is one, to the end of the list.
fn add_command(commands_list: &mut Vec<DrawCommand>, command: Option<DrawCommand>)
    ensures
        final(commands_list)@ == match command {
            Some(closed) => old(commands_list)@.push(closed),
            None => old(commands_list)@,
        },
{
    if let Some(closed) = command {
        commands_list.push(closed);
    }
}

/// Whether a character in `style` may join the open command. With no command
/// open any character may start one.
fn command_matches(command: &Option<DrawCommand>, style: &Style) -> (matches: bool)
    ensures
        matches == match *command {
            Some(open) => open.style == *style,
            None => true,
        },
{
    match command {
        Some(open) => open.style == *style,
        None => true,
    }
}

/// Adds a character to the open command, or opens one with it at
/// (`row_index`, `col_index`) in `style`.
fn add_character(
    command: &mut Option<DrawCommand>,
    character: char,
    row_index: usize,
    col_index: usize,
    style: Style,
)
    ensures
        final(command).is_some(),
        match *old(command) {
            Some(open) => {
                &&& final(command).unwrap().text@ == open.text@.push(character)
                &&& final(command).unwrap().row == open.row
                &&& final(command).unwrap().col_start == open.col_start
                &&& final(command).unwrap().style == open.style
            },
            None => {
                &&& final(command).unwrap().text@ == seq![character]
                &&& final(command).unwrap().row == row_index
                &&& final(command).unwrap().col_start == col_index
                &&& final(command).unwrap().style == style
            },
        },
{
    match command {
        Some(open) => push_char(&mut open.text, character),
        None => {
            let mut text = String::new();
            push_char(&mut text, character);
            *command = Some(DrawCommand::new(text, row_index, col_index, style));
        },
    }
}

/// The draw commands of one row: its runs, left to right.
pub fn compact_row(row: &Vec<GridCell>, row_index: usize) -> (draw_commands: Vec<DrawCommand>)
    ensures
        runs_of(draw_commands@) == row_runs(row@, row_index as int, 0),
{
    let mut draw_commands: Vec<DrawCommand> = Vec::new();
    let mut command: Option<DrawCommand> = None;
    let ghost cells = row@;
    let ghost target = row_runs(cells, row_index as int, 0);

    for col_index in 0..row.len()
        invariant
            cells == row@,
            target == row_runs(cells, row_index as int, 0),
            match command {
                None => runs_of(draw_commands@) + row_runs(cells, row_index as int, col_index as int)
                    == target,
                Some(open) => {
                    &&& open.row == row_index
                    &&& open.col_start < col_index
                    &&& open.text@ == run_text(
                        cells,
                        open.col_start as int,
                        (col_index - open.col_start) as nat,
                    )
                    &&& forall|k: int|
                        open.col_start <= k < col_index ==> continues(cells, k, open.style)
                    &&& runs_of(draw_commands@) + row_runs(
                        cells,
                        row_index as int,
                        open.col_start as int,
                    ) == target
                },
            },
    {
        match row[col_index] {
            Some((character, new_style)) => {
                if !command_matches(&command, &new_style) {
                    proof {
                        lemma_close_run(cells, row_index as int, col_index as int, draw_commands@, command.unwrap());
                    }
                    add_command(&mut draw_commands, command);
                    command = None;
                }
                let ghost length: int = if command.is_some() {
                    col_index - command.unwrap().col_start
                } else {
                    0
                };
                add_character(&mut command, character, row_index, col_index, new_style);
                assert(command.unwrap().text@ =~= run_text(
                    cells,
                    command.unwrap().col_start as int,
                    (length + 1) as nat,
                ));
            },
            None => {
                if command.is_some() {
                    proof {
                        lemma_close_run(cells, row_index as int, col_index as int, draw_commands@, command.unwrap());
                    }
                }
                add_command(&mut draw_commands, command);
                command = None;
            },
        }
    }
    if command.is_some() {
        proof {
            lemma_close_run(cells, row_index as int, row.len() as int, draw_commands@, command.unwrap());
        }
    }
    add_command(&mut draw_commands, command);
    draw_commands
}

/// Closing the open command at a column that does not continue it adds
/// exactly the run that starts where the command started.
proof fn lemma_close_run(
    cells: Seq<GridCell>,
    row_index: int,
    col_index: int,
    emitted: Seq<DrawCommand>,
    open: DrawCommand,
)
    requires
        open.row == row_index,
        0 <= open.col_start < col_index <= cells.len(),
        open.text@ == run_text(cells, open.col_start as int, (col_index - open.col_start) as nat),
        forall|k: int| open.col_start <= k < col_index ==> continues(cells, k, open.style),
        !continues(cells, col_index, open.style),
    ensures
        runs_of(emitted.push(open)) + row_runs(cells, row_index, col_index) == runs_of(emitted)
            + row_runs(cells, row_index, open.col_start as int),
{
    let start = open.col_start as int;
    assert(continues(cells, start, open.style));
    lemma_run_length_of_stretch(cells, start + 1, col_index, open.style);
    assert(row_runs(cells, row_index, start) == seq![open@] + row_runs(cells, row_index, col_index));
    assert(runs_of(emitted.push(open)) =~= runs_of(emitted).push(open@));
    assert(runs_of(emitted).push(open@) + row_runs(cells, row_index, col_index) =~= runs_of(emitted)
        + (seq![open@] + row_runs(cells, row_index, col_index)));
}

} // verus!
