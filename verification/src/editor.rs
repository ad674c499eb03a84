//! The editor: the grid, the styles the host has defined, and the cursor.

use std::collections::HashMap;
use vstd::prelude::*;
use crate::command::{runs_of, CursorType, DrawCommand, DrawOutcome, GridCell, GridLineCell, Run};
use crate::compaction::{compact_row, frame_of};
use crate::grid::{
    blank_grid, cells_of, in_grid, lemma_shift_begins, lemma_shift_ends, lemma_shift_ends_row,
    lemma_shift_moves_cell, lemma_shift_of_nothing, row_written, line_written, shifted_until,
    source_region, Region,
};
use crate::state::{
    lemma_cleared_frame_is_empty, lemma_draw_keeps_shape, lemma_scroll_by_nothing,
    lemma_scroll_keeps_shape, EditorView,
};
use crate::style::{Color, Colors, Style};

verus! {

/// The state of an editor session.
///
/// `size` is (width, height), the size that the next `clear` gives the grid.
/// `previous_style` is the style of the latest line update, kept for updates
/// that name no style of their own.
pub struct Editor {
    pub grid: Vec<Vec<GridCell>>,
    pub cursor_pos: (usize, usize),
    pub cursor_type: CursorType,
    pub size: (usize, usize),
    pub default_colors: Colors,
    pub defined_styles: HashMap<u64, Style>,
    pub previous_style: Option<Style>,
}

impl View for Editor {
    type V = EditorView;

    open spec fn view(&self) -> EditorView {
        EditorView {
            cells: cells_of(self.grid),
            cursor_pos: self.cursor_pos,
            cursor_type: self.cursor_type,
            size: self.size,
            default_colors: self.default_colors,
            defined_styles: self.defined_styles@,
            previous_style: self.previous_style,
        }
    }
}

/// Whether `copied` holds the cells that row `offset` of the region `source`
/// has in `cells`, from the region's left edge to its right.
spec fn is_copy_of_row(copied: Seq<GridCell>, cells: Seq<Seq<GridCell>>, source: Region, offset: int) -> bool {
    &&& 0 <= source.top + offset < cells.len()
    &&& 0 <= source.left <= source.right <= cells[source.top + offset].len()
    &&& copied == cells[source.top + offset].subrange(source.left, source.right)
}

/// A grid of `height` rows and `width` columns, every cell empty.
fn blank(width: usize, height: usize) -> (grid: Vec<Vec<GridCell>>)
    ensures
        cells_of(grid) == blank_grid(width as nat, height as nat),
{
    let mut grid: Vec<Vec<GridCell>> = Vec::new();
    for row_index in 0..height
        invariant
            grid@.len() == row_index,
            forall|r: int| 0 <= r < row_index ==> (#[trigger] grid@[r])@ == Seq::new(
                width as nat,
                |col: int| None::<(char, Style)>,
            ),
    {
        let mut row: Vec<GridCell> = Vec::new();
        for col_index in 0..width
            invariant
                row@.len() == col_index,
                forall|c: int| 0 <= c < col_index ==> (#[trigger] row@[c]).is_none(),
        {
            row.push(None);
        }
        assert(row@ =~= Seq::new(width as nat, |col: int| None::<(char, Style)>));
        grid.push(row);
    }
    assert(cells_of(grid) =~= blank_grid(width as nat, height as nat));
    grid
}

impl Editor {
    /// An editor for a grid of the given size: blank, with the cursor a block
    /// in the top left corner, the initial colors, and no style defined.
    pub fn new(width: usize, height: usize) -> (editor: Editor)
        ensures
            editor@ == EditorView::initial(width, height),
            editor@.wf(),
    {
        let mut editor = Editor {
            grid: Vec::new(),
            cursor_pos: (0, 0),
            cursor_type: CursorType::Block,
            size: (width, height),
            default_colors: Colors::new(Some(Color::white()), Some(Color::black()), Some(Color::grey())),
            defined_styles: HashMap::new(),
            previous_style: None,
        };
        editor.clear();
        editor
    }

    /// Replaces the grid by a blank one of the recorded size and forgets the
    /// style of the latest line update.
    pub fn clear(&mut self)
        ensures
            final(self)@ == old(self)@.cleared(),
            final(self)@.wf(),
            final(self)@.frame() == Seq::<Run>::empty(),
    {
        let (width, height) = self.size;
        self.grid = blank(width, height);
        self.previous_style = None;
        proof {
            lemma_cleared_frame_is_empty(old(self)@);
        }
    }

    /// Binds `id` to `style`, in place of what it was bound to before.
    pub fn define_style(&mut self, id: u64, style: Style)
        ensures
            final(self)@ == (EditorView {
                defined_styles: old(self)@.defined_styles.insert(id, style),
                ..old(self)@
            }),
    {
        self.defined_styles.insert(id, style);
    }

    /// Sets the colors of the default style. Cells written before keep the
    /// style they were written in.
    pub fn set_default_colors(&mut self, foreground: Color, background: Color, special: Color)
        ensures
            final(self)@ == (EditorView {
                default_colors: Colors {
                    foreground: Some(foreground),
                    background: Some(background),
                    special: Some(special),
                },
                ..old(self)@
            }),
    {
        self.default_colors = Colors::new(Some(foreground), Some(background), Some(special));
    }

    /// Records the cursor's position. Any position is taken, inside the grid
    /// or not.
    pub fn jump_cursor_to(&mut self, row: usize, col: usize)
        ensures
            final(self)@ == (EditorView { cursor_pos: (row, col), ..old(self)@ }),
    {
        self.cursor_pos = (row, col);
    }

    /// Records the cursor's shape.
    pub fn set_cursor_type(&mut self, cursor_type: CursorType)
        ensures
            final(self)@ == (EditorView { cursor_type, ..old(self)@ }),
    {
        self.cursor_type = cursor_type;
    }

    /// Takes the host's answer to a request for a grid of `new_width` columns
    /// and `new_height` rows. A granted size is recorded, and the next clear
    /// builds the grid in it; a rejected one leaves the editor as it was.
    /// Returns whether the size was recorded.
    pub fn resize(&mut self, new_width: usize, new_height: usize, granted: bool) -> (resized: bool)
        ensures
            resized == granted,
            final(self)@ == old(self)@.resized(new_width, new_height, granted),
    {
        if granted {
            self.size = (new_width, new_height);
        }
        granted
    }

    /// Looks up the style that `id` names. Zero names the default style and
    /// never reaches the defined ones.
    pub fn resolve(&self, id: u64) -> (style: Option<Style>)
        ensures
            style == self@.resolved(id),
    {
        if id == 0 {
            Some(Style::new(self.default_colors))
        } else {
            match self.defined_styles.get(&id) {
                Some(style) => Some(*style),
                None => None,
            }
        }
    }

    /// The draw commands for the grid as it is: for each row from the top, its
    /// runs from the left. Reads the editor and changes nothing.
    pub fn build_draw_commands(&self) -> (commands: Vec<DrawCommand>)
        ensures
            runs_of(commands@) == self@.frame(),
    {
        let mut commands: Vec<DrawCommand> = Vec::new();
        for row_index in 0..self.grid.len()
            invariant
                runs_of(commands@) == frame_of(cells_of(self.grid), row_index as int),
        {
            let mut draw_commands = compact_row(&self.grid[row_index], row_index);
            let ghost emitted = commands@;
            let ghost added = draw_commands@;
            commands.append(&mut draw_commands);
            assert(runs_of(emitted + added) =~= runs_of(emitted) + runs_of(added));
        }
        commands
    }

    /// Applies a line update: writes its text into its row, from its starting
    /// column on, in the style it names. Characters beyond the row's end are
    /// lost; an update for a row that the grid does not have is dropped whole.
    /// Either way the update's style is the one that a following update
    /// without a style continues in.
    pub fn draw(&mut self, command: GridLineCell) -> (outcome: DrawOutcome)
        requires
            old(self)@.defines(command.style_id),
        ensures
            final(self)@ == old(self)@.drawn(
                command.row as int,
                command.col_start as int,
                command.text@,
                command.style_id,
            ),
            outcome == if command.row < old(self)@.cells.len() {
                DrawOutcome::Written
            } else {
                DrawOutcome::OutOfBounds
            },
            command.style_id == Some(0u64) ==> final(self)@.previous_style == Some(
                Style::plain(old(self)@.default_colors),
            ),
            old(self)@.wf() ==> final(self)@.wf(),
    {
        proof {
            lemma_draw_keeps_shape(
                self@,
                command.row as int,
                command.col_start as int,
                command.text@,
                command.style_id,
            );
        }
        let row_index = command.row;
        let col_start = command.col_start;

        let style = match (command.style_id, self.previous_style) {
            (Some(0), _) => Style::new(self.default_colors),
            (Some(style_id), _) => *self.defined_styles.get(&style_id).unwrap(),
            (None, Some(previous_style)) => previous_style,
            (None, None) => Style::new(self.default_colors),
        };

        let ghost before = cells_of(self.grid);
        let ghost text = command.text@;
        let outcome = if row_index < self.grid.len() {
            let row = &mut self.grid[row_index];
            let ghost old_row = row@;
            let mut pointer_index: usize = col_start;
            for character in chars: command.text.as_str().chars()
                invariant
                    chars.seq() == text,
                    row@.len() == old_row.len(),
                    col_start <= pointer_index,
                    pointer_index < row@.len() ==> pointer_index == col_start + chars.index(),
                    pointer_index <= col_start + chars.index(),
                    row@ == row_written(old_row, col_start as int, text.take(chars.index()), style),
            {
                if pointer_index < row.len() {
                    row[pointer_index] = Some((character, style));
                    pointer_index += 1;
                }
                assert(row@ =~= row_written(
                    old_row,
                    col_start as int,
                    text.take(chars.index() + 1),
                    style,
                ));
            }
            assert(text.take(text.len() as int) =~= text);
            DrawOutcome::Written
        } else {
            DrawOutcome::OutOfBounds
        };

        self.previous_style = Some(style);
        assert(cells_of(self.grid) =~= line_written(before, row_index as int, col_start as int, text, style));
        outcome
    }

    /// Whether `scroll_region` can be called with these arguments: whether
    /// all the content that the scroll keeps lies in the grid.
    pub fn can_scroll(&self, top: isize, bot: isize, left: isize, right: isize, rows: isize, cols: isize) -> (possible: bool)
        ensures
            possible == self@.can_scroll(
                Region { top: top as int, bottom: bot as int, left: left as int, right: right as int },
                rows as int,
                cols as int,
            ),
    {
        let ghost cells = cells_of(self.grid);
        let ghost source = source_region(
            Region { top: top as int, bottom: bot as int, left: left as int, right: right as int },
            rows as int,
            cols as int,
        );

        let source_top: i128 = if rows > 0 { top as i128 + rows as i128 } else { top as i128 };
        let source_bot: i128 = if rows < 0 { bot as i128 + rows as i128 } else { bot as i128 };
        let source_left: i128 = if cols > 0 { left as i128 + cols as i128 } else { left as i128 };
        let source_right: i128 = if cols < 0 { right as i128 + cols as i128 } else { right as i128 };

        if source_top >= source_bot || source_left >= source_right {
            return true;
        }
        if source_top < 0 || source_left < 0 || source_bot > self.grid.len() as i128 {
            assert(source.contains(source_top as int, source_left as int));
            assert(source.contains(source_bot - 1, source_left as int));
            return false;
        }
        let first_row: usize = source_top as usize;
        let end_row: usize = source_bot as usize;
        let mut possible = true;
        for y in first_row..end_row
            invariant
                cells == cells_of(self.grid),
                first_row <= y <= end_row <= cells.len(),
                possible ==> forall|r: int| first_row <= r < y ==> source_right <= (#[trigger] cells[r]).len(),
                !possible ==> exists|r: int|
                    first_row <= r < end_row && source_right > (#[trigger] cells[r]).len(),
        {
            if source_right > self.grid[y].len() as i128 {
                assert(source_right > cells[y as int].len());
                possible = false;
            }
        }
        proof {
            if !possible {
                let r = choose|r: int| first_row <= r < end_row && source_right > (#[trigger] cells[r]).len();
                assert(source.contains(r, source_right - 1));
            }
        }
        possible
    }

    /// Moves the content of the region of rows `top` to `bot` and columns
    /// `left` to `right`, both ends exclusive, by `rows` rows up and `cols`
    /// columns to the left; a negative distance moves it down or to the right.
    ///
    /// The content that stays inside the region is first copied aside and then
    /// written back at its new place, so no cell is read after it was
    /// overwritten. A copied cell whose new place lies outside the grid is
    /// dropped. Cells that the moved content does not cover keep what they
    /// held: nothing is blanked.
    pub fn scroll_region(&mut self, top: isize, bot: isize, left: isize, right: isize, rows: isize, cols: isize)
        requires
            old(self)@.can_scroll(
                Region { top: top as int, bottom: bot as int, left: left as int, right: right as int },
                rows as int,
                cols as int,
            ),
        ensures
            final(self)@ == old(self)@.scrolled(
                Region { top: top as int, bottom: bot as int, left: left as int, right: right as int },
                rows as int,
                cols as int,
            ),
            rows == 0 && cols == 0 ==> final(self)@ == old(self)@,
            old(self)@.wf() ==> final(self)@.wf(),
    {
        let ghost start = self@;
        let ghost before = cells_of(self.grid);
        let ghost whole = Region { top: top as int, bottom: bot as int, left: left as int, right: right as int };
        let ghost source = source_region(whole, rows as int, cols as int);

        let source_top: i128 = if rows > 0 { top as i128 + rows as i128 } else { top as i128 };
        let source_bot: i128 = if rows < 0 { bot as i128 + rows as i128 } else { bot as i128 };
        let source_left: i128 = if cols > 0 { left as i128 + cols as i128 } else { left as i128 };
        let source_right: i128 = if cols < 0 { right as i128 + cols as i128 } else { right as i128 };

        let mut region: Vec<Vec<GridCell>> = Vec::new();
        if source_top < source_bot && source_left < source_right {
            assert(source.contains(source_top as int, source_left as int));
            assert(source.contains(source_bot - 1, source_right - 1));
            let first_row: usize = source_top as usize;
            let end_row: usize = source_bot as usize;
            let first_col: usize = source_left as usize;
            let end_col: usize = source_right as usize;
            for y in first_row..end_row
                invariant
                    before == cells_of(self.grid),
                    source.within(before),
                    source == (Region {
                        top: first_row as int,
                        bottom: end_row as int,
                        left: first_col as int,
                        right: end_col as int,
                    }),
                    first_col < end_col,
                    end_row <= before.len(),
                    region@.len() == y - first_row,
                    forall|i: int|
                        0 <= i < region@.len() ==> #[trigger] is_copy_of_row(region@[i]@, before, source, i),
            {
                assert(source.contains(y as int, end_col - 1));
                let row = &self.grid[y];
                let mut copied_section: Vec<GridCell> = Vec::new();
                for x in first_col..end_col
                    invariant
                        y < before.len(),
                        row@ == before[y as int],
                        first_col <= x <= end_col <= row@.len(),
                        copied_section@ == row@.subrange(first_col as int, x as int),
                {
                    copied_section.push(row[x]);
                    assert(copied_section@ =~= row@.subrange(first_col as int, x + 1));
                }
                region.push(copied_section);
            }
        }

        let new_top: i128 = source_top - rows as i128;
        let new_left: i128 = source_left - cols as i128;

        proof {
            lemma_shift_begins(before, source, rows as int, cols as int);
        }
        for y in 0..region.len()
            invariant
                self@ == (EditorView { cells: cells_of(self.grid), ..start }),
                source == (Region {
                    top: source_top as int,
                    bottom: source_bot as int,
                    left: source_left as int,
                    right: source_right as int,
                }),
                new_top == source_top - rows,
                new_left == source_left - cols,
                region@.len() > 0 ==> {
                    &&& 0 <= source_top
                    &&& source_top + region@.len() == source_bot <= usize::MAX
                    &&& 0 <= source_left < source_right <= usize::MAX
                },
                forall|i: int|
                    0 <= i < region@.len() ==> #[trigger] is_copy_of_row(region@[i]@, before, source, i),
                cells_of(self.grid) == shifted_until(
                    before,
                    source,
                    rows as int,
                    cols as int,
                    source_top + y,
                    source_left as int,
                ),
        {
            let row_section = &region[y];
            for x in 0..row_section.len()
                invariant
                    self@ == (EditorView { cells: cells_of(self.grid), ..start }),
                    source == (Region {
                        top: source_top as int,
                        bottom: source_bot as int,
                        left: source_left as int,
                        right: source_right as int,
                    }),
                    new_top == source_top - rows,
                    new_left == source_left - cols,
                    0 <= source_top,
                    source_top + y < source_bot <= usize::MAX,
                    0 <= source_left < source_right <= usize::MAX,
                    is_copy_of_row(row_section@, before, source, y as int),
                    cells_of(self.grid) == shifted_until(
                        before,
                        source,
                        rows as int,
                        cols as int,
                        source_top + y,
                        source_left + x,
                    ),
            {
                let ghost current = cells_of(self.grid);
                let cell = row_section[x];
                let dest_y: i128 = new_top + y as i128;
                let ghost dest_x: int = new_left + x;
                if dest_y >= 0 && dest_y < self.grid.len() as i128 {
                    let row = &mut self.grid[dest_y as usize];
                    let dest_x: i128 = new_left + x as i128;
                    if dest_x >= 0 && dest_x < row.len() as i128 {
                        row[dest_x as usize] = cell;
                    }
                }
                proof {
                    assert(cells_of(self.grid) =~~= if in_grid(current, dest_y as int, dest_x) {
                        current.update(dest_y as int, current[dest_y as int].update(dest_x, cell))
                    } else {
                        current
                    });
                    lemma_shift_moves_cell(
                        before,
                        source,
                        rows as int,
                        cols as int,
                        source_top + y,
                        source_left + x,
                    );
                }
            }
            proof {
                lemma_shift_ends_row(before, source, rows as int, cols as int, source_top + y);
            }
        }
        proof {
            lemma_shift_ends(before, whole, rows as int, cols as int);
            if region@.len() == 0 {
                lemma_shift_of_nothing(before, whole, rows as int, cols as int);
            }
            lemma_scroll_by_nothing(start, whole);
            lemma_scroll_keeps_shape(start, whole, rows as int, cols as int);
        }
    }
}

} // verus!
