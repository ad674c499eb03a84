use grid_editor::{
    Color, Colors, CursorType, DrawCommand, DrawOutcome, Editor, GridCell, GridLineCell, Style,
};

fn red() -> Color {
    Color::new(0x3F80_0000, 0, 0, 0x3F80_0000)
}

fn blue() -> Color {
    Color::new(0, 0, 0x3F80_0000, 0x3F80_0000)
}

fn style_one() -> Style {
    let mut style = Style::new(Colors::new(Some(red()), None, None));
    style.bold = true;
    style
}

fn style_two() -> Style {
    let mut style = Style::new(Colors::new(Some(blue()), Some(red()), None));
    style.italic = true;
    style.blend = 40;
    style
}

fn initial_style() -> Style {
    Style::new(Colors::new(Some(Color::white()), Some(Color::black()), Some(Color::grey())))
}

fn line(row: usize, col_start: usize, text: &str, style_id: Option<u64>) -> GridLineCell {
    GridLineCell::new(0, text.to_string(), row, col_start, style_id)
}

fn editor_with_styles(width: usize, height: usize) -> Editor {
    let mut editor = Editor::new(width, height);
    editor.define_style(1, style_one());
    editor.define_style(2, style_two());
    editor
}

fn cell(character: char, style: Style) -> GridCell {
    Some((character, style))
}

fn assert_command(command: &DrawCommand, text: &str, row: usize, col_start: usize, style: Style) {
    assert_eq!(command.text, text);
    assert_eq!(command.row, row);
    assert_eq!(command.col_start, col_start);
    assert_eq!(command.style, style);
}

#[test]
fn new_editor_is_blank() {
    let editor = Editor::new(4, 3);
    assert_eq!(editor.size, (4, 3));
    assert_eq!(editor.grid.len(), 3);
    for row in editor.grid.iter() {
        assert_eq!(row.len(), 4);
        for cell in row.iter() {
            assert_eq!(*cell, None);
        }
    }
    assert_eq!(editor.cursor_pos, (0, 0));
    assert_eq!(editor.cursor_type, CursorType::Block);
    assert_eq!(editor.previous_style, None);
    assert!(editor.defined_styles.is_empty());
    assert_eq!(editor.default_colors.foreground, Some(Color::new(0x3F80_0000, 0x3F80_0000, 0x3F80_0000, 0x3F80_0000)));
    assert_eq!(editor.default_colors.background, Some(Color::new(0, 0, 0, 0x3F80_0000)));
    assert_eq!(editor.default_colors.special, Some(Color::new(0x3F00_0000, 0x3F00_0000, 0x3F00_0000, 0x3F80_0000)));
}

#[test]
fn new_editor_without_rows_or_columns() {
    let no_rows = Editor::new(5, 0);
    assert!(no_rows.grid.is_empty());
    assert!(no_rows.build_draw_commands().is_empty());
    let no_columns = Editor::new(0, 2);
    assert_eq!(no_columns.grid.len(), 2);
    assert!(no_columns.grid[0].is_empty());
    assert!(no_columns.build_draw_commands().is_empty());
}

#[test]
fn plain_style_has_no_attributes() {
    let colors = Colors::new(Some(red()), None, Some(blue()));
    let style = Style::new(colors);
    assert_eq!(style.colors, colors);
    assert!(!style.reverse);
    assert!(!style.italic);
    assert!(!style.bold);
    assert!(!style.strikethrough);
    assert!(!style.underline);
    assert!(!style.undercurl);
    assert_eq!(style.blend, 0);
}

#[test]
fn styles_are_compared_field_by_field() {
    assert_eq!(style_one(), style_one());
    assert_ne!(style_one(), style_two());
    let mut other = style_one();
    other.blend = 1;
    assert_ne!(style_one(), other);
    let mut other = style_one();
    other.colors.special = Some(red());
    assert_ne!(style_one(), other);
}

#[test]
fn clear_then_build_draw_commands_is_empty() {
    let mut editor = editor_with_styles(3, 3);
    editor.draw(line(0, 0, "abc", Some(1)));
    editor.draw(line(2, 1, "z", Some(2)));
    assert!(!editor.build_draw_commands().is_empty());
    editor.clear();
    assert!(editor.build_draw_commands().is_empty());
    assert_eq!(editor.grid, vec![vec![None; 3]; 3]);
}

#[test]
fn clear_forgets_previous_style_and_keeps_the_rest() {
    let mut editor = editor_with_styles(2, 2);
    editor.jump_cursor_to(1, 1);
    editor.draw(line(0, 0, "a", Some(1)));
    assert_eq!(editor.previous_style, Some(style_one()));
    editor.clear();
    assert_eq!(editor.previous_style, None);
    assert_eq!(editor.cursor_pos, (1, 1));
    assert_eq!(editor.defined_styles.len(), 2);
    editor.draw(line(0, 0, "b", None));
    assert_eq!(editor.grid[0][0], cell('b', initial_style()));
}

#[test]
fn clear_uses_recorded_size() {
    let mut editor = Editor::new(2, 2);
    assert!(editor.resize(4, 1, true));
    assert_eq!(editor.grid.len(), 2);
    assert_eq!(editor.grid[0].len(), 2);
    editor.clear();
    assert_eq!(editor.grid, vec![vec![None; 4]; 1]);
}

#[test]
fn resize_rejected_changes_nothing() {
    let mut editor = Editor::new(2, 3);
    assert!(!editor.resize(7, 9, false));
    assert_eq!(editor.size, (2, 3));
    editor.clear();
    assert_eq!(editor.grid, vec![vec![None; 2]; 3]);
}

#[test]
fn resize_granted_records_size_and_keeps_content() {
    let mut editor = editor_with_styles(2, 2);
    editor.draw(line(1, 0, "xy", Some(1)));
    assert!(editor.resize(5, 6, true));
    assert_eq!(editor.size, (5, 6));
    assert_eq!(editor.grid.len(), 2);
    assert_eq!(editor.grid[1], vec![cell('x', style_one()), cell('y', style_one())]);
}

#[test]
fn draw_without_style_reuses_previous_style() {
    let mut editor = editor_with_styles(3, 3);
    assert_eq!(editor.draw(line(0, 0, "a", Some(1))), DrawOutcome::Written);
    assert_eq!(editor.draw(line(2, 1, "bc", None)), DrawOutcome::Written);
    assert_eq!(editor.grid[0][0], cell('a', style_one()));
    assert_eq!(editor.grid[2][1], cell('b', style_one()));
    assert_eq!(editor.grid[2][2], cell('c', style_one()));
    assert_eq!(editor.previous_style, Some(style_one()));
}

#[test]
fn draw_without_style_reuses_style_after_redefinition() {
    let mut editor = editor_with_styles(3, 1);
    editor.draw(line(0, 0, "a", Some(1)));
    editor.define_style(1, style_two());
    editor.draw(line(0, 1, "b", None));
    editor.draw(line(0, 2, "c", Some(1)));
    assert_eq!(editor.grid[0][1], cell('b', style_one()));
    assert_eq!(editor.grid[0][2], cell('c', style_two()));
}

#[test]
fn draw_without_style_and_without_history_uses_default() {
    let mut editor = editor_with_styles(2, 1);
    editor.draw(line(0, 0, "a", None));
    assert_eq!(editor.grid[0][0], cell('a', initial_style()));
    assert_eq!(editor.previous_style, Some(initial_style()));
}

#[test]
fn draw_with_style_zero_uses_default_colors() {
    let mut editor = editor_with_styles(2, 1);
    editor.define_style(0, style_two());
    editor.set_default_colors(red(), blue(), red());
    editor.draw(line(0, 0, "a", Some(1)));
    editor.draw(line(0, 1, "b", Some(0)));
    let expected = Style::new(Colors::new(Some(red()), Some(blue()), Some(red())));
    assert_eq!(editor.grid[0][1], cell('b', expected));
    assert_eq!(editor.previous_style, Some(expected));
    assert_eq!(editor.resolve(0), Some(expected));
}

#[test]
fn set_default_colors_leaves_written_cells() {
    let mut editor = Editor::new(2, 1);
    editor.draw(line(0, 0, "a", Some(0)));
    editor.set_default_colors(red(), blue(), red());
    editor.draw(line(0, 1, "b", Some(0)));
    assert_eq!(editor.grid[0][0], cell('a', initial_style()));
    assert_eq!(
        editor.grid[0][1],
        cell('b', Style::new(Colors::new(Some(red()), Some(blue()), Some(red()))))
    );
}

#[test]
fn draw_row_out_of_bounds_is_dropped() {
    let mut editor = editor_with_styles(2, 2);
    assert_eq!(editor.draw(line(2, 0, "ab", Some(1))), DrawOutcome::OutOfBounds);
    assert_eq!(editor.grid, vec![vec![None; 2]; 2]);
    assert_eq!(editor.previous_style, Some(style_one()));
    assert_eq!(editor.draw(line(usize::MAX, 0, "ab", Some(2))), DrawOutcome::OutOfBounds);
    assert_eq!(editor.previous_style, Some(style_two()));
}

#[test]
fn draw_drops_characters_beyond_row_end() {
    let mut editor = editor_with_styles(3, 1);
    assert_eq!(editor.draw(line(0, 1, "abcd", Some(1))), DrawOutcome::Written);
    assert_eq!(editor.grid[0], vec![None, cell('a', style_one()), cell('b', style_one())]);
    assert_eq!(editor.draw(line(0, 3, "x", Some(2))), DrawOutcome::Written);
    assert_eq!(editor.draw(line(0, usize::MAX, "xy", Some(2))), DrawOutcome::Written);
    assert_eq!(editor.grid[0], vec![None, cell('a', style_one()), cell('b', style_one())]);
    assert_eq!(editor.previous_style, Some(style_two()));
}

#[test]
fn draw_empty_text_only_sets_previous_style() {
    let mut editor = editor_with_styles(2, 1);
    assert_eq!(editor.draw(line(0, 0, "", Some(2))), DrawOutcome::Written);
    assert_eq!(editor.grid, vec![vec![None; 2]; 1]);
    assert_eq!(editor.previous_style, Some(style_two()));
}

#[test]
fn draw_counts_characters_not_bytes() {
    let mut editor = editor_with_styles(4, 1);
    editor.draw(line(0, 0, "é→x", Some(1)));
    assert_eq!(
        editor.grid[0],
        vec![cell('é', style_one()), cell('→', style_one()), cell('x', style_one()), None]
    );
    let commands = editor.build_draw_commands();
    assert_eq!(commands.len(), 1);
    assert_command(&commands[0], "é→x", 0, 0, style_one());
}

#[test]
fn draw_overwrites_cells() {
    let mut editor = editor_with_styles(3, 1);
    editor.draw(line(0, 0, "abc", Some(1)));
    editor.draw(line(0, 1, "X", Some(2)));
    assert_eq!(
        editor.grid[0],
        vec![cell('a', style_one()), cell('X', style_two()), cell('c', style_one())]
    );
}

#[test]
fn define_style_overwrites() {
    let mut editor = Editor::new(1, 1);
    assert_eq!(editor.resolve(7), None);
    editor.define_style(7, style_one());
    assert_eq!(editor.resolve(7), Some(style_one()));
    editor.define_style(7, style_two());
    assert_eq!(editor.resolve(7), Some(style_two()));
    assert_eq!(editor.defined_styles.len(), 1);
    assert_eq!(editor.resolve(8), None);
}

#[test]
fn cursor_is_recorded_as_given() {
    let mut editor = Editor::new(2, 2);
    editor.jump_cursor_to(10, 20);
    assert_eq!(editor.cursor_pos, (10, 20));
    editor.set_cursor_type(CursorType::Vertical);
    assert_eq!(editor.cursor_type, CursorType::Vertical);
    editor.set_cursor_type(CursorType::Horizontal);
    assert_eq!(editor.cursor_type, CursorType::Horizontal);
    assert_eq!(editor.cursor_pos, (10, 20));
}

#[test]
fn one_row_one_style_gives_one_command() {
    let mut editor = editor_with_styles(3, 3);
    editor.draw(line(1, 0, "AB", Some(1)));
    let commands = editor.build_draw_commands();
    assert_eq!(commands.len(), 1);
    assert_command(&commands[0], "AB", 1, 0, style_one());
}

#[test]
fn two_styles_give_two_commands() {
    let mut editor = editor_with_styles(3, 3);
    editor.draw(line(0, 0, "A", Some(1)));
    editor.draw(line(0, 1, "B", Some(2)));
    let commands = editor.build_draw_commands();
    assert_eq!(commands.len(), 2);
    assert_command(&commands[0], "A", 0, 0, style_one());
    assert_command(&commands[1], "B", 0, 1, style_two());
}

#[test]
fn empty_cell_splits_commands_of_equal_style() {
    let mut editor = editor_with_styles(5, 1);
    editor.draw(line(0, 0, "ab", Some(1)));
    editor.draw(line(0, 3, "cd", Some(1)));
    let commands = editor.build_draw_commands();
    assert_eq!(commands.len(), 2);
    assert_command(&commands[0], "ab", 0, 0, style_one());
    assert_command(&commands[1], "cd", 0, 3, style_one());
}

#[test]
fn commands_never_touch_with_equal_style() {
    let mut editor = editor_with_styles(8, 2);
    editor.draw(line(0, 0, "aa", Some(1)));
    editor.draw(line(0, 2, "bb", Some(1)));
    editor.draw(line(0, 4, "cc", Some(2)));
    editor.draw(line(0, 7, "d", Some(2)));
    editor.draw(line(1, 1, "e", Some(2)));
    let commands = editor.build_draw_commands();
    assert_eq!(commands.len(), 4);
    assert_command(&commands[0], "aabb", 0, 0, style_one());
    assert_command(&commands[1], "cc", 0, 4, style_two());
    assert_command(&commands[2], "d", 0, 7, style_two());
    assert_command(&commands[3], "e", 1, 1, style_two());
    for pair in commands.windows(2) {
        let end = pair[0].col_start + pair[0].text.chars().count();
        if pair[0].row == pair[1].row && end == pair[1].col_start {
            assert_ne!(pair[0].style, pair[1].style);
        }
    }
    for command in commands.iter() {
        for (offset, character) in command.text.chars().enumerate() {
            assert_eq!(
                editor.grid[command.row][command.col_start + offset],
                cell(character, command.style)
            );
        }
    }
}

#[test]
fn runs_do_not_join_across_rows() {
    let mut editor = editor_with_styles(2, 2);
    editor.draw(line(0, 0, "ab", Some(1)));
    editor.draw(line(1, 0, "cd", Some(1)));
    let commands = editor.build_draw_commands();
    assert_eq!(commands.len(), 2);
    assert_command(&commands[0], "ab", 0, 0, style_one());
    assert_command(&commands[1], "cd", 1, 0, style_one());
}

#[test]
fn build_draw_commands_reads_only() {
    let mut editor = editor_with_styles(2, 2);
    editor.draw(line(0, 0, "ab", Some(1)));
    let grid = editor.grid.clone();
    let first = editor.build_draw_commands();
    let second = editor.build_draw_commands();
    assert_eq!(editor.grid, grid);
    assert_eq!(editor.previous_style, Some(style_one()));
    assert_eq!(first.len(), second.len());
    assert_command(&second[0], "ab", 0, 0, style_one());
}

fn filled(rows: &[&str]) -> Editor {
    let width = rows.iter().map(|row| row.chars().count()).max().unwrap_or(0);
    let mut editor = editor_with_styles(width, rows.len());
    for (index, row) in rows.iter().enumerate() {
        editor.draw(line(index, 0, row, Some(1)));
    }
    editor
}

fn text_of(editor: &Editor) -> Vec<String> {
    editor
        .grid
        .iter()
        .map(|row| {
            row.iter()
                .map(|cell| match cell {
                    Some((character, _)) => *character,
                    None => '.',
                })
                .collect()
        })
        .collect()
}

#[test]
fn scroll_up_moves_lower_row_and_keeps_it() {
    let mut editor = filled(&["ab", "cd"]);
    editor.scroll_region(0, 2, 0, 2, 1, 0);
    assert_eq!(text_of(&editor), vec!["cd", "cd"]);
    assert_eq!(editor.grid[0][0], cell('c', style_one()));
    assert_eq!(editor.grid[1][1], cell('d', style_one()));
}

#[test]
fn scroll_with_zero_deltas_changes_nothing() {
    let mut editor = filled(&["abc", "def", "ghi"]);
    editor.draw(line(1, 1, "X", Some(2)));
    let grid = editor.grid.clone();
    editor.scroll_region(0, 3, 0, 3, 0, 0);
    assert_eq!(editor.grid, grid);
    editor.scroll_region(1, 2, 1, 3, 0, 0);
    assert_eq!(editor.grid, grid);
    assert_eq!(editor.previous_style, Some(style_two()));
}

#[test]
fn scroll_down_moves_upper_rows() {
    let mut editor = filled(&["abc", "def", "ghi"]);
    editor.scroll_region(0, 3, 0, 3, -1, 0);
    assert_eq!(text_of(&editor), vec!["abc", "abc", "def"]);
}

#[test]
fn scroll_left_and_right() {
    let mut editor = filled(&["abcd", "efgh"]);
    editor.scroll_region(0, 2, 0, 4, 0, 1);
    assert_eq!(text_of(&editor), vec!["bcdd", "fghh"]);
    let mut editor = filled(&["abcd", "efgh"]);
    editor.scroll_region(0, 2, 0, 4, 0, -1);
    assert_eq!(text_of(&editor), vec!["aabc", "eefg"]);
}

#[test]
fn scroll_right_while_scrolling_up() {
    let mut editor = filled(&["abc", "def", "ghi"]);
    editor.scroll_region(0, 3, 0, 3, 1, -1);
    assert_eq!(text_of(&editor), vec!["ade", "dgh", "ghi"]);
}

#[test]
fn scroll_inner_region_leaves_outside_alone() {
    let mut editor = filled(&["abcd", "efgh", "ijkl", "mnop"]);
    editor.scroll_region(1, 4, 1, 3, 1, 0);
    assert_eq!(text_of(&editor), vec!["abcd", "ejkh", "inol", "mnop"]);
}

#[test]
fn scroll_drops_cells_that_leave_the_grid() {
    let mut editor = filled(&["ab", "cd", "ef"]);
    editor.scroll_region(-1, 3, 0, 2, 1, 0);
    assert_eq!(text_of(&editor), vec!["cd", "ef", "ef"]);
    let mut editor = filled(&["abc", "def"]);
    editor.scroll_region(0, 2, 0, 4, 0, -1);
    assert_eq!(text_of(&editor), vec!["aab", "dde"]);
}

#[test]
fn scroll_by_whole_region_or_more_writes_nothing() {
    let mut editor = filled(&["ab", "cd"]);
    let grid = editor.grid.clone();
    editor.scroll_region(0, 2, 0, 2, 2, 0);
    assert_eq!(editor.grid, grid);
    editor.scroll_region(0, 2, 0, 2, -5, 0);
    assert_eq!(editor.grid, grid);
    editor.scroll_region(0, 2, 0, 2, 0, 9);
    assert_eq!(editor.grid, grid);
    editor.scroll_region(0, 2, 0, 2, isize::MAX, isize::MIN);
    assert_eq!(editor.grid, grid);
}

#[test]
fn scroll_empty_region_writes_nothing() {
    let mut editor = filled(&["ab", "cd"]);
    let grid = editor.grid.clone();
    editor.scroll_region(1, 1, 0, 2, 1, 0);
    assert_eq!(editor.grid, grid);
    editor.scroll_region(0, 2, 1, 1, 0, 1);
    assert_eq!(editor.grid, grid);
    editor.scroll_region(7, 3, 9, 2, 0, 0);
    assert_eq!(editor.grid, grid);
    editor.scroll_region(40, 50, 1, 1, 0, 0);
    assert_eq!(editor.grid, grid);
}

#[test]
fn scroll_moves_empty_cells_and_styles() {
    let mut editor = editor_with_styles(2, 2);
    editor.draw(line(0, 0, "ab", Some(1)));
    editor.draw(line(1, 1, "z", Some(2)));
    editor.scroll_region(0, 2, 0, 2, 1, 0);
    assert_eq!(editor.grid[0], vec![None, cell('z', style_two())]);
    assert_eq!(editor.grid[1], vec![None, cell('z', style_two())]);
}

#[test]
fn scroll_there_and_back_restores_kept_cells() {
    let untouched = filled(&["abcd", "efgh", "ijkl", "mnop"]);
    let mut editor = filled(&["abcd", "efgh", "ijkl", "mnop"]);
    editor.scroll_region(0, 4, 0, 4, 1, 2);
    editor.scroll_region(0, 4, 0, 4, -1, -2);
    for row in 1..4 {
        for col in 2..4 {
            assert_eq!(editor.grid[row][col], untouched.grid[row][col]);
        }
    }
    assert_eq!(text_of(&editor), vec!["ghcd", "klgh", "opkl", "mnop"]);
}

#[test]
fn scroll_keeps_everything_but_the_grid() {
    let mut editor = filled(&["ab", "cd"]);
    editor.jump_cursor_to(1, 0);
    editor.scroll_region(0, 2, 0, 2, 1, 0);
    assert_eq!(editor.cursor_pos, (1, 0));
    assert_eq!(editor.size, (2, 2));
    assert_eq!(editor.previous_style, Some(style_one()));
    assert_eq!(editor.defined_styles.len(), 2);
}

#[test]
fn can_scroll_when_kept_content_is_in_grid() {
    let editor = filled(&["abc", "def"]);
    assert!(editor.can_scroll(0, 2, 0, 3, 1, 0));
    assert!(editor.can_scroll(0, 2, 0, 3, 0, 0));
    assert!(editor.can_scroll(-1, 2, 0, 3, 1, 0));
    assert!(editor.can_scroll(0, 3, 0, 3, -1, 0));
    assert!(editor.can_scroll(0, 2, -2, 3, 0, 2));
    assert!(editor.can_scroll(0, 2, 0, 5, 0, -2));
    assert!(!editor.can_scroll(0, 3, 0, 3, 0, 0));
    assert!(!editor.can_scroll(0, 3, 0, 3, 1, 0));
    assert!(!editor.can_scroll(-1, 2, 0, 3, 0, 0));
    assert!(!editor.can_scroll(0, 2, 0, 4, 0, 0));
    assert!(!editor.can_scroll(0, 2, -1, 3, 0, 0));
    assert!(!editor.can_scroll(0, 2, 0, 4, 0, 1));
}

#[test]
fn can_scroll_when_nothing_is_kept() {
    let editor = filled(&["abc", "def"]);
    assert!(editor.can_scroll(5, 5, 0, 3, 0, 0));
    assert!(editor.can_scroll(9, 4, -3, 80, 0, 0));
    assert!(editor.can_scroll(-7, 70, 2, 2, 0, 0));
    assert!(editor.can_scroll(-7, 70, -7, 70, 77, 0));
    assert!(editor.can_scroll(-7, 70, -7, 70, 0, -77));
    assert!(editor.can_scroll(0, isize::MAX, 0, 3, isize::MAX, 0));
    assert!(editor.can_scroll(isize::MIN, 0, 0, 3, isize::MIN, 0));
    assert!(!editor.can_scroll(isize::MIN, isize::MAX, 0, 3, isize::MIN, 0));
    let empty = Editor::new(0, 0);
    assert!(empty.can_scroll(0, 0, 0, 0, 0, 0));
    assert!(!empty.can_scroll(0, 1, 0, 1, 0, 0));
}

#[test]
fn can_scroll_looks_at_every_row() {
    let mut editor = filled(&["abc", "def"]);
    editor.grid[1].pop();
    assert!(editor.can_scroll(0, 1, 0, 3, 0, 0));
    assert!(!editor.can_scroll(0, 2, 0, 3, 0, 0));
    assert!(editor.can_scroll(0, 2, 0, 2, 0, 0));
}

#[test]
fn scroll_right_inside_the_grid_cuts_at_region_edge() {
    let mut editor = filled(&["abcd", "efgh"]);
    editor.scroll_region(0, 2, 0, 2, 0, -1);
    assert_eq!(text_of(&editor), vec!["aacd", "eegh"]);
    let mut editor = filled(&["abcd", "efgh"]);
    editor.scroll_region(0, 2, 1, 4, 0, 1);
    assert_eq!(text_of(&editor), vec!["acdd", "eghh"]);
    let mut editor = filled(&["abcd", "efgh", "ijkl"]);
    editor.scroll_region(0, 2, 0, 4, -1, 0);
    assert_eq!(text_of(&editor), vec!["abcd", "abcd", "ijkl"]);
}
