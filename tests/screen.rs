use matrix_rain::cell::{Cell, Color, DrawOp, ScreenItem};
use matrix_rain::screen::Screen;

fn black() -> Color {
    Color::Rgb { r: 0, g: 0, b: 0 }
}

fn cell(glyph: char) -> Cell {
    Cell { fg_color: Color::White, bg_color: black(), glyph }
}

#[test]
fn first_flush_redraws_whole_grid() {
    let mut screen = Screen::new(10, 5);
    screen.put(2, 1, cell('x'));
    let ops = screen.flush(10, 5);
    assert_eq!(ops.len(), 50);
    assert_eq!(ops[0], DrawOp { x: 0, y: 0, cell: None });
    assert_eq!(ops[12], DrawOp { x: 2, y: 1, cell: Some(cell('x')) });
    assert_eq!(ops[49], DrawOp { x: 9, y: 4, cell: None });
}

#[test]
fn unchanged_surface_flushes_nothing() {
    let mut screen = Screen::new(4, 3);
    screen.clear(black(), 4, 3);
    screen.put(1, 1, cell('q'));
    assert_eq!(screen.flush(4, 3).len(), 12);
    screen.clear(black(), 4, 3);
    screen.put(1, 1, cell('q'));
    assert_eq!(screen.flush(4, 3).len(), 0);
}

#[test]
fn diff_flush_writes_each_change_once() {
    let mut screen = Screen::new(4, 3);
    screen.put(0, 0, cell('a'));
    screen.put(1, 0, cell('b'));
    screen.put(2, 0, cell('c'));
    screen.flush(4, 3);
    screen.put(0, 0, cell('a'));
    screen.put(1, 0, cell('z'));
    screen.put(3, 2, cell('n'));
    let ops = screen.flush(4, 3);
    assert_eq!(
        ops,
        vec![
            DrawOp { x: 1, y: 0, cell: Some(cell('z')) },
            DrawOp { x: 2, y: 0, cell: None },
            DrawOp { x: 3, y: 2, cell: Some(cell('n')) },
        ]
    );
}

#[test]
fn resize_forces_full_redraw() {
    let mut screen = Screen::new(4, 3);
    screen.clear(black(), 4, 3);
    screen.flush(4, 3);
    screen.clear(black(), 5, 3);
    assert_eq!(screen.flush(5, 3).len(), 15);
    screen.put(0, 0, cell('a'));
    assert_eq!(screen.flush(5, 2).len(), 10);
}

#[test]
fn cells_past_the_grid_are_never_written() {
    let mut screen = Screen::new(10, 5);
    screen.flush(10, 5);
    screen.put(10, 0, cell('x'));
    screen.put(0, 5, cell('y'));
    screen.put(9, 4, cell('z'));
    let ops = screen.flush(10, 5);
    assert_eq!(ops, vec![DrawOp { x: 9, y: 4, cell: Some(cell('z')) }]);
    screen.put(10, 0, cell('x'));
    let full = screen.flush(10, 6);
    assert_eq!(full.len(), 60);
    assert!(full.iter().all(|op| op.x < 10 && op.y < 6));
}

#[test]
fn degenerate_size_writes_nothing() {
    let mut screen = Screen::new(0, 0);
    screen.clear(black(), 0, 0);
    assert_eq!(screen.flush(0, 0).len(), 0);
    assert_eq!(screen.flush(0, 7).len(), 0);
}

#[test]
fn multi_line_text_continues_on_next_row() {
    let mut screen = Screen::new(5, 4);
    let item = ScreenItem { fg_color: Color::Blue, bg_color: black(), text: "ab\nc".chars().collect() };
    screen.set(1, 1, &item);
    let ops = screen.flush(5, 4);
    let painted: Vec<(u16, u16, char)> =
        ops.iter().filter_map(|op| op.cell.map(|c| (op.x, op.y, c.glyph))).collect();
    assert_eq!(painted, vec![(1, 1, 'a'), (2, 1, 'b'), (1, 2, 'c')]);
    assert!(ops.iter().all(|op| op.cell.map_or(true, |c| c.fg_color == Color::Blue)));
}

#[test]
fn text_past_the_largest_coordinate_is_dropped() {
    let mut screen = Screen::new(3, 3);
    let item = ScreenItem { fg_color: Color::Blue, bg_color: black(), text: "xyz".chars().collect() };
    screen.set(65534, 0, &item);
    screen.set(0, 1, &ScreenItem { fg_color: Color::Blue, bg_color: black(), text: vec!['k'] });
    let ops = screen.flush(3, 3);
    assert_eq!(ops.iter().filter(|op| op.cell.is_some()).count(), 1);
}

#[test]
fn clear_stages_blanks_one_past_the_grid() {
    let mut screen = Screen::new(2, 2);
    screen.flush(2, 2);
    screen.clear(Color::Blue, 2, 2);
    let blank = Cell::blank(Color::Blue);
    let ops = screen.flush(3, 3);
    assert_eq!(ops.len(), 9);
    assert!(ops.iter().all(|op| op.cell == Some(blank)));
}
