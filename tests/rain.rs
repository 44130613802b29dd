use matrix_rain::cell::{Cell, Color, DrawOp};
use matrix_rain::particle::{Line, ROW, TRAIL_LENGTH};
use matrix_rain::rain::{Rain, MAX_SPEED, MIN_SPEED};
use matrix_rain::screen::Screen;

fn black() -> Color {
    Color::Rgb { r: 0, g: 0, b: 0 }
}

fn gradient() -> Vec<Color> {
    (0..TRAIL_LENGTH).map(|i| Color::Rgb { r: 0, g: 200 - (i as u8) * 9, b: 50 }).collect()
}

fn line(x: u16, y: u64, length: u16, speed: u32) -> Line {
    Line { items: "abcdefgh".chars().collect(), length, x, y, speed, last_update: 0 }
}

#[test]
fn concrete_scenario_paints_head_and_tail_only() {
    let grad = gradient();
    let mut screen = Screen::new(10, 5);
    screen.clear(black(), 10, 5);
    assert_eq!(screen.flush(10, 5).len(), 50);

    let mut l = line(3, 0, 2, 1000);
    l.advance(200_000);
    assert_eq!(l.y, 2 * ROW);
    screen.clear(black(), 10, 5);
    l.draw(&mut screen, 5, black(), &grad);
    let ops = screen.flush(10, 5);
    assert_eq!(
        ops,
        vec![
            DrawOp { x: 3, y: 0, cell: Some(Cell { fg_color: grad[0], bg_color: black(), glyph: 'a' }) },
            DrawOp { x: 3, y: 1, cell: Some(Cell { fg_color: Color::White, bg_color: black(), glyph: 'b' }) },
        ]
    );
}

#[test]
fn split_advance_equals_whole() {
    let mut a = line(0, 7, 20, 1000);
    let mut b = line(0, 7, 20, 1000);
    a.advance(500_000);
    a.advance(500_000);
    b.advance(1_000_000);
    assert_eq!(a.y, b.y);
    assert_eq!(b.y, 7 + 10 * ROW);
}

#[test]
fn advance_saturates_at_the_largest_position() {
    let mut a = line(0, u64::MAX - 5, 20, 3000);
    a.advance(1);
    assert_eq!(a.y, u64::MAX);
}

#[test]
fn advance_to_uses_time_since_last_update() {
    let mut a = line(0, 0, 20, 2000);
    a.last_update = 100;
    a.advance_to(600);
    assert_eq!(a.y, 1_000_000);
    assert_eq!(a.last_update, 600);
    a.advance_to(50);
    assert_eq!(a.y, 1_000_000);
    assert_eq!(a.last_update, 50);
}

#[test]
fn line_removed_exactly_past_its_trail() {
    let rows: u16 = 5;
    let at_edge = line(0, 25 * ROW, 20, 1000);
    let past_edge = line(0, 25 * ROW + 1, 20, 1000);
    assert!(!at_edge.gone(rows));
    assert!(past_edge.gone(rows));

    let mut rain = Rain::new(0, black());
    rain.lines.push(line(1, 25 * ROW + 1, TRAIL_LENGTH, 1000));
    rain.lines.push(line(2, 25 * ROW, TRAIL_LENGTH, 1000));
    rain.lines.push(line(3, 0, TRAIL_LENGTH, 1000));
    rain.cull(rows);
    let xs: Vec<u16> = rain.lines.iter().map(|l| l.x).collect();
    assert_eq!(xs, vec![2, 3]);
}

#[test]
fn spawn_builds_seeded_glyphs() {
    let l = Line::spawn(3, 1500, 6, 42);
    assert_eq!((l.x, l.speed, l.y, l.length, l.last_update), (3, 1500, 0, TRAIL_LENGTH, 42));
    assert_eq!(l.items.len(), 6);
    assert!(l.items.iter().all(|c| c.is_ascii_alphanumeric()));
    let again = Line::spawn(3, 900, 6, 0);
    assert_eq!(l.items, again.items);
    let first_column = Line::spawn(0, 900, 4, 0);
    assert!(first_column.items.iter().all(|c| *c == first_column.items[0]));
}

#[test]
fn spawn_keeps_new_line_last_and_culls() {
    let mut rain = Rain::new(0, black());
    rain.lines.push(line(1, 100 * ROW, TRAIL_LENGTH, 1000));
    rain.lines.push(line(2, ROW, TRAIL_LENGTH, 1000));
    rain.spawn(7, 2500, 10, 1234);
    assert_eq!(rain.lines.len(), 2);
    assert_eq!(rain.lines[0].x, 2);
    assert_eq!(rain.lines[1].x, 7);
    assert_eq!(rain.lines[1].speed, 2500);
    assert_eq!(rain.last_spawn, 1234);
}

#[test]
fn frame_cycle_spawns_when_due_and_records_writes() {
    let grad = gradient();
    let mut screen = Screen::new(8, 4);
    let mut rain = Rain::new(0, black());
    rain.begin_frame(&mut screen, 5_000, 8, 4, &grad);
    assert_eq!(rain.frame_time, 5_000);
    let ops = rain.end_frame(&mut screen, 5_000, 8, 4);
    assert_eq!(ops.len(), 32);
    assert_eq!(rain.writes, 32);
    assert!(rain.lines.is_empty());

    rain.begin_frame(&mut screen, 20_000, 8, 4, &grad);
    let ops = rain.end_frame(&mut screen, 20_000, 8, 4);
    assert_eq!(ops.len(), 0);
    assert_eq!(rain.lines.len(), 1);
    let l = &rain.lines[0];
    assert!(l.x < 8);
    assert!(MIN_SPEED <= l.speed && l.speed < MAX_SPEED);
    assert_eq!(rain.last_spawn, 20_000);
}

#[test]
fn no_spawn_without_columns() {
    let mut screen = Screen::new(0, 4);
    let mut rain = Rain::new(0, black());
    rain.begin_frame(&mut screen, 50_000, 0, 4, &gradient());
    rain.end_frame(&mut screen, 50_000, 0, 4);
    assert!(rain.lines.is_empty());
}

#[test]
fn display_refresh_computes_fps() {
    let mut rain = Rain::new(0, black());
    rain.frame_time = 20_000;
    rain.refresh_display(100_000);
    assert_eq!(rain.fps, 0);
    rain.refresh_display(150_000);
    assert_eq!(rain.fps, 50);
    assert_eq!(rain.shown_frame_time, 20_000);
    rain.frame_time = 0;
    rain.refresh_display(300_000);
    assert_eq!(rain.fps, 50);
    assert_eq!(rain.shown_frame_time, 0);
}

#[test]
fn trail_covers_head_and_each_tail_cell() {
    let grad = gradient();
    let mut screen = Screen::new(6, 6);
    screen.flush(6, 6);
    let l = line(4, 3 * ROW, 2, 1000);
    l.draw(&mut screen, 6, black(), &grad);
    let ops = screen.flush(6, 6);
    assert_eq!(
        ops,
        vec![
            DrawOp { x: 4, y: 0, cell: Some(Cell { fg_color: grad[1], bg_color: black(), glyph: 'a' }) },
            DrawOp { x: 4, y: 1, cell: Some(Cell { fg_color: grad[0], bg_color: black(), glyph: 'b' }) },
            DrawOp { x: 4, y: 2, cell: Some(Cell { fg_color: Color::White, bg_color: black(), glyph: 'c' }) },
        ]
    );
}

#[test]
fn trail_rows_below_the_terminal_are_skipped() {
    let grad = gradient();
    let mut screen = Screen::new(3, 2);
    screen.flush(3, 2);
    let l = line(1, 3 * ROW + ROW / 2, 3, 1000);
    l.draw(&mut screen, 2, black(), &grad);
    let ops = screen.flush(3, 2);
    let rows: Vec<(u16, Color)> = ops.iter().map(|op| (op.y, op.cell.unwrap().fg_color)).collect();
    assert_eq!(rows, vec![(0, grad[2]), (1, grad[1])]);
}
