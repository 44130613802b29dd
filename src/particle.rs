use vstd::prelude::*;
use crate::cell::{Cell, Color};
use crate::random::{alphanumeric_from_seed, seeded_alphanumeric};
use crate::screen::Screen;

verus! {

/// Position units per row: positions are kept in hundred-millionths of a row,
/// so that a speed in thousandths of a row per 100 ms, times an elapsed time
/// in microseconds, is exactly the distance fallen.
pub const ROW: u64 = 100_000_000;

/// The trail length that every spawned particle gets.
pub const TRAIL_LENGTH: u16 = 20;

/// One falling trail of glyphs.
pub struct Line {
    /// The glyph shown at each row, fixed at spawn.
    pub items: Vec<char>,
    /// How many tail cells follow the head.
    pub length: u16,
    /// The column the trail falls in.
    pub x: u16,
    /// Vertical position, in units of `1 / ROW` rows.
    pub y: u64,
    /// Fall speed, in thousandths of a row per 100 ms.
    pub speed: u32,
    /// Time of the last update, in microseconds.
    pub last_update: u64,
}

/// The position reached from `y` after falling at `speed` for `elapsed`
/// microseconds, held at the largest position where it would pass it.
pub open spec fn advanced(y: int, speed: int, elapsed: int) -> int {
    if y + speed * elapsed > u64::MAX {
        u64::MAX as int
    } else {
        y + speed * elapsed
    }
}

/// `line` after an update at `now`: fallen for the time since its last
/// update (none if `now` is earlier), and stamped with `now`.
pub open spec fn advanced_line(line: Line, now: u64) -> Line {
    let elapsed = if now >= line.last_update { now - line.last_update } else { 0 };
    Line {
        items: line.items,
        length: line.length,
        x: line.x,
        y: advanced(line.y as int, line.speed as int, elapsed) as u64,
        speed: line.speed,
        last_update: now,
    }
}

/// The row of the trail's head, plus one: the position rounded to the
/// nearest row, halves rounded up.
pub open spec fn rounded_row(y: u64) -> int {
    (y + ROW / 2) / ROW as int
}

/// Which cell of the trail falls on `row`: 0 for the head, `k` for the `k`th
/// tail cell behind it.
pub open spec fn trail_index(line: &Line, row: int) -> int {
    rounded_row(line.y) - 1 - row
}

/// The cell that `line` shows on `row`: the head in white, the `k`th tail
/// cell in `gradient[k - 1]` (the first tail cell takes the brightest sample),
/// and the glyph fixed for that row ('a' past the glyphs that the line holds).
pub open spec fn trail_cell(line: &Line, bg: Color, gradient: Seq<Color>, row: int) -> Cell {
    let i = trail_index(line, row);
    Cell {
        fg_color: if i == 0 { Color::White } else { gradient[i - 1] },
        bg_color: bg,
        glyph: if row < line.items@.len() { line.items@[row] } else { 'a' },
    }
}

/// The cells that `line` shows on a terminal of `rows` rows: the head and
/// `length` tail cells above it, where they fall within the rows.
pub open spec fn trail_cells(line: &Line, rows: u16, bg: Color, gradient: Seq<Color>) -> Map<(u16, u16), Cell> {
    Map::new(
        |p: (u16, u16)|
            p.0 == line.x && p.1 < rows && 0 <= trail_index(line, p.1 as int) <= line.length,
        |p: (u16, u16)| trail_cell(line, bg, gradient, p.1 as int),
    )
}

/// Whether the trail's tail has passed below the last of `rows` rows.
pub open spec fn is_gone(line: &Line, rows: u16) -> bool {
    line.y > (rows + line.length) * ROW
}

spec fn partial_trail(line: &Line, rows: u16, bg: Color, gradient: Seq<Color>, n: int) -> Map<(u16, u16), Cell> {
    Map::new(
        |p: (u16, u16)|
            p.0 == line.x && p.1 < rows && 0 <= trail_index(line, p.1 as int) < n,
        |p: (u16, u16)| trail_cell(line, bg, gradient, p.1 as int),
    )
}

impl Line {
    /// A new trail at the top of column `column`, falling at `speed`, last
    /// updated at `now`, with one glyph for each of `rows` rows drawn from a
    /// generator seeded by the row and the column.
    pub fn spawn(column: u16, speed: u32, rows: u16, now: u64) -> (line: Line)
        ensures
            line.x == column,
            line.speed == speed,
            line.y == 0,
            line.length == TRAIL_LENGTH,
            line.last_update == now,
            line.items@.len() == rows,
            forall|r: int| 0 <= r < rows ==> #[trigger] line.items@[r] == alphanumeric_from_seed(
                (r * column) as u64,
            ),
    {
        let mut items: Vec<char> = Vec::new();
        let mut r: u16 = 0;
        while r < rows
            invariant
                r <= rows,
                items@.len() == r,
                forall|j: int| 0 <= j < r ==> #[trigger] items@[j] == alphanumeric_from_seed(
                    (j * column) as u64,
                ),
            decreases rows - r,
        {
            assert(0 <= r * column <= 65535 * 65535) by (nonlinear_arith)
                requires
                    0 <= r <= 65535,
                    0 <= column <= 65535,
            ;
            items.push(seeded_alphanumeric((r as u64) * (column as u64)));
            r = r + 1;
        }
        Line { items, length: TRAIL_LENGTH, x: column, y: 0, speed, last_update: now }
    }

    /// Falls for `elapsed` microseconds.
    pub fn advance(&mut self, elapsed: u64)
        ensures
            final(self).y == advanced(old(self).y as int, old(self).speed as int, elapsed as int),
            final(self).items == old(self).items,
            final(self).length == old(self).length,
            final(self).x == old(self).x,
            final(self).speed == old(self).speed,
            final(self).last_update == old(self).last_update,
    {
        assert(0 <= self.speed * elapsed <= u32::MAX * u64::MAX) by (nonlinear_arith)
            requires
                0 <= self.speed <= u32::MAX,
                0 <= elapsed <= u64::MAX,
        ;
        let moved: u128 = (self.y as u128) + (self.speed as u128) * (elapsed as u128);
        if moved > u64::MAX as u128 {
            self.y = u64::MAX;
        } else {
            self.y = moved as u64;
        }
    }

    /// Falls for the time since the last update, and records `now` as the
    /// time of this one. A `now` before the last update counts as no time.
    pub fn advance_to(&mut self, now: u64)
        ensures
            final(self).y == advanced(
                old(self).y as int,
                old(self).speed as int,
                if now >= old(self).last_update { now - old(self).last_update } else { 0 },
            ),
            final(self).last_update == now,
            final(self).items == old(self).items,
            final(self).length == old(self).length,
            final(self).x == old(self).x,
            final(self).speed == old(self).speed,
            *final(self) == advanced_line(*old(self), now),
    {
        let elapsed = now.saturating_sub(self.last_update);
        self.advance(elapsed);
        self.last_update = now;
    }

    /// Whether the trail's tail has passed below the last of `rows` rows, so
    /// that the line can be dropped.
    pub fn gone(&self, rows: u16) -> (r: bool)
        ensures
            r == is_gone(self, rows),
    {
        (rows as u64 + self.length as u64) * ROW < self.y
    }

    /// Stages the cells of the trail that fall within the `rows` rows, each
    /// on background `bg`.
    pub fn draw(&self, screen: &mut Screen, rows: u16, bg: Color, gradient: &Vec<Color>)
        requires
            gradient@.len() >= self.length,
        ensures
            final(screen).staged() == old(screen).staged().union_prefer_right(
                trail_cells(self, rows, bg, gradient@),
            ),
            final(screen).committed() == old(screen).committed(),
            final(screen).last_size() == old(screen).last_size(),
            final(screen).flushed() == old(screen).flushed(),
    {
        let head: u64 = self.y / ROW + if self.y % ROW >= ROW / 2 { 1 } else { 0 };
        assert(head == rounded_row(self.y));
        let ghost start = screen.staged();
        assert(start.union_prefer_right(partial_trail(self, rows, bg, gradient@, 0)) =~= start);
        let mut item: u32 = 0;
        while item <= self.length as u32
            invariant
                item <= self.length + 1,
                self.length <= gradient@.len(),
                head == rounded_row(self.y),
                screen.staged() == start.union_prefer_right(
                    partial_trail(self, rows, bg, gradient@, item as int),
                ),
                screen.committed() == old(screen).committed(),
                screen.last_size() == old(screen).last_size(),
                screen.flushed() == old(screen).flushed(),
            decreases self.length + 1 - item,
        {
            if head >= item as u64 + 1 && head - item as u64 - 1 < rows as u64 {
                let row = (head - item as u64 - 1) as u16;
                let fg = if item == 0 {
                    Color::White
                } else {
                    gradient[(item - 1) as usize]
                };
                let glyph = if (row as usize) < self.items.len() {
                    self.items[row as usize]
                } else {
                    'a'
                };
                let cell = Cell { fg_color: fg, bg_color: bg, glyph };
                screen.put(self.x, row, cell);
                assert(trail_index(self, row as int) == item);
                assert(cell == trail_cell(self, bg, gradient@, row as int));
                assert(partial_trail(self, rows, bg, gradient@, item + 1) =~= partial_trail(
                    self,
                    rows,
                    bg,
                    gradient@,
                    item as int,
                ).insert((self.x, row), cell));
            } else {
                assert(partial_trail(self, rows, bg, gradient@, item + 1) =~= partial_trail(
                    self,
                    rows,
                    bg,
                    gradient@,
                    item as int,
                ));
            }
            assert(screen.staged() =~= start.union_prefer_right(
                partial_trail(self, rows, bg, gradient@, item + 1),
            ));
            item = item + 1;
        }
        assert(partial_trail(self, rows, bg, gradient@, self.length + 1) =~= trail_cells(
            self,
            rows,
            bg,
            gradient@,
        ));
    }
}

/// Advancing in two steps of `first` and then `second` microseconds reaches
/// the same position as one step of their sum: the fall does not depend on
/// the frame rate.
pub proof fn split_advance_matches_whole(y: u64, speed: u32, first: u64, second: u64)
    requires
        first + second <= u64::MAX,
    ensures
        advanced(advanced(y as int, speed as int, first as int), speed as int, second as int)
            == advanced(y as int, speed as int, first + second),
{
    assert(speed * (first + second) == speed * first + speed * second) by (nonlinear_arith);
    assert(speed * first >= 0 && speed * second >= 0) by (nonlinear_arith)
        requires
            speed >= 0,
            first >= 0,
            second >= 0,
    ;
}

/// A particle with the standard trail of twenty is dropped exactly when its
/// position passes twenty rows below the last row.
pub proof fn standard_trail_gone_when_twenty_below(line: &Line, rows: u16)
    requires
        line.length == TRAIL_LENGTH,
    ensures
        is_gone(line, rows) <==> line.y > (rows + 20) * ROW,
{
}

} // verus!
