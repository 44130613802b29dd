use vstd::prelude::*;
use std::collections::HashMap;
use crate::cell::{blank_cell, Cell, Color, DrawOp, ScreenItem};

verus! {

broadcast use vstd::std_specs::hash::group_hash_axioms;

/// The hash key under which the cell for `(x, y)` is kept.
pub open spec fn key_of(x: u16, y: u16) -> u32 {
    (y as int * 65536 + x as int) as u32
}

proof fn lemma_key_injective(x1: u16, y1: u16, x2: u16, y2: u16)
    ensures
        key_of(x1, y1) == key_of(x2, y2) ==> x1 == x2 && y1 == y2,
{
    assert(key_of(x1, y1) == key_of(x2, y2) ==> x1 == x2 && y1 == y2) by (nonlinear_arith)
        requires
            0 <= x1 < 65536,
            0 <= y1 < 65536,
            0 <= x2 < 65536,
            0 <= y2 < 65536,
            key_of(x1, y1) == (y1 as int * 65536 + x1 as int),
            key_of(x2, y2) == (y2 as int * 65536 + x2 as int),
    ;
}

proof fn lemma_key_value(x: u16, y: u16)
    ensures
        key_of(x, y) as int == y as int * 65536 + x as int,
{
    assert(0 <= y as int * 65536 + x as int <= u32::MAX) by (nonlinear_arith)
        requires
            0 <= x < 65536,
            0 <= y < 65536,
    ;
}

fn key(x: u16, y: u16) -> (k: u32)
    ensures
        k == key_of(x, y),
{
    proof {
        lemma_key_value(x, y);
    }
    (y as u32) * 65536 + (x as u32)
}

/// A coordinate-keyed map of cells, read through the packed hash keys.
pub open spec fn cells_of(m: Map<u32, Cell>) -> Map<(u16, u16), Cell> {
    Map::new(|p: (u16, u16)| m.contains_key(key_of(p.0, p.1)), |p: (u16, u16)| m[key_of(p.0, p.1)])
}

/// What staging `text` does to the staged map `m`, where the text's current
/// line started at column `x` and the next character goes to row `y`, `mx`
/// columns further on. Positions past the largest coordinate are dropped.
pub open spec fn stage_text(
    m: Map<(u16, u16), Cell>,
    x: int,
    y: int,
    mx: int,
    fg: Color,
    bg: Color,
    text: Seq<char>,
) -> Map<(u16, u16), Cell>
    decreases text.len(),
{
    if text.len() == 0 {
        m
    } else if text[0] == '\n' {
        stage_text(m, x, y + 1, 0, fg, bg, text.drop_first())
    } else {
        let m2 = if x + mx <= u16::MAX && y <= u16::MAX {
            m.insert(((x + mx) as u16, y as u16), Cell { fg_color: fg, bg_color: bg, glyph: text[0] })
        } else {
            m
        };
        stage_text(m2, x, y, mx + 1, fg, bg, text.drop_first())
    }
}

proof fn lemma_stage_text_past_edge(
    m: Map<(u16, u16), Cell>,
    x: int,
    y1: int,
    y2: int,
    mx1: int,
    mx2: int,
    fg: Color,
    bg: Color,
    text: Seq<char>,
)
    requires
        y1 == y2 || (y1 > u16::MAX && y2 > u16::MAX),
        mx1 == mx2 || (x + mx1 > u16::MAX && x + mx2 > u16::MAX),
    ensures
        stage_text(m, x, y1, mx1, fg, bg, text) == stage_text(m, x, y2, mx2, fg, bg, text),
    decreases text.len(),
{
    if text.len() > 0 {
        if text[0] == '\n' {
            lemma_stage_text_past_edge(m, x, y1 + 1, y2 + 1, 0, 0, fg, bg, text.drop_first());
        } else {
            let m2 = if x + mx1 <= u16::MAX && y1 <= u16::MAX {
                m.insert(((x + mx1) as u16, y1 as u16), Cell { fg_color: fg, bg_color: bg, glyph: text[0] })
            } else {
                m
            };
            lemma_stage_text_past_edge(m2, x, y1, y2, mx1 + 1, mx2 + 1, fg, bg, text.drop_first());
        }
    }
}

/// The blank grid that clearing to `bg` stages: every `(x, y)` with
/// `x <= columns` and `y <= rows`.
pub open spec fn blank_fill(bg: Color, columns: u16, rows: u16) -> Map<(u16, u16), Cell> {
    Map::new(|p: (u16, u16)| p.0 <= columns && p.1 <= rows, |p: (u16, u16)| blank_cell(bg))
}

spec fn partial_fill(bg: Color, columns: u16, y: int, x: int) -> Map<(u16, u16), Cell> {
    Map::new(
        |p: (u16, u16)| (p.1 < y && p.0 <= columns) || (p.1 == y && p.0 < x),
        |p: (u16, u16)| blank_cell(bg),
    )
}

/// The writes that a flush decides on for the one coordinate `(x, y)`.
/// A full redraw paints every staged cell and blanks every other one; a
/// differential redraw paints a staged cell only where the committed one
/// differs or is missing, and blanks a committed cell that is no longer staged.
pub open spec fn cell_ops(
    staged: Map<(u16, u16), Cell>,
    committed: Map<(u16, u16), Cell>,
    full: bool,
    x: u16,
    y: u16,
) -> Seq<DrawOp> {
    let p = (x, y);
    let paint = DrawOp { x, y, cell: Some(staged[p]) };
    let blank = DrawOp { x, y, cell: None };
    if full {
        if staged.contains_key(p) {
            seq![paint]
        } else {
            seq![blank]
        }
    } else if staged.contains_key(p) {
        if committed.contains_key(p) && committed[p] == staged[p] {
            seq![]
        } else {
            seq![paint]
        }
    } else if committed.contains_key(p) {
        seq![blank]
    } else {
        seq![]
    }
}

/// The writes for the first `n` columns of row `y`, left to right.
pub open spec fn row_ops(
    staged: Map<(u16, u16), Cell>,
    committed: Map<(u16, u16), Cell>,
    full: bool,
    y: u16,
    n: nat,
) -> Seq<DrawOp>
    decreases n,
{
    if n == 0 {
        seq![]
    } else {
        row_ops(staged, committed, full, y, (n - 1) as nat) + cell_ops(
            staged,
            committed,
            full,
            (n - 1) as u16,
            y,
        )
    }
}

/// The writes for the first `n` rows of a grid `columns` wide, top to bottom.
pub open spec fn grid_ops(
    staged: Map<(u16, u16), Cell>,
    committed: Map<(u16, u16), Cell>,
    full: bool,
    columns: u16,
    n: nat,
) -> Seq<DrawOp>
    decreases n,
{
    if n == 0 {
        seq![]
    } else {
        grid_ops(staged, committed, full, columns, (n - 1) as nat) + row_ops(
            staged,
            committed,
            full,
            (n - 1) as u16,
            columns as nat,
        )
    }
}

/// The retained-mode screen: the cells staged for the frame being built, the
/// cells believed to be on the terminal since the last flush, the terminal
/// size seen at that flush, and whether any flush has happened yet.
pub struct Screen {
    buffer: HashMap<u32, Cell>,
    terminal: HashMap<u32, Cell>,
    last_known_size: (u16, u16),
    already_flushed: bool,
}

impl Screen {
    /// The cells staged for the current frame.
    pub closed spec fn staged(&self) -> Map<(u16, u16), Cell> {
        cells_of(self.buffer@)
    }

    /// The cells committed by the last flush.
    pub closed spec fn committed(&self) -> Map<(u16, u16), Cell> {
        cells_of(self.terminal@)
    }

    /// `(columns, rows)` as seen by the last flush, or at creation.
    pub closed spec fn last_size(&self) -> (u16, u16) {
        self.last_known_size
    }

    /// Whether a flush has happened.
    pub closed spec fn flushed(&self) -> bool {
        self.already_flushed
    }

    /// Whether a flush for a terminal of `columns` × `rows` redraws the whole
    /// grid: on the first flush, and whenever the size has changed.
    pub open spec fn needs_full_redraw(&self, columns: u16, rows: u16) -> bool {
        !self.flushed() || self.last_size() != (columns, rows)
    }

    /// The writes that a flush for a terminal of `columns` × `rows` makes.
    pub open spec fn flush_result(&self, columns: u16, rows: u16) -> Seq<DrawOp> {
        grid_ops(self.staged(), self.committed(), self.needs_full_redraw(columns, rows), columns, rows as nat)
    }

    /// An empty screen for a terminal of `columns` × `rows`; its first flush
    /// redraws the whole grid.
    pub fn new(columns: u16, rows: u16) -> (s: Self)
        ensures
            s.staged() == Map::<(u16, u16), Cell>::empty(),
            s.committed() == Map::<(u16, u16), Cell>::empty(),
            s.last_size() == (columns, rows),
            !s.flushed(),
    {
        let s = Screen {
            buffer: HashMap::new(),
            terminal: HashMap::new(),
            last_known_size: (columns, rows),
            already_flushed: false,
        };
        assert(s.staged() =~= Map::<(u16, u16), Cell>::empty());
        assert(s.committed() =~= Map::<(u16, u16), Cell>::empty());
        s
    }

    /// Stages `cell` at `(x, y)`, replacing whatever was staged there.
    pub fn put(&mut self, x: u16, y: u16, cell: Cell)
        ensures
            final(self).staged() == old(self).staged().insert((x, y), cell),
            final(self).committed() == old(self).committed(),
            final(self).last_size() == old(self).last_size(),
            final(self).flushed() == old(self).flushed(),
    {
        let k = key(x, y);
        self.buffer.insert(k, cell);
        proof {
            assert forall|p: (u16, u16)| #![auto] p != (x, y) implies key_of(p.0, p.1) != k by {
                lemma_key_injective(p.0, p.1, x, y);
            }
            assert(self.staged() =~= old(self).staged().insert((x, y), cell));
        }
    }
    /// Stages `item.text` from `(x, y)` on: each character other than a line
    /// break takes the next column, and a line break moves back to column `x`
    /// on the next row. Every staged cell carries the item's colors.
    pub fn set(&mut self, x: u16, y: u16, item: &ScreenItem)
        ensures
            final(self).staged() == stage_text(
                old(self).staged(),
                x as int,
                y as int,
                0,
                item.fg_color,
                item.bg_color,
                item.text@,
            ),
            final(self).committed() == old(self).committed(),
            final(self).last_size() == old(self).last_size(),
            final(self).flushed() == old(self).flushed(),
    {
        let ghost text = item.text@;
        let n = item.text.len();
        let mut i: usize = 0;
        // Both counters stop one past the largest coordinate: nothing beyond it is staged.
        let mut cur_y: u32 = y as u32;
        let mut mx: u32 = 0;
        assert(text.skip(0) =~= text);
        while i < n
            invariant
                n == text.len(),
                text == item.text@,
                i <= n,
                cur_y <= 65536,
                x + mx <= 65536,
                stage_text(old(self).staged(), x as int, y as int, 0, item.fg_color, item.bg_color, text)
                    == stage_text(
                    self.staged(),
                    x as int,
                    cur_y as int,
                    mx as int,
                    item.fg_color,
                    item.bg_color,
                    text.skip(i as int),
                ),
                self.committed() == old(self).committed(),
                self.last_size() == old(self).last_size(),
                self.flushed() == old(self).flushed(),
            decreases n - i,
        {
            let c = item.text[i];
            let ghost before = self.staged();
            assert(text.skip(i as int).drop_first() =~= text.skip(i + 1));
            assert(text.skip(i as int)[0] == c);
            if c == '\n' {
                proof {
                    lemma_stage_text_past_edge(
                        before,
                        x as int,
                        cur_y + 1,
                        if cur_y < 65536 { cur_y + 1 } else { cur_y as int },
                        0,
                        0,
                        item.fg_color,
                        item.bg_color,
                        text.skip(i + 1),
                    );
                }
                if cur_y < 65536 {
                    cur_y = cur_y + 1;
                }
                mx = 0;
            } else {
                if (x as u32) + mx <= 65535 && cur_y <= 65535 {
                    self.put(
                        ((x as u32) + mx) as u16,
                        cur_y as u16,
                        Cell { fg_color: item.fg_color, bg_color: item.bg_color, glyph: c },
                    );
                }
                proof {
                    lemma_stage_text_past_edge(
                        self.staged(),
                        x as int,
                        cur_y as int,
                        cur_y as int,
                        mx + 1,
                        if x + mx < 65536 { mx + 1 } else { mx as int },
                        item.fg_color,
                        item.bg_color,
                        text.skip(i + 1),
                    );
                }
                if (x as u32) + mx < 65536 {
                    mx = mx + 1;
                }
            }
            i = i + 1;
        }
        assert(text.skip(n as int) =~= Seq::<char>::empty());
    }

    /// Stages a blank cell on background `color` at every `(x, y)` with
    /// `x <= columns` and `y <= rows`, one past the grid in each direction.
    pub fn clear(&mut self, color: Color, columns: u16, rows: u16)
        ensures
            final(self).staged() == old(self).staged().union_prefer_right(
                blank_fill(color, columns, rows),
            ),
            final(self).committed() == old(self).committed(),
            final(self).last_size() == old(self).last_size(),
            final(self).flushed() == old(self).flushed(),
    {
        let ghost start = self.staged();
        let mut y: u32 = 0;
        assert(start.union_prefer_right(partial_fill(color, columns, 0, 0)) =~= start);
        while y <= rows as u32
            invariant
                y <= rows + 1,
                self.staged() == start.union_prefer_right(partial_fill(color, columns, y as int, 0)),
                self.committed() == old(self).committed(),
                self.last_size() == old(self).last_size(),
                self.flushed() == old(self).flushed(),
            decreases rows + 1 - y,
        {
            let mut x: u32 = 0;
            while x <= columns as u32
                invariant
                    y <= rows,
                    x <= columns + 1,
                    self.staged() == start.union_prefer_right(
                        partial_fill(color, columns, y as int, x as int),
                    ),
                    self.committed() == old(self).committed(),
                    self.last_size() == old(self).last_size(),
                    self.flushed() == old(self).flushed(),
                decreases columns + 1 - x,
            {
                self.put(x as u16, y as u16, Cell::blank(color));
                assert(self.staged() =~= start.union_prefer_right(
                    partial_fill(color, columns, y as int, x + 1),
                ));
                x = x + 1;
            }
            assert(self.staged() =~= start.union_prefer_right(
                partial_fill(color, columns, y + 1, 0),
            ));
            y = y + 1;
        }
        assert(partial_fill(color, columns, y as int, 0) =~= blank_fill(color, columns, rows));
    }
    /// Reconciles the staged cells with the committed ones for a terminal of
    /// `columns` × `rows` and returns the writes to make, row by row from the
    /// top, each row from the left. Nothing outside the grid is ever written.
    /// The staged cells then become the committed ones, and staging starts
    /// afresh.
    pub fn flush(&mut self, columns: u16, rows: u16) -> (ops: Vec<DrawOp>)
        ensures
            ops@ == old(self).flush_result(columns, rows),
            final(self).committed() == old(self).staged(),
            final(self).staged() == Map::<(u16, u16), Cell>::empty(),
            final(self).last_size() == (columns, rows),
            final(self).flushed(),
    {
        let full = !self.already_flushed || self.last_known_size.0 != columns
            || self.last_known_size.1 != rows;
        let ghost st = self.staged();
        let ghost cm = self.committed();
        let mut ops: Vec<DrawOp> = Vec::new();
        let mut y: u16 = 0;
        while y < rows
            invariant
                y <= rows,
                self.staged() == st,
                self.committed() == cm,
                ops@ == grid_ops(st, cm, full, columns, y as nat),
            decreases rows - y,
        {
            let mut x: u16 = 0;
            while x < columns
                invariant
                    y < rows,
                    x <= columns,
                    self.staged() == st,
                    self.committed() == cm,
                    ops@ == grid_ops(st, cm, full, columns, y as nat) + row_ops(
                        st,
                        cm,
                        full,
                        y,
                        x as nat,
                    ),
                decreases columns - x,
            {
                let k = key(x, y);
                let ghost before = ops@;
                match self.buffer.get(&k) {
                    Some(item) => {
                        let emit = if full {
                            true
                        } else {
                            match self.terminal.get(&k) {
                                Some(old_item) => *old_item != *item,
                                None => true,
                            }
                        };
                        if emit {
                            ops.push(DrawOp { x, y, cell: Some(*item) });
                        }
                    },
                    None => {
                        if full || self.terminal.contains_key(&k) {
                            ops.push(DrawOp { x, y, cell: None });
                        }
                    },
                }
                assert(ops@ =~= before + cell_ops(st, cm, full, x, y));
                assert(row_ops(st, cm, full, y, (x + 1) as nat) == row_ops(st, cm, full, y, x as nat)
                    + cell_ops(st, cm, full, x, y));
                x = x + 1;
            }
            assert(grid_ops(st, cm, full, columns, (y + 1) as nat) == grid_ops(st, cm, full, columns, y as nat)
                + row_ops(st, cm, full, y, columns as nat));
            y = y + 1;
        }
        std::mem::swap(&mut self.terminal, &mut self.buffer);
        self.buffer = HashMap::new();
        self.last_known_size = (columns, rows);
        self.already_flushed = true;
        assert(self.staged() =~= Map::<(u16, u16), Cell>::empty());
        ops
    }
}

/// Whether two surfaces disagree at `p`: one holds a cell there and the other
/// does not, or both hold one and the cells differ.
pub open spec fn differs_at(a: Map<(u16, u16), Cell>, b: Map<(u16, u16), Cell>, p: (u16, u16)) -> bool {
    a.contains_key(p) != b.contains_key(p) || (a.contains_key(p) && a[p] != b[p])
}

/// The coordinates of the `columns` × `rows` grid on which the two surfaces
/// disagree.
pub open spec fn differing_cells(
    a: Map<(u16, u16), Cell>,
    b: Map<(u16, u16), Cell>,
    columns: u16,
    rows: u16,
) -> Set<(u16, u16)> {
    Set::new(|p: (u16, u16)| p.0 < columns && p.1 < rows && differs_at(a, b, p))
}

spec fn row_differences(a: Map<(u16, u16), Cell>, b: Map<(u16, u16), Cell>, y: u16, n: nat) -> nat
    decreases n,
{
    if n == 0 {
        0
    } else {
        row_differences(a, b, y, (n - 1) as nat) + if differs_at(a, b, ((n - 1) as u16, y)) {
            1nat
        } else {
            0nat
        }
    }
}

spec fn grid_differences(a: Map<(u16, u16), Cell>, b: Map<(u16, u16), Cell>, columns: u16, n: nat) -> nat
    decreases n,
{
    if n == 0 {
        0
    } else {
        grid_differences(a, b, columns, (n - 1) as nat) + row_differences(a, b, (n - 1) as u16, columns as nat)
    }
}

spec fn row_set(a: Map<(u16, u16), Cell>, b: Map<(u16, u16), Cell>, y: u16, n: nat) -> Set<(u16, u16)> {
    Set::new(|p: (u16, u16)| p.1 == y && p.0 < n && differs_at(a, b, p))
}

spec fn grid_set(a: Map<(u16, u16), Cell>, b: Map<(u16, u16), Cell>, columns: u16, n: nat) -> Set<(u16, u16)> {
    Set::new(|p: (u16, u16)| p.0 < columns && p.1 < n && differs_at(a, b, p))
}

proof fn lemma_row_set_count(a: Map<(u16, u16), Cell>, b: Map<(u16, u16), Cell>, y: u16, n: nat)
    requires
        n <= u16::MAX + 1,
    ensures
        row_set(a, b, y, n).finite(),
        row_set(a, b, y, n).len() == row_differences(a, b, y, n),
    decreases n,
{
    if n == 0 {
        assert(row_set(a, b, y, n) =~= Set::<(u16, u16)>::empty());
    } else {
        lemma_row_set_count(a, b, y, (n - 1) as nat);
        let p = ((n - 1) as u16, y);
        let prev = row_set(a, b, y, (n - 1) as nat);
        assert(!prev.contains(p));
        if differs_at(a, b, p) {
            assert(row_set(a, b, y, n) =~= prev.insert(p));
        } else {
            assert(row_set(a, b, y, n) =~= prev);
        }
    }
}

proof fn lemma_grid_set_count(a: Map<(u16, u16), Cell>, b: Map<(u16, u16), Cell>, columns: u16, n: nat)
    requires
        n <= u16::MAX + 1,
    ensures
        grid_set(a, b, columns, n).finite(),
        grid_set(a, b, columns, n).len() == grid_differences(a, b, columns, n),
    decreases n,
{
    if n == 0 {
        assert(grid_set(a, b, columns, n) =~= Set::<(u16, u16)>::empty());
    } else {
        lemma_grid_set_count(a, b, columns, (n - 1) as nat);
        lemma_row_set_count(a, b, (n - 1) as u16, columns as nat);
        let prev = grid_set(a, b, columns, (n - 1) as nat);
        let row = row_set(a, b, (n - 1) as u16, columns as nat);
        assert(grid_set(a, b, columns, n) =~= prev + row);
        assert(prev.disjoint(row));
        vstd::set_lib::lemma_set_disjoint_lens(prev, row);
    }
}

proof fn lemma_row_ops_bounds(
    st: Map<(u16, u16), Cell>,
    cm: Map<(u16, u16), Cell>,
    full: bool,
    y: u16,
    n: nat,
)
    requires
        n <= u16::MAX + 1,
    ensures
        forall|i: int| 0 <= i < row_ops(st, cm, full, y, n).len() ==> {
            &&& (#[trigger] row_ops(st, cm, full, y, n)[i]).x < n
            &&& row_ops(st, cm, full, y, n)[i].y == y
        },
        full ==> row_ops(st, cm, full, y, n).len() == n,
        !full && st == cm ==> row_ops(st, cm, full, y, n).len() == 0,
        !full ==> row_ops(st, cm, full, y, n).len() == row_differences(cm, st, y, n),
    decreases n,
{
    if n > 0 {
        lemma_row_ops_bounds(st, cm, full, y, (n - 1) as nat);
        let a = row_ops(st, cm, full, y, (n - 1) as nat);
        let c = cell_ops(st, cm, full, (n - 1) as u16, y);
        assert(row_ops(st, cm, full, y, n) == a + c);
        assert forall|i: int| 0 <= i < (a + c).len() implies {
            &&& (#[trigger] (a + c)[i]).x < n
            &&& (a + c)[i].y == y
        } by {
            if i >= a.len() {
                assert((a + c)[i] == c[i - a.len()]);
            } else {
                assert((a + c)[i] == a[i]);
            }
        }
    }
}

proof fn lemma_grid_ops_bounds(
    st: Map<(u16, u16), Cell>,
    cm: Map<(u16, u16), Cell>,
    full: bool,
    columns: u16,
    n: nat,
)
    requires
        n <= u16::MAX + 1,
    ensures
        forall|i: int| 0 <= i < grid_ops(st, cm, full, columns, n).len() ==> {
            &&& (#[trigger] grid_ops(st, cm, full, columns, n)[i]).x < columns
            &&& grid_ops(st, cm, full, columns, n)[i].y < n
        },
        full ==> grid_ops(st, cm, full, columns, n).len() == n * columns,
        !full && st == cm ==> grid_ops(st, cm, full, columns, n).len() == 0,
        !full ==> grid_ops(st, cm, full, columns, n).len() == grid_differences(cm, st, columns, n),
    decreases n,
{
    if n > 0 {
        lemma_grid_ops_bounds(st, cm, full, columns, (n - 1) as nat);
        lemma_row_ops_bounds(st, cm, full, (n - 1) as u16, columns as nat);
        let a = grid_ops(st, cm, full, columns, (n - 1) as nat);
        let r = row_ops(st, cm, full, (n - 1) as u16, columns as nat);
        assert(grid_ops(st, cm, full, columns, n) == a + r);
        assert forall|i: int| 0 <= i < (a + r).len() implies {
            &&& (#[trigger] (a + r)[i]).x < columns
            &&& (a + r)[i].y < n
        } by {
            if i >= a.len() {
                assert((a + r)[i] == r[i - a.len()]);
            } else {
                assert((a + r)[i] == a[i]);
            }
        }
        assert((n - 1) * columns + columns == n * columns) by (nonlinear_arith);
    }
}

/// Nothing that a flush writes lies outside the grid: a cell staged at
/// `x == columns` or `y == rows` is never written.
pub proof fn flush_stays_in_bounds(s: &Screen, columns: u16, rows: u16)
    ensures
        forall|i: int| 0 <= i < s.flush_result(columns, rows).len() ==> {
            &&& (#[trigger] s.flush_result(columns, rows)[i]).x < columns
            &&& s.flush_result(columns, rows)[i].y < rows
        },
{
    lemma_grid_ops_bounds(s.staged(), s.committed(), s.needs_full_redraw(columns, rows), columns, rows as nat);
}

/// Once a flush has drawn a surface, flushing the same surface again at the
/// same size writes nothing.
pub proof fn unchanged_flush_writes_nothing(s: &Screen, columns: u16, rows: u16)
    requires
        s.flushed(),
        s.last_size() == (columns, rows),
        s.staged() == s.committed(),
    ensures
        s.flush_result(columns, rows).len() == 0,
{
    lemma_grid_ops_bounds(s.staged(), s.committed(), false, columns, rows as nat);
}

/// A differential flush writes once for each coordinate of the grid where the
/// newly staged surface and the committed one disagree, erasures included.
pub proof fn diff_flush_counts_changes(s: &Screen, columns: u16, rows: u16)
    requires
        s.flushed(),
        s.last_size() == (columns, rows),
    ensures
        s.flush_result(columns, rows).len() == differing_cells(s.committed(), s.staged(), columns, rows).len(),
{
    lemma_grid_ops_bounds(s.staged(), s.committed(), false, columns, rows as nat);
    lemma_grid_set_count(s.committed(), s.staged(), columns, rows as nat);
    assert(grid_set(s.committed(), s.staged(), columns, rows as nat) =~= differing_cells(
        s.committed(),
        s.staged(),
        columns,
        rows,
    ));
}

/// When the terminal size has changed since the last flush, a flush writes
/// every coordinate of the grid, whatever was committed before.
pub proof fn resize_redraws_everything(s: &Screen, columns: u16, rows: u16)
    requires
        s.last_size() != (columns, rows),
    ensures
        s.flush_result(columns, rows).len() == columns * rows,
{
    lemma_grid_ops_bounds(s.staged(), s.committed(), true, columns, rows as nat);
    assert(rows * columns == columns * rows) by (nonlinear_arith);
}

/// Whether `a` comes before `b` in reading order: an earlier row, or the same
/// row and an earlier column.
pub open spec fn reads_before(a: DrawOp, b: DrawOp) -> bool {
    a.y < b.y || (a.y == b.y && a.x < b.x)
}

/// What a differential flush writes at `p`: the staged cell, or a blank where
/// nothing is staged.
pub open spec fn diff_write(staged: Map<(u16, u16), Cell>, p: (u16, u16)) -> DrawOp {
    DrawOp { x: p.0, y: p.1, cell: if staged.contains_key(p) { Some(staged[p]) } else { None } }
}

proof fn lemma_row_ops_diff(st: Map<(u16, u16), Cell>, cm: Map<(u16, u16), Cell>, y: u16, n: nat)
    requires
        n <= u16::MAX + 1,
    ensures
        forall|i: int| 0 <= i < row_ops(st, cm, false, y, n).len() ==> {
            let op = #[trigger] row_ops(st, cm, false, y, n)[i];
            &&& op.y == y
            &&& op.x < n
            &&& differs_at(cm, st, (op.x, op.y))
            &&& op == diff_write(st, (op.x, op.y))
        },
        forall|i: int, j: int|
            0 <= i < j < row_ops(st, cm, false, y, n).len() ==> reads_before(
                #[trigger] row_ops(st, cm, false, y, n)[i],
                #[trigger] row_ops(st, cm, false, y, n)[j],
            ),
        forall|x: u16| x < n && differs_at(cm, st, (x, y)) ==> exists|i: int|
            0 <= i < row_ops(st, cm, false, y, n).len() && #[trigger] row_ops(st, cm, false, y, n)[i]
                == diff_write(st, (x, y)),
    decreases n,
{
    if n > 0 {
        lemma_row_ops_diff(st, cm, y, (n - 1) as nat);
        let a = row_ops(st, cm, false, y, (n - 1) as nat);
        let c = cell_ops(st, cm, false, (n - 1) as u16, y);
        let r = row_ops(st, cm, false, y, n);
        assert(r == a + c);
        assert forall|i: int| 0 <= i < r.len() implies {
            let op = #[trigger] r[i];
            &&& op.y == y
            &&& op.x < n
            &&& differs_at(cm, st, (op.x, op.y))
            &&& op == diff_write(st, (op.x, op.y))
        } by {
            if i >= a.len() {
                assert(r[i] == c[i - a.len()]);
            } else {
                assert(r[i] == a[i]);
            }
        }
        assert forall|i: int, j: int| 0 <= i < j < r.len() implies reads_before(
            #[trigger] r[i],
            #[trigger] r[j],
        ) by {
            if j >= a.len() {
                assert(r[j] == c[j - a.len()]);
                if i < a.len() {
                    assert(r[i] == a[i]);
                }
            } else {
                assert(r[i] == a[i]);
                assert(r[j] == a[j]);
            }
        }
        assert forall|x: u16| x < n && differs_at(cm, st, (x, y)) implies exists|i: int|
            0 <= i < r.len() && #[trigger] r[i] == diff_write(st, (x, y)) by {
            if x < n - 1 {
                let i = choose|i: int| 0 <= i < a.len() && #[trigger] a[i] == diff_write(st, (x, y));
                assert(r[i] == a[i]);
            } else {
                assert(r[a.len() as int] == c[0]);
            }
        }
    }
}

proof fn lemma_grid_ops_diff(st: Map<(u16, u16), Cell>, cm: Map<(u16, u16), Cell>, columns: u16, n: nat)
    requires
        n <= u16::MAX + 1,
    ensures
        forall|i: int| 0 <= i < grid_ops(st, cm, false, columns, n).len() ==> {
            let op = #[trigger] grid_ops(st, cm, false, columns, n)[i];
            &&& op.y < n
            &&& differs_at(cm, st, (op.x, op.y))
            &&& op == diff_write(st, (op.x, op.y))
        },
        forall|i: int, j: int|
            0 <= i < j < grid_ops(st, cm, false, columns, n).len() ==> reads_before(
                #[trigger] grid_ops(st, cm, false, columns, n)[i],
                #[trigger] grid_ops(st, cm, false, columns, n)[j],
            ),
        forall|p: (u16, u16)| p.0 < columns && p.1 < n && differs_at(cm, st, p) ==> exists|i: int|
            0 <= i < grid_ops(st, cm, false, columns, n).len() && #[trigger] grid_ops(
                st,
                cm,
                false,
                columns,
                n,
            )[i] == diff_write(st, p),
    decreases n,
{
    if n > 0 {
        lemma_grid_ops_diff(st, cm, columns, (n - 1) as nat);
        lemma_row_ops_diff(st, cm, (n - 1) as u16, columns as nat);
        let a = grid_ops(st, cm, false, columns, (n - 1) as nat);
        let b = row_ops(st, cm, false, (n - 1) as u16, columns as nat);
        let g = grid_ops(st, cm, false, columns, n);
        assert(g == a + b);
        assert forall|i: int| 0 <= i < g.len() implies {
            let op = #[trigger] g[i];
            &&& op.y < n
            &&& differs_at(cm, st, (op.x, op.y))
            &&& op == diff_write(st, (op.x, op.y))
        } by {
            if i >= a.len() {
                assert(g[i] == b[i - a.len()]);
            } else {
                assert(g[i] == a[i]);
            }
        }
        assert forall|i: int, j: int| 0 <= i < j < g.len() implies reads_before(
            #[trigger] g[i],
            #[trigger] g[j],
        ) by {
            if j >= a.len() {
                assert(g[j] == b[j - a.len()]);
                if i < a.len() {
                    assert(g[i] == a[i]);
                } else {
                    assert(g[i] == b[i - a.len()]);
                }
            } else {
                assert(g[i] == a[i]);
                assert(g[j] == a[j]);
            }
        }
        assert forall|p: (u16, u16)| p.0 < columns && p.1 < n && differs_at(cm, st, p) implies exists|i: int|
            0 <= i < g.len() && #[trigger] g[i] == diff_write(st, p) by {
            if p.1 < n - 1 {
                let i = choose|i: int| 0 <= i < a.len() && #[trigger] a[i] == diff_write(st, p);
                assert(g[i] == a[i]);
            } else {
                assert(p == (p.0, (n - 1) as u16));
                let i = choose|i: int| 0 <= i < b.len() && #[trigger] b[i] == diff_write(st, (p.0, p.1));
                assert(g[a.len() + i] == b[i]);
            }
        }
    }
}

/// A differential flush writes each coordinate of the grid where the newly
/// staged surface and the committed one disagree exactly once, in reading
/// order: the staged cell where one is staged, a blank where the committed
/// cell is to be erased. It writes nothing else.
pub proof fn diff_flush_writes_each_change(s: &Screen, columns: u16, rows: u16)
    requires
        s.flushed(),
        s.last_size() == (columns, rows),
    ensures
        forall|i: int| 0 <= i < s.flush_result(columns, rows).len() ==> {
            let op = #[trigger] s.flush_result(columns, rows)[i];
            &&& differing_cells(s.committed(), s.staged(), columns, rows).contains((op.x, op.y))
            &&& op == diff_write(s.staged(), (op.x, op.y))
        },
        forall|i: int, j: int|
            0 <= i < j < s.flush_result(columns, rows).len() ==> reads_before(
                #[trigger] s.flush_result(columns, rows)[i],
                #[trigger] s.flush_result(columns, rows)[j],
            ),
        forall|p: (u16, u16)| #[trigger]
            differing_cells(s.committed(), s.staged(), columns, rows).contains(p) ==> exists|i: int|
                0 <= i < s.flush_result(columns, rows).len() && s.flush_result(columns, rows)[i]
                    == diff_write(s.staged(), p),
{
    lemma_grid_ops_diff(s.staged(), s.committed(), columns, rows as nat);
    lemma_grid_ops_bounds(s.staged(), s.committed(), false, columns, rows as nat);
}

} // verus!
