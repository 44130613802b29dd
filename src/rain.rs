use vstd::prelude::*;
use crate::cell::{Cell, Color, DrawOp};
use crate::particle::{advanced_line, is_gone, trail_cells, Line, ROW, TRAIL_LENGTH};
use crate::random::{alphanumeric_from_seed, random_in_range};
use crate::screen::{blank_fill, Screen};

verus! {

/// Microseconds between two spawns.
pub const SPAWN_INTERVAL: u64 = 10_000;

/// Microseconds between two refreshes of the displayed statistics.
pub const DISPLAY_INTERVAL: u64 = 150_000;

/// The slowest spawn speed, in thousandths of a row per 100 ms.
pub const MIN_SPEED: u32 = 200;

/// One past the fastest spawn speed, in thousandths of a row per 100 ms.
pub const MAX_SPEED: u32 = 3000;

/// The staged map after drawing each of `lines` in turn on top of `m`.
pub open spec fn stage_lines(
    m: Map<(u16, u16), Cell>,
    lines: Seq<Line>,
    rows: u16,
    bg: Color,
    gradient: Seq<Color>,
) -> Map<(u16, u16), Cell>
    decreases lines.len(),
{
    if lines.len() == 0 {
        m
    } else {
        stage_lines(m, lines.drop_last(), rows, bg, gradient).union_prefer_right(
            trail_cells(&lines.last(), rows, bg, gradient),
        )
    }
}

/// The state of the rain between frames: the active lines and the times and
/// statistics that pace and describe the frames.
pub struct Rain {
    pub lines: Vec<Line>,
    pub background: Color,
    /// Start of the last frame, in microseconds.
    pub last_frame: u64,
    /// Last refresh of the displayed statistics, in microseconds.
    pub last_display: u64,
    /// Last spawn, in microseconds.
    pub last_spawn: u64,
    /// Duration of the last frame, in microseconds.
    pub frame_time: u64,
    /// The frame duration on display.
    pub shown_frame_time: u64,
    /// The frame rate on display.
    pub fps: u64,
    /// The number of writes of the last flush.
    pub writes: u32,
}

impl Rain {
    /// Every active line has the standard trail and falls.
    pub open spec fn wf(&self) -> bool {
        forall|i: int| 0 <= i < self.lines@.len() ==> (#[trigger] self.lines@[i]).length == TRAIL_LENGTH
            && self.lines@[i].speed > 0
    }

    /// No lines yet, all timers started at `now`.
    pub fn new(now: u64, background: Color) -> (r: Rain)
        ensures
            r.wf(),
            r.lines@.len() == 0,
            r.background == background,
            r.last_frame == now,
            r.last_display == now,
            r.last_spawn == now,
            r.frame_time == 0,
            r.shown_frame_time == 0,
            r.fps == 0,
            r.writes == 0,
    {
        Rain {
            lines: Vec::new(),
            background,
            last_frame: now,
            last_display: now,
            last_spawn: now,
            frame_time: 0,
            shown_frame_time: 0,
            fps: 0,
            writes: 0,
        }
    }

    /// Starts the frame at `now`: records how long the last one took, clears
    /// the screen to the background, then draws each line and lets it fall
    /// for the time since its last update.
    pub fn begin_frame(&mut self, screen: &mut Screen, now: u64, columns: u16, rows: u16, gradient: &Vec<Color>)
        requires
            old(self).wf(),
            gradient@.len() >= TRAIL_LENGTH,
        ensures
            final(self).wf(),
            final(screen).staged() == stage_lines(
                old(screen).staged().union_prefer_right(blank_fill(old(self).background, columns, rows)),
                old(self).lines@,
                rows,
                old(self).background,
                gradient@,
            ),
            final(screen).committed() == old(screen).committed(),
            final(screen).last_size() == old(screen).last_size(),
            final(screen).flushed() == old(screen).flushed(),
            final(self).lines@.len() == old(self).lines@.len(),
            forall|i: int| 0 <= i < old(self).lines@.len() ==> #[trigger] final(self).lines@[i]
                == advanced_line(old(self).lines@[i], now),
            final(self).frame_time == if now >= old(self).last_frame { now - old(self).last_frame } else { 0 },
            final(self).last_frame == now,
            final(self).background == old(self).background,
            final(self).last_display == old(self).last_display,
            final(self).last_spawn == old(self).last_spawn,
            final(self).shown_frame_time == old(self).shown_frame_time,
            final(self).fps == old(self).fps,
            final(self).writes == old(self).writes,
    {
        self.frame_time = now.saturating_sub(self.last_frame);
        self.last_frame = now;
        screen.clear(self.background, columns, rows);
        let ghost base = screen.staged();
        let ghost start = self.lines@;
        let n = self.lines.len();
        let mut i: usize = 0;
        assert(start.take(0) =~= Seq::<Line>::empty());
        while i < n
            invariant
                n == start.len(),
                i <= n,
                gradient@.len() >= TRAIL_LENGTH,
                self.lines@.len() == n,
                forall|j: int| 0 <= j < n ==> (#[trigger] start[j]).length == TRAIL_LENGTH && start[j].speed > 0,
                forall|j: int| 0 <= j < i ==> #[trigger] self.lines@[j] == advanced_line(start[j], now),
                forall|j: int| i <= j < n ==> #[trigger] self.lines@[j] == start[j],
                screen.staged() == stage_lines(base, start.take(i as int), rows, self.background, gradient@),
                screen.committed() == old(screen).committed(),
                screen.last_size() == old(screen).last_size(),
                screen.flushed() == old(screen).flushed(),
                self.background == old(self).background,
                self.frame_time == if now >= old(self).last_frame { now - old(self).last_frame } else { 0 },
                self.last_frame == now,
                self.last_display == old(self).last_display,
                self.last_spawn == old(self).last_spawn,
                self.shown_frame_time == old(self).shown_frame_time,
                self.fps == old(self).fps,
                self.writes == old(self).writes,
            decreases n - i,
        {
            assert(self.lines@[i as int] == start[i as int]);
            self.lines[i].draw(screen, rows, self.background, gradient);
            assert(start.take(i + 1).drop_last() =~= start.take(i as int));
            assert(start.take(i + 1).last() == start[i as int]);
            self.lines[i].advance_to(now);
            i = i + 1;
        }
        assert(start.take(n as int) =~= start);
    }
    /// Whether a spawn is due at `now`.
    pub open spec fn spawn_due(&self, now: u64) -> bool {
        now >= self.last_spawn && now - self.last_spawn >= SPAWN_INTERVAL
    }

    /// Drops every line whose tail has passed below the `rows` rows, keeping
    /// the others in order.
    pub fn cull(&mut self, rows: u16)
        requires
            old(self).wf(),
        ensures
            final(self).wf(),
            final(self).lines@ == old(self).lines@.filter(|l: Line| !is_gone(&l, rows)),
            final(self).background == old(self).background,
            final(self).last_frame == old(self).last_frame,
            final(self).last_display == old(self).last_display,
            final(self).last_spawn == old(self).last_spawn,
            final(self).frame_time == old(self).frame_time,
            final(self).shown_frame_time == old(self).shown_frame_time,
            final(self).fps == old(self).fps,
            final(self).writes == old(self).writes,
    {
        let ghost keep = |l: Line| !is_gone(&l, rows);
        let mut source: Vec<Line> = Vec::new();
        std::mem::swap(&mut source, &mut self.lines);
        let ghost src = source@;
        let mut reversed: Vec<Line> = Vec::new();
        while source.len() > 0
            invariant
                reversed@.len() + source@.len() == src.len(),
                source@ == src.take(source@.len() as int),
                forall|j: int| 0 <= j < reversed@.len() ==> #[trigger] reversed@[j] == src[src.len() - 1 - j],
            decreases source@.len(),
        {
            match source.pop() {
                Some(l) => {
                    assert(source@ =~= src.take(source@.len() as int));
                    reversed.push(l);
                },
                None => {},
            }
        }
        assert(src.take(0) =~= Seq::<Line>::empty());
        reveal(Seq::filter);
        while reversed.len() > 0
            invariant
                reversed@.len() <= src.len(),
                keep == (|l: Line| !is_gone(&l, rows)),
                forall|j: int| 0 <= j < reversed@.len() ==> #[trigger] reversed@[j] == src[src.len() - 1 - j],
                forall|j: int| 0 <= j < src.len() ==> (#[trigger] src[j]).length == TRAIL_LENGTH && src[j].speed > 0,
                self.lines@ == src.take(src.len() - reversed@.len()).filter(keep),
                forall|j: int| 0 <= j < self.lines@.len() ==> (#[trigger] self.lines@[j]).length == TRAIL_LENGTH && self.lines@[j].speed > 0,
                self.background == old(self).background,
                self.last_frame == old(self).last_frame,
                self.last_display == old(self).last_display,
                self.last_spawn == old(self).last_spawn,
                self.frame_time == old(self).frame_time,
                self.shown_frame_time == old(self).shown_frame_time,
                self.fps == old(self).fps,
                self.writes == old(self).writes,
            decreases reversed@.len(),
        {
            let ghost k: int = src.len() - reversed@.len();
            match reversed.pop() {
                Some(l) => {
                    assert(l == src[k]);
                    assert(src.take(k + 1).drop_last() =~= src.take(k));
                    assert(src.take(k + 1).last() == src[k]);
                    let ghost prev = src.take(k).filter(keep);
                    proof {
                        reveal(Seq::filter);
                        assert(keep(src[k]) == !is_gone(&src[k], rows));
                        assert(src.take(k + 1).filter(keep) == if keep(src[k]) {
                            prev.push(src[k])
                        } else {
                            prev
                        });
                    }
                    if !l.gone(rows) {
                        self.lines.push(l);
                    }
                },
                None => {},
            }
        }
        assert(src.take(src.len() as int) =~= src);
    }

    /// Adds a line spawned at column `column` with speed `speed` for a
    /// terminal of `rows` rows, drops the lines that have fallen out of sight,
    /// and records `now` as the time of the last spawn.
    pub fn spawn(&mut self, column: u16, speed: u32, rows: u16, now: u64)
        requires
            old(self).wf(),
            speed > 0,
        ensures
            final(self).wf(),
            final(self).lines@.len() > 0,
            final(self).lines@ == old(self).lines@.push(final(self).lines@.last()).filter(
                |l: Line| !is_gone(&l, rows),
            ),
            final(self).lines@.drop_last() == old(self).lines@.filter(|l: Line| !is_gone(&l, rows)),
            final(self).lines@.last().x == column,
            final(self).lines@.last().speed == speed,
            final(self).lines@.last().y == 0,
            final(self).lines@.last().length == TRAIL_LENGTH,
            final(self).lines@.last().last_update == now,
            final(self).lines@.last().items@.len() == rows,
            forall|r: int| 0 <= r < rows ==> #[trigger] final(self).lines@.last().items@[r]
                == alphanumeric_from_seed((r * column) as u64),
            final(self).last_spawn == now,
            final(self).background == old(self).background,
            final(self).last_frame == old(self).last_frame,
            final(self).last_display == old(self).last_display,
            final(self).frame_time == old(self).frame_time,
            final(self).shown_frame_time == old(self).shown_frame_time,
            final(self).fps == old(self).fps,
            final(self).writes == old(self).writes,
    {
        let line = Line::spawn(column, speed, rows, now);
        self.cull(rows);
        let ghost kept = self.lines@;
        self.lines.push(line);
        self.last_spawn = now;
        proof {
            let s = old(self).lines@.push(line);
            reveal(Seq::filter);
            assert(s.drop_last() =~= old(self).lines@);
            assert(self.lines@.drop_last() =~= kept);
        }
    }

    /// Refreshes the displayed statistics from the last frame's duration when
    /// `DISPLAY_INTERVAL` has passed since the last refresh. A zero duration
    /// leaves the displayed frame rate as it was.
    pub fn refresh_display(&mut self, now: u64)
        ensures
            now >= old(self).last_display && now - old(self).last_display >= DISPLAY_INTERVAL ==> {
                &&& final(self).shown_frame_time == old(self).frame_time
                &&& final(self).fps == if old(self).frame_time > 0 {
                    1_000_000u64 / old(self).frame_time
                } else {
                    old(self).fps
                }
                &&& final(self).last_display == now
            },
            !(now >= old(self).last_display && now - old(self).last_display >= DISPLAY_INTERVAL) ==> {
                &&& final(self).shown_frame_time == old(self).shown_frame_time
                &&& final(self).fps == old(self).fps
                &&& final(self).last_display == old(self).last_display
            },
            final(self).lines == old(self).lines,
            final(self).background == old(self).background,
            final(self).last_frame == old(self).last_frame,
            final(self).last_spawn == old(self).last_spawn,
            final(self).frame_time == old(self).frame_time,
            final(self).writes == old(self).writes,
    {
        if now >= self.last_display && now - self.last_display >= DISPLAY_INTERVAL {
            self.shown_frame_time = self.frame_time;
            if self.frame_time > 0 {
                self.fps = 1_000_000 / self.frame_time;
            }
            self.last_display = now;
        }
    }

    /// Ends the frame at `now` on a terminal of `columns` × `rows`: refreshes
    /// the displayed statistics, spawns a line at a random column with a
    /// random speed when a spawn is due and the terminal has columns, then
    /// flushes the screen and returns its writes, whose count it records.
    pub fn end_frame(&mut self, screen: &mut Screen, now: u64, columns: u16, rows: u16) -> (ops: Vec<DrawOp>)
        requires
            old(self).wf(),
        ensures
            final(self).wf(),
            ops@ == old(screen).flush_result(columns, rows),
            final(screen).committed() == old(screen).staged(),
            final(screen).staged() == Map::<(u16, u16), Cell>::empty(),
            final(screen).last_size() == (columns, rows),
            final(screen).flushed(),
            final(self).writes == if ops@.len() <= u32::MAX { ops@.len() as int } else { u32::MAX as int },
            columns > 0 && old(self).spawn_due(now) ==> {
                &&& final(self).lines@.len() > 0
                &&& final(self).lines@.drop_last() == old(self).lines@.filter(|l: Line| !is_gone(&l, rows))
                &&& final(self).lines@.last().x < columns
                &&& MIN_SPEED <= final(self).lines@.last().speed < MAX_SPEED
                &&& final(self).lines@.last().y == 0
                &&& final(self).lines@.last().last_update == now
                &&& final(self).lines@.last().items@.len() == rows
                &&& forall|r: int| 0 <= r < rows ==> #[trigger] final(self).lines@.last().items@[r]
                    == alphanumeric_from_seed((r * final(self).lines@.last().x) as u64)
                &&& final(self).last_spawn == now
            },
            !(columns > 0 && old(self).spawn_due(now)) ==> {
                &&& final(self).lines == old(self).lines
                &&& final(self).last_spawn == old(self).last_spawn
            },
            now >= old(self).last_display && now - old(self).last_display >= DISPLAY_INTERVAL ==> {
                &&& final(self).shown_frame_time == old(self).frame_time
                &&& final(self).fps == if old(self).frame_time > 0 {
                    1_000_000u64 / old(self).frame_time
                } else {
                    old(self).fps
                }
                &&& final(self).last_display == now
            },
            !(now >= old(self).last_display && now - old(self).last_display >= DISPLAY_INTERVAL) ==> {
                &&& final(self).shown_frame_time == old(self).shown_frame_time
                &&& final(self).fps == old(self).fps
                &&& final(self).last_display == old(self).last_display
            },
            final(self).background == old(self).background,
            final(self).last_frame == old(self).last_frame,
            final(self).frame_time == old(self).frame_time,
    {
        self.refresh_display(now);
        if columns > 0 && now >= self.last_spawn && now - self.last_spawn >= SPAWN_INTERVAL {
            let column = random_in_range(0, columns as u32) as u16;
            let speed = random_in_range(MIN_SPEED, MAX_SPEED);
            self.spawn(column, speed, rows, now);
        }
        let ops = screen.flush(columns, rows);
        self.writes = if ops.len() <= u32::MAX as usize {
            ops.len() as u32
        } else {
            u32::MAX
        };
        ops
    }
}

/// A line with the standard trail of twenty is kept by culling on a terminal
/// of `rows` rows exactly while its position is at most twenty rows below the
/// last row.
pub proof fn cull_keeps_standard_line_while_within_twenty_rows(lines: Seq<Line>, rows: u16, i: int)
    requires
        0 <= i < lines.len(),
        lines[i].length == TRAIL_LENGTH,
    ensures
        lines.filter(|l: Line| !is_gone(&l, rows)).contains(lines[i]) <==> lines[i].y <= (rows + 20)
            * ROW,
{
    let keep = |l: Line| !is_gone(&l, rows);
    if lines[i].y <= (rows + 20) * ROW {
        lines.lemma_filter_contains(keep, i);
    } else if lines.filter(keep).contains(lines[i]) {
        let k = choose|k: int| 0 <= k < lines.filter(keep).len() && lines.filter(keep)[k] == lines[i];
        lines.lemma_filter_pred(keep, k);
    }
}

} // verus!
