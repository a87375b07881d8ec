//! The windowing rules of a paginated reader: a window of rows is kept
//! around the selection, and new windows are asked for as the selection
//! nears either edge.

use vstd::prelude::*;

verus! {

/// Rows in a window.
pub const WINDOW_ROWS: usize = 300;

/// How far a window moves when the selection nears an edge.
pub const WINDOW_STEP: usize = 100;

/// Distance from an edge of the window under which a new window is asked for.
pub const EDGE_ROWS: usize = 50;

/// The read that a reader asks the query service for.
#[derive(Clone, Copy, Debug, PartialEq, Eq, Structural)]
pub struct WindowRequest {
    pub offset: usize,
    pub limit: usize,
}

/// The first row of a window of `limit` rows that starts at `offset`, moved
/// back so that the window ends at the last row where it would run past it.
pub open spec fn clamped_offset(offset: int, limit: int, row_count: int) -> int {
    if offset + limit > row_count {
        if row_count > limit {
            row_count - limit
        } else {
            0
        }
    } else {
        offset
    }
}

/// The identities of the rows that a read of `limit` rows from `offset`
/// returns from a store of `row_count` rows numbered from 1.
pub open spec fn window_ids(offset: int, limit: int, row_count: int) -> Seq<int> {
    let n = if offset >= row_count {
        0
    } else if offset + limit > row_count {
        row_count - offset
    } else {
        limit
    };
    Seq::new(n as nat, |i: int| offset + i + 1)
}

/// Moves a requested window back so that it ends at the last row.
pub fn clamp_window_offset(offset: usize, limit: usize, row_count: usize) -> (r: usize)
    ensures
        r as int == clamped_offset(offset as int, limit as int, row_count as int),
{
    if offset > row_count || limit > row_count - offset {
        if row_count > limit {
            row_count - limit
        } else {
            0
        }
    } else {
        offset
    }
}

/// A read of `limit` rows, after its offset has been clamped, returns the
/// rows `offset+1 ..= offset+limit` where that many exist past the offset,
/// and otherwise the last `limit` rows of the store.
pub proof fn lemma_window_read(offset: int, limit: int, row_count: int)
    requires
        0 <= offset,
        0 <= limit <= row_count,
    ensures
        offset + limit <= row_count ==> window_ids(clamped_offset(offset, limit, row_count), limit, row_count)
            == Seq::new(limit as nat, |i: int| offset + i + 1),
        offset + limit > row_count ==> window_ids(clamped_offset(offset, limit, row_count), limit, row_count)
            == Seq::new(limit as nat, |i: int| row_count - limit + i + 1),
{
    if offset + limit > row_count {
        if row_count == limit {
            assert(window_ids(0, limit, row_count) =~= Seq::new(limit as nat, |i: int| row_count - limit + i + 1));
        } else {
            assert(window_ids(row_count - limit, limit, row_count) =~= Seq::new(limit as nat, |i: int| row_count - limit + i + 1));
        }
    } else {
        assert(window_ids(offset, limit, row_count) =~= Seq::new(limit as nat, |i: int| offset + i + 1));
    }
}

/// A reader's view of the store: the window that it holds (or waits for),
/// the selection inside it, and the number of rows in the store.
#[derive(Clone, Copy, Debug, PartialEq, Eq, Structural)]
pub struct ScrollWindow {
    pub offset: usize,
    pub selection: usize,
    pub total_rows: usize,
    pub loading: bool,
}

impl ScrollWindow {
    /// The selected row's position in the store.
    pub open spec fn position(&self) -> int {
        self.offset + self.selection
    }

    /// The last row's position (0 for an empty store).
    pub open spec fn last_position(&self) -> int {
        if self.total_rows == 0 {
            0
        } else {
            self.total_rows - 1
        }
    }

    /// The window starts inside the store and the selection inside the
    /// window; positions past the window's end fit in a `usize`.
    pub open spec fn wf(&self) -> bool {
        &&& self.total_rows + WINDOW_ROWS <= usize::MAX
        &&& self.offset <= self.total_rows
        &&& self.selection < WINDOW_ROWS
    }

    /// The first window, at the top of the store.
    pub fn new(total_rows: usize) -> (r: (ScrollWindow, WindowRequest))
        requires
            total_rows + WINDOW_ROWS <= usize::MAX,
        ensures
            r.0.wf(),
            r.0.offset == 0 && r.0.selection == 0 && r.0.total_rows == total_rows && r.0.loading,
            r.1 == (WindowRequest { offset: 0, limit: WINDOW_ROWS }),
    {
        (
            ScrollWindow { offset: 0, selection: 0, total_rows, loading: true },
            WindowRequest { offset: 0, limit: WINDOW_ROWS },
        )
    }

    /// The rows of a window arrived: the reader may move again.
    pub fn on_rows_received(&mut self)
        ensures
            *final(self) == (ScrollWindow { loading: false, ..*old(self) }),
    {
        self.loading = false;
    }

    /// The position that a move by `delta` rows selects: not above the
    /// first row, not past the last.
    pub open spec fn target_position(&self, delta: int) -> int {
        let p = self.position() + delta;
        if p < 0 {
            0
        } else if p > self.last_position() {
            self.last_position()
        } else {
            p
        }
    }

    /// The window that a move to position `t` asks for, if any:
    /// - past the window's start: a window that starts (up to) `WINDOW_STEP`
    ///   rows above `t`;
    /// - past its end: a window that starts `WINDOW_STEP` rows above `t`;
    /// - within `EDGE_ROWS` of its start, with rows above it: the window
    ///   moved `WINDOW_STEP` rows earlier (less at the top of the store);
    /// - within `EDGE_ROWS` of its end, with rows below it: the window moved
    ///   `WINDOW_STEP` rows later;
    /// - otherwise none.
    pub open spec fn relative_request(&self, t: int) -> Option<WindowRequest> {
        let o = self.offset as int;
        if t < o {
            Some(
                WindowRequest {
                    offset: (if t >= WINDOW_STEP { t - WINDOW_STEP } else { 0 }) as usize,
                    limit: WINDOW_ROWS,
                },
            )
        } else if t >= o + WINDOW_ROWS {
            Some(WindowRequest { offset: (t - WINDOW_STEP) as usize, limit: WINDOW_ROWS })
        } else if t - o < EDGE_ROWS && o > 0 {
            Some(
                WindowRequest {
                    offset: (o - (if o >= WINDOW_STEP { WINDOW_STEP as int } else { o })) as usize,
                    limit: WINDOW_ROWS,
                },
            )
        } else if t - o >= WINDOW_ROWS - EDGE_ROWS && o + WINDOW_ROWS < self.total_rows {
            Some(WindowRequest { offset: (o + WINDOW_STEP) as usize, limit: WINDOW_ROWS })
        } else {
            None
        }
    }

    /// Moves the selection by `delta` rows (not above the first row, not past
    /// the last). Where the selection leaves the window, or comes within
    /// `EDGE_ROWS` of an edge of it with rows past that edge, a new window is
    /// asked for (see `relative_request`) and becomes the reader's window;
    /// the selected row stays the one moved to. Nothing moves while a window
    /// is awaited.
    pub fn move_selection_relative(&mut self, delta: i32) -> (r: Option<WindowRequest>)
        requires
            old(self).wf(),
        ensures
            final(self).wf(),
            final(self).total_rows == old(self).total_rows,
            old(self).loading ==> *final(self) == *old(self) && r is None,
            !old(self).loading ==> final(self).position() == old(self).target_position(delta as int),
            !old(self).loading ==> r == old(self).relative_request(old(self).target_position(delta as int)),
            !old(self).loading ==> match r {
                Some(q) => final(self).offset == q.offset && final(self).loading,
                None => final(self).offset == old(self).offset && !final(self).loading,
            },
    {
        if self.loading {
            return None;
        }
        let pos = self.offset + self.selection;
        let last: usize = if self.total_rows == 0 { 0 } else { self.total_rows - 1 };
        let target: usize = if delta < 0 {
            let back = (-(delta as i64)) as usize;
            if back > pos {
                0
            } else if pos - back > last {
                last
            } else {
                pos - back
            }
        } else {
            let fwd = delta as usize;
            if pos > last || fwd > last - pos {
                last
            } else {
                pos + fwd
            }
        };
        if target < self.offset {
            let new_offset = if target >= WINDOW_STEP { target - WINDOW_STEP } else { 0 };
            self.offset = new_offset;
            self.selection = target - new_offset;
            self.loading = true;
            return Some(WindowRequest { offset: new_offset, limit: WINDOW_ROWS });
        }
        if target - self.offset >= WINDOW_ROWS {
            let new_offset = target - WINDOW_STEP;
            self.offset = new_offset;
            self.selection = WINDOW_STEP;
            self.loading = true;
            return Some(WindowRequest { offset: new_offset, limit: WINDOW_ROWS });
        }
        let sel = target - self.offset;
        if sel < EDGE_ROWS && self.offset > 0 {
            let step = if self.offset >= WINDOW_STEP { WINDOW_STEP } else { self.offset };
            self.offset = self.offset - step;
            self.selection = sel + step;
            self.loading = true;
            return Some(WindowRequest { offset: self.offset, limit: WINDOW_ROWS });
        }
        if sel >= WINDOW_ROWS - EDGE_ROWS && self.offset + WINDOW_ROWS < self.total_rows {
            self.offset = self.offset + WINDOW_STEP;
            self.selection = sel - WINDOW_STEP;
            self.loading = true;
            return Some(WindowRequest { offset: self.offset, limit: WINDOW_ROWS });
        }
        self.selection = sel;
        None
    }

    /// Jumps to `position` and asks for the window there: below the first
    /// `WINDOW_ROWS` rows, the first window with its first row selected;
    /// within the last `WINDOW_ROWS` rows, the final window with its last row
    /// selected; otherwise the window that starts at `position`, with its
    /// middle row selected. Nothing moves while a window is awaited.
    pub fn move_selection_fixed(&mut self, position: usize) -> (r: Option<WindowRequest>)
        requires
            old(self).wf(),
        ensures
            final(self).wf(),
            final(self).total_rows == old(self).total_rows,
            old(self).loading ==> *final(self) == *old(self) && r is None,
            !old(self).loading ==> {
                let last_start = if old(self).total_rows >= WINDOW_ROWS {
                    old(self).total_rows - WINDOW_ROWS
                } else {
                    0
                };
                &&& final(self).loading
                &&& r == Some(WindowRequest { offset: final(self).offset, limit: WINDOW_ROWS })
                &&& if position < WINDOW_ROWS {
                    final(self).offset == 0 && final(self).selection == 0
                } else if position > last_start {
                    final(self).offset == last_start && final(self).selection == WINDOW_ROWS - 1
                } else {
                    final(self).offset == position && final(self).selection == WINDOW_ROWS / 2 - 1
                }
            },
    {
        if self.loading {
            return None;
        }
        let last_start = if self.total_rows >= WINDOW_ROWS { self.total_rows - WINDOW_ROWS } else { 0 };
        if position < WINDOW_ROWS {
            self.offset = 0;
            self.selection = 0;
        } else if position > last_start {
            self.offset = last_start;
            self.selection = WINDOW_ROWS - 1;
        } else {
            self.offset = position;
            self.selection = WINDOW_ROWS / 2 - 1;
        }
        self.loading = true;
        Some(WindowRequest { offset: self.offset, limit: WINDOW_ROWS })
    }
}

} // verus!
