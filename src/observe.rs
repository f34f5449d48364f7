use vstd::prelude::*;

use crate::board::Board;
use crate::cell::{Cell, CellState};
use crate::palette::{decode_pixel, pack_rgb, palette, Rgb, ASSIST_COLOR};

verus! {

/// How a refresh of the board from a captured frame ended.
#[derive(Copy, Clone, Debug, PartialEq, Eq, Structural)]
pub enum Refresh {
    /// Every cell that needed it was updated.
    Done,
    /// Cell `(x, y)` carries the assist marker: it should be opened now.
    Assist { x: u32, y: u32 },
    /// Cell `(x, y)` shows a color outside the palette.
    Unknown { x: u32, y: u32, color: Rgb },
}

/// Cell `c` after the observer reported `state` and `value` for it. An open
/// zero and a flag need nothing more, so they are solved at once.
pub open spec fn observed_cell(c: Cell, state: CellState, value: u8) -> Cell {
    Cell {
        state,
        value,
        solved: c.solved || state == CellState::Flagged || (state == CellState::Open && value == 0),
        ..c
    }
}

/// What the palette makes of the pixel that `frame` holds for cell `i`.
pub open spec fn seen(frame: Seq<Rgb>, i: int) -> (CellState, u8) {
    palette(frame[i].packed())->0
}

impl Board {
    /// Whether a refresh looks at cell `i` again: only closed, unsolved cells
    /// can change.
    pub open spec fn needs_look(&self, i: int) -> bool {
        !self.cells@[i].solved && self.cells@[i].state == CellState::Closed
    }

    /// Whether a refresh stops at cell `i`: its pixel is the assist marker or
    /// is not in the palette.
    pub open spec fn halts_at(&self, frame: Seq<Rgb>, i: int) -> bool {
        &&& 0 <= i < self.cells@.len()
        &&& self.needs_look(i)
        &&& (frame[i].packed() == ASSIST_COLOR || palette(frame[i].packed()) is None)
    }

    pub open spec fn is_first_halt(&self, frame: Seq<Rgb>, i: int) -> bool {
        &&& self.halts_at(frame, i)
        &&& forall|j: int| 0 <= j < i ==> !#[trigger] self.halts_at(frame, j)
    }

    /// Index of the cell where a refresh stops, or the number of cells.
    pub open spec fn refresh_stop(&self, frame: Seq<Rgb>) -> int {
        if exists|i: int| self.is_first_halt(frame, i) {
            choose|i: int| self.is_first_halt(frame, i)
        } else {
            self.cells@.len() as int
        }
    }

    /// How a refresh from `frame` ends.
    pub open spec fn refresh_result(&self, frame: Seq<Rgb>) -> Refresh {
        let s = self.refresh_stop(frame);
        if s >= self.cells@.len() {
            Refresh::Done
        } else if frame[s].packed() == ASSIST_COLOR {
            Refresh::Assist { x: self.cells@[s].x, y: self.cells@[s].y }
        } else {
            Refresh::Unknown { x: self.cells@[s].x, y: self.cells@[s].y, color: frame[s] }
        }
    }

    /// The cells once those before index `s` that need a look have taken what
    /// `frame` shows.
    pub open spec fn refreshed_upto(&self, frame: Seq<Rgb>, s: int) -> Seq<Cell> {
        Seq::new(
            self.cells@.len(),
            |i: int|
                if i < s && self.needs_look(i) {
                    observed_cell(self.cells@[i], seen(frame, i).0, seen(frame, i).1)
                } else {
                    self.cells@[i]
                },
        )
    }

    /// Cells before index `s` on which the observer newly sees a flag.
    pub open spec fn observed_flags(&self, frame: Seq<Rgb>, s: int) -> Set<int> {
        Set::new(
            |i: int|
                0 <= i < s && self.needs_look(i) && palette(frame[i].packed()) == Some(
                    (CellState::Flagged, 0u8),
                ),
        )
    }

    /// Whether the observer shows something else than a closed cell before
    /// index `s`.
    pub open spec fn reveals_upto(&self, frame: Seq<Rgb>, s: int) -> bool {
        exists|i: int|
            0 <= i < s && self.needs_look(i) && palette(#[trigger] frame[i].packed()) is Some
                && seen(frame, i).0 != CellState::Closed
    }

    /// Updates every closed, unsolved cell, in scan order, from the pixel that
    /// `frame` holds for it (a frame lists one pixel per cell, in the order of
    /// the cells). A newly seen flag is recorded like one of ours. The refresh
    /// stops at the first cell with the assist marker or with a color outside
    /// the palette. Also tells whether anything but closed cells was seen.
    pub fn refresh(&mut self, frame: &Vec<Rgb>) -> (r: (Refresh, bool))
        requires
            old(self).wf(),
            frame@.len() == old(self).num_cells(),
        ensures
            final(self).wf(),
            final(self).same_frame(old(self)),
            r.0 == old(self).refresh_result(frame@),
            r.1 == old(self).reveals_upto(frame@, old(self).refresh_stop(frame@)),
            final(self).cells@ == old(self).refreshed_upto(frame@, old(self).refresh_stop(frame@)),
            final(self).flagged@ == old(self).flagged@.union(
                old(self).observed_flags(frame@, old(self).refresh_stop(frame@)),
            ),
    {
        let ghost b0 = *self;
        let mut revealed = false;
        let mut i: usize = 0;
        let n = self.cells.len();
        assert(self.refreshed_upto(frame@, 0) =~= self.cells@);
        assert(self.flagged@.union(self.observed_flags(frame@, 0)) =~= self.flagged@);
        while i < n
            invariant
                b0 == *old(self),
                b0.wf(),
                frame@.len() == b0.num_cells(),
                n == b0.cells@.len(),
                i <= n,
                self.wf(),
                self.same_frame(&b0),
                self.cells@ == b0.refreshed_upto(frame@, i as int),
                self.flagged@ == b0.flagged@.union(b0.observed_flags(frame@, i as int)),
                revealed == b0.reveals_upto(frame@, i as int),
                forall|j: int| 0 <= j < i ==> !#[trigger] b0.halts_at(frame@, j),
            decreases n - i,
        {
            let c = self.cells[i];
            assert(c == b0.cells@[i as int]);
            proof {
                b0.lemma_cell_at_index(i as int);
            }
            if !c.solved && c.state == CellState::Closed {
                let p = frame[i];
                if pack_rgb(p) == ASSIST_COLOR {
                    proof {
                        b0.lemma_first_halt(frame@, i as int);
                    }
                    return (Refresh::Assist { x: c.x, y: c.y }, revealed);
                }
                match decode_pixel(p) {
                    None => {
                        proof {
                            b0.lemma_first_halt(frame@, i as int);
                        }
                        return (Refresh::Unknown { x: c.x, y: c.y, color: p }, revealed);
                    },
                    Some((state, value)) => {
                        if state != CellState::Closed {
                            revealed = true;
                        }
                        let solved = state == CellState::Flagged || (state == CellState::Open
                            && value == 0);
                        let updated = Cell { x: c.x, y: c.y, state, value, solved };
                        self.put_cell(c.x, c.y, updated);
                        if state == CellState::Flagged {
                            self.record_flag(i);
                        }
                        assert(!b0.halts_at(frame@, i as int));
                    },
                }
            } else {
                assert(!b0.halts_at(frame@, i as int));
            }
            i = i + 1;
            assert(self.cells@ =~= b0.refreshed_upto(frame@, i as int));
            assert(self.flagged@ =~= b0.flagged@.union(b0.observed_flags(frame@, i as int)));
            assert(revealed == b0.reveals_upto(frame@, i as int)) by {
                if b0.reveals_upto(frame@, i as int) && !b0.reveals_upto(frame@, i - 1) {
                    let j = choose|j: int|
                        0 <= j < i && b0.needs_look(j) && palette(#[trigger] frame@[j].packed())
                            is Some && seen(frame@, j).0 != CellState::Closed;
                    assert(j == i - 1);
                }
            }
        }
        proof {
            b0.lemma_no_halt(frame@);
        }
        (Refresh::Done, revealed)
    }

    /// Index `i` holds the cell at its own coordinates.
    pub proof fn lemma_cell_at_index(&self, i: int)
        requires
            self.wf(),
            0 <= i < self.cells@.len(),
        ensures
            self.in_grid(self.cells@[i].x as int, self.cells@[i].y as int),
            self.index_of(self.cells@[i].x as int, self.cells@[i].y as int) == i,
    {
        crate::board::lemma_index_cell(self.width(), self.height(), i);
    }

    proof fn lemma_first_halt(&self, frame: Seq<Rgb>, i: int)
        requires
            self.halts_at(frame, i),
            forall|j: int| 0 <= j < i ==> !#[trigger] self.halts_at(frame, j),
        ensures
            self.refresh_stop(frame) == i,
    {
        assert(self.is_first_halt(frame, i));
        let k = choose|k: int| self.is_first_halt(frame, k);
        assert(k == i) by {
            if k < i {
                assert(!self.halts_at(frame, k));
            } else if i < k {
                assert(!self.halts_at(frame, i));
            }
        }
    }

    proof fn lemma_no_halt(&self, frame: Seq<Rgb>)
        requires
            forall|j: int| 0 <= j < self.cells@.len() ==> !#[trigger] self.halts_at(frame, j),
        ensures
            self.refresh_stop(frame) == self.cells@.len(),
    {
        assert forall|i: int| !self.is_first_halt(frame, i) by {
            if 0 <= i < self.cells@.len() {
                assert(!self.halts_at(frame, i));
            }
        }
    }
}

} // verus!
