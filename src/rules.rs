use vstd::prelude::*;

use crate::board::{adjacent, lemma_cell_index, lemma_neighbors_upto, neighbors_upto, Action, ActionKind, Board};
use crate::cell::{Cell, CellState};

verus! {

/// Number of cells of `cells` in state `st`.
pub open spec fn count_state(cells: Seq<Cell>, st: CellState) -> nat
    decreases cells.len(),
{
    if cells.len() == 0 {
        0
    } else {
        count_state(cells.drop_last(), st) + (if cells.last().state == st {
            1nat
        } else {
            0nat
        })
    }
}

/// `cells[i]` is the first closed cell of `cells`.
pub open spec fn is_first_closed(cells: Seq<Cell>, i: int) -> bool {
    &&& 0 <= i < cells.len()
    &&& cells[i].state == CellState::Closed
    &&& forall|j: int| 0 <= j < i ==> #[trigger] cells[j].state != CellState::Closed
}

/// The first closed cell of `cells`.
pub open spec fn first_closed(cells: Seq<Cell>) -> Cell {
    cells[choose|i: int| is_first_closed(cells, i)]
}

/// What local deduction concludes from one numbered cell.
#[derive(Copy, Clone, Debug, PartialEq, Eq, Structural)]
pub enum Verdict {
    /// Nothing can be concluded from this cell now.
    Nothing,
    /// All its mines are flagged and no neighbor is closed: the cell is solved.
    Complete,
    /// All its mines are flagged: its first closed neighbor is safe to open.
    OpenNeighbor,
    /// Every closed neighbor must be a mine: flag the first of them.
    FlagNeighbor,
}

impl Board {
    /// Number of flagged cells around `(x, y)`.
    pub open spec fn flagged_around(&self, x: int, y: int) -> nat {
        count_state(self.neighbors(x, y), CellState::Flagged)
    }

    /// Number of closed cells around `(x, y)`.
    pub open spec fn closed_around(&self, x: int, y: int) -> nat {
        count_state(self.neighbors(x, y), CellState::Closed)
    }

    /// The deduction rules on cell `(x, y)`. Only an unsolved open cell with a
    /// value above zero takes part. If its value equals the number of flags
    /// around it, its closed neighbors are safe (or, with none left, the cell
    /// is solved); else if it equals flags plus closed neighbors, those are
    /// all mines.
    pub open spec fn verdict(&self, x: int, y: int) -> Verdict {
        let c = self.cell(x, y);
        let f = self.flagged_around(x, y);
        let k = self.closed_around(x, y);
        if !self.in_grid(x, y) || c.solved || c.state != CellState::Open || c.value == 0 {
            Verdict::Nothing
        } else if c.value == f {
            if k > 0 {
                Verdict::OpenNeighbor
            } else {
                Verdict::Complete
            }
        } else if c.value == f + k && k > 0 {
            Verdict::FlagNeighbor
        } else {
            Verdict::Nothing
        }
    }

    /// Whether a rule acts on a neighbor of `(x, y)`.
    pub open spec fn fires(&self, x: int, y: int) -> bool {
        self.verdict(x, y) == Verdict::OpenNeighbor || self.verdict(x, y) == Verdict::FlagNeighbor
    }

    /// The neighbor that a rule on `(x, y)` acts on: the first closed one.
    pub open spec fn target(&self, x: int, y: int) -> Cell {
        first_closed(self.neighbors(x, y))
    }

    /// Applies the deduction rules to cell `(x, y)`; for a rule that acts, the
    /// neighbor to act on comes with the verdict.
    pub fn assess(&self, x: u32, y: u32) -> (r: (Verdict, Option<Cell>))
        requires
            self.wf(),
        ensures
            r.0 == self.verdict(x as int, y as int),
            r.1 == (if self.fires(x as int, y as int) {
                Some(self.target(x as int, y as int))
            } else {
                None
            }),
    {
        let data = self.get_cell_data(x, y);
        let solved = self.get_cell_solved(x, y);
        let (state, value) = match data {
            Some(d) => d,
            None => {
                return (Verdict::Nothing, None);
            },
        };
        if solved == Some(true) || state != CellState::Open || value == 0 {
            return (Verdict::Nothing, None);
        }
        let ns = self.get_surrounding_cells(x, y);
        let mut closed: usize = 0;
        let mut flagged: usize = 0;
        let mut first: Option<Cell> = None;
        let mut i: usize = 0;
        while i < ns.len()
            invariant
                i <= ns@.len(),
                closed + flagged <= i,
                closed == count_state(ns@.take(i as int), CellState::Closed),
                flagged == count_state(ns@.take(i as int), CellState::Flagged),
                first is None ==> forall|j: int| 0 <= j < i ==> #[trigger] ns@[j].state != CellState::Closed,
                first is None ==> closed == 0,
                first is Some ==> exists|f: int| #[trigger] is_first_closed(ns@, f) && f < i && first->0 == ns@[f],
            decreases ns@.len() - i,
        {
            let c = ns[i];
            assert(ns@.take(i + 1).drop_last() =~= ns@.take(i as int));
            if c.state == CellState::Closed {
                if first.is_none() {
                    first = Some(c);
                    assert(is_first_closed(ns@, i as int));
                }
                closed = closed + 1;
            } else if c.state == CellState::Flagged {
                flagged = flagged + 1;
            }
            i = i + 1;
        }
        assert(ns@.take(ns@.len() as int) =~= ns@);
        proof {
            if first is Some {
                let f = choose|f: int| is_first_closed(ns@, f) && f < i && first->0 == ns@[f];
                let g = choose|g: int| is_first_closed(ns@, g);
                assert(f == g) by {
                    if f < g {
                        assert(ns@[f].state != CellState::Closed);
                    } else if g < f {
                        assert(ns@[g].state != CellState::Closed);
                    }
                }
            }
        }
        if value as usize == flagged {
            if closed > 0 {
                return (Verdict::OpenNeighbor, first);
            }
            return (Verdict::Complete, None);
        }
        if value as usize == flagged + closed && closed > 0 {
            return (Verdict::FlagNeighbor, first);
        }
        (Verdict::Nothing, None)
    }
}

/// Two boards whose cells agree in all but their solved marks.
pub open spec fn same_but_solved(a: &Board, b: &Board) -> bool {
    &&& a.grid_size == b.grid_size
    &&& a.cells@.len() == b.cells@.len()
    &&& forall|i: int|
        0 <= i < a.cells@.len() ==> {
            &&& #[trigger] a.cells@[i].state == b.cells@[i].state
            &&& a.cells@[i].x == b.cells@[i].x
            &&& a.cells@[i].y == b.cells@[i].y
            &&& a.cells@[i].value == b.cells@[i].value
        }
}

proof fn lemma_count_same_states(s1: Seq<Cell>, s2: Seq<Cell>, st: CellState)
    requires
        s1.len() == s2.len(),
        forall|i: int| 0 <= i < s1.len() ==> #[trigger] s1[i].state == s2[i].state,
    ensures
        count_state(s1, st) == count_state(s2, st),
    decreases s1.len(),
{
    if s1.len() > 0 {
        lemma_count_same_states(s1.drop_last(), s2.drop_last(), st);
    }
}

proof fn lemma_count_zero(s: Seq<Cell>, st: CellState)
    requires
        count_state(s, st) == 0,
    ensures
        forall|i: int| 0 <= i < s.len() ==> #[trigger] s[i].state != st,
    decreases s.len(),
{
    if s.len() > 0 {
        lemma_count_zero(s.drop_last(), st);
        assert forall|i: int| 0 <= i < s.len() implies #[trigger] s[i].state != st by {
            if i < s.len() - 1 {
                assert(s.drop_last()[i] == s[i]);
            }
        }
    }
}

/// A sequence with a closed cell has a first one.
proof fn lemma_first_closed_exists(s: Seq<Cell>)
    requires
        count_state(s, CellState::Closed) > 0,
    ensures
        exists|i: int| is_first_closed(s, i),
    decreases s.len(),
{
    let t = s.drop_last();
    if count_state(t, CellState::Closed) > 0 {
        lemma_first_closed_exists(t);
        let i = choose|i: int| is_first_closed(t, i);
        assert(is_first_closed(s, i)) by {
            assert forall|j: int| 0 <= j < i implies #[trigger] s[j].state != CellState::Closed by {
                assert(t[j] == s[j]);
            }
        }
    } else {
        lemma_count_zero(t, CellState::Closed);
        assert forall|j: int| 0 <= j < s.len() - 1 implies #[trigger] s[j].state != CellState::Closed by {
            assert(t[j] == s[j]);
        }
        assert(is_first_closed(s, s.len() - 1));
    }
}

/// The first closed cell is unique.
proof fn lemma_first_closed_unique(s: Seq<Cell>, i: int, j: int)
    requires
        is_first_closed(s, i),
        is_first_closed(s, j),
    ensures
        i == j,
{
    if i < j {
        assert(s[i].state != CellState::Closed);
    } else if j < i {
        assert(s[j].state != CellState::Closed);
    }
}

impl Board {
    /// The cells around `(x, y)` sit at the listed positions, all in the grid.
    pub proof fn lemma_neighbor_cells(&self, x: int, y: int)
        requires
            self.wf(),
        ensures
            forall|i: int|
                #![trigger self.neighbors(x, y)[i]]
                0 <= i < self.neighbors(x, y).len() ==> {
                    let p = self.neighbor_positions(x, y)[i];
                    &&& self.in_grid(p.0, p.1)
                    &&& 0 <= self.index_of(p.0, p.1) < self.cells@.len()
                    &&& self.neighbors(x, y)[i] == self.cells@[self.index_of(p.0, p.1)]
                    &&& self.neighbors(x, y)[i].x == p.0
                    &&& self.neighbors(x, y)[i].y == p.1
                },
    {
        lemma_neighbors_upto(self.width(), self.height(), x, y, 8);
        assert forall|i: int|
            #![trigger self.neighbors(x, y)[i]]
            0 <= i < self.neighbors(x, y).len() implies {
                let p = self.neighbor_positions(x, y)[i];
                &&& self.in_grid(p.0, p.1)
                &&& 0 <= self.index_of(p.0, p.1) < self.cells@.len()
                &&& self.neighbors(x, y)[i] == self.cells@[self.index_of(p.0, p.1)]
                &&& self.neighbors(x, y)[i].x == p.0
                &&& self.neighbors(x, y)[i].y == p.1
            } by {
            let p = self.neighbor_positions(x, y)[i];
            assert(neighbors_upto(self.width(), self.height(), x, y, 8)[i] == p);
            self.lemma_cell_coords(p.0, p.1);
        }
    }
}

/// Boards that differ only in solved marks agree on each cell's verdict and
/// on the position of the neighbor it acts on.
pub proof fn lemma_same_verdict(a: &Board, b: &Board, x: int, y: int)
    requires
        a.wf(),
        b.wf(),
        same_but_solved(a, b),
        a.in_grid(x, y) ==> a.cell(x, y) == b.cell(x, y),
    ensures
        a.verdict(x, y) == b.verdict(x, y),
        a.fires(x, y) ==> a.target(x, y).x == b.target(x, y).x && a.target(x, y).y == b.target(x, y).y,
        a.fires(x, y) ==> a.target(x, y).state == CellState::Closed,
        a.fires(x, y) ==> a.in_grid(a.target(x, y).x as int, a.target(x, y).y as int),
        a.fires(x, y) ==> a.cell(a.target(x, y).x as int, a.target(x, y).y as int) == a.target(x, y),
{
    let na = a.neighbors(x, y);
    let nb = b.neighbors(x, y);
    a.lemma_neighbor_cells(x, y);
    b.lemma_neighbor_cells(x, y);
    assert forall|i: int| 0 <= i < na.len() implies #[trigger] na[i].state == nb[i].state && na[i].x
        == nb[i].x && na[i].y == nb[i].y by {
        let p = a.neighbor_positions(x, y)[i];
        assert(nb[i] == b.cells@[b.index_of(p.0, p.1)]);
    }
    lemma_count_same_states(na, nb, CellState::Closed);
    lemma_count_same_states(na, nb, CellState::Flagged);
    if a.fires(x, y) {
        lemma_first_closed_exists(na);
        let f = choose|i: int| is_first_closed(na, i);
        assert(is_first_closed(nb, f)) by {
            assert forall|j: int| 0 <= j < f implies #[trigger] nb[j].state != CellState::Closed by {
                assert(na[j].state != CellState::Closed);
            }
        }
        let g = choose|i: int| is_first_closed(nb, i);
        lemma_first_closed_unique(nb, f, g);
        let p = a.neighbor_positions(x, y)[f];
        assert(na[f] == a.target(x, y));
    }
}

impl Board {
    /// Whether a rule acts from the cell at index `i`.
    pub open spec fn fires_at(&self, i: int) -> bool {
        self.fires(self.cells@[i].x as int, self.cells@[i].y as int)
    }

    /// Whether the cell at index `i` is complete: all its mines flagged and
    /// nothing closed around it.
    pub open spec fn completes_at(&self, i: int) -> bool {
        self.verdict(self.cells@[i].x as int, self.cells@[i].y as int) == Verdict::Complete
    }

    pub open spec fn is_first_fire(&self, i: int) -> bool {
        &&& 0 <= i < self.cells@.len()
        &&& self.fires_at(i)
        &&& forall|j: int| 0 <= j < i ==> !#[trigger] self.fires_at(j)
    }

    /// Index of the first cell, in scan order, from which a rule acts; the
    /// number of cells if there is none.
    pub open spec fn first_fire(&self) -> int {
        if exists|i: int| self.is_first_fire(i) {
            choose|i: int| self.is_first_fire(i)
        } else {
            self.cells@.len() as int
        }
    }

    /// The cells once the complete ones before index `s` are marked solved.
    pub open spec fn completed_upto(&self, s: int) -> Seq<Cell> {
        Seq::new(
            self.cells@.len(),
            |i: int|
                if i < s && self.completes_at(i) {
                    Cell { solved: true, ..self.cells@[i] }
                } else {
                    self.cells@[i]
                },
        )
    }

    /// The action that a scan of the whole board takes, with the cell it is
    /// deduced from: the rule of the first cell that acts, on that cell's first
    /// closed neighbor. `None` when no rule acts anywhere.
    pub open spec fn deduction(&self) -> Option<(Action, u32, u32)> {
        let s = self.first_fire();
        if s < self.cells@.len() {
            let c = self.cells@[s];
            let t = self.target(c.x as int, c.y as int);
            let kind = if self.verdict(c.x as int, c.y as int) == Verdict::OpenNeighbor {
                ActionKind::Open
            } else {
                ActionKind::Flag
            };
            Some((self.action_on(kind, t.x as int, t.y as int), c.x, c.y))
        } else {
            None
        }
    }

    /// Whether the scan flags a cell.
    pub open spec fn deduces_flag(&self) -> bool {
        let s = self.first_fire();
        s < self.cells@.len() && self.verdict(self.cells@[s].x as int, self.cells@[s].y as int)
            == Verdict::FlagNeighbor
    }

    /// The cell that the scan acts on.
    pub open spec fn deduced_target(&self) -> Cell {
        let c = self.cells@[self.first_fire()];
        self.target(c.x as int, c.y as int)
    }

    /// The cells after a scan: complete cells before the acting one marked
    /// solved and, if it flags, its target flagged.
    pub open spec fn deduced_cells(&self) -> Seq<Cell> {
        let m = self.completed_upto(self.first_fire());
        let t = self.deduced_target();
        if self.deduces_flag() {
            m.update(self.index_of(t.x as int, t.y as int), self.flagged_cell(t.x as int, t.y as int))
        } else {
            m
        }
    }

    /// The cells counted as flagged after a scan.
    pub open spec fn deduced_flags(&self) -> Set<int> {
        let t = self.deduced_target();
        if self.deduces_flag() {
            self.flagged@.insert(self.index_of(t.x as int, t.y as int))
        } else {
            self.flagged@
        }
    }

    proof fn lemma_first_fire(&self, i: int)
        requires
            0 <= i < self.cells@.len(),
            self.fires_at(i),
            forall|j: int| 0 <= j < i ==> !#[trigger] self.fires_at(j),
        ensures
            self.first_fire() == i,
    {
        assert(self.is_first_fire(i));
        let k = choose|k: int| self.is_first_fire(k);
        assert(k == i) by {
            if k < i {
                assert(!self.fires_at(k));
            } else if i < k {
                assert(!self.fires_at(i));
            }
        }
    }

    proof fn lemma_no_fire(&self)
        requires
            forall|j: int| 0 <= j < self.cells@.len() ==> !#[trigger] self.fires_at(j),
        ensures
            self.first_fire() == self.cells@.len(),
    {
        assert forall|i: int| !self.is_first_fire(i) by {
            if 0 <= i < self.cells@.len() {
                assert(!self.fires_at(i));
            }
        }
    }

    /// One scan of the whole board in order, column after column: complete
    /// cells are marked solved on the way, and the first cell from which a rule
    /// acts ends the scan with that rule's action, which is returned with the
    /// cell it comes from. A flag is placed on the board at once; an open is
    /// only returned.
    pub fn deduce(&mut self) -> (r: Option<(Action, u32, u32)>)
        requires
            old(self).wf(),
        ensures
            final(self).wf(),
            final(self).same_frame(old(self)),
            r == old(self).deduction(),
            final(self).cells@ == old(self).deduced_cells(),
            final(self).flagged@ == old(self).deduced_flags(),
    {
        let ghost b0 = *self;
        let n = self.cells.len();
        let mut i: usize = 0;
        assert(self.cells@ =~= b0.completed_upto(0));
        while i < n
            invariant
                b0 == *old(self),
                b0.wf(),
                self.wf(),
                self.same_except_cells(&b0),
                n == b0.cells@.len(),
                i <= n,
                self.cells@ == b0.completed_upto(i as int),
                forall|j: int| 0 <= j < i ==> !#[trigger] b0.fires_at(j),
            decreases n - i,
        {
            let c = self.cells[i];
            proof {
                b0.lemma_cell_at_index(i as int);
                assert(same_but_solved(self, &b0));
                lemma_same_verdict(self, &b0, c.x as int, c.y as int);
            }
            let (v, t) = self.assess(c.x, c.y);
            match v {
                Verdict::Complete => {
                    self.set_cell_solved(c.x, c.y, true);
                },
                Verdict::OpenNeighbor => {
                    proof {
                        b0.lemma_first_fire(i as int);
                    }
                    let t = t.unwrap();
                    let a = self.open_cell(t.x, t.y).unwrap();
                    assert(self.cells@ =~= b0.deduced_cells());
                    return Some((a, c.x, c.y));
                },
                Verdict::FlagNeighbor => {
                    proof {
                        b0.lemma_first_fire(i as int);
                        lemma_same_verdict(&b0, &b0, c.x as int, c.y as int);
                    }
                    let t = t.unwrap();
                    proof {
                        let tb = b0.target(c.x as int, c.y as int);
                        let ti = b0.index_of(tb.x as int, tb.y as int);
                        b0.lemma_cell_coords(tb.x as int, tb.y as int);
                        assert(b0.cells@[ti] == tb);
                        assert(!b0.completes_at(ti));
                        assert(self.cells@[ti] == b0.cells@[ti]);
                    }
                    let a = self.flag_cell(t.x, t.y).unwrap();
                    assert(self.cells@ =~= b0.deduced_cells());
                    return Some((a, c.x, c.y));
                },
                Verdict::Nothing => {},
            }
            i = i + 1;
            assert(self.cells@ =~= b0.completed_upto(i as int));
        }
        proof {
            b0.lemma_no_fire();
        }
        assert(self.cells@ =~= b0.deduced_cells());
        None
    }
}

/// The rules act only where their equality holds: a neighbor is opened only
/// when the flags around the cell number its value, and flagged only when the
/// flags and the closed cells around it together number its value.
pub proof fn lemma_rules_need_equality(b: &Board, x: int, y: int)
    ensures
        b.verdict(x, y) == Verdict::OpenNeighbor ==> b.cell(x, y).value == b.flagged_around(x, y),
        b.verdict(x, y) == Verdict::FlagNeighbor ==> b.cell(x, y).value == b.flagged_around(x, y)
            + b.closed_around(x, y),
        b.cell(x, y).value != b.flagged_around(x, y) ==> b.verdict(x, y) != Verdict::OpenNeighbor
            && b.verdict(x, y) != Verdict::Complete,
        b.cell(x, y).value != b.flagged_around(x, y) + b.closed_around(x, y) ==> b.verdict(x, y)
            != Verdict::FlagNeighbor,
        b.fires(x, y) ==> b.closed_around(x, y) > 0,
{
}

} // verus!

verus! {

/// A scan acts only where its rule's equality holds on the cell it acts from:
/// it opens only when the flags around that cell number its value, and flags
/// only when the flags and closed cells around it together number it.
pub proof fn lemma_deduction_needs_equality(b: &Board)
    requires
        b.wf(),
    ensures
        (b.deduction() matches Some((a, fx, fy)) ==> {
            &&& b.cell(fx as int, fy as int).state == CellState::Open
            &&& a.kind == ActionKind::Open ==> b.cell(fx as int, fy as int).value == b.flagged_around(
                fx as int,
                fy as int,
            )
            &&& a.kind == ActionKind::Flag ==> b.cell(fx as int, fy as int).value == b.flagged_around(
                fx as int,
                fy as int,
            ) + b.closed_around(fx as int, fy as int)
        }),
{
    let s = b.first_fire();
    if s < b.cells@.len() {
        b.lemma_cell_at_index(s);
    }
}

} // verus!
