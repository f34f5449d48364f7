use rand::rngs::StdRng;
use vstd::prelude::*;

use crate::board::{Action, ActionKind, Board};
use crate::cell::{BoardState, Cell, CellState};
use crate::observe::Refresh;
use crate::palette::Rgb;
use crate::random::random_below;

verus! {

/// Scans in a row without any deduction after which a random closed cell is
/// opened.
pub const STALL_LIMIT: u32 = 3;

/// Steps after which a run gives up.
pub const DEFAULT_STEP_LIMIT: u32 = 500;

/// What one step of the engine came to.
#[derive(Copy, Clone, Debug, PartialEq, Eq, Structural)]
pub enum Step {
    /// The step budget is spent; the run ends without an outcome.
    Aborted,
    /// The board is over: `Solved` or `Failed`.
    Finished(BoardState),
    /// The observer showed a color outside the palette at cell `(x, y)`: the
    /// run cannot go on.
    UnknownColor { x: u32, y: u32, color: Rgb },
    /// Open the cell that carries the assist marker.
    AssistOpen(Action),
    /// Open a random cell of a board that shows nothing yet.
    FirstMove(Action),
    /// A deduction rule of cell `(from_x, from_y)` acts.
    Deduced { action: Action, from_x: u32, from_y: u32 },
    /// Nothing was deducible for too long: open a random closed cell.
    Guess(Action),
    /// Nothing to do this step.
    Idle,
}

/// Coordinates of the closed cells of `cells`, in order.
pub open spec fn closed_list(cells: Seq<Cell>) -> Seq<(u32, u32)>
    decreases cells.len(),
{
    if cells.len() == 0 {
        seq![]
    } else {
        let rest = closed_list(cells.drop_last());
        if cells.last().state == CellState::Closed {
            rest.push((cells.last().x, cells.last().y))
        } else {
            rest
        }
    }
}

/// Each listed position is that of a closed cell of `cells`.
proof fn lemma_closed_list(cells: Seq<Cell>)
    ensures
        forall|j: int|
            0 <= j < closed_list(cells).len() ==> exists|i: int|
                0 <= i < cells.len() && cells[i].state == CellState::Closed && cells[i].x == (
                #[trigger] closed_list(cells)[j]).0 && cells[i].y == closed_list(cells)[j].1,
    decreases cells.len(),
{
    if cells.len() > 0 {
        let t = cells.drop_last();
        lemma_closed_list(t);
        assert forall|j: int| 0 <= j < closed_list(cells).len() implies exists|i: int|
            0 <= i < cells.len() && cells[i].state == CellState::Closed && cells[i].x == (
            #[trigger] closed_list(cells)[j]).0 && cells[i].y == closed_list(cells)[j].1 by {
            if j < closed_list(t).len() {
                assert(closed_list(cells)[j] == closed_list(t)[j]);
                let i = choose|i: int|
                    0 <= i < t.len() && t[i].state == CellState::Closed && t[i].x == (
                    #[trigger] closed_list(t)[j]).0 && t[i].y == closed_list(t)[j].1;
                assert(cells[i] == t[i]);
            } else {
                assert(cells[cells.len() - 1].state == CellState::Closed);
            }
        }
    }
}

impl Board {
    /// Every solved cell is open or flagged.
    pub open spec fn solved_consistent(&self) -> bool {
        forall|i: int|
            0 <= i < self.cells@.len() && #[trigger] self.cells@[i].solved ==> self.cells@[i].state
                == CellState::Open || self.cells@[i].state == CellState::Flagged
    }

    pub open spec fn shows_mine(&self) -> bool {
        exists|i: int| 0 <= i < self.cells@.len() && #[trigger] self.cells@[i].state == CellState::Mine
    }

    pub open spec fn all_solved(&self) -> bool {
        forall|i: int| 0 <= i < self.cells@.len() ==> #[trigger] self.cells@[i].solved
    }

    /// Whether some cell shows a mine.
    pub fn has_mine(&self) -> (r: bool)
        ensures
            r == self.shows_mine(),
    {
        let mut i: usize = 0;
        while i < self.cells.len()
            invariant
                i <= self.cells@.len(),
                forall|j: int| 0 <= j < i ==> #[trigger] self.cells@[j].state != CellState::Mine,
            decreases self.cells@.len() - i,
        {
            if self.cells[i].state == CellState::Mine {
                return true;
            }
            i = i + 1;
        }
        false
    }

    /// Whether every cell is solved.
    pub fn is_solved(&self) -> (r: bool)
        ensures
            r == self.all_solved(),
    {
        let mut i: usize = 0;
        while i < self.cells.len()
            invariant
                i <= self.cells@.len(),
                forall|j: int| 0 <= j < i ==> #[trigger] self.cells@[j].solved,
            decreases self.cells@.len() - i,
        {
            if !self.cells[i].solved {
                return false;
            }
            i = i + 1;
        }
        true
    }

    /// Coordinates of the closed cells, in scan order.
    pub fn closed_positions(&self) -> (r: Vec<(u32, u32)>)
        ensures
            r@ == closed_list(self.cells@),
    {
        let mut out: Vec<(u32, u32)> = Vec::new();
        let mut i: usize = 0;
        while i < self.cells.len()
            invariant
                i <= self.cells@.len(),
                out@ == closed_list(self.cells@.take(i as int)),
            decreases self.cells@.len() - i,
        {
            let c = self.cells[i];
            assert(self.cells@.take(i + 1).drop_last() =~= self.cells@.take(i as int));
            if c.state == CellState::Closed {
                out.push((c.x, c.y));
            }
            i = i + 1;
        }
        assert(self.cells@.take(self.cells@.len() as int) =~= self.cells@);
        out
    }
}

/// Every cell solved in `a` is still solved in `b`.
pub open spec fn solved_kept(a: &Board, b: &Board) -> bool {
    &&& a.cells@.len() == b.cells@.len()
    &&& forall|i: int| 0 <= i < a.cells@.len() && #[trigger] a.cells@[i].solved ==> b.cells@[i].solved
}

/// Solved marks latch over any sequence of steps: kept from `a` to `b` and
/// from `b` to `c`, they are kept from `a` to `c`.
pub proof fn lemma_solved_kept_chain(a: &Board, b: &Board, c: &Board)
    requires
        solved_kept(a, b),
        solved_kept(b, c),
    ensures
        solved_kept(a, c),
{
    assert forall|i: int| 0 <= i < a.cells@.len() && #[trigger] a.cells@[i].solved implies c.cells@[i].solved by {
        assert(b.cells@[i].solved);
    }
}

/// The solver: owns the board, decides each step what to do, and counts
/// steps and scans without progress.
pub struct SolverEngine {
    pub board: Board,
    pub rng: StdRng,
    pub steps: u32,
    pub step_limit: u32,
    /// Nothing but closed cells has been seen yet.
    pub is_new: bool,
    /// The board must be read from the observer before the next decision.
    pub should_update: bool,
    /// Scans in a row that found nothing to do.
    pub stuck_tries: u32,
}

impl SolverEngine {
    pub open spec fn wf(&self) -> bool {
        &&& self.board.wf()
        &&& self.board.solved_consistent()
        &&& self.steps <= self.step_limit
    }

    /// All but the random generator is as in `other`.
    pub open spec fn same_but_rng(&self, other: &SolverEngine) -> bool {
        &&& self.board == other.board
        &&& self.steps == other.steps
        &&& self.step_limit == other.step_limit
        &&& self.is_new == other.is_new
        &&& self.should_update == other.should_update
        &&& self.stuck_tries == other.stuck_tries
    }

    /// An engine for `board`, which it reads from the observer before its
    /// first decision.
    pub fn new(board: Board, rng: StdRng, step_limit: u32) -> (e: SolverEngine)
        requires
            board.wf(),
            board.solved_consistent(),
        ensures
            e.wf(),
            e.board == board,
            e.steps == 0,
            e.step_limit == step_limit,
            e.is_new,
            e.should_update,
            e.stuck_tries == 0,
    {
        SolverEngine {
            board,
            rng,
            steps: 0,
            step_limit,
            is_new: true,
            should_update: true,
            stuck_tries: 0,
        }
    }

    /// The opening move for random draws `rx` and `ry`: open cell
    /// `(rx + 1, ry + 1)`.
    pub fn first_move_at(&self, rx: u32, ry: u32) -> (a: Action)
        requires
            self.wf(),
            rx < self.board.width(),
            ry < self.board.height(),
        ensures
            a == self.board.action_on(ActionKind::Open, rx + 1, ry + 1),
    {
        self.board.make_action(ActionKind::Open, rx + 1, ry + 1)
    }

    /// The guess for random draw `k`: open the `k`-th closed cell in scan
    /// order, if there is one.
    pub fn guess_at(&self, k: usize) -> (r: Option<Action>)
        requires
            self.wf(),
        ensures
            r == (if k < closed_list(self.board.cells@).len() {
                Some(
                    self.board.action_on(
                        ActionKind::Open,
                        closed_list(self.board.cells@)[k as int].0 as int,
                        closed_list(self.board.cells@)[k as int].1 as int,
                    ),
                )
            } else {
                None
            }),
    {
        let list = self.board.closed_positions();
        if k >= list.len() {
            return None;
        }
        let (x, y) = list[k];
        proof {
            lemma_closed_list(self.board.cells@);
            let i = choose|i: int|
                0 <= i < self.board.cells@.len() && self.board.cells@[i].state == CellState::Closed
                    && self.board.cells@[i].x == (#[trigger] closed_list(self.board.cells@)[k as int]).0
                    && self.board.cells@[i].y == closed_list(self.board.cells@)[k as int].1;
            self.board.lemma_cell_at_index(i);
        }
        Some(self.board.make_action(ActionKind::Open, x, y))
    }
}

/// `a` opens an in-grid cell of `b` at its screen position.
pub open spec fn opens_cell(b: &Board, a: Action) -> bool {
    &&& b.in_grid(a.x as int, a.y as int)
    &&& a == b.action_on(ActionKind::Open, a.x as int, a.y as int)
}

/// `a` opens a closed cell of `b`.
pub open spec fn opens_closed_cell(b: &Board, a: Action) -> bool {
    opens_cell(b, a) && b.cell(a.x as int, a.y as int).state == CellState::Closed
}

/// The step that a refresh of `b` ending with `r` leads to, if it ends the step.
pub open spec fn refresh_step(b: &Board, r: Refresh) -> Option<Step> {
    match r {
        Refresh::Done => None,
        Refresh::Assist { x, y } => Some(Step::AssistOpen(b.action_on(ActionKind::Open, x as int, y as int))),
        Refresh::Unknown { x, y, color } => Some(Step::UnknownColor { x, y, color }),
    }
}

/// The step that a deduction result `d` of a scan leads to, if any.
pub open spec fn deduced_step(d: Option<(Action, u32, u32)>) -> Step {
    match d {
        Some((action, from_x, from_y)) => Step::Deduced { action, from_x, from_y },
        None => Step::Idle,
    }
}

pub open spec fn saturating_inc(n: u32) -> u32 {
    if n < u32::MAX {
        (n + 1) as u32
    } else {
        n
    }
}

impl Board {
    proof fn lemma_refresh_keeps(&self, frame: Seq<Rgb>, s: int)
        requires
            self.wf(),
            self.solved_consistent(),
        ensures
            forall|i: int|
                0 <= i < self.cells@.len() && #[trigger] self.refreshed_upto(frame, s)[i].solved ==> (
                self.refreshed_upto(frame, s)[i].state == CellState::Open || self.refreshed_upto(
                    frame,
                    s,
                )[i].state == CellState::Flagged),
            forall|i: int|
                0 <= i < self.cells@.len() && #[trigger] self.cells@[i].solved ==> self.refreshed_upto(
                    frame,
                    s,
                )[i].solved,
    {
    }

    proof fn lemma_deduce_keeps(&self)
        requires
            self.wf(),
            self.solved_consistent(),
        ensures
            forall|i: int|
                0 <= i < self.cells@.len() && #[trigger] self.deduced_cells()[i].solved ==> (
                self.deduced_cells()[i].state == CellState::Open || self.deduced_cells()[i].state
                    == CellState::Flagged),
            forall|i: int|
                0 <= i < self.cells@.len() && #[trigger] self.cells@[i].solved ==> self.deduced_cells()[i].solved,
    {
        let s = self.first_fire();
        let m = self.completed_upto(s);
        assert forall|i: int| 0 <= i < self.cells@.len() && #[trigger] m[i].solved implies (m[i].state
            == CellState::Open || m[i].state == CellState::Flagged) by {
            self.lemma_cell_at_index(i);
        }
        assert forall|i: int| 0 <= i < self.cells@.len() && #[trigger] self.cells@[i].solved implies m[i].solved by {}
        if self.deduces_flag() {
            let c = self.cells@[s];
            self.lemma_cell_at_index(s);
            crate::rules::lemma_same_verdict(self, self, c.x as int, c.y as int);
            let t = self.deduced_target();
            self.lemma_cell_coords(t.x as int, t.y as int);
        }
    }
}

impl SolverEngine {
    /// The random opening move: a cell drawn uniformly from the whole grid.
    fn first_move(&mut self) -> (a: Action)
        requires
            old(self).wf(),
            old(self).board.num_cells() > 0,
        ensures
            final(self).same_but_rng(old(self)),
            opens_cell(&final(self).board, a),
    {
        proof {
            let w = self.board.width();
            let h = self.board.height();
            assert(w > 0 && h > 0) by (nonlinear_arith)
                requires
                    w * h > 0,
                    w >= 0,
                    h >= 0,
            ;
        }
        let rx = random_below(&mut self.rng, self.board.grid_size[0] as usize);
        let ry = random_below(&mut self.rng, self.board.grid_size[1] as usize);
        self.first_move_at(rx as u32, ry as u32)
    }

    /// A guess: a closed cell drawn uniformly from all closed cells, if any.
    fn guess(&mut self) -> (r: Option<Action>)
        requires
            old(self).wf(),
        ensures
            final(self).same_but_rng(old(self)),
            r is Some <==> closed_list(old(self).board.cells@).len() > 0,
            (r matches Some(a) ==> opens_closed_cell(&old(self).board, a)),
    {
        let list = self.board.closed_positions();
        if list.len() == 0 {
            return None;
        }
        let k = random_below(&mut self.rng, list.len());
        proof {
            lemma_closed_list(self.board.cells@);
            let i = choose|i: int|
                0 <= i < self.board.cells@.len() && self.board.cells@[i].state == CellState::Closed
                    && self.board.cells@[i].x == (#[trigger] closed_list(self.board.cells@)[k as int]).0
                    && self.board.cells@[i].y == closed_list(self.board.cells@)[k as int].1;
            self.board.lemma_cell_at_index(i);
        }
        self.guess_at(k)
    }

    /// First half of a step: ends it at once on a finished board or a spent
    /// budget; otherwise counts the step and, if an action came before, reads
    /// the board from `frame` (see `Board::refresh`). The step also ends here
    /// on the assist marker, with that cell to open, or on an unknown color.
    pub fn observe(&mut self, frame: &Vec<Rgb>) -> (r: Option<Step>)
        requires
            old(self).wf(),
            old(self).should_update ==> frame@.len() == old(self).board.num_cells(),
        ensures
            final(self).wf(),
            observe_effect(old(self), final(self), frame@, r),
            solved_kept(&old(self).board, &final(self).board),
            old(self).board.flagged@.subset_of(final(self).board.flagged@),
    {
        if self.board.state != BoardState::Unsolved {
            return Some(Step::Finished(self.board.state));
        }
        if self.steps >= self.step_limit {
            return Some(Step::Aborted);
        }
        self.steps = self.steps + 1;
        if !self.should_update {
            return None;
        }
        self.should_update = false;
        let ghost b = self.board;
        proof {
            b.lemma_refresh_keeps(frame@, b.refresh_stop(frame@));
        }
        let (res, revealed) = self.board.refresh(frame);
        if revealed {
            self.is_new = false;
        }
        match res {
            Refresh::Done => None,
            Refresh::Assist { x, y } => {
                proof {
                    b.lemma_cell_at_index(b.refresh_stop(frame@));
                }
                self.should_update = true;
                let a = self.board.open_cell(x, y).unwrap();
                Some(Step::AssistOpen(a))
            },
            Refresh::Unknown { x, y, color } => Some(Step::UnknownColor { x, y, color }),
        }
    }

    /// Second half of a step, on the board as last read. In this order: a
    /// visible mine fails the board; on a board that has shown nothing yet a
    /// random cell is opened; then one deduction scan (see `Board::deduce`)
    /// whose action, if any, ends the step; a board with every cell solved is
    /// won; after `STALL_LIMIT` scans in a row without action a random closed
    /// cell is opened and the count starts again; else the step is idle.
    pub fn decide(&mut self) -> (r: Step)
        requires
            old(self).wf(),
        ensures
            final(self).wf(),
            decide_effect(old(self), final(self), r),
            solved_kept(&old(self).board, &final(self).board),
            old(self).board.flagged@.subset_of(final(self).board.flagged@),
    {
        if self.board.has_mine() {
            self.board.state = BoardState::Failed;
            return Step::Finished(BoardState::Failed);
        }
        if self.is_new && self.board.cells.len() > 0 {
            let a = self.first_move();
            self.should_update = true;
            return Step::FirstMove(a);
        }
        let ghost b = self.board;
        proof {
            b.lemma_deduce_keeps();
        }
        match self.board.deduce() {
            Some((action, from_x, from_y)) => {
                self.should_update = true;
                self.stuck_tries = 0;
                return Step::Deduced { action, from_x, from_y };
            },
            None => {},
        }
        if self.board.is_solved() {
            self.board.state = BoardState::Solved;
            return Step::Finished(BoardState::Solved);
        }
        if self.stuck_tries >= STALL_LIMIT {
            match self.guess() {
                Some(a) => {
                    self.stuck_tries = 0;
                    self.should_update = true;
                    return Step::Guess(a);
                },
                None => {},
            }
        }
        if self.stuck_tries < u32::MAX {
            self.stuck_tries = self.stuck_tries + 1;
        }
        self.should_update = true;
        Step::Idle
    }

    /// One whole step: `observe`, then `decide` unless observing ended the
    /// step. Solved marks and flags are never taken back.
    pub fn step(&mut self, frame: &Vec<Rgb>) -> (r: Step)
        requires
            old(self).wf(),
            old(self).should_update ==> frame@.len() == old(self).board.num_cells(),
        ensures
            final(self).wf(),
            observe_effect(old(self), final(self), frame@, Some(r)) || exists|mid: SolverEngine|
                #![trigger observe_effect(old(self), &mid, frame@, None)]
                {
                    &&& mid.wf()
                    &&& observe_effect(old(self), &mid, frame@, None)
                    &&& decide_effect(&mid, final(self), r)
                },
            solved_kept(&old(self).board, &final(self).board),
            old(self).board.flagged@.subset_of(final(self).board.flagged@),
            final(self).step_limit == old(self).step_limit,
            r == Step::Aborted <==> old(self).board.state == BoardState::Unsolved && old(self).steps
                >= old(self).step_limit,
            (r matches Step::Finished(s) ==> s != BoardState::Unsolved && final(self).board.state == s),
            (r matches Step::Guess(_) ==> old(self).stuck_tries >= STALL_LIMIT && final(self).stuck_tries == 0),
            (r matches Step::Deduced { .. } ==> final(self).stuck_tries == 0),
            r == Step::Idle ==> final(self).stuck_tries == saturating_inc(old(self).stuck_tries),
    {
        let ghost e0 = *self;
        match self.observe(frame) {
            Some(s) => s,
            None => {
                let ghost e1 = *self;
                let r = self.decide();
                proof {
                    lemma_solved_kept_chain(&e0.board, &e1.board, &self.board);
                    assert(observe_effect(&e0, &e1, frame@, None));
                }
                r
            },
        }
    }
}

/// What `observe` does, from engine `pre` to engine `post`, with result `r`.
pub open spec fn observe_effect(pre: &SolverEngine, post: &SolverEngine, frame: Seq<Rgb>, r: Option<Step>) -> bool {
    &&& post.step_limit == pre.step_limit
    &&& post.stuck_tries == pre.stuck_tries
    &&& post.rng == pre.rng
    &&& if pre.board.state != BoardState::Unsolved {
        r == Some(Step::Finished(pre.board.state)) && *post == *pre
    } else if pre.steps >= pre.step_limit {
        r == Some(Step::Aborted) && *post == *pre
    } else if !pre.should_update {
        &&& r is None
        &&& post.steps == pre.steps + 1
        &&& post.board == pre.board
        &&& post.is_new == pre.is_new
        &&& !post.should_update
    } else {
        let b = pre.board;
        let s = b.refresh_stop(frame);
        &&& post.steps == pre.steps + 1
        &&& post.board.same_frame(&b)
        &&& post.board.cells@ == b.refreshed_upto(frame, s)
        &&& post.board.flagged@ == b.flagged@.union(b.observed_flags(frame, s))
        &&& post.is_new == (pre.is_new && !b.reveals_upto(frame, s))
        &&& r == refresh_step(&b, b.refresh_result(frame))
        &&& post.should_update == (b.refresh_result(frame) is Assist)
    }
}

/// What `decide` does, from engine `pre` to engine `post`, with result `r`.
pub open spec fn decide_effect(pre: &SolverEngine, post: &SolverEngine, r: Step) -> bool {
    let b = pre.board;
    &&& post.steps == pre.steps
    &&& post.step_limit == pre.step_limit
    &&& post.is_new == pre.is_new
    &&& post.board.same_layout(&b)
    &&& if b.shows_mine() {
        &&& r == Step::Finished(BoardState::Failed)
        &&& post.board.state == BoardState::Failed
        &&& post.board.cells@ == b.cells@
        &&& post.board.flagged@ == b.flagged@
        &&& post.stuck_tries == pre.stuck_tries
        &&& post.should_update == pre.should_update
    } else if pre.is_new && b.num_cells() > 0 {
        &&& (r matches Step::FirstMove(a) && opens_cell(&b, a))
        &&& post.board == b
        &&& post.should_update
        &&& post.stuck_tries == pre.stuck_tries
    } else {
        &&& post.board.cells@ == b.deduced_cells()
        &&& post.board.flagged@ == b.deduced_flags()
        &&& if b.deduction() is Some {
            &&& r == deduced_step(b.deduction())
            &&& post.board.state == b.state
            &&& post.stuck_tries == 0
            &&& post.should_update
        } else if post.board.all_solved() {
            &&& r == Step::Finished(BoardState::Solved)
            &&& post.board.state == BoardState::Solved
            &&& post.stuck_tries == pre.stuck_tries
            &&& post.should_update == pre.should_update
        } else if pre.stuck_tries >= STALL_LIMIT && closed_list(post.board.cells@).len() > 0 {
            &&& (r matches Step::Guess(a) && opens_closed_cell(&post.board, a))
            &&& post.board.state == b.state
            &&& post.stuck_tries == 0
            &&& post.should_update
        } else {
            &&& r == Step::Idle
            &&& post.board.state == b.state
            &&& post.stuck_tries == saturating_inc(pre.stuck_tries)
            &&& post.should_update
        }
    }
}

} // verus!
