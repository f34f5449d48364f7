use vstd::arithmetic::div_mod::{lemma_fundamental_div_mod, lemma_fundamental_div_mod_converse};
use vstd::prelude::*;

use crate::cell::{BoardState, Cell, CellState};

verus! {

/// Kind of a device action on a cell.
#[derive(Copy, Clone, Debug, PartialEq, Eq, Structural)]
pub enum ActionKind {
    /// Primary click: reveal the cell.
    Open,
    /// Secondary click: mark the cell as a mine.
    Flag,
}

/// An action on cell `(x, y)`, to be performed at its screen position.
#[derive(Copy, Clone, Debug, PartialEq, Eq, Structural)]
pub struct Action {
    pub kind: ActionKind,
    pub x: u32,
    pub y: u32,
    pub screen_x: u32,
    pub screen_y: u32,
}

/// The grid of cells, the mine bookkeeping and the mapping from grid
/// coordinates to screen positions.
///
/// Cells live in one vector, the cell `(x, y)` at `(x - 1) * height + (y - 1)`.
/// `flag_marks` remembers which cells have ever been flagged; `flagged` is the
/// same set of indices as a mathematical set.
pub struct Board {
    /// Left, top, right and bottom edge of the whole board on screen.
    pub corners: [u32; 4],
    /// Top left corner of the area that holds the cells.
    pub inner_board_corner: [u32; 2],
    /// Side of one square cell, in pixels.
    pub cell_size: u32,
    /// Number of columns and rows.
    pub grid_size: [u32; 2],
    pub mines_total: u32,
    pub mines_left: u32,
    pub cells: Vec<Cell>,
    pub flag_marks: Vec<bool>,
    pub flagged: Ghost<Set<int>>,
    pub state: BoardState,
}

/// Index of cell `(x, y)` in a grid `h` rows high: column after column, so
/// that indices follow the order in which the solver scans the board.
pub open spec fn cell_index(h: int, x: int, y: int) -> int {
    (x - 1) * h + (y - 1)
}

/// Whether the screen rectangle and the grid fit the machine's integers: every
/// cell's screen position fits in a `u32` and the cell count in a `usize`.
pub open spec fn layout_fits(corners: [u32; 4], inner: [u32; 2], cell_size: u32, grid: [u32; 2]) -> bool {
    &&& corners[0] <= inner[0]
    &&& corners[1] <= inner[1]
    &&& inner[0] + grid[0] * cell_size <= u32::MAX
    &&& inner[1] + grid[1] * cell_size <= u32::MAX
    &&& grid[0] * grid[1] <= usize::MAX
}

/// Each cell of `cells` holds the coordinates of its index in a grid `h` high.
pub open spec fn coords_consistent(cells: Seq<Cell>, h: int) -> bool {
    forall|i: int|
        0 <= i < cells.len() ==> (#[trigger] cells[i].x == i / h + 1 && cells[i].y == i % h + 1)
}

/// The closed, unsolved cell that index `i` of a grid `h` high holds.
pub open spec fn fresh_cell(h: int, i: int) -> Cell {
    Cell {
        x: (i / h + 1) as u32,
        y: (i % h + 1) as u32,
        state: CellState::Closed,
        value: 0,
        solved: false,
    }
}

/// `total - flags`, or zero when more cells were flagged than there are mines.
pub open spec fn mines_remaining(total: int, flags: int) -> int {
    if flags <= total {
        total - flags
    } else {
        0
    }
}

impl Board {
    pub open spec fn width(&self) -> int {
        self.grid_size[0] as int
    }

    pub open spec fn height(&self) -> int {
        self.grid_size[1] as int
    }

    pub open spec fn num_cells(&self) -> int {
        self.width() * self.height()
    }

    pub open spec fn in_grid(&self, x: int, y: int) -> bool {
        1 <= x <= self.width() && 1 <= y <= self.height()
    }

    pub open spec fn index_of(&self, x: int, y: int) -> int {
        cell_index(self.height(), x, y)
    }

    /// What is known of cell `(x, y)`.
    pub open spec fn cell(&self, x: int, y: int) -> Cell {
        self.cells@[self.index_of(x, y)]
    }

    /// Number of cells flagged so far.
    pub open spec fn flags_placed(&self) -> nat {
        self.flagged@.len()
    }

    pub open spec fn wf(&self) -> bool {
        &&& layout_fits(self.corners, self.inner_board_corner, self.cell_size, self.grid_size)
        &&& self.cells@.len() == self.num_cells()
        &&& coords_consistent(self.cells@, self.height())
        &&& self.flag_marks@.len() == self.num_cells()
        &&& forall|i: int|
            0 <= i < self.num_cells() ==> (#[trigger] self.flag_marks@[i] <==> self.flagged@.contains(i))
        &&& forall|i: int| #[trigger] self.flagged@.contains(i) ==> 0 <= i < self.num_cells()
        &&& self.flagged@.finite()
        &&& self.mines_left == mines_remaining(self.mines_total as int, self.flags_placed() as int)
    }

    /// The screen layout, the grid size and the number of mines are as in `other`.
    pub open spec fn same_layout(&self, other: &Board) -> bool {
        &&& self.corners == other.corners
        &&& self.inner_board_corner == other.inner_board_corner
        &&& self.cell_size == other.cell_size
        &&& self.grid_size == other.grid_size
        &&& self.mines_total == other.mines_total
    }

    /// Everything but the cells, the flag records and the mine count is as in `other`.
    pub open spec fn same_frame(&self, other: &Board) -> bool {
        &&& self.same_layout(other)
        &&& self.state == other.state
    }

    /// Same frame, and the same flag records and mine count.
    pub open spec fn same_except_cells(&self, other: &Board) -> bool {
        &&& self.same_frame(other)
        &&& self.flagged@ == other.flagged@
        &&& self.mines_left == other.mines_left
    }
}

/// Cells of a fresh `w` by `h` grid: all closed, none solved.
fn closed_cells(w: u32, h: u32) -> (cells: Vec<Cell>)
    requires
        w * h <= usize::MAX,
    ensures
        cells@.len() == w * h,
        forall|i: int| 0 <= i < cells@.len() ==> #[trigger] cells@[i] == fresh_cell(h as int, i),
{
    let n: usize = (w as usize) * (h as usize);
    let mut cells: Vec<Cell> = Vec::new();
    let mut i: usize = 0;
    while i < n
        invariant
            n == w * h,
            i <= n,
            cells@.len() == i,
            forall|j: int| 0 <= j < i ==> #[trigger] cells@[j] == fresh_cell(h as int, j),
        decreases n - i,
    {
        proof {
            lemma_index_cell(w as int, h as int, i as int);
        }
        let x = (i / (h as usize)) as u32 + 1;
        let y = (i % (h as usize)) as u32 + 1;
        cells.push(Cell::closed(x, y));
        i = i + 1;
    }
    cells
}

/// A vector of `n` times `false`.
fn no_marks(n: usize) -> (marks: Vec<bool>)
    ensures
        marks@.len() == n,
        forall|i: int| 0 <= i < n ==> !#[trigger] marks@[i],
{
    let mut marks: Vec<bool> = Vec::new();
    let mut i: usize = 0;
    while i < n
        invariant
            i <= n,
            marks@.len() == i,
            forall|j: int| 0 <= j < i ==> !#[trigger] marks@[j],
        decreases n - i,
    {
        marks.push(false);
        i = i + 1;
    }
    marks
}

impl Board {
    /// Every cell is closed, unsolved and without value.
    pub open spec fn all_closed(&self) -> bool {
        forall|x: int, y: int|
            #![trigger self.cell(x, y)]
            self.in_grid(x, y) ==> {
                &&& self.cell(x, y).state == CellState::Closed
                &&& self.cell(x, y).value == 0
                &&& !self.cell(x, y).solved
            }
    }

    /// A well-formed board with this layout and mine count, all cells closed,
    /// nothing flagged yet, still unsolved.
    pub open spec fn is_fresh(
        &self,
        corners: [u32; 4],
        inner_board_corner: [u32; 2],
        cell_size: u32,
        grid_size: [u32; 2],
        mines_total: u32,
    ) -> bool {
        &&& self.wf()
        &&& self.corners == corners
        &&& self.inner_board_corner == inner_board_corner
        &&& self.cell_size == cell_size
        &&& self.grid_size == grid_size
        &&& self.mines_total == mines_total
        &&& self.mines_left == mines_total
        &&& self.flags_placed() == 0
        &&& self.state == BoardState::Unsolved
        &&& self.all_closed()
    }

    /// A board with the given screen layout and `grid_size[0]` by
    /// `grid_size[1]` closed cells, or `None` where the layout does not fit the
    /// machine's integers.
    pub fn new(
        corners: [u32; 4],
        inner_board_corner: [u32; 2],
        cell_size: u32,
        grid_size: [u32; 2],
        mines_total: u32,
    ) -> (r: Option<Board>)
        ensures
            r is Some <==> layout_fits(corners, inner_board_corner, cell_size, grid_size),
            r is Some ==> r->0.is_fresh(corners, inner_board_corner, cell_size, grid_size, mines_total),
    {
        let w = grid_size[0] as u64;
        let h = grid_size[1] as u64;
        let size = cell_size as u64;
        proof {
            assert(w * size <= 0xffff_ffff * 0xffff_ffff && w * h <= 0xffff_ffff * 0xffff_ffff)
                by (nonlinear_arith)
                requires
                    w <= 0xffff_ffff,
                    h <= 0xffff_ffff,
                    size <= 0xffff_ffff,
            ;
            assert(h * size <= 0xffff_ffff * 0xffff_ffff) by (nonlinear_arith)
                requires
                    h <= 0xffff_ffff,
                    size <= 0xffff_ffff,
            ;
        }
        if corners[0] > inner_board_corner[0] || corners[1] > inner_board_corner[1] {
            return None;
        }
        if inner_board_corner[0] as u64 + w * size > u32::MAX as u64 {
            return None;
        }
        if inner_board_corner[1] as u64 + h * size > u32::MAX as u64 {
            return None;
        }
        if w * h > usize::MAX as u64 {
            return None;
        }
        let cells = closed_cells(grid_size[0], grid_size[1]);
        let flag_marks = no_marks(cells.len());
        let b = Board {
            corners,
            inner_board_corner,
            cell_size,
            grid_size,
            mines_total,
            mines_left: mines_total,
            cells,
            flag_marks,
            flagged: Ghost(Set::empty()),
            state: BoardState::Unsolved,
        };
        proof {
            b.lemma_fresh_cells();
        }
        Some(b)
    }

    proof fn lemma_fresh_cells(&self)
        requires
            self.cells@.len() == self.num_cells(),
            self.width() >= 0,
            self.height() >= 0,
            forall|i: int|
                0 <= i < self.cells@.len() ==> #[trigger] self.cells@[i] == fresh_cell(self.height(), i),
        ensures
            self.all_closed(),
            coords_consistent(self.cells@, self.height()),
    {
        assert forall|x: int, y: int| #[trigger] self.in_grid(x, y) implies 0 <= self.index_of(x, y) < self.num_cells() by {
            lemma_cell_index(self.width(), self.height(), x, y);
        }
        assert forall|i: int| 0 <= i < self.cells@.len() implies #[trigger] self.cells@[i].x == i
            / self.height() + 1 && self.cells@[i].y == i % self.height() + 1 by {
            lemma_index_cell(self.width(), self.height(), i);
        }
    }

    /// A board of no cells.
    pub fn new_empty() -> (b: Board)
        ensures
            b.wf(),
            b.grid_size == [0u32, 0u32],
            b.mines_total == 0,
            b.state == BoardState::Unsolved,
    {
        Board {
            corners: [0, 0, 0, 0],
            inner_board_corner: [0, 0],
            cell_size: 0,
            grid_size: [0, 0],
            mines_total: 0,
            mines_left: 0,
            cells: Vec::new(),
            flag_marks: Vec::new(),
            flagged: Ghost(Set::empty()),
            state: BoardState::Unsolved,
        }
    }

    /// A fixed 8 by 9 board in mid game, for display: numbered cells, open
    /// blanks and one visible mine at `(1, 7)`; 40 mines, none flagged.
    pub fn new_example() -> (b: Board)
        ensures
            b.wf(),
            b.grid_size == [8u32, 9u32],
            b.mines_total == 40,
            b.mines_left == 40,
            b.flags_placed() == 0,
            b.state == BoardState::Unsolved,
    {
        let mut b = Board::new([0, 0, 0, 0], [0, 0], 1, [8, 9], 40).unwrap();
        b.set_cell(2, 2, CellState::Open, 2);
        b.set_cell(3, 2, CellState::Open, 1);
        b.set_cell(4, 2, CellState::Open, 3);
        b.set_cell(6, 2, CellState::Open, 3);
        b.set_cell(7, 2, CellState::Open, 2);
        b.set_cell(8, 2, CellState::Open, 3);
        b.set_cell(2, 3, CellState::Open, 1);
        b.set_cell(4, 3, CellState::Open, 1);
        b.set_cell(5, 3, CellState::Open, 1);
        b.set_cell(6, 3, CellState::Open, 1);
        b.set_cell(8, 3, CellState::Open, 1);
        b.set_cell(1, 4, CellState::Open, 1);
        b.set_cell(2, 4, CellState::Open, 1);
        b.set_cell(8, 4, CellState::Open, 1);
        b.set_cell(7, 5, CellState::Open, 1);
        b.set_cell(8, 5, CellState::Open, 2);
        b.set_cell(1, 6, CellState::Open, 2);
        b.set_cell(2, 6, CellState::Open, 1);
        b.set_cell(6, 6, CellState::Open, 1);
        b.set_cell(7, 6, CellState::Open, 2);
        b.set_cell(2, 7, CellState::Open, 1);
        b.set_cell(4, 7, CellState::Open, 1);
        b.set_cell(5, 7, CellState::Open, 1);
        b.set_cell(6, 7, CellState::Open, 2);
        b.set_cell(1, 8, CellState::Open, 2);
        b.set_cell(2, 8, CellState::Open, 1);
        b.set_cell(4, 8, CellState::Open, 1);
        b.set_cell(4, 9, CellState::Open, 1);
        b.set_cell(3, 3, CellState::Open, 0);
        b.set_cell(7, 3, CellState::Open, 0);
        b.set_cell(3, 4, CellState::Open, 0);
        b.set_cell(4, 4, CellState::Open, 0);
        b.set_cell(5, 4, CellState::Open, 0);
        b.set_cell(6, 4, CellState::Open, 0);
        b.set_cell(7, 4, CellState::Open, 0);
        b.set_cell(1, 5, CellState::Open, 0);
        b.set_cell(2, 5, CellState::Open, 0);
        b.set_cell(3, 5, CellState::Open, 0);
        b.set_cell(4, 5, CellState::Open, 0);
        b.set_cell(5, 5, CellState::Open, 0);
        b.set_cell(6, 5, CellState::Open, 0);
        b.set_cell(3, 6, CellState::Open, 0);
        b.set_cell(4, 6, CellState::Open, 0);
        b.set_cell(5, 6, CellState::Open, 0);
        b.set_cell(3, 7, CellState::Open, 0);
        b.set_cell(3, 8, CellState::Open, 0);
        b.set_cell(1, 9, CellState::Open, 0);
        b.set_cell(2, 9, CellState::Open, 0);
        b.set_cell(3, 9, CellState::Open, 0);
        b.set_cell(1, 7, CellState::Mine, 0);
        b
    }

    /// Closes every cell again and clears its value and solved mark. The
    /// flag records and the mine count stay.
    pub fn initialize_board(&mut self)
        requires
            old(self).wf(),
        ensures
            final(self).wf(),
            final(self).same_except_cells(old(self)),
            final(self).all_closed(),
    {
        proof {
            assert(self.grid_size[0] * self.grid_size[1] <= usize::MAX);
        }
        let cells = closed_cells(self.grid_size[0], self.grid_size[1]);
        self.cells = cells;
        proof {
            self.lemma_fresh_cells();
        }
    }

    /// Index of an in-grid cell.
    pub(crate) fn index(&self, x: u32, y: u32) -> (i: usize)
        requires
            self.wf(),
            self.in_grid(x as int, y as int),
        ensures
            i as int == self.index_of(x as int, y as int),
            i < self.cells@.len(),
    {
        proof {
            lemma_cell_index(self.width(), self.height(), x as int, y as int);
        }
        ((x - 1) as usize) * (self.grid_size[1] as usize) + ((y - 1) as usize)
    }

    /// An in-grid cell sits at its own coordinates.
    pub proof fn lemma_cell_coords(&self, x: int, y: int)
        requires
            self.wf(),
            self.in_grid(x, y),
        ensures
            0 <= self.index_of(x, y) < self.num_cells(),
            self.cell(x, y).x == x,
            self.cell(x, y).y == y,
    {
        lemma_cell_index(self.width(), self.height(), x, y);
        let i = self.index_of(x, y);
        assert(self.cells@[i].x == i / self.height() + 1);
    }

    /// State and value of cell `(x, y)`; `None` outside the grid.
    pub fn get_cell_data(&self, x: u32, y: u32) -> (r: Option<(CellState, u8)>)
        requires
            self.wf(),
        ensures
            r == (if self.in_grid(x as int, y as int) {
                Some((self.cell(x as int, y as int).state, self.cell(x as int, y as int).value))
            } else {
                None
            }),
    {
        if x < 1 || y < 1 || x > self.grid_size[0] || y > self.grid_size[1] {
            return None;
        }
        let c = self.cells[self.index(x, y)];
        Some((c.state, c.value))
    }

    /// State of cell `(x, y)`; `None` outside the grid.
    pub fn get_cell_state(&self, x: u32, y: u32) -> (r: Option<CellState>)
        requires
            self.wf(),
        ensures
            r == (if self.in_grid(x as int, y as int) {
                Some(self.cell(x as int, y as int).state)
            } else {
                None
            }),
    {
        if x < 1 || y < 1 || x > self.grid_size[0] || y > self.grid_size[1] {
            return None;
        }
        Some(self.cells[self.index(x, y)].state)
    }

    /// Value of cell `(x, y)`; `None` outside the grid.
    pub fn get_cell_value(&self, x: u32, y: u32) -> (r: Option<u8>)
        requires
            self.wf(),
        ensures
            r == (if self.in_grid(x as int, y as int) {
                Some(self.cell(x as int, y as int).value)
            } else {
                None
            }),
    {
        if x < 1 || y < 1 || x > self.grid_size[0] || y > self.grid_size[1] {
            return None;
        }
        Some(self.cells[self.index(x, y)].value)
    }

    /// Whether cell `(x, y)` is solved; `None` outside the grid.
    pub fn get_cell_solved(&self, x: u32, y: u32) -> (r: Option<bool>)
        requires
            self.wf(),
        ensures
            r == (if self.in_grid(x as int, y as int) {
                Some(self.cell(x as int, y as int).solved)
            } else {
                None
            }),
    {
        if x < 1 || y < 1 || x > self.grid_size[0] || y > self.grid_size[1] {
            return None;
        }
        Some(self.cells[self.index(x, y)].solved)
    }

    /// Replaces cell `(x, y)` by `c`, which keeps the cell's coordinates.
    pub(crate) fn put_cell(&mut self, x: u32, y: u32, c: Cell)
        requires
            old(self).wf(),
            old(self).in_grid(x as int, y as int),
            c.x == x,
            c.y == y,
        ensures
            final(self).wf(),
            final(self).same_except_cells(old(self)),
            final(self).cells@ == old(self).cells@.update(old(self).index_of(x as int, y as int), c),
    {
        let i = self.index(x, y);
        proof {
            self.lemma_cell_coords(x as int, y as int);
        }
        self.cells.set(i, c);
    }

    /// Sets the state and value of cell `(x, y)`; does nothing outside the grid.
    pub fn set_cell(&mut self, x: u32, y: u32, state: CellState, value: u8)
        requires
            old(self).wf(),
        ensures
            final(self).wf(),
            final(self).same_except_cells(old(self)),
            final(self).cells@ == (if old(self).in_grid(x as int, y as int) {
                old(self).cells@.update(
                    old(self).index_of(x as int, y as int),
                    (Cell { state, value, ..old(self).cell(x as int, y as int) }),
                )
            } else {
                old(self).cells@
            }),
    {
        if x < 1 || y < 1 || x > self.grid_size[0] || y > self.grid_size[1] {
            return;
        }
        let mut c = self.cells[self.index(x, y)];
        c.state = state;
        c.value = value;
        proof {
            self.lemma_cell_coords(x as int, y as int);
        }
        self.put_cell(x, y, c);
    }

    /// Sets the state of cell `(x, y)`; does nothing outside the grid.
    pub fn set_cell_state(&mut self, x: u32, y: u32, state: CellState)
        requires
            old(self).wf(),
        ensures
            final(self).wf(),
            final(self).same_except_cells(old(self)),
            final(self).cells@ == (if old(self).in_grid(x as int, y as int) {
                old(self).cells@.update(
                    old(self).index_of(x as int, y as int),
                    (Cell { state, ..old(self).cell(x as int, y as int) }),
                )
            } else {
                old(self).cells@
            }),
    {
        if x < 1 || y < 1 || x > self.grid_size[0] || y > self.grid_size[1] {
            return;
        }
        let mut c = self.cells[self.index(x, y)];
        c.state = state;
        proof {
            self.lemma_cell_coords(x as int, y as int);
        }
        self.put_cell(x, y, c);
    }

    /// Sets the value of cell `(x, y)`; does nothing outside the grid.
    pub fn set_cell_value(&mut self, x: u32, y: u32, value: u8)
        requires
            old(self).wf(),
        ensures
            final(self).wf(),
            final(self).same_except_cells(old(self)),
            final(self).cells@ == (if old(self).in_grid(x as int, y as int) {
                old(self).cells@.update(
                    old(self).index_of(x as int, y as int),
                    (Cell { value, ..old(self).cell(x as int, y as int) }),
                )
            } else {
                old(self).cells@
            }),
    {
        if x < 1 || y < 1 || x > self.grid_size[0] || y > self.grid_size[1] {
            return;
        }
        let mut c = self.cells[self.index(x, y)];
        c.value = value;
        proof {
            self.lemma_cell_coords(x as int, y as int);
        }
        self.put_cell(x, y, c);
    }

    /// Sets the solved mark of cell `(x, y)`; does nothing outside the grid.
    pub fn set_cell_solved(&mut self, x: u32, y: u32, solved: bool)
        requires
            old(self).wf(),
        ensures
            final(self).wf(),
            final(self).same_except_cells(old(self)),
            final(self).cells@ == (if old(self).in_grid(x as int, y as int) {
                old(self).cells@.update(
                    old(self).index_of(x as int, y as int),
                    (Cell { solved, ..old(self).cell(x as int, y as int) }),
                )
            } else {
                old(self).cells@
            }),
    {
        if x < 1 || y < 1 || x > self.grid_size[0] || y > self.grid_size[1] {
            return;
        }
        let mut c = self.cells[self.index(x, y)];
        c.solved = solved;
        proof {
            self.lemma_cell_coords(x as int, y as int);
        }
        self.put_cell(x, y, c);
    }
}

/// The eight directions around a cell, in the order the board lists them:
/// the row above from left to right, left and right, the row below.
pub open spec fn neighbor_offset(k: int) -> (int, int) {
    if k == 0 {
        (-1, -1)
    } else if k == 1 {
        (0, -1)
    } else if k == 2 {
        (1, -1)
    } else if k == 3 {
        (-1, 0)
    } else if k == 4 {
        (1, 0)
    } else if k == 5 {
        (-1, 1)
    } else if k == 6 {
        (0, 1)
    } else {
        (1, 1)
    }
}

/// Positions of the first `k` directions around `(x, y)` that lie in a grid
/// `w` wide and `h` high.
pub open spec fn neighbors_upto(w: int, h: int, x: int, y: int, k: int) -> Seq<(int, int)>
    decreases k,
{
    if k <= 0 {
        seq![]
    } else {
        let prev = neighbors_upto(w, h, x, y, k - 1);
        let p = (x + neighbor_offset(k - 1).0, y + neighbor_offset(k - 1).1);
        if 1 <= p.0 <= w && 1 <= p.1 <= h {
            prev.push(p)
        } else {
            prev
        }
    }
}

/// Positions around `(x, y)` that exist in a grid `w` wide and `h` high; none
/// for a position outside the grid.
pub open spec fn neighbor_positions(w: int, h: int, x: int, y: int) -> Seq<(int, int)> {
    if 1 <= x <= w && 1 <= y <= h {
        neighbors_upto(w, h, x, y, 8)
    } else {
        seq![]
    }
}

/// Whether `p` is one of the eight positions around `q`.
pub open spec fn adjacent(p: (int, int), q: (int, int)) -> bool {
    &&& p != q
    &&& q.0 - 1 <= p.0 <= q.0 + 1
    &&& q.1 - 1 <= p.1 <= q.1 + 1
}

/// Screen coordinate of the center of the cell in column or row `n`, for a
/// grid whose first cell starts at `origin`.
pub open spec fn cell_center(origin: int, size: int, n: int) -> int {
    origin + (n - 1) * size + size / 2
}

fn neighbor_step(k: usize) -> (r: (i64, i64))
    requires
        k < 8,
    ensures
        r.0 as int == neighbor_offset(k as int).0,
        r.1 as int == neighbor_offset(k as int).1,
{
    match k {
        0 => (-1, -1),
        1 => (0, -1),
        2 => (1, -1),
        3 => (-1, 0),
        4 => (1, 0),
        5 => (-1, 1),
        6 => (0, 1),
        _ => (1, 1),
    }
}

/// The center of the cell in column or row `n` fits below the grid's far edge.
proof fn lemma_center_fits(origin: int, size: int, n: int, count: int)
    requires
        1 <= n <= count,
        size >= 0,
        origin >= 0,
    ensures
        origin <= cell_center(origin, size, n) <= origin + count * size,
{
    assert(0 <= (n - 1) * size + size / 2 <= count * size) by (nonlinear_arith)
        requires
            1 <= n <= count,
            size >= 0,
    ;
}

impl Board {
    pub open spec fn neighbor_positions(&self, x: int, y: int) -> Seq<(int, int)> {
        neighbor_positions(self.width(), self.height(), x, y)
    }

    /// The cells around `(x, y)`, in the order of `neighbor_positions`.
    pub open spec fn neighbors(&self, x: int, y: int) -> Seq<Cell> {
        let ps = self.neighbor_positions(x, y);
        Seq::new(ps.len(), |i: int| self.cell(ps[i].0, ps[i].1))
    }

    /// The cells around `(x, y)` that exist on the grid; none outside the grid.
    pub fn get_surrounding_cells(&self, x: u32, y: u32) -> (r: Vec<Cell>)
        requires
            self.wf(),
        ensures
            r@ == self.neighbors(x as int, y as int),
    {
        let mut out: Vec<Cell> = Vec::new();
        if x < 1 || y < 1 || x > self.grid_size[0] || y > self.grid_size[1] {
            assert(out@ =~= self.neighbors(x as int, y as int));
            return out;
        }
        let w = self.grid_size[0] as i64;
        let h = self.grid_size[1] as i64;
        let ghost ps = neighbors_upto(self.width(), self.height(), x as int, y as int, 0);
        let mut k: usize = 0;
        while k < 8
            invariant
                self.wf(),
                self.in_grid(x as int, y as int),
                w == self.width(),
                h == self.height(),
                k <= 8,
                ps == neighbors_upto(self.width(), self.height(), x as int, y as int, k as int),
                out@.len() == ps.len(),
                forall|i: int| 0 <= i < ps.len() ==> #[trigger] out@[i] == self.cell(ps[i].0, ps[i].1),
            decreases 8 - k,
        {
            let (dx, dy) = neighbor_step(k);
            let nx = x as i64 + dx;
            let ny = y as i64 + dy;
            if 1 <= nx && nx <= w && 1 <= ny && ny <= h {
                let c = self.cells[self.index(nx as u32, ny as u32)];
                out.push(c);
            }
            proof {
                ps = neighbors_upto(self.width(), self.height(), x as int, y as int, k + 1);
            }
            k = k + 1;
        }
        assert(out@ =~= self.neighbors(x as int, y as int));
        out
    }

    /// Screen position of the center of cell `(x, y)`.
    pub open spec fn screen_position(&self, x: int, y: int) -> (int, int) {
        (
            cell_center(self.inner_board_corner[0] as int, self.cell_size as int, x),
            cell_center(self.inner_board_corner[1] as int, self.cell_size as int, y),
        )
    }

    /// Position of the center of cell `(x, y)` from the board's top left corner.
    pub open spec fn board_position(&self, x: int, y: int) -> (int, int) {
        (
            cell_center(self.inner_board_corner[0] - self.corners[0], self.cell_size as int, x),
            cell_center(self.inner_board_corner[1] - self.corners[1], self.cell_size as int, y),
        )
    }

    fn center(origin: u32, size: u32, n: u32, count: u32) -> (r: u32)
        requires
            1 <= n <= count,
            origin + count * size <= u32::MAX,
        ensures
            r as int == cell_center(origin as int, size as int, n as int),
    {
        proof {
            lemma_center_fits(origin as int, size as int, n as int, count as int);
            assert((n - 1) * size <= count * size) by (nonlinear_arith)
                requires
                    1 <= n <= count,
            ;
        }
        origin + (n - 1) * size + size / 2
    }

    /// Screen position of the center of cell `(x, y)`; `None` outside the grid.
    pub fn get_cell_position(&self, x: u32, y: u32) -> (r: Option<[u32; 2]>)
        requires
            self.wf(),
        ensures
            r is Some <==> self.in_grid(x as int, y as int),
            r is Some ==> r->0[0] == self.screen_position(x as int, y as int).0 && r->0[1]
                == self.screen_position(x as int, y as int).1,
    {
        if x < 1 || y < 1 || x > self.grid_size[0] || y > self.grid_size[1] {
            return None;
        }
        let px = Board::center(self.inner_board_corner[0], self.cell_size, x, self.grid_size[0]);
        let py = Board::center(self.inner_board_corner[1], self.cell_size, y, self.grid_size[1]);
        Some([px, py])
    }

    /// Position of the center of cell `(x, y)` from the board's top left
    /// corner; `None` outside the grid.
    pub fn get_cell_position_board(&self, x: u32, y: u32) -> (r: Option<[u32; 2]>)
        requires
            self.wf(),
        ensures
            r is Some <==> self.in_grid(x as int, y as int),
            r is Some ==> r->0[0] == self.board_position(x as int, y as int).0 && r->0[1]
                == self.board_position(x as int, y as int).1,
    {
        if x < 1 || y < 1 || x > self.grid_size[0] || y > self.grid_size[1] {
            return None;
        }
        let ox = self.inner_board_corner[0] - self.corners[0];
        let oy = self.inner_board_corner[1] - self.corners[1];
        let px = Board::center(ox, self.cell_size, x, self.grid_size[0]);
        let py = Board::center(oy, self.cell_size, y, self.grid_size[1]);
        Some([px, py])
    }

    /// The cell whose square holds point `(px, py)`, for a grid whose first
    /// cell starts at `(ox, oy)`.
    pub open spec fn locate(&self, ox: int, oy: int, px: int, py: int) -> Option<(u32, u32)> {
        if self.cell_size == 0 || px < ox || py < oy {
            None
        } else {
            let gx = (px - ox) / (self.cell_size as int) + 1;
            let gy = (py - oy) / (self.cell_size as int) + 1;
            if self.in_grid(gx, gy) {
                Some((gx as u32, gy as u32))
            } else {
                None
            }
        }
    }

    fn locate_exec(&self, ox: u32, oy: u32, px: u32, py: u32) -> (r: Option<(u32, u32)>)
        requires
            self.wf(),
        ensures
            r == self.locate(ox as int, oy as int, px as int, py as int),
    {
        if self.cell_size == 0 || px < ox || py < oy {
            return None;
        }
        let gx = (px - ox) / self.cell_size;
        let gy = (py - oy) / self.cell_size;
        if gx >= self.grid_size[0] || gy >= self.grid_size[1] {
            return None;
        }
        Some((gx + 1, gy + 1))
    }

    /// The cell under screen point `(px, py)`, if any.
    pub fn screen_to_grid(&self, px: u32, py: u32) -> (r: Option<(u32, u32)>)
        requires
            self.wf(),
        ensures
            r == self.locate(
                self.inner_board_corner[0] as int,
                self.inner_board_corner[1] as int,
                px as int,
                py as int,
            ),
    {
        self.locate_exec(self.inner_board_corner[0], self.inner_board_corner[1], px, py)
    }

    /// The cell under point `(bx, by)` counted from the board's top left
    /// corner, if any.
    pub fn board_to_grid(&self, bx: u32, by: u32) -> (r: Option<(u32, u32)>)
        requires
            self.wf(),
        ensures
            r == self.locate(
                self.inner_board_corner[0] - self.corners[0],
                self.inner_board_corner[1] - self.corners[1],
                bx as int,
                by as int,
            ),
    {
        let ox = self.inner_board_corner[0] - self.corners[0];
        let oy = self.inner_board_corner[1] - self.corners[1];
        self.locate_exec(ox, oy, bx, by)
    }

    /// The action of kind `kind` on in-grid cell `(x, y)`.
    pub open spec fn action_on(&self, kind: ActionKind, x: int, y: int) -> Action {
        Action {
            kind,
            x: x as u32,
            y: y as u32,
            screen_x: self.screen_position(x, y).0 as u32,
            screen_y: self.screen_position(x, y).1 as u32,
        }
    }

    pub(crate) fn make_action(&self, kind: ActionKind, x: u32, y: u32) -> (a: Action)
        requires
            self.wf(),
            self.in_grid(x as int, y as int),
        ensures
            a == self.action_on(kind, x as int, y as int),
    {
        let sx = Board::center(self.inner_board_corner[0], self.cell_size, x, self.grid_size[0]);
        let sy = Board::center(self.inner_board_corner[1], self.cell_size, y, self.grid_size[1]);
        Action { kind, x, y, screen_x: sx, screen_y: sy }
    }

    /// The click that opens cell `(x, y)`; `None` outside the grid. The board
    /// itself does not change: what the cell holds is learnt from the next
    /// observation.
    pub fn open_cell(&self, x: u32, y: u32) -> (r: Option<Action>)
        requires
            self.wf(),
        ensures
            r == (if self.in_grid(x as int, y as int) {
                Some(self.action_on(ActionKind::Open, x as int, y as int))
            } else {
                None
            }),
    {
        if x < 1 || y < 1 || x > self.grid_size[0] || y > self.grid_size[1] {
            return None;
        }
        Some(self.make_action(ActionKind::Open, x, y))
    }

    /// Records that cell `i` holds a flag: the first time, the mine count
    /// goes down by one (never below zero).
    pub(crate) fn record_flag(&mut self, i: usize)
        requires
            old(self).wf(),
            i < old(self).num_cells(),
        ensures
            final(self).wf(),
            final(self).same_frame(old(self)),
            final(self).cells@ == old(self).cells@,
            final(self).flagged@ == old(self).flagged@.insert(i as int),
    {
        if !self.flag_marks[i] {
            self.flag_marks.set(i, true);
            self.flagged = Ghost(self.flagged@.insert(i as int));
            if self.mines_left > 0 {
                self.mines_left = self.mines_left - 1;
            }
        } else {
            assert(self.flagged@.insert(i as int) =~= self.flagged@);
        }
    }

    /// The cell `(x, y)` after flagging: flagged and solved.
    pub open spec fn flagged_cell(&self, x: int, y: int) -> Cell {
        Cell { state: CellState::Flagged, solved: true, ..self.cell(x, y) }
    }

    /// Flags cell `(x, y)`: it becomes flagged and solved at once, it counts as
    /// flagged from now on, and the click that flags it is returned. `None`
    /// and no change outside the grid.
    pub fn flag_cell(&mut self, x: u32, y: u32) -> (r: Option<Action>)
        requires
            old(self).wf(),
        ensures
            final(self).wf(),
            final(self).same_frame(old(self)),
            old(self).in_grid(x as int, y as int) ==> {
                &&& r == Some(old(self).action_on(ActionKind::Flag, x as int, y as int))
                &&& final(self).cells@ == old(self).cells@.update(
                    old(self).index_of(x as int, y as int),
                    old(self).flagged_cell(x as int, y as int),
                )
                &&& final(self).flagged@ == old(self).flagged@.insert(
                    old(self).index_of(x as int, y as int),
                )
            },
            !old(self).in_grid(x as int, y as int) ==> r is None && *final(self) == *old(self),
    {
        if x < 1 || y < 1 || x > self.grid_size[0] || y > self.grid_size[1] {
            return None;
        }
        let i = self.index(x, y);
        let mut c = self.cells[i];
        c.state = CellState::Flagged;
        c.solved = true;
        proof {
            self.lemma_cell_coords(x as int, y as int);
        }
        self.put_cell(x, y, c);
        self.record_flag(i);
        Some(self.make_action(ActionKind::Flag, x, y))
    }
}

/// Every position listed around `(x, y)` lies in the grid and next to
/// `(x, y)`, and there are at most `k` of them.
pub proof fn lemma_neighbors_upto(w: int, h: int, x: int, y: int, k: int)
    ensures
        neighbors_upto(w, h, x, y, k).len() <= if k < 0 { 0 } else { k },
        forall|i: int|
            #![trigger neighbors_upto(w, h, x, y, k)[i]]
            0 <= i < neighbors_upto(w, h, x, y, k).len() ==> {
                let p = neighbors_upto(w, h, x, y, k)[i];
                &&& 1 <= p.0 <= w
                &&& 1 <= p.1 <= h
                &&& adjacent(p, (x, y))
            },
    decreases k,
{
    if k > 0 {
        lemma_neighbors_upto(w, h, x, y, k - 1);
    }
}

/// Where cell `(x, y)` lies in a grid `w` wide and `h` high.
pub proof fn lemma_cell_index(w: int, h: int, x: int, y: int)
    requires
        1 <= x <= w,
        1 <= y <= h,
    ensures
        0 <= cell_index(h, x, y) < w * h,
        cell_index(h, x, y) % h == y - 1,
        cell_index(h, x, y) / h == x - 1,
{
    let i = cell_index(h, x, y);
    assert(0 <= i < w * h) by (nonlinear_arith)
        requires
            i == (x - 1) * h + (y - 1),
            1 <= x <= w,
            1 <= y <= h,
    ;
    lemma_fundamental_div_mod_converse(i, h, x - 1, y - 1);
}

/// The cell that index `i` of a grid `w` wide and `h` high holds.
pub proof fn lemma_index_cell(w: int, h: int, i: int)
    requires
        w >= 0,
        h >= 0,
        0 <= i < w * h,
    ensures
        h > 0,
        0 <= i % h < h,
        0 <= i / h < w,
        cell_index(h, i / h + 1, i % h + 1) == i,
{
    assert(h > 0) by (nonlinear_arith)
        requires
            0 <= i < w * h,
            h >= 0,
    ;
    lemma_fundamental_div_mod(i, h);
    let q = i / h;
    let r = i % h;
    assert(0 <= q < w && (q + 1 - 1) * h + (r + 1 - 1) == i) by (nonlinear_arith)
        requires
            i == h * q + r,
            0 <= r < h,
            0 <= i < w * h,
    ;
}

/// The mine count is never negative, and as long as no more cells were
/// flagged than there are mines, it is the number of mines less the number of
/// cells flagged so far.
pub proof fn lemma_mines_left(b: &Board)
    requires
        b.wf(),
    ensures
        b.mines_left >= 0,
        b.flags_placed() <= b.mines_total ==> b.mines_left == b.mines_total - b.flags_placed(),
{
}

/// Any point of the square of cell `(x, y)` is located in that cell, for a
/// grid whose first cell starts at `(ox, oy)`.
pub proof fn lemma_locate_square(b: &Board, ox: int, oy: int, x: int, y: int, dx: int, dy: int)
    requires
        b.wf(),
        b.cell_size > 0,
        b.in_grid(x, y),
        0 <= dx < b.cell_size,
        0 <= dy < b.cell_size,
    ensures
        b.locate(ox, oy, ox + (x - 1) * b.cell_size + dx, oy + (y - 1) * b.cell_size + dy) == Some(
            (x as u32, y as u32),
        ),
{
    let size = b.cell_size as int;
    assert((x - 1) * size >= 0 && (y - 1) * size >= 0) by (nonlinear_arith)
        requires
            x >= 1,
            y >= 1,
            size > 0,
    ;
    lemma_fundamental_div_mod_converse((x - 1) * size + dx, size, x - 1, dx);
    lemma_fundamental_div_mod_converse((y - 1) * size + dy, size, y - 1, dy);
}

/// Mapping a cell to its center on screen and locating that point gives the
/// cell again, both in screen coordinates and from the board's corner.
pub proof fn lemma_position_round_trip(b: &Board, x: int, y: int)
    requires
        b.wf(),
        b.cell_size > 0,
        b.in_grid(x, y),
    ensures
        b.locate(
            b.inner_board_corner[0] as int,
            b.inner_board_corner[1] as int,
            b.screen_position(x, y).0,
            b.screen_position(x, y).1,
        ) == Some((x as u32, y as u32)),
        b.locate(
            b.inner_board_corner[0] - b.corners[0],
            b.inner_board_corner[1] - b.corners[1],
            b.board_position(x, y).0,
            b.board_position(x, y).1,
        ) == Some((x as u32, y as u32)),
{
    let half = b.cell_size as int / 2;
    lemma_locate_square(b, b.inner_board_corner[0] as int, b.inner_board_corner[1] as int, x, y, half, half);
    lemma_locate_square(
        b,
        b.inner_board_corner[0] - b.corners[0],
        b.inner_board_corner[1] - b.corners[1],
        x,
        y,
        half,
        half,
    );
}

/// Position that direction `k` points at from `(x, y)`.
pub open spec fn toward(x: int, y: int, k: int) -> (int, int) {
    (x + neighbor_offset(k).0, y + neighbor_offset(k).1)
}

/// Order of position `p` among the nine positions of the block centered
/// on `(x, y)`, row by row.
pub open spec fn block_rank(x: int, y: int, p: (int, int)) -> int {
    (p.1 - y + 1) * 3 + (p.0 - x + 1)
}

proof fn lemma_neighbors_upto_members(w: int, h: int, x: int, y: int, k: int)
    requires
        0 <= k <= 8,
    ensures
        forall|j: int|
            0 <= j < k && 1 <= #[trigger] toward(x, y, j).0 <= w && 1 <= toward(x, y, j).1 <= h
                ==> neighbors_upto(w, h, x, y, k).contains(toward(x, y, j)),
        forall|i: int|
            0 <= i < neighbors_upto(w, h, x, y, k).len() ==> block_rank(
                x,
                y,
                #[trigger] neighbors_upto(w, h, x, y, k)[i],
            ) <= block_rank(x, y, toward(x, y, k - 1)),
        forall|a: int, c: int|
            0 <= a < c < neighbors_upto(w, h, x, y, k).len() ==> block_rank(
                x,
                y,
                #[trigger] neighbors_upto(w, h, x, y, k)[a],
            ) < block_rank(x, y, #[trigger] neighbors_upto(w, h, x, y, k)[c]),
    decreases k,
{
    if k > 0 {
        let prev = neighbors_upto(w, h, x, y, k - 1);
        let cur = neighbors_upto(w, h, x, y, k);
        lemma_neighbors_upto_members(w, h, x, y, k - 1);
        assert(k >= 2 ==> block_rank(x, y, toward(x, y, k - 2)) < block_rank(x, y, toward(x, y, k - 1)));
        assert forall|j: int|
            0 <= j < k && 1 <= #[trigger] toward(x, y, j).0 <= w && 1 <= toward(x, y, j).1 <= h
                implies cur.contains(toward(x, y, j)) by {
            if j < k - 1 {
                let i = choose|i: int| 0 <= i < prev.len() && prev[i] == toward(x, y, j);
                assert(cur[i] == prev[i]);
            } else {
                assert(cur[cur.len() - 1] == toward(x, y, j));
            }
        }
        assert forall|i: int| 0 <= i < cur.len() implies block_rank(x, y, #[trigger] cur[i])
            <= block_rank(x, y, toward(x, y, k - 1)) by {
            if i < prev.len() {
                assert(cur[i] == prev[i]);
            }
        }
        assert forall|a: int, c: int| 0 <= a < c < cur.len() implies block_rank(x, y, #[trigger] cur[a])
            < block_rank(x, y, #[trigger] cur[c]) by {
            assert(cur[a] == prev[a]);
            if c < prev.len() {
                assert(cur[c] == prev[c]);
            }
        }
    }
}

/// The cells listed around an in-grid cell are exactly the grid positions
/// next to it, each listed once; positions off the grid are left out.
pub proof fn lemma_neighbors_exact(w: int, h: int, x: int, y: int)
    requires
        1 <= x <= w,
        1 <= y <= h,
    ensures
        forall|i: int|
            #![trigger neighbor_positions(w, h, x, y)[i]]
            0 <= i < neighbor_positions(w, h, x, y).len() ==> {
                let p = neighbor_positions(w, h, x, y)[i];
                &&& 1 <= p.0 <= w
                &&& 1 <= p.1 <= h
                &&& adjacent(p, (x, y))
            },
        forall|p: (int, int)|
            1 <= p.0 <= w && 1 <= p.1 <= h && #[trigger] adjacent(p, (x, y)) ==> neighbor_positions(
                w,
                h,
                x,
                y,
            ).contains(p),
        neighbor_positions(w, h, x, y).no_duplicates(),
{
    lemma_neighbors_upto(w, h, x, y, 8);
    lemma_neighbors_upto_members(w, h, x, y, 8);
    let ns = neighbor_positions(w, h, x, y);
    assert forall|a: int, c: int| 0 <= a < ns.len() && 0 <= c < ns.len() && a != c implies ns[a]
        != ns[c] by {
        if a < c {
            assert(block_rank(x, y, ns[a]) < block_rank(x, y, ns[c]));
        } else {
            assert(block_rank(x, y, ns[c]) < block_rank(x, y, ns[a]));
        }
    }
    assert forall|p: (int, int)|
        1 <= p.0 <= w && 1 <= p.1 <= h && #[trigger] adjacent(p, (x, y)) implies neighbor_positions(
            w,
            h,
            x,
            y,
        ).contains(p) by {
        let k = if p.1 == y - 1 {
            p.0 - x + 1
        } else if p.1 == y {
            if p.0 == x - 1 {
                3
            } else {
                4
            }
        } else {
            p.0 - x + 6
        };
        assert(toward(x, y, k) == p);
    }
}

} // verus!
