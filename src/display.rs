use vstd::prelude::*;
use vstd::string::*;

use crate::board::Board;
use crate::cell::{BoardState, Cell, CellState};
use crate::palette::{display_color, hex_char, state_to_color};
use crate::text::{color_background, color_text, digit, is_color_arg, painted, zero_pad3, zero_padded};

verus! {

/// Character drawn for a cell: `~` closed, `X` mine, `!` flag, the value of
/// an open cell from 1 to 8, else a blank.
pub open spec fn cell_symbol(c: Cell) -> char {
    match c.state {
        CellState::Closed => '~',
        CellState::Mine => 'X',
        CellState::Flagged => '!',
        CellState::Open => if 0 < c.value < 9 {
            hex_char(c.value as int)
        } else {
            ' '
        },
    }
}

/// Background of a cell: lighter once solved.
pub open spec fn cell_background(c: Cell) -> Seq<char> {
    if c.solved {
        "#1e1f29"@
    } else {
        "#0d0e14"@
    }
}

/// A cell as drawn: its symbol and a space, in the cell's color, on its
/// background.
pub open spec fn cell_text(c: Cell) -> Seq<char> {
    painted(
        painted(seq![cell_symbol(c), ' '], display_color(c.state, Some(c.value)), "38"@),
        cell_background(c),
        "48"@,
    )
}

/// The face shown for a board's outcome.
pub open spec fn face_text(state: BoardState) -> Seq<char> {
    match state {
        BoardState::Unsolved => painted(">_<"@, "#f3ff82"@, "38"@),
        BoardState::Solved => painted(">w<"@, "#7df084"@, "38"@),
        BoardState::Failed => painted("o_O"@, "#ff6e6e"@, "38"@),
    }
}

/// `n` spaces.
pub open spec fn spaces(n: nat) -> Seq<char> {
    Seq::new(n, |i: int| ' ')
}

/// Spaces on each side of the face so that it stands in the middle of a
/// board `w` cells wide (none for a board too narrow).
pub open spec fn gap_width(w: int) -> nat {
    if w * 2 >= 10 {
        ((w * 2 - 10) / 2) as nat
    } else {
        0
    }
}

/// The first `k` cells of row `y`, as drawn.
pub open spec fn row_text(b: &Board, y: int, k: int) -> Seq<char>
    decreases k,
{
    if k <= 0 {
        seq![]
    } else {
        row_text(b, y, k - 1) + cell_text(b.cell(k, y))
    }
}

/// The first `k` rows, each ended by a line break.
pub open spec fn rows_text(b: &Board, k: int) -> Seq<char>
    decreases k,
{
    if k <= 0 {
        seq![]
    } else {
        rows_text(b, k - 1) + row_text(b, k, b.width()) + "\n"@
    }
}

/// The board as drawn on a terminal: a head line with the mines left, the
/// face and the step count, then one line per row.
pub open spec fn board_text(b: &Board, steps: u32) -> Seq<char> {
    let gap = spaces(gap_width(b.width()));
    zero_pad3(b.mines_left as nat) + gap + face_text(b.state) + gap + zero_pad3(steps as nat) + "\n"@
        + rows_text(b, b.height())
}

proof fn lemma_colors_are_args(c: Cell)
    ensures
        is_color_arg(display_color(c.state, Some(c.value))),
        is_color_arg(cell_background(c)),
{
    reveal_with_fuel(crate::text::trim_hashes, 3);
    reveal_strlit("DCDCDC");
    reveal_strlit("F75656");
    reveal_strlit("FF3333");
    reveal_strlit("7CC7FF");
    reveal_strlit("66C266");
    reveal_strlit("FF7788");
    reveal_strlit("EE88FF");
    reveal_strlit("DDAA22");
    reveal_strlit("66CCCC");
    reveal_strlit("888888");
    reveal_strlit("D0D8E0");
    reveal_strlit("384048");
    reveal_strlit("#1e1f29");
    reveal_strlit("#0d0e14");
}

proof fn lemma_faces_are_args()
    ensures
        is_color_arg("#f3ff82"@),
        is_color_arg("#7df084"@),
        is_color_arg("#ff6e6e"@),
{
    reveal_with_fuel(crate::text::trim_hashes, 3);
    reveal_strlit("#f3ff82");
    reveal_strlit("#7df084");
    reveal_strlit("#ff6e6e");
}

fn draw_cell(c: Cell) -> (r: String)
    ensures
        r@ == cell_text(c),
{
    let mut symbol = String::new();
    let ch = match c.state {
        CellState::Closed => '~',
        CellState::Mine => 'X',
        CellState::Flagged => '!',
        CellState::Open => if 0 < c.value && c.value < 9 {
            digit(c.value)
        } else {
            ' '
        },
    };
    symbol.push(ch);
    symbol.push(' ');
    assert(symbol@ =~= seq![cell_symbol(c), ' ']);
    let color = state_to_color(c.state, Some(c.value));
    proof {
        lemma_colors_are_args(c);
    }
    let fg = color_text(symbol.as_str(), color.as_str());
    let background = if c.solved {
        "#1e1f29"
    } else {
        "#0d0e14"
    };
    color_background(fg.as_str(), background)
}

fn spaces_string(n: u32) -> (r: String)
    ensures
        r@ == spaces(n as nat),
{
    let mut s = String::new();
    let mut i: u32 = 0;
    while i < n
        invariant
            i <= n,
            s@ == spaces(i as nat),
        decreases n - i,
    {
        s.push(' ');
        i = i + 1;
        assert(s@ =~= spaces(i as nat));
    }
    s
}

impl Board {
    /// The board as drawn on a terminal after `steps` steps (see `board_text`).
    pub fn display_board(&self, steps: u32) -> (r: String)
        requires
            self.wf(),
        ensures
            r@ == board_text(self, steps),
    {
        let w = self.grid_size[0];
        let h = self.grid_size[1];
        let gap_len: u32 = if w >= 5 {
            w - 5
        } else {
            0
        };
        assert(gap_len == gap_width(w as int));
        let gap = spaces_string(gap_len);
        proof {
            lemma_faces_are_args();
        }
        let face = match self.state {
            BoardState::Unsolved => color_text(">_<", "#f3ff82"),
            BoardState::Solved => color_text(">w<", "#7df084"),
            BoardState::Failed => color_text("o_O", "#ff6e6e"),
        };
        let mut text = zero_padded(self.mines_left);
        text.append(gap.as_str());
        text.append(face.as_str());
        text.append(gap.as_str());
        text.append(zero_padded(steps).as_str());
        text.append("\n");
        let ghost head = text@;
        let mut y: u32 = 0;
        while y < h
            invariant
                self.wf(),
                w == self.width(),
                h == self.height(),
                y <= h,
                text@ == head + rows_text(self, y as int),
            decreases h - y,
        {
            let mut row = String::new();
            let mut x: u32 = 0;
            while x < w
                invariant
                    self.wf(),
                    w == self.width(),
                    h == self.height(),
                    y < h,
                    x <= w,
                    row@ == row_text(self, y + 1, x as int),
                decreases w - x,
            {
                let c = self.cells[self.index(x + 1, y + 1)];
                let drawn = draw_cell(c);
                row.append(drawn.as_str());
                x = x + 1;
            }
            row.append("\n");
            text.append(row.as_str());
            y = y + 1;
            assert(text@ =~= head + rows_text(self, y as int));
        }
        assert(text@ =~= board_text(self, steps));
        text
    }
}

} // verus!
