use vstd::prelude::*;

use crate::square::Square;

verus! {

/// Side length of the grid.
pub const SIZE: usize = 3;

/// Row `r` of `g` holds `m` in every cell.
pub open spec fn row_won(g: Seq<Seq<Square>>, m: Square, r: int) -> bool {
    g[r][0] == m && g[r][1] == m && g[r][2] == m
}

/// Column `c` of `g` holds `m` in every cell.
pub open spec fn col_won(g: Seq<Seq<Square>>, m: Square, c: int) -> bool {
    g[0][c] == m && g[1][c] == m && g[2][c] == m
}

/// `m` fills a row, a column, the main diagonal or the anti-diagonal of `g`.
pub open spec fn wins(g: Seq<Seq<Square>>, m: Square) -> bool {
    ||| row_won(g, m, 0) || row_won(g, m, 1) || row_won(g, m, 2)
    ||| col_won(g, m, 0) || col_won(g, m, 1) || col_won(g, m, 2)
    ||| g[0][0] == m && g[1][1] == m && g[2][2] == m
    ||| g[0][2] == m && g[1][1] == m && g[2][0] == m
}

/// No cell of `g` is empty.
pub open spec fn is_full(g: Seq<Seq<Square>>) -> bool {
    forall|r: int, c: int| 0 <= r < 3 && 0 <= c < 3 ==> g[r][c] != Square::Empty
}

/// `g` has three rows of three cells.
pub open spec fn is_grid(g: Seq<Seq<Square>>) -> bool {
    g.len() == 3 && forall|r: int| 0 <= r < 3 ==> #[trigger] g[r].len() == 3
}

/// The grid with no mark on it.
pub open spec fn empty_grid() -> Seq<Seq<Square>> {
    seq![seq![Square::Empty; 3]; 3]
}

/// `g` with cell (`r`, `c`) set to `m`.
pub open spec fn place(g: Seq<Seq<Square>>, r: int, c: int, m: Square) -> Seq<Seq<Square>> {
    g.update(r, g[r].update(c, m))
}

/// One for an empty cell, none for a marked one.
pub open spec fn blank(s: Square) -> nat {
    if s == Square::Empty {
        1
    } else {
        0
    }
}

/// How many cells of `row` are empty.
pub open spec fn empties_in_row(row: Seq<Square>) -> nat {
    blank(row[0]) + blank(row[1]) + blank(row[2])
}

/// How many cells of `g` are empty.
pub open spec fn empties(g: Seq<Seq<Square>>) -> nat {
    empties_in_row(g[0]) + empties_in_row(g[1]) + empties_in_row(g[2])
}

/// Row `row` as it is drawn: each cell's symbol between bars.
pub open spec fn row_picture(row: Seq<Square>) -> Seq<char> {
    seq!['|', row[0].spec_symbol(), '|', row[1].spec_symbol(), '|', row[2].spec_symbol(), '|']
}

/// Marking an empty cell leaves one empty cell fewer.
pub proof fn lemma_place_empties(g: Seq<Seq<Square>>, r: int, c: int, m: Square)
    requires
        is_grid(g),
        0 <= r < 3,
        0 <= c < 3,
        g[r][c] == Square::Empty,
        m.is_mark(),
    ensures
        is_grid(place(g, r, c, m)),
        empties(place(g, r, c, m)) + 1 == empties(g),
{
    let h = place(g, r, c, m);
    assert(is_grid(h));
    if r == 0 {
        assert(h[1] == g[1] && h[2] == g[2]);
    } else if r == 1 {
        assert(h[0] == g[0] && h[2] == g[2]);
    } else {
        assert(h[0] == g[0] && h[1] == g[1]);
    }
}

/// A grid with a cell left to fill has an empty cell to count.
pub proof fn lemma_not_full_empties(g: Seq<Seq<Square>>)
    requires
        is_grid(g),
        !is_full(g),
    ensures
        empties(g) > 0,
{
    let (r, c) = choose|r: int, c: int| 0 <= r < 3 && 0 <= c < 3 && g[r][c] == Square::Empty;
    assert(g[r][c] == Square::Empty);
}

/// Two boards that agree on every cell are the same board.
pub proof fn lemma_board_ext(a: [[Square; 3]; 3], b: [[Square; 3]; 3])
    requires
        forall|r: int, c: int| 0 <= r < 3 && 0 <= c < 3 ==> a[r][c] == b[r][c],
    ensures
        a == b,
{
    assert(a[0] =~= b[0]);
    assert(a[1] =~= b[1]);
    assert(a[2] =~= b[2]);
    assert(a =~= b);
}

/// Why a move was refused.
#[derive(PartialEq, Eq, Structural, Clone, Copy, Debug)]
pub enum MoveError {
    /// The cell already holds a mark.
    OccupiedCell,
    /// The row or the column is not in `0..3`.
    OutOfRange,
}

/// Where a game stands.
#[derive(PartialEq, Eq, Structural, Clone, Copy, Debug)]
pub enum Outcome {
    InProgress,
    Won(Square),
    Draw,
}

/// A game between a human and the computer: the grid, whose turn it is, and
/// which mark each side plays.
pub struct Game {
    pub board: [[Square; 3]; 3],
    pub player: Square,
    pub human: Square,
    pub agent: Square,
}

impl Game {
    /// The grid as rows of cells.
    pub open spec fn cells(&self) -> Seq<Seq<Square>> {
        self.board@.map_values(|row: [Square; 3]| row@)
    }

    /// The two sides play opposite marks and the turn belongs to one of them.
    pub open spec fn wf(&self) -> bool {
        &&& self.human.is_mark()
        &&& self.agent == self.human.opponent()
        &&& self.player.is_mark()
    }

    /// Who has won, if anyone, and else whether the grid is full.
    pub open spec fn spec_outcome(&self) -> Outcome {
        if wins(self.cells(), Square::X) {
            Outcome::Won(Square::X)
        } else if wins(self.cells(), Square::O) {
            Outcome::Won(Square::O)
        } else if is_full(self.cells()) {
            Outcome::Draw
        } else {
            Outcome::InProgress
        }
    }

    pub fn new() -> (g: Game)
        ensures
            g.cells() == empty_grid(),
            g.player == Square::X,
            g.human == Square::X,
            g.agent == Square::O,
            g.wf(),
    {
        let g = Game {
            board: [[Square::Empty; 3]; 3],
            player: Square::X,
            human: Square::X,
            agent: Square::O,
        };
        assert(g.cells() =~~= empty_grid());
        g
    }

    /// Gives the human the mark `human` and the computer the other one.
    pub fn set_human(&mut self, human: Square)
        requires
            human.is_mark(),
        ensures
            final(self).human == human,
            final(self).agent == human.opponent(),
            final(self).board == old(self).board,
            final(self).player == old(self).player,
    {
        self.human = human;
        self.agent = human.flip();
    }

    pub fn is_winner(&self, player: Square) -> (r: bool)
        ensures
            r == wins(self.cells(), player),
    {
        let mut win_horizontal = false;
        let mut win_vertical = false;
        let mut i: usize = 0;
        while i < SIZE
            invariant
                0 <= i <= 3,
                win_horizontal == (exists|k: int| 0 <= k < i && row_won(self.cells(), player, k)),
                win_vertical == (exists|k: int| 0 <= k < i && col_won(self.cells(), player, k)),
            decreases 3 - i,
        {
            let row = &self.board[i];
            let row_full = row[0] == player && row[1] == player && row[2] == player;
            let col_full = self.board[0][i] == player && self.board[1][i] == player
                && self.board[2][i] == player;
            assert(row_full == row_won(self.cells(), player, i as int));
            assert(col_full == col_won(self.cells(), player, i as int));
            win_horizontal = win_horizontal || row_full;
            win_vertical = win_vertical || col_full;
            i = i + 1;
        }
        let b = &self.board;
        let win_diagonal_down = b[0][0] == player && b[1][1] == player && b[2][2] == player;
        let win_diagonal_up = b[0][2] == player && b[1][1] == player && b[2][0] == player;
        assert(win_horizontal == (row_won(self.cells(), player, 0) || row_won(self.cells(), player, 1)
            || row_won(self.cells(), player, 2)));
        assert(win_vertical == (col_won(self.cells(), player, 0) || col_won(self.cells(), player, 1)
            || col_won(self.cells(), player, 2)));
        win_horizontal || win_vertical || win_diagonal_down || win_diagonal_up
    }

    pub fn is_draw(&self) -> (r: bool)
        ensures
            r == is_full(self.cells()),
    {
        let mut i: usize = 0;
        while i < SIZE
            invariant
                0 <= i <= 3,
                forall|r: int, c: int|
                    0 <= r < i && 0 <= c < 3 ==> self.cells()[r][c] != Square::Empty,
            decreases 3 - i,
        {
            let mut j: usize = 0;
            while j < SIZE
                invariant
                    0 <= i < 3,
                    0 <= j <= 3,
                    forall|r: int, c: int|
                        0 <= r < i && 0 <= c < 3 ==> self.cells()[r][c] != Square::Empty,
                    forall|c: int| 0 <= c < j ==> self.cells()[i as int][c] != Square::Empty,
                decreases 3 - j,
            {
                if self.board[i][j] == Square::Empty {
                    return false;
                }
                j = j + 1;
            }
            i = i + 1;
        }
        true
    }

    /// Puts the mark whose turn it is on an empty cell and passes the turn.
    pub fn make_move(&mut self, row: usize, col: usize) -> (r: Result<(), MoveError>)
        ensures
            row >= 3 || col >= 3 ==> r == Err::<(), MoveError>(MoveError::OutOfRange)
                && *final(self) == *old(self),
            row < 3 && col < 3 && old(self).cells()[row as int][col as int] != Square::Empty
                ==> r == Err::<(), MoveError>(MoveError::OccupiedCell) && *final(self) == *old(self),
            row < 3 && col < 3 && old(self).cells()[row as int][col as int] == Square::Empty ==> {
                &&& r == Ok::<(), MoveError>(())
                &&& final(self).cells() == place(old(self).cells(), row as int, col as int, old(self).player)
                &&& final(self).player == old(self).player.opponent()
                &&& final(self).human == old(self).human
                &&& final(self).agent == old(self).agent
            },
    {
        if row >= SIZE || col >= SIZE {
            return Err(MoveError::OutOfRange);
        }
        match self.board[row][col] {
            Square::Empty => {
                let mark = self.player;
                self.board[row][col] = mark;
                self.player = mark.flip();
                assert(self.cells() =~~= place(old(self).cells(), row as int, col as int, mark));
                Ok(())
            },
            _ => Err(MoveError::OccupiedCell),
        }
    }

    /// Where the game stands: a win of `X`, else a win of `O`, else a draw
    /// when no cell is empty.
    pub fn outcome(&self) -> (r: Outcome)
        ensures
            r == self.spec_outcome(),
    {
        if self.is_winner(Square::X) {
            Outcome::Won(Square::X)
        } else if self.is_winner(Square::O) {
            Outcome::Won(Square::O)
        } else if self.is_draw() {
            Outcome::Draw
        } else {
            Outcome::InProgress
        }
    }

    /// The board as it is drawn, one line of characters per row.
    pub fn render(&self) -> (r: Vec<Vec<char>>)
        ensures
            r@.len() == 3,
            forall|i: int| 0 <= i < 3 ==> #[trigger] r@[i]@ == row_picture(self.cells()[i]),
    {
        let mut rows: Vec<Vec<char>> = Vec::new();
        let mut i: usize = 0;
        while i < SIZE
            invariant
                0 <= i <= 3,
                rows@.len() == i,
                forall|k: int| 0 <= k < i ==> #[trigger] rows@[k]@ == row_picture(self.cells()[k]),
            decreases 3 - i,
        {
            let mut line: Vec<char> = Vec::new();
            let mut j: usize = 0;
            while j < SIZE
                invariant
                    0 <= i < 3,
                    0 <= j <= 3,
                    line@ == row_picture(self.cells()[i as int]).take(2 * j),
                decreases 3 - j,
            {
                line.push('|');
                line.push(self.board[i][j].symbol());
                assert(line@ =~= row_picture(self.cells()[i as int]).take(2 * j + 2));
                j = j + 1;
            }
            line.push('|');
            assert(line@ =~= row_picture(self.cells()[i as int]));
            rows.push(line);
            i = i + 1;
        }
        rows
    }
}

/// `g` with `turn` to move comes from the empty grid with `X` to move by `n`
/// moves, each putting the mark of the side to move on an empty cell of a
/// grid that neither side has won.
pub open spec fn reachable(g: Seq<Seq<Square>>, turn: Square, n: nat) -> bool
    decreases n,
{
    if n == 0 {
        g == empty_grid() && turn == Square::X
    } else {
        exists|prev: Seq<Seq<Square>>, r: int, c: int|
            {
                &&& reachable(prev, turn.opponent(), (n - 1) as nat)
                &&& !wins(prev, Square::X)
                &&& !wins(prev, Square::O)
                &&& 0 <= r < 3
                &&& 0 <= c < 3
                &&& prev[r][c] == Square::Empty
                &&& g == #[trigger] place(prev, r, c, turn.opponent())
            }
    }
}

/// Putting `m` on a cell gives no line to any other mark.
pub proof fn lemma_place_no_line_for_other(g: Seq<Seq<Square>>, r: int, c: int, m: Square, o: Square)
    requires
        is_grid(g),
        0 <= r < 3,
        0 <= c < 3,
        m != o,
        !wins(g, o),
    ensures
        !wins(place(g, r, c, m), o),
{
    let h = place(g, r, c, m);
    assert(forall|i: int, k: int|
        0 <= i < 3 && 0 <= k < 3 ==> #[trigger] h[i][k] == (if i == r && k == c {
            m
        } else {
            g[i][k]
        }));
}

/// In a game played by the rules from the empty grid, `X` and `O` never
/// both have a line.
pub proof fn lemma_reachable_single_winner(g: Seq<Seq<Square>>, turn: Square, n: nat)
    requires
        reachable(g, turn, n),
    ensures
        is_grid(g),
        turn.is_mark(),
        !(wins(g, Square::X) && wins(g, Square::O)),
    decreases n,
{
    if n == 0 {
        assert(is_grid(g));
    } else {
        let (prev, r, c) = choose|prev: Seq<Seq<Square>>, r: int, c: int|
            {
                &&& reachable(prev, turn.opponent(), (n - 1) as nat)
                &&& !wins(prev, Square::X)
                &&& !wins(prev, Square::O)
                &&& 0 <= r < 3
                &&& 0 <= c < 3
                &&& prev[r][c] == Square::Empty
                &&& g == #[trigger] place(prev, r, c, turn.opponent())
            };
        lemma_reachable_single_winner(prev, turn.opponent(), (n - 1) as nat);
        lemma_place_empties(prev, r, c, turn.opponent());
        lemma_place_no_line_for_other(prev, r, c, turn.opponent(), turn);
    }
}

/// Taking a move back, by clearing its cell and handing the turn back,
/// gives exactly the game as it was before the move.
pub proof fn lemma_undo_move(before: Game, after: Game, undone: Game, row: int, col: int)
    requires
        before.player.is_mark(),
        0 <= row < 3,
        0 <= col < 3,
        before.cells()[row][col] == Square::Empty,
        after.cells() == place(before.cells(), row, col, before.player),
        after.player == before.player.opponent(),
        after.human == before.human,
        after.agent == before.agent,
        undone.cells() == place(after.cells(), row, col, Square::Empty),
        undone.player == after.player.opponent(),
        undone.human == after.human,
        undone.agent == after.agent,
    ensures
        undone == before,
{
    assert forall|r: int, c: int| 0 <= r < 3 && 0 <= c < 3 implies undone.board[r][c]
        == before.board[r][c] by {
        assert(undone.cells()[r][c] == undone.board[r][c]);
        assert(before.cells()[r][c] == before.board[r][c]);
    }
    lemma_board_ext(undone.board, before.board);
}

} // verus!
