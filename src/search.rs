use vstd::prelude::*;

use crate::game::{
    empties, is_full, is_grid, lemma_board_ext, lemma_not_full_empties, lemma_place_empties, place, wins, Game, SIZE,
};
use crate::square::Square;

verus! {

/// The mark placed by the side being simulated: the computer when
/// maximizing, the human when minimizing.
pub open spec fn mover(agent: Square, human: Square, maximizing: bool) -> Square {
    if maximizing {
        agent
    } else {
        human
    }
}

/// The score a scan starts from, worse than any real score for its side.
pub open spec fn initial_best(maximizing: bool) -> int {
    if maximizing {
        -1000
    } else {
        1000
    }
}

/// Score and move of a search from `g` with at most `plies` moves left:
/// `+1` when `agent` has a line, `-1` when `human` has one, `0` when the grid
/// is full, and else the best over all empty cells (see `scan`). The move is
/// `(1, 1)` at a terminal grid.
pub open spec fn search_value(
    g: Seq<Seq<Square>>,
    agent: Square,
    human: Square,
    maximizing: bool,
    plies: nat,
) -> (int, (int, int))
    decreases plies, 1int, 0int,
{
    if wins(g, agent) {
        (1, (1, 1))
    } else if wins(g, human) {
        (-1, (1, 1))
    } else if is_full(g) {
        (0, (1, 1))
    } else if plies == 0 {
        (0, (1, 1))
    } else {
        scan(g, agent, human, maximizing, plies, 3, 0)
    }
}

/// Best score and move found after trying, in row-major order, the empty
/// cells of every row before `i` and of row `i` before column `j`. Each try
/// puts the mover's mark there and scores the grid for the other side. The
/// maximizing side keeps the first cell with the highest score; the
/// minimizing side keeps the lowest score and leaves the move at `(1, 1)`.
pub open spec fn scan(
    g: Seq<Seq<Square>>,
    agent: Square,
    human: Square,
    maximizing: bool,
    plies: nat,
    i: nat,
    j: nat,
) -> (int, (int, int))
    decreases plies, 0int, 4 * i + j,
{
    if plies == 0 || (i == 0 && j == 0) {
        (initial_best(maximizing), (1, 1))
    } else if j == 0 {
        scan(g, agent, human, maximizing, plies, (i - 1) as nat, 3)
    } else {
        let prev = scan(g, agent, human, maximizing, plies, i, (j - 1) as nat);
        let c = j - 1;
        if g[i as int][c] == Square::Empty {
            let next = place(g, i as int, c, mover(agent, human, maximizing));
            let v = search_value(next, agent, human, !maximizing, (plies - 1) as nat).0;
            if maximizing {
                if v > prev.0 {
                    (v, (i as int, c))
                } else {
                    prev
                }
            } else {
                if v < prev.0 {
                    (v, prev.1)
                } else {
                    prev
                }
            }
        } else {
            prev
        }
    }
}

/// The minimax score and move from `g`, exploring every continuation.
pub open spec fn best_play(g: Seq<Seq<Square>>, agent: Square, human: Square, maximizing: bool) -> (
    int,
    (int, int),
) {
    search_value(g, agent, human, maximizing, empties(g))
}

/// Searches every continuation of `game` and returns the best score for the
/// computer with the move that reaches it. The game is left as it was found.
pub fn minimax(game: &mut Game, is_maximizing: bool) -> (r: (i32, (usize, usize)))
    requires
        old(game).wf(),
    ensures
        *final(game) == *old(game),
        (r.0 as int, (r.1.0 as int, r.1.1 as int)) == best_play(
            old(game).cells(),
            old(game).agent,
            old(game).human,
            is_maximizing,
        ),
    decreases empties(old(game).cells()),
{
    let mut best_move: (usize, usize) = (1, 1);
    if game.is_winner(game.agent) {
        return (1, best_move);
    } else if game.is_winner(game.human) {
        return (-1, best_move);
    } else if game.is_draw() {
        return (0, best_move);
    }
    let ghost start = *game;
    let ghost g0 = game.cells();
    let ghost plies = empties(g0);
    proof {
        assert(is_grid(g0));
        lemma_not_full_empties(g0);
    }
    let mark = if is_maximizing {
        game.agent
    } else {
        game.human
    };
    let mut best_score: i32 = if is_maximizing {
        -1000
    } else {
        1000
    };
    let mut i: usize = 0;
    while i < SIZE
        invariant
            0 <= i <= 3,
            *game == start,
            start == *old(game),
            g0 == start.cells(),
            plies == empties(g0),
            plies > 0,
            start.wf(),
            mark == mover(start.agent, start.human, is_maximizing),
            (best_score as int, (best_move.0 as int, best_move.1 as int)) == scan(
                g0,
                start.agent,
                start.human,
                is_maximizing,
                plies,
                i as nat,
                0,
            ),
        decreases 3 - i,
    {
        let mut j: usize = 0;
        while j < SIZE
            invariant
                0 <= i < 3,
                0 <= j <= 3,
                *game == start,
                start == *old(game),
                g0 == start.cells(),
                plies == empties(g0),
                plies > 0,
                start.wf(),
                mark == mover(start.agent, start.human, is_maximizing),
                (best_score as int, (best_move.0 as int, best_move.1 as int)) == scan(
                    g0,
                    start.agent,
                    start.human,
                    is_maximizing,
                    plies,
                    i as nat,
                    j as nat,
                ),
            decreases 3 - j,
        {
            if game.board[i][j] == Square::Empty {
                game.board[i][j] = mark;
                let ghost next = place(g0, i as int, j as int, mark);
                assert(game.cells() =~~= next);
                proof {
                    lemma_place_empties(g0, i as int, j as int, mark);
                }
                let (score, _) = minimax(game, !is_maximizing);
                game.board[i][j] = Square::Empty;
                proof {
                    lemma_board_ext(game.board, start.board);
                }
                if is_maximizing {
                    if score > best_score {
                        best_score = score;
                        best_move = (i, j);
                    }
                } else {
                    if score < best_score {
                        best_score = score;
                    }
                }
            }
            j = j + 1;
        }
        i = i + 1;
    }
    (best_score, best_move)
}

/// Search looks at nothing but the grid and the two sides' marks: two games
/// that agree on those get the same score and the same move.
pub proof fn lemma_search_deterministic(a: Game, b: Game, maximizing: bool)
    requires
        a.cells() == b.cells(),
        a.agent == b.agent,
        a.human == b.human,
    ensures
        best_play(a.cells(), a.agent, a.human, maximizing) == best_play(
            b.cells(),
            b.agent,
            b.human,
            maximizing,
        ),
{
}

} // verus!
