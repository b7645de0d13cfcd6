//! The game: a board, the number of slides made on it, and whether the
//! board has been seen solved.

use crate::board::{
    grid, slide_blank, slide_cells, slide_target, solvable, solved_order, table_text, Board,
};
use crate::operation::Operation;
use crate::text::{decimal, decimal_string};
use crate::tile::Tile;
use vstd::prelude::*;
use vstd::string::StringExecFns;

verus! {

/// The state of the game.
#[derive(Debug, PartialEq, Eq, Structural, Clone, Copy)]
enum GameState {
    InProgress,
    Finished,
}

/// A board with its move counter and state.
pub struct Game<T: Tile> {
    board: Board<T>,
    current_state: GameState,
    move_count: usize,
}

/// A game as plain values: the cells of its board, the index of the blank,
/// the number of moves counted, and whether it is finished.
pub struct GameView<T> {
    pub cells: Seq<T>,
    pub blank: int,
    pub moves: nat,
    pub done: bool,
}

/// The game after one operation: the board slides if it allows the
/// operation, a slide is counted as a move, and the game is finished if it
/// was finished before or the board is solved now.
pub open spec fn step<T: Tile>(game: GameView<T>, op: Operation) -> GameView<T> {
    let cells = slide_cells(game.cells, game.blank, op);
    GameView {
        cells,
        blank: slide_blank(game.blank, op),
        moves: game.moves + if slide_target(game.blank, op).is_some() {
            1nat
        } else {
            0nat
        },
        done: game.done || solved_order(cells),
    }
}

/// The game after the operations `ops`, applied in order.
pub open spec fn run<T: Tile>(game: GameView<T>, ops: Seq<Operation>) -> GameView<T>
    decreases ops.len(),
{
    if ops.len() == 0 {
        game
    } else {
        run(step(game, ops[0]), ops.drop_first())
    }
}

/// The drawing of the board, a line break, the line `Move Count: ` with the
/// count in decimal, and a line break.
pub open spec fn game_text(table: Seq<char>, moves: nat) -> Seq<char> {
    table + "\n"@ + "Move Count: "@ + decimal(moves) + "\n"@
}

/// Puts the line with the move count under the drawing of the board.
pub fn with_move_count(table: String, moves: usize) -> (s: String)
    ensures
        s@ == game_text(table@, moves as nat),
{
    let mut s = table;
    s.append("\n");
    s.append("Move Count: ");
    let count = decimal_string(moves);
    s.append(count.as_str());
    s.append("\n");
    s
}

impl<T: Tile> View for Game<T> {
    type V = GameView<T>;

    open spec fn view(&self) -> GameView<T> {
        GameView {
            cells: self.board().cells(),
            blank: self.board().blank(),
            moves: self.move_count(),
            done: self.done(),
        }
    }
}

impl<T: Tile> Game<T> {
    /// The board of the game.
    pub closed spec fn board(&self) -> Board<T> {
        self.board
    }

    /// Whether the game is finished.
    pub closed spec fn done(&self) -> bool {
        self.current_state == GameState::Finished
    }

    /// The number of slides that changed the board.
    pub closed spec fn move_count(&self) -> nat {
        self.move_count as nat
    }

    /// The board of the game is well formed.
    pub open spec fn wf(&self) -> bool {
        self.board().wf()
    }

    /// A game on the given board, in progress and with no move made.
    pub fn with_board(board: Board<T>) -> (g: Game<T>)
        requires
            board.wf(),
        ensures
            g.board() == board,
            !g.done(),
            g.move_count() == 0,
            g.wf(),
    {
        Game { board, current_state: GameState::InProgress, move_count: 0 }
    }

    /// Whether the game is finished.
    pub fn is_done(&self) -> (d: bool)
        ensures
            d == self.done(),
    {
        self.current_state == GameState::Finished
    }

    /// The number of slides that changed the board.
    pub fn moves(&self) -> (n: usize)
        ensures
            n == self.move_count(),
    {
        self.move_count
    }

    /// Hands `operation` to the board. A slide that changed the board is
    /// counted; then, whether or not the board changed, a solved board
    /// finishes the game. A finished game stays finished.
    pub fn process_operation(&mut self, operation: Operation)
        requires
            old(self).wf(),
            old(self).move_count() < usize::MAX,
        ensures
            final(self).wf(),
            final(self)@ == step(old(self)@, operation),
            final(self).board().is_arrangement() <== old(self).board().is_arrangement(),
            final(self).move_count() == old(self).move_count() + (if slide_target(
                old(self).board().blank(),
                operation,
            ).is_some() {
                1nat
            } else {
                0nat
            }),
            final(self).done() == (old(self).done() || final(self).board().solved()),
            old(self).done() ==> final(self).done(),
    {
        if self.board.process_operation(operation) {
            self.move_count = self.move_count + 1;
        }
        if self.board.is_solved() {
            self.current_state = GameState::Finished;
        }
    }

    /// The drawing of the board with the line of the move count under it.
    pub fn render(&self) -> (s: String)
        ensures
            s@ == game_text(table_text(grid(self.board().cells())), self.move_count()),
    {
        with_move_count(self.board.render(), self.move_count)
    }
}

impl Game<u8> {
    /// A game on a freshly shuffled board of numbered tiles that can be
    /// solved, in progress and with no move made.
    pub fn new() -> (g: Game<u8>)
        ensures
            g.board().is_arrangement(),
            solvable(g.board().positions(), g.board().blank()),
            !g.done(),
            g.move_count() == 0,
            g.wf(),
    {
        Game::with_board(Board::new())
    }
}

} // verus!
