use vstd::prelude::*;

verus! {

/// One of the two players. X always moves first.
#[derive(Clone, Copy, Debug, PartialEq, Eq, Structural)]
pub enum Player {
    X,
    O,
}

/// How a game stands after a move.
#[derive(Clone, Copy, Debug, PartialEq, Eq, Structural)]
pub enum Outcome {
    Ongoing,
    XWon,
    OWon,
    Draw,
}

/// The outcome in which `p` has won.
pub open spec fn winner_of(p: Player) -> Outcome {
    match p {
        Player::X => Outcome::XWon,
        Player::O => Outcome::OWon,
    }
}

impl Outcome {
    /// The outcome in which `player` has won.
    pub fn winner(player: Player) -> (r: Outcome)
        ensures
            r == winner_of(player),
    {
        match player {
            Player::X => Outcome::XWon,
            Player::O => Outcome::OWon,
        }
    }
}

/// Why a move was refused.
#[derive(Clone, Copy, Debug, PartialEq, Eq, Structural)]
pub enum MoveError {
    InvalidPosition,
    CellOccupied,
    GameOver,
}

/// The player who is not `p`.
pub open spec fn other(p: Player) -> Player {
    match p {
        Player::X => Player::O,
        Player::O => Player::X,
    }
}

/// Cells `a`, `b` and `c` all hold a mark of `p`.
pub open spec fn owns(cells: Seq<Option<Player>>, p: Player, a: int, b: int, c: int) -> bool {
    &&& cells[a] == Some(p)
    &&& cells[b] == Some(p)
    &&& cells[c] == Some(p)
}

/// `p` holds a full row, column or diagonal of the 3x3 board, stored row by row.
pub open spec fn has_line(cells: Seq<Option<Player>>, p: Player) -> bool {
    ||| owns(cells, p, 0, 1, 2)
    ||| owns(cells, p, 3, 4, 5)
    ||| owns(cells, p, 6, 7, 8)
    ||| owns(cells, p, 0, 3, 6)
    ||| owns(cells, p, 1, 4, 7)
    ||| owns(cells, p, 2, 5, 8)
    ||| owns(cells, p, 0, 4, 8)
    ||| owns(cells, p, 2, 4, 6)
}

/// No cell of the board is empty.
pub open spec fn is_full(cells: Seq<Option<Player>>) -> bool {
    forall|i: int| 0 <= i < 9 ==> (#[trigger] cells[i]) is Some
}

/// The game on this board has ended: someone has a line, or no cell is left.
pub open spec fn is_terminal(cells: Seq<Option<Player>>) -> bool {
    has_line(cells, Player::X) || has_line(cells, Player::O) || is_full(cells)
}

/// What a move by `turn` at `pos` gives: the error that refuses it, checked in
/// this order, or the outcome once the mark is placed.
pub open spec fn move_result(cells: Seq<Option<Player>>, turn: Player, pos: int) -> Result<
    Outcome,
    MoveError,
> {
    if !(0 <= pos < 9) {
        Err(MoveError::InvalidPosition)
    } else if cells[pos] is Some {
        Err(MoveError::CellOccupied)
    } else if is_terminal(cells) {
        Err(MoveError::GameOver)
    } else {
        let placed = cells.update(pos, Some(turn));
        if has_line(placed, turn) {
            Ok(winner_of(turn))
        } else if is_full(placed) {
            Ok(Outcome::Draw)
        } else {
            Ok(Outcome::Ongoing)
        }
    }
}

/// The board after a move: the mark is placed only when the move is accepted.
pub open spec fn next_cells(cells: Seq<Option<Player>>, turn: Player, pos: int) -> Seq<
    Option<Player>,
> {
    if move_result(cells, turn, pos) is Ok {
        cells.update(pos, Some(turn))
    } else {
        cells
    }
}

/// The player to move after a move: the turn passes only when the move is accepted.
pub open spec fn next_turn(cells: Seq<Option<Player>>, turn: Player, pos: int) -> Player {
    if move_result(cells, turn, pos) is Ok {
        other(turn)
    } else {
        turn
    }
}

/// How many cells among `cells` hold a mark of `p`.
pub open spec fn count(cells: Seq<Option<Player>>, p: Player) -> nat
    decreases cells.len(),
{
    if cells.len() == 0 {
        0
    } else {
        count(cells.drop_last(), p) + if cells.last() == Some(p) {
            1nat
        } else {
            0nat
        }
    }
}

/// X moves first and the players alternate: X has as many marks as O, or one
/// more, and it is X's turn exactly when the two are equal.
pub open spec fn balanced(cells: Seq<Option<Player>>, turn: Player) -> bool {
    ||| turn == Player::X && count(cells, Player::X) == count(cells, Player::O)
    ||| turn == Player::O && count(cells, Player::X) == count(cells, Player::O) + 1
}

/// The board of a new game: nine empty cells.
pub open spec fn empty_board() -> Seq<Option<Player>> {
    Seq::new(9, |i: int| None::<Player>)
}

/// The board and the player to move after playing `moves` in order, or `None`
/// when one of them is refused.
pub open spec fn play(cells: Seq<Option<Player>>, turn: Player, moves: Seq<int>) -> Option<
    (Seq<Option<Player>>, Player),
>
    decreases moves.len(),
{
    if moves.len() == 0 {
        Some((cells, turn))
    } else if move_result(cells, turn, moves[0]) is Ok {
        play(next_cells(cells, turn, moves[0]), next_turn(cells, turn, moves[0]), moves.drop_first())
    } else {
        None
    }
}

/// Placing a mark of `p` on an empty cell adds one to the marks of `p` and
/// leaves those of the other player as they were.
proof fn lemma_count_place(cells: Seq<Option<Player>>, i: int, p: Player)
    requires
        0 <= i < cells.len(),
        cells[i] is None,
    ensures
        count(cells.update(i, Some(p)), p) == count(cells, p) + 1,
        count(cells.update(i, Some(p)), other(p)) == count(cells, other(p)),
    decreases cells.len(),
{
    let placed = cells.update(i, Some(p));
    if i < cells.len() - 1 {
        lemma_count_place(cells.drop_last(), i, p);
        assert(placed.drop_last() =~= cells.drop_last().update(i, Some(p)));
    } else {
        assert(placed.drop_last() =~= cells.drop_last());
    }
}

/// A tic-tac-toe game: nine cells stored row by row, and the player to move.
///
/// After a move that ends the game the turn still passes to the other player;
/// no further move is accepted.
pub struct Game {
    board: [Option<Player>; 9],
    player: Player,
}

impl Game {
    #[verifier::type_invariant]
    spec fn wf(self) -> bool {
        balanced(self.board@, self.player)
    }

    /// The nine cells, row by row.
    pub closed spec fn cells(self) -> Seq<Option<Player>> {
        self.board@
    }

    /// The player whose turn it is.
    pub closed spec fn turn(self) -> Player {
        self.player
    }

    /// A game with an empty board and X to move.
    pub fn new() -> (g: Game)
        ensures
            g.cells() == empty_board(),
            g.turn() == Player::X,
            balanced(g.cells(), g.turn()),
    {
        let board: [Option<Player>; 9] = [None; 9];
        assert(board@ =~= Seq::new(9, |i: int| None::<Player>));
        proof {
            lemma_count_empty(board@);
        }
        Game { board, player: Player::X }
    }

    /// The mark in cell `position`, if any.
    pub fn cell(&self, position: u8) -> (r: Option<Player>)
        requires
            position < 9,
        ensures
            r == self.cells()[position as int],
    {
        self.board[position as usize]
    }

    /// The player whose turn it is.
    pub fn player(&self) -> (r: Player)
        ensures
            r == self.turn(),
    {
        self.player
    }

    /// Whether the game has ended, so that no move is accepted any more.
    pub fn is_over(&self) -> (r: bool)
        ensures
            r == is_terminal(self.cells()),
    {
        board_has_line(&self.board, Player::X) || board_has_line(&self.board, Player::O)
            || board_is_full(&self.board)
    }

    /// Places a mark of the player to move at `position` (0 to 8, row by row)
    /// and passes the turn, or refuses the move and leaves the game unchanged.
    pub fn apply_move(&mut self, position: u8) -> (r: Result<Outcome, MoveError>)
        ensures
            r == move_result(old(self).cells(), old(self).turn(), position as int),
            final(self).cells() == next_cells(old(self).cells(), old(self).turn(), position as int),
            final(self).turn() == next_turn(old(self).cells(), old(self).turn(), position as int),
            balanced(final(self).cells(), final(self).turn()),
    {
        proof {
            use_type_invariant(&*self);
        }
        if position >= 9 {
            return Err(MoveError::InvalidPosition);
        }
        let i = position as usize;
        if self.board[i].is_some() {
            return Err(MoveError::CellOccupied);
        }
        if self.is_over() {
            return Err(MoveError::GameOver);
        }
        let mover = self.player;
        let mut board = self.board;
        board[i] = Some(mover);
        assert(board@ =~= self.board@.update(i as int, Some(mover)));
        proof {
            lemma_count_place(self.board@, i as int, mover);
        }
        let outcome = if board_has_line(&board, mover) {
            Outcome::winner(mover)
        } else if board_is_full(&board) {
            Outcome::Draw
        } else {
            Outcome::Ongoing
        };
        *self = Game { board, player: other_player(mover) };
        proof {
            use_type_invariant(&*self);
        }
        Ok(outcome)
    }
}

fn other_player(p: Player) -> (r: Player)
    ensures
        r == other(p),
{
    match p {
        Player::X => Player::O,
        Player::O => Player::X,
    }
}

fn holds(c: Option<Player>, p: Player) -> (r: bool)
    ensures
        r == (c == Some(p)),
{
    match c {
        Some(q) => q == p,
        None => false,
    }
}

fn board_owns(board: &[Option<Player>; 9], p: Player, a: usize, b: usize, c: usize) -> (r: bool)
    requires
        a < 9,
        b < 9,
        c < 9,
    ensures
        r == owns(board@, p, a as int, b as int, c as int),
{
    holds(board[a], p) && holds(board[b], p) && holds(board[c], p)
}

fn board_has_line(board: &[Option<Player>; 9], p: Player) -> (r: bool)
    ensures
        r == has_line(board@, p),
{
    board_owns(board, p, 0, 1, 2) || board_owns(board, p, 3, 4, 5) || board_owns(board, p, 6, 7, 8)
        || board_owns(board, p, 0, 3, 6) || board_owns(board, p, 1, 4, 7) || board_owns(
        board,
        p,
        2,
        5,
        8,
    ) || board_owns(board, p, 0, 4, 8) || board_owns(board, p, 2, 4, 6)
}

fn board_is_full(board: &[Option<Player>; 9]) -> (r: bool)
    ensures
        r == is_full(board@),
{
    let mut i: usize = 0;
    while i < 9
        invariant
            i <= 9,
            forall|j: int| 0 <= j < i ==> (#[trigger] board@[j]) is Some,
        decreases 9 - i,
    {
        if board[i].is_none() {
            return false;
        }
        i = i + 1;
    }
    true
}

/// On a new game a move at any cell is accepted, and a second move at the
/// same cell is refused because the cell is taken.
pub proof fn lemma_each_cell_once(pos: int)
    requires
        0 <= pos < 9,
    ensures
        move_result(empty_board(), Player::X, pos) == Ok::<Outcome, MoveError>(Outcome::Ongoing),
        move_result(
            next_cells(empty_board(), Player::X, pos),
            next_turn(empty_board(), Player::X, pos),
            pos,
        ) == Err::<Outcome, MoveError>(MoveError::CellOccupied),
{
    let e = empty_board();
    assert(e[0] is None);
    let placed = e.update(pos, Some(Player::X));
    let free: int = if pos == 0 {
        1
    } else {
        0
    };
    assert(placed[free] is None);
}

/// After any sequence of accepted moves from a new game, X is to move exactly
/// when the number of moves is even.
pub proof fn lemma_turn_alternates(moves: Seq<int>)
    requires
        play(empty_board(), Player::X, moves) is Some,
    ensures
        (play(empty_board(), Player::X, moves)->0).1 == Player::X <==> moves.len() % 2 == 0,
{
    lemma_turn_after(empty_board(), Player::X, moves);
}

proof fn lemma_turn_after(cells: Seq<Option<Player>>, turn: Player, moves: Seq<int>)
    requires
        play(cells, turn, moves) is Some,
    ensures
        (play(cells, turn, moves)->0).1 == if moves.len() % 2 == 0 {
            turn
        } else {
            other(turn)
        },
    decreases moves.len(),
{
    if moves.len() > 0 {
        lemma_turn_after(
            next_cells(cells, turn, moves[0]),
            next_turn(cells, turn, moves[0]),
            moves.drop_first(),
        );
    }
}

/// A position outside 0 to 8 is refused as invalid, whatever the board, and
/// changes nothing.
pub proof fn lemma_out_of_range(cells: Seq<Option<Player>>, turn: Player, pos: int)
    requires
        !(0 <= pos < 9),
    ensures
        move_result(cells, turn, pos) == Err::<Outcome, MoveError>(MoveError::InvalidPosition),
        next_cells(cells, turn, pos) == cells,
        next_turn(cells, turn, pos) == turn,
{
}

/// An accepted move that fills the board without giving anyone a line ends
/// the game in a draw.
pub proof fn lemma_full_board_draw(cells: Seq<Option<Player>>, turn: Player, pos: int)
    requires
        move_result(cells, turn, pos) is Ok,
        is_full(cells.update(pos, Some(turn))),
        !has_line(cells.update(pos, Some(turn)), Player::X),
        !has_line(cells.update(pos, Some(turn)), Player::O),
    ensures
        move_result(cells, turn, pos) == Ok::<Outcome, MoveError>(Outcome::Draw),
{
}

/// An accepted move ends the game exactly when its outcome is not `Ongoing`,
/// and once it has ended every further move is refused.
pub proof fn lemma_end_is_final(cells: Seq<Option<Player>>, turn: Player, pos: int)
    requires
        cells.len() == 9,
        move_result(cells, turn, pos) is Ok,
    ensures
        is_terminal(next_cells(cells, turn, pos)) <==> move_result(cells, turn, pos)
            != Ok::<Outcome, MoveError>(Outcome::Ongoing),
        is_terminal(next_cells(cells, turn, pos)) ==> forall|q: int|
            #[trigger] move_result(
                next_cells(cells, turn, pos),
                next_turn(cells, turn, pos),
                q,
            ) is Err,
{
    let placed = cells.update(pos, Some(turn));
    assert forall|k: int| 0 <= k < 9 && #[trigger] placed[k] == Some(other(turn)) implies cells[k]
        == Some(other(turn)) by {}
    assert(has_line(placed, other(turn)) ==> has_line(cells, other(turn)));
}

/// A refused move leaves the board and the turn as they were, so trying it
/// again is refused with the same error.
pub proof fn lemma_refusal_repeats(cells: Seq<Option<Player>>, turn: Player, pos: int)
    requires
        move_result(cells, turn, pos) is Err,
    ensures
        next_cells(cells, turn, pos) == cells,
        next_turn(cells, turn, pos) == turn,
        move_result(next_cells(cells, turn, pos), next_turn(cells, turn, pos), pos)
            == move_result(cells, turn, pos),
{
}

/// A board with no marks counts none for either player.
proof fn lemma_count_empty(cells: Seq<Option<Player>>)
    requires
        forall|i: int| 0 <= i < cells.len() ==> (#[trigger] cells[i]) is None,
    ensures
        count(cells, Player::X) == 0,
        count(cells, Player::O) == 0,
    decreases cells.len(),
{
    if cells.len() > 0 {
        lemma_count_empty(cells.drop_last());
    }
}

} // verus!
