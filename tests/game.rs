use practice::game::{Game, MoveError, Outcome, Player};

fn play_all(game: &mut Game, moves: &[u8]) -> Vec<Result<Outcome, MoveError>> {
    moves.iter().map(|&m| game.apply_move(m)).collect()
}

fn cells_of(game: &Game) -> Vec<Option<Player>> {
    (0..9u8).map(|i| game.cell(i)).collect()
}

#[test]
fn new_game_is_empty_with_x_to_move() {
    let game = Game::new();
    assert_eq!(cells_of(&game), vec![None; 9]);
    assert_eq!(game.player(), Player::X);
    assert!(!game.is_over());
}

#[test]
fn winner_maps_player_to_outcome() {
    assert_eq!(Outcome::winner(Player::X), Outcome::XWon);
    assert_eq!(Outcome::winner(Player::O), Outcome::OWon);
}

#[test]
fn each_cell_accepts_one_move_only() {
    for pos in 0..9u8 {
        let mut game = Game::new();
        assert_eq!(game.apply_move(pos), Ok(Outcome::Ongoing));
        assert_eq!(game.cell(pos), Some(Player::X));
        assert_eq!(game.player(), Player::O);
        assert_eq!(game.apply_move(pos), Err(MoveError::CellOccupied));
        assert_eq!(game.cell(pos), Some(Player::X));
        assert_eq!(game.player(), Player::O);
    }
}

#[test]
fn turn_alternates_with_each_accepted_move() {
    let mut game = Game::new();
    let moves: [u8; 8] = [4, 0, 8, 2, 1, 7, 3, 5];
    for (n, &m) in moves.iter().enumerate() {
        let expected = if n % 2 == 0 { Player::X } else { Player::O };
        assert_eq!(game.player(), expected);
        assert_eq!(game.apply_move(m), Ok(Outcome::Ongoing));
        assert_eq!(game.cell(m), Some(expected));
    }
    assert_eq!(game.player(), Player::X);
}

#[test]
fn refused_move_does_not_pass_the_turn() {
    let mut game = Game::new();
    assert_eq!(game.apply_move(0), Ok(Outcome::Ongoing));
    assert_eq!(game.apply_move(0), Err(MoveError::CellOccupied));
    assert_eq!(game.player(), Player::O);
    assert_eq!(game.apply_move(1), Ok(Outcome::Ongoing));
    assert_eq!(game.cell(1), Some(Player::O));
    assert_eq!(game.player(), Player::X);
}

#[test]
fn positions_past_eight_are_invalid() {
    let mut game = Game::new();
    for pos in [9u8, 10, 100, 255] {
        assert_eq!(game.apply_move(pos), Err(MoveError::InvalidPosition));
    }
    assert_eq!(cells_of(&game), vec![None; 9]);
    play_all(&mut game, &[0, 3, 1, 4, 2]);
    assert!(game.is_over());
    for pos in [9u8, 255] {
        assert_eq!(game.apply_move(pos), Err(MoveError::InvalidPosition));
    }
}

#[test]
fn x_wins_top_row_then_game_is_over() {
    let mut game = Game::new();
    let results = play_all(&mut game, &[0, 3, 1, 4]);
    assert!(results.iter().all(|r| *r == Ok(Outcome::Ongoing)));
    assert_eq!(game.apply_move(2), Ok(Outcome::XWon));
    assert!(game.is_over());
    assert_eq!(game.apply_move(5), Err(MoveError::GameOver));
    assert_eq!(game.cell(5), None);
}

#[test]
fn o_wins_middle_row() {
    let mut game = Game::new();
    let results = play_all(&mut game, &[0, 3, 1, 4, 8]);
    assert!(results.iter().all(|r| *r == Ok(Outcome::Ongoing)));
    assert_eq!(game.apply_move(5), Ok(Outcome::OWon));
    assert_eq!(game.apply_move(6), Err(MoveError::GameOver));
}

#[test]
fn x_wins_on_diagonals_and_columns() {
    let mut game = Game::new();
    play_all(&mut game, &[0, 1, 4, 2]);
    assert_eq!(game.apply_move(8), Ok(Outcome::XWon));

    let mut game = Game::new();
    play_all(&mut game, &[2, 0, 4, 1]);
    assert_eq!(game.apply_move(6), Ok(Outcome::XWon));

    let mut game = Game::new();
    play_all(&mut game, &[1, 0, 4, 2]);
    assert_eq!(game.apply_move(7), Ok(Outcome::XWon));
}

#[test]
fn full_board_without_line_is_a_draw() {
    let mut game = Game::new();
    let results = play_all(&mut game, &[0, 1, 2, 4, 3, 6, 7, 5]);
    assert!(results.iter().all(|r| *r == Ok(Outcome::Ongoing)));
    assert_eq!(game.apply_move(8), Ok(Outcome::Draw));
    assert!(game.is_over());
    assert_eq!(
        cells_of(&game),
        vec![
            Some(Player::X),
            Some(Player::O),
            Some(Player::X),
            Some(Player::X),
            Some(Player::O),
            Some(Player::O),
            Some(Player::O),
            Some(Player::X),
            Some(Player::X),
        ]
    );
    // Every cell is taken, and that is checked before the end of the game.
    assert_eq!(game.apply_move(4), Err(MoveError::CellOccupied));
}

#[test]
fn o_completes_middle_column_before_the_board_fills() {
    let mut game = Game::new();
    let results = play_all(&mut game, &[0, 1, 2, 4, 3, 6, 5]);
    assert!(results.iter().all(|r| *r == Ok(Outcome::Ongoing)));
    assert_eq!(game.apply_move(7), Ok(Outcome::OWon));
    assert_eq!(game.apply_move(8), Err(MoveError::GameOver));
    assert_eq!(game.cell(8), None);
}

#[test]
fn win_on_the_last_cell_is_a_win() {
    let mut game = Game::new();
    let results = play_all(&mut game, &[0, 1, 2, 3, 4, 6, 7, 5]);
    assert!(results.iter().all(|r| *r == Ok(Outcome::Ongoing)));
    assert_eq!(game.apply_move(8), Ok(Outcome::XWon));
    assert!(game.is_over());
}

#[test]
fn failing_move_twice_gives_same_error_and_no_change() {
    let mut game = Game::new();
    play_all(&mut game, &[4]);
    let before = cells_of(&game);
    assert_eq!(game.apply_move(12), Err(MoveError::InvalidPosition));
    assert_eq!(game.apply_move(12), Err(MoveError::InvalidPosition));
    assert_eq!(game.apply_move(4), Err(MoveError::CellOccupied));
    assert_eq!(game.apply_move(4), Err(MoveError::CellOccupied));
    assert_eq!(cells_of(&game), before);
    assert_eq!(game.player(), Player::O);

    play_all(&mut game, &[0, 3, 1, 5]);
    assert!(game.is_over());
    let before = cells_of(&game);
    assert_eq!(game.apply_move(8), Err(MoveError::GameOver));
    assert_eq!(game.apply_move(8), Err(MoveError::GameOver));
    assert_eq!(cells_of(&game), before);
}
