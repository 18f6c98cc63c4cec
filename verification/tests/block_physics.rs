use blockfall::board::{Board, Color};
use rand::rngs::StdRng;
use rand::SeedableRng;


const X: Option<Color> = Some(Color::Magenta);
#[allow(non_upper_case_globals)]
const o: Option<Color> = None;

const SEED: [u8; 32] = [0; 32];

#[test]
fn advance_moves_block_one_cell_down() {
    let mut board = Board::new(vec![
        vec![X, o, o, o, o,],
        vec![o, o, o, o, o,],
        vec![o, o, o, o, o,],
        vec![o, o, o, o, o,],
        vec![o, o, o, o, o,],
    ], StdRng::from_seed(SEED));
    let expected_board = Board::new(vec![
        vec![o, o, o, o, o,],
        vec![X, o, o, o, o,],
        vec![o, o, o, o, o,],
        vec![o, o, o, o, o,],
        vec![o, o, o, o, o,],
    ], StdRng::from_seed(SEED));
    board.advance();
    assert_eq!(board, expected_board);
}

#[test]
fn advance_falling_block_stops_on_bottom() {
    let mut board = Board::new(vec![
        vec![X, o, o, o, o,],
        vec![o, o, o, o, o,],
        vec![o, X, o, o, o,],
        vec![o, o, o, o, X,],
        vec![o, o, o, o, o,],
    ], StdRng::from_seed(SEED));
    let expected_board = Board::new(vec![
        vec![o, o, o, o, o,],
        vec![o, o, o, o, o,],
        vec![o, o, o, o, o,],
        vec![o, o, o, o, o,],
        vec![X, X, o, o, X,],
    ], StdRng::from_seed(SEED));
    for _ in 0..4 {
        board.advance();
    }
    assert_eq!(board, expected_board);
}

#[test]
fn advance_falling_block_stops_on_other_block() {
    let mut board = Board::new(vec![
        vec![X, o, X, o, X,],
        vec![o, o, X, o, X,],
        vec![o, o, o, o, o,],
        vec![o, o, o, o, X,],
        vec![o, o, o, o, o,],
    ], StdRng::from_seed(SEED));
    let expected_board = Board::new(vec![
        vec![o, o, o, o, o,],
        vec![o, o, o, o, o,],
        vec![o, o, o, o, X,],
        vec![o, o, X, o, X,],
        vec![X, o, X, o, X,],
    ], StdRng::from_seed(SEED));
    for _ in 0..4 {
        board.advance();
    }
    assert_eq!(board, expected_board);
}

#[test]
fn left_moves_blocks_to_the_left() {
    let mut board = Board::new(vec![
        vec![o, o, o, o, o,],
        vec![o, X, o, o, o,],
        vec![o, o, o, X, o,],
        vec![o, o, o, o, o,],
        vec![o, o, o, o, o,],
    ], StdRng::from_seed(SEED));
    let expected_board = Board::new(vec![
        vec![o, o, o, o, o,],
        vec![X, o, o, o, o,],
        vec![o, o, X, o, o,],
        vec![o, o, o, o, o,],
        vec![o, o, o, o, o,],
    ], StdRng::from_seed(SEED));
    board.left();
    assert_eq!(board, expected_board);
}

#[test]
fn left_stops_at_walls() {
    let mut board = Board::new(vec![
        vec![o, o, o, o, o,],
        vec![X, o, o, o, o,],
        vec![o, o, o, X, o,],
        vec![o, o, o, o, o,],
        vec![o, o, o, o, o,],
    ], StdRng::from_seed(SEED));
    let expected_board = Board::new(vec![
        vec![o, o, o, o, o,],
        vec![X, o, o, o, o,],
        vec![o, o, X, o, o,],
        vec![o, o, o, o, o,],
        vec![o, o, o, o, o,],
    ], StdRng::from_seed(SEED));
    board.left();
    assert_eq!(board, expected_board);
}

#[test]
fn left_stops_at_other_blocks() {
    let mut board = Board::new(vec![
        vec![o, o, o, o, o,],
        vec![X, X, o, o, o,],
        vec![o, o, o, X, o,],
        vec![o, o, o, o, o,],
        vec![o, o, o, o, o,],
    ], StdRng::from_seed(SEED));
    let expected_board = Board::new(vec![
        vec![o, o, o, o, o,],
        vec![X, X, o, o, o,],
        vec![o, o, X, o, o,],
        vec![o, o, o, o, o,],
        vec![o, o, o, o, o,],
    ], StdRng::from_seed(SEED));
    board.left();
    assert_eq!(board, expected_board);
}

#[test]
fn left_only_moves_falling_blocks() {
    let mut board = Board::new(vec![
        vec![o, o, o, X, o, ],
        vec![o, o, o, X, o, ],
        vec![o, X, o, o, o, ],
        vec![o, o, o, o, X, ],
        vec![o, X, o, o, X,],
    ], StdRng::from_seed(SEED));
    let expected_board = Board::new(vec![
        vec![o, o, X, o, o, ],
        vec![o, o, X, o, o, ],
        vec![X, o, o, o, o, ],
        vec![o, o, o, o, X, ],
        vec![o, X, o, o, X, ],
    ], StdRng::from_seed(SEED));
    board.left();
    assert_eq!(board, expected_board);
}

#[test]
fn right_moves_blocks_to_the_right() {
    let mut board = Board::new(vec![
        vec![o, o, o, o, o,],
        vec![X, o, o, o, o,],
        vec![o, o, o, o, o,],
        vec![o, o, X, o, o,],
        vec![o, o, o, o, o,],
    ], StdRng::from_seed(SEED));
    let expected_board = Board::new(vec![
        vec![o, o, o, o, o,],
        vec![o, X, o, o, o,],
        vec![o, o, o, o, o,],
        vec![o, o, o, X, o,],
        vec![o, o, o, o, o,],
    ], StdRng::from_seed(SEED));
    board.right();
    assert_eq!(board, expected_board);
}

#[test]
fn right_stops_at_walls() {
    let mut board = Board::new(vec![
        vec![o, o, o, o, o,],
        vec![X, o, o, o, o,],
        vec![o, o, o, o, o,],
        vec![o, o, o, o, X,],
        vec![o, o, o, o, o,],
    ], StdRng::from_seed(SEED));
    let expected_board = Board::new(vec![
        vec![o, o, o, o, o,],
        vec![o, X, o, o, o,],
        vec![o, o, o, o, o,],
        vec![o, o, o, o, X,],
        vec![o, o, o, o, o,],
    ], StdRng::from_seed(SEED));
    board.right();
    assert_eq!(board, expected_board);
}

#[test]
fn right_stops_at_other_blocks() {
    let mut board = Board::new(vec![
        vec![o, o, o, o, o,],
        vec![X, o, o, o, o,],
        vec![o, o, o, o, o,],
        vec![o, o, o, X, X,],
        vec![o, o, o, o, o,],
    ], StdRng::from_seed(SEED));
    let expected_board = Board::new(vec![
        vec![o, o, o, o, o,],
        vec![o, X, o, o, o,],
        vec![o, o, o, o, o,],
        vec![o, o, o, X, X,],
        vec![o, o, o, o, o,],
    ], StdRng::from_seed(SEED));
    board.right();
    assert_eq!(board, expected_board);
}

#[test]
fn right_only_moves_falling_blocks() {
    let mut board = Board::new(vec![
        vec![o, o, X, o, o, ],
        vec![o, o, X, o, o, ],
        vec![X, o, o, o, o, ],
        vec![o, o, o, o, X, ],
        vec![X, o, o, o, X, ],
    ], StdRng::from_seed(SEED));
    let expected_board = Board::new(vec![
        vec![o, o, o, X, o, ],
        vec![o, o, o, X, o, ],
        vec![o, X, o, o, o, ],
        vec![o, o, o, o, X, ],
        vec![X, o, o, o, X, ],
    ], StdRng::from_seed(SEED));
    board.right();
    assert_eq!(board, expected_board);
}
