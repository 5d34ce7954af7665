use battlesnake_doctor_strangle::board::Board;
use battlesnake_doctor_strangle::flood::flood_fill;
use battlesnake_doctor_strangle::types::Coord;

fn open(board: &Board) -> Vec<bool> {
    vec![true; (board.width * board.height) as usize]
}

fn block(free: &mut Vec<bool>, board: &Board, x: i64, y: i64) {
    free[(y * board.width + x) as usize] = false;
}

#[test]
fn open_board_fills_every_cell() {
    let board = Board { width: 11, height: 11 };
    assert_eq!(flood_fill(&open(&board), &board, Coord { x: 5, y: 5 }), 121);
    let board = Board { width: 3, height: 7 };
    assert_eq!(flood_fill(&open(&board), &board, Coord { x: 0, y: 6 }), 21);
}

#[test]
fn single_cell_board_fills_one() {
    let board = Board { width: 1, height: 1 };
    assert_eq!(flood_fill(&open(&board), &board, Coord { x: 0, y: 0 }), 1);
}

#[test]
fn enclosed_seed_fills_one() {
    let board = Board { width: 5, height: 5 };
    let mut free = open(&board);
    block(&mut free, &board, 1, 2);
    block(&mut free, &board, 3, 2);
    block(&mut free, &board, 2, 1);
    block(&mut free, &board, 2, 3);
    assert_eq!(flood_fill(&free, &board, Coord { x: 2, y: 2 }), 1);
}

#[test]
fn corner_seed_walled_in_fills_one() {
    let board = Board { width: 4, height: 4 };
    let mut free = open(&board);
    block(&mut free, &board, 1, 0);
    block(&mut free, &board, 0, 1);
    assert_eq!(flood_fill(&free, &board, Coord { x: 0, y: 0 }), 1);
}

#[test]
fn wall_splits_board() {
    let board = Board { width: 5, height: 3 };
    let mut free = open(&board);
    for y in 0..3 {
        block(&mut free, &board, 2, y);
    }
    assert_eq!(flood_fill(&free, &board, Coord { x: 0, y: 1 }), 6);
    assert_eq!(flood_fill(&free, &board, Coord { x: 4, y: 0 }), 6);
}

#[test]
fn board_contains_is_half_open() {
    let board = Board { width: 3, height: 2 };
    assert!(board.contains(Coord { x: 0, y: 0 }));
    assert!(board.contains(Coord { x: 2, y: 1 }));
    assert!(!board.contains(Coord { x: 3, y: 1 }));
    assert!(!board.contains(Coord { x: 2, y: 2 }));
    assert!(!board.contains(Coord { x: -1, y: 0 }));
}
