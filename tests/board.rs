use game_of_life::board::Board;
use game_of_life::cell::{Cell, Coordinates};
use game_of_life::error::GameError;
use game_of_life::greeting;

const DEAD: char = '\u{25FB}';
const ALIVE: char = '\u{25FC}';

fn cells_from(alive: &[usize], size: usize) -> Vec<Cell> {
    (0..size)
        .map(|i| if alive.contains(&i) { Cell::Alive } else { Cell::Dead })
        .collect()
}

fn alive_indices(board: &Board) -> Vec<usize> {
    board
        .cells
        .iter()
        .enumerate()
        .filter(|(_, c)| c.is_alive())
        .map(|(i, _)| i)
        .collect()
}

fn display(board: &Board) -> String {
    let width = board.dimensions.0 as usize;
    let mut out = String::new();
    for (i, c) in board.render().chars().enumerate() {
        if i > 0 && i % width == 0 {
            out.push('\n');
        }
        out.push(c);
    }
    out.push('\n');
    out
}

#[test]
fn sim_works() {
    let mut board = Board::default();
    for _ in 0..500 {
        let shown = display(&board);
        assert_eq!(shown.lines().count(), 64);
        assert!(board.update().is_ok());
    }
}

#[test]
fn new_accepts_matching_size() {
    let board = Board::new((3, 2), cells_from(&[1, 4], 6), false).unwrap();
    assert_eq!(board.dimensions, (3, 2));
    assert_eq!(board.cells, cells_from(&[1, 4], 6));
}

#[test]
fn new_rejects_short_sequence() {
    match Board::new((3, 3), cells_from(&[], 8), false) {
        Err(GameError::BoardInitializationError(m)) => assert_eq!(
            m,
            "Board was supposed to be of size 9, but received one of size 8"
        ),
        other => panic!("unexpected result: {:?}", other),
    }
}

#[test]
fn new_rejects_long_sequence() {
    match Board::new((2, 5), cells_from(&[], 11), true) {
        Err(GameError::BoardInitializationError(m)) => assert_eq!(
            m,
            "Board was supposed to be of size 10, but received one of size 11"
        ),
        other => panic!("unexpected result: {:?}", other),
    }
}

#[test]
fn new_accepts_empty_board() {
    let mut board = Board::new((0, 7), Vec::new(), false).unwrap();
    assert!(board.update().is_ok());
    assert_eq!(board.render(), "");
}

#[test]
fn all_dead_stays_dead() {
    let mut board = Board::new((3, 3), cells_from(&[], 9), false).unwrap();
    board.update().unwrap();
    assert_eq!(alive_indices(&board), Vec::<usize>::new());
}

#[test]
fn lone_center_dies() {
    let mut board = Board::new((3, 3), cells_from(&[4], 9), false).unwrap();
    board.update().unwrap();
    assert_eq!(alive_indices(&board), Vec::<usize>::new());
}

#[test]
fn blinker_under_sequential_scan() {
    // A horizontal row of three in the middle of a 5x5 board. The scan reads the
    // already advanced cells above, so the row does not turn into a plain column.
    let mut board = Board::new((5, 5), cells_from(&[11, 12, 13], 25), false).unwrap();
    board.update().unwrap();
    assert_eq!(alive_indices(&board), vec![7, 8, 11, 13]);
    board.update().unwrap();
    assert_eq!(alive_indices(&board), vec![7, 8, 12, 13]);
}

#[test]
fn vertical_blinker_vanishes() {
    let mut board = Board::new((5, 5), cells_from(&[7, 12, 17], 25), false).unwrap();
    board.update().unwrap();
    assert_eq!(alive_indices(&board), Vec::<usize>::new());
}

#[test]
fn block_is_still() {
    let mut board = Board::new((4, 4), cells_from(&[5, 6, 9, 10], 16), false).unwrap();
    board.update().unwrap();
    assert_eq!(alive_indices(&board), vec![5, 6, 9, 10]);
}

#[test]
fn neighbour_counts_by_position() {
    // Every cell alive: the corner sees 3 and survives, the edge cell after it sees 5
    // and dies.
    let mut board = Board::new((3, 3), cells_from(&[0, 1, 2, 3, 4, 5, 6, 7, 8], 9), false).unwrap();
    board.update().unwrap();
    assert_eq!(alive_indices(&board), vec![0, 2, 5, 7, 8]);
}

#[test]
fn dead_corner_with_three_neighbours_is_born() {
    let mut board = Board::new((3, 3), cells_from(&[1, 3, 4], 9), false).unwrap();
    board.update().unwrap();
    assert!(board.cells[0].is_alive());
}

#[test]
fn interior_cell_sees_eight() {
    // The center of a 3x3 board has all eight others around it; with four of them
    // alive it dies of overpopulation.
    let mut board = Board::new((3, 3), cells_from(&[4, 5, 6, 7, 8], 9), false).unwrap();
    assert!(board.cells[4].is_alive());
    board.update().unwrap();
    assert!(!board.cells[4].is_alive());
}

#[test]
fn render_twice_is_identical() {
    let board = Board::new((3, 2), cells_from(&[0, 5], 6), false).unwrap();
    let first = board.render();
    let second = board.render();
    assert_eq!(first, second);
    let expected: String = [ALIVE, DEAD, DEAD, DEAD, DEAD, ALIVE].iter().collect();
    assert_eq!(first, expected);
    assert_eq!(first.chars().count(), 6);
}

#[test]
fn cell_glyphs() {
    assert_eq!(Cell::Dead.render(), DEAD.to_string());
    assert_eq!(Cell::Alive.render(), ALIVE.to_string());
    assert!(Cell::Alive.is_alive());
    assert!(!Cell::Dead.is_alive());
}

#[test]
fn missing_neighbour_is_reported() {
    let mut board = Board::new((3, 3), cells_from(&[], 9), false).unwrap();
    board.cells.pop();
    match board.update() {
        Err(GameError::CellDoesNotExist(m)) => assert_eq!(m, "Cell of index 8 does not exist"),
        other => panic!("unexpected result: {:?}", other),
    }
    assert_eq!(board.cells.len(), 8);
}

#[test]
fn missing_cell_is_reported() {
    let mut board = Board::new((2, 2), cells_from(&[0], 4), false).unwrap();
    board.cells.clear();
    match board.update() {
        Err(GameError::CellDoesNotExist(m)) => assert_eq!(m, "Cell of index 0 does not exist"),
        other => panic!("unexpected result: {:?}", other),
    }
}

#[test]
fn failed_update_keeps_earlier_cells() {
    // Cells 0 to 3 are advanced before the lookup of cell 8 fails.
    let mut board = Board::new((3, 3), cells_from(&[1, 3, 4], 9), false).unwrap();
    board.cells.pop();
    assert!(matches!(board.update(), Err(GameError::CellDoesNotExist(_))));
    assert!(board.cells[0].is_alive());
}

#[test]
fn default_board_alternates() {
    let board = Board::default();
    assert_eq!(board.dimensions, (128, 64));
    assert_eq!(board.cells.len(), 128 * 64);
    assert_eq!(board.cells[0], Cell::Alive);
    assert_eq!(board.cells[1], Cell::Dead);
    assert_eq!(board.cells[8190], Cell::Alive);
    assert_eq!(board.cells[8191], Cell::Dead);
    assert_eq!(board.render().chars().count(), 8192);
}

#[test]
fn coordinates_subtract() {
    let c = Coordinates(3, 7).sub(Coordinates(-1, 1));
    assert_eq!((c.0, c.1), (4, 6));
}

#[test]
fn io_error_converts() {
    let e: GameError = std::io::Error::new(std::io::ErrorKind::Other, "boom").into();
    assert!(matches!(e, GameError::Io(_)));
}

#[test]
fn greeting_names_the_guest() {
    assert_eq!(greeting("world"), "hello world");
    assert_eq!(greeting(""), "hello ");
}
