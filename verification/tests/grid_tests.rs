use minesweeper::Cell;
use minesweeper::Grid;
use minesweeper::Status;

// For each neighbor-count test, check the number of mines next to position (1, 1).

#[test]
fn one_mine() {
    let debug_str = "\
                            *X*\n\
                            ***\n\
                            ***\n\
                        ";
    let grid = Grid::from_debug_str(debug_str);

    let nb_mines = grid.count_near_mines((1, 1));
    assert_eq!(1, nb_mines);
}

#[test]
fn many_mines() {
    let debug_str = "\
                            X*X\n\
                            ***\n\
                            X*X\n\
                        ";
    let grid = Grid::from_debug_str(debug_str);

    let nb_mines = grid.count_near_mines((1, 1));
    assert_eq!(4, nb_mines);
}

#[test]
fn single_mine_neighborhood() {
    // A 10x10 board with a single mine at (5, 5): each of the 8 surrounding
    // positions counts exactly that one mine, and the mine's own position
    // counts zero (the cell itself is never included).
    let mut text = String::new();
    for r in 0..10 {
        for c in 0..10 {
            text.push(if (r, c) == (5, 5) { 'X' } else { '*' });
        }
        text.push('\n');
    }
    let grid = Grid::from_debug_str(&text);
    for r in 4..=6 {
        for c in 4..=6 {
            let expected = if (r, c) == (5, 5) { 0 } else { 1 };
            assert_eq!(expected, grid.count_near_mines((r, c)));
        }
    }
}

#[test]
fn count_four_mines_at_center() {
    // Mines at (4,4), (6,4), (6,5) and (6,6): position (5,5) is adjacent to
    // exactly those four.
    let mut text = String::new();
    for r in 0..10 {
        for c in 0..10 {
            let mine = [(4, 4), (6, 4), (6, 5), (6, 6)].contains(&(r, c));
            text.push(if mine { 'X' } else { '*' });
        }
        text.push('\n');
    }
    let grid = Grid::from_debug_str(&text);
    assert_eq!(4, grid.count_near_mines((5, 5)));
}

#[test]
fn cell_new_is_empty_undiscovered() {
    let cell = Cell::new();
    assert!(cell.status == Status::Empty);
    assert!(!cell.discovered);
}

#[test]
fn make_empty_all_cells_empty() {
    // Every cell of a freshly built grid is empty and undiscovered, for more
    // shapes than the standard one: visible through the debug encoding,
    // which writes `*` exactly for an undiscovered-independent Empty status,
    // and through the masked rendering, which writes `#` for undiscovered.
    let grid = Grid::make_empty(3, 4);
    assert_eq!(grid.dims(), (3, 4));
    assert_eq!(grid.to_debug_str(), "****\n****\n****");

    let wide = Grid::make_empty(1, 6);
    assert_eq!(wide.dims(), (1, 6));
    assert_eq!(wide.to_debug_str(), "******");

    for (r, c) in [(0, 0), (2, 3), (5, 1)] {
        let g = Grid::make_empty(r, c);
        assert_eq!(g.dims(), (r, c));
    }
}

#[test]
fn hints_one_mine() {
    // Deriving hints on the single-mine board matches decoding the board
    // that already carries them, field for field.
    let mut grid = Grid::from_debug_str("*X*\n***\n***");
    grid.generate_hints();
    let expected = Grid::from_debug_str("1X1\n111\n***");
    assert!(grid == expected);
}

#[test]
fn hints_corner_mines() {
    let mut grid = Grid::from_debug_str("X*X\n***\nX*X");
    grid.generate_hints();
    let expected = Grid::from_debug_str("X2X\n242\nX2X");
    assert!(grid == expected);
}

#[test]
fn hints_many_mines() {
    let without_hints = "\
                            **********\n\
                            *X********\n\
                            **********\n\
                            *****X****\n\
                            ****X*X***\n\
                            *****X****\n\
                            ******X***\n\
                            **********\n\
                            X*********\n\
                            XXX*******\n\
                        ";
    let with_hints = "\
                            111*******\n\
                            1X1*******\n\
                            111*111***\n\
                            ***12X21**\n\
                            ***1X4X1**\n\
                            ***12X32**\n\
                            ****12X1**\n\
                            11***111**\n\
                            X421******\n\
                            XXX1******\n\
                        ";
    let grid_ref = Grid::from_debug_str(with_hints);
    let mut grid_cmp = Grid::from_debug_str(without_hints);

    grid_cmp.generate_hints();
    assert!(grid_ref == grid_cmp);
}

#[test]
fn hints_never_overwrite_mines() {
    // Every `X` of the input is still an `X` after hint derivation.
    let text = "XX*\n***\nX*X";
    let mut grid = Grid::from_debug_str(text);
    grid.generate_hints();
    let encoded = grid.to_debug_str();
    for (a, b) in text.chars().zip(encoded.chars()) {
        if a == 'X' {
            assert_eq!(b, 'X');
        }
    }
}

#[test]
fn hints_depend_on_mines_alone() {
    // The hints a derivation writes depend only on where the mines are: a
    // second derivation, with the mines unchanged, rewrites the same board.
    let mut grid = Grid::from_debug_str("X**\n***\n**X");
    grid.generate_hints();
    let first = grid.to_debug_str();
    grid.generate_hints();
    let second = grid.to_debug_str();
    assert_eq!(first, second);
}
