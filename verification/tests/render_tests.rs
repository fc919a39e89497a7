use minesweeper::Grid;

#[test]
fn revealed_all_hidden() {
    // No cell of a decoded or generated grid is discovered, so the revealed
    // display is a rows x cols block of `#`, every row newline-terminated,
    // the last included.
    let grid = Grid::from_debug_str("X*1\n***\n*2*");
    assert_eq!(grid.to_revealed_str(), "###\n###\n###\n");

    let empty = Grid::make_empty(2, 5);
    assert_eq!(empty.to_revealed_str(), "#####\n#####\n");
}

#[test]
fn revealed_of_empty_grid_is_empty() {
    let grid = Grid::from_debug_str("");
    assert_eq!(grid.to_revealed_str(), "");
}

#[test]
fn revealed_random_grid_is_all_masked() {
    let grid = Grid::make_random();
    let shown = grid.to_revealed_str();
    assert_eq!(shown, "##########\n".repeat(10));
}
