use minesweeper::Grid;

#[test]
fn grid_empty() {
    let grid_ref = Grid::make_empty(10, 10);
    let debug_str = "\
                            **********\n\
                            **********\n\
                            **********\n\
                            **********\n\
                            **********\n\
                            **********\n\
                            **********\n\
                            **********\n\
                            **********\n\
                            **********\n\
                        ";
    let grid_cmp = Grid::from_debug_str(debug_str);

    assert!(grid_ref == grid_cmp);
}

#[test]
fn empty_with_final_break_line() {
    // A trailing blank line decodes to the same grid.
    let grid_ref = Grid::make_empty(10, 10);
    let mut debug_str = String::new();
    for _ in 0..10 {
        debug_str.push_str("**********\n");
    }
    debug_str.push('\n');
    let grid_cmp = Grid::from_debug_str(&debug_str);

    assert!(grid_ref == grid_cmp);
}

#[test]
fn empty_with_hole_lines() {
    // Blank lines in the middle are bare separators and emit no row.
    let grid_ref = Grid::make_empty(10, 10);
    let mut debug_str = String::new();
    for r in 0..10 {
        debug_str.push_str("**********\n");
        if r == 3 || r == 7 {
            debug_str.push('\n');
            debug_str.push('\n');
        }
    }
    let grid_cmp = Grid::from_debug_str(&debug_str);

    assert!(grid_ref == grid_cmp);
}

#[test]
fn round_trip_fixed() {
    // Encoding a decoded board reproduces the text (when the text is already
    // canonical: rectangular, no trailing newline), and decoding the
    // encoding reproduces the grid.
    let text = "12X\nX42\n*1X";
    let grid = Grid::from_debug_str(text);
    let encoded = grid.to_debug_str();
    assert_eq!(encoded, text);
    let again = Grid::from_debug_str(&encoded);
    assert!(again == grid);
}

#[test]
fn round_trip_random() {
    // Any generation-produced grid survives the round trip: no discovered
    // cells and no out-of-range hints ever come out of generation.
    for _ in 0..20 {
        let grid = Grid::make_random();
        let encoded = grid.to_debug_str();
        let decoded = Grid::from_debug_str(&encoded);
        assert!(decoded == grid);
    }
}

#[test]
fn lenient_unknown_characters() {
    // Unrecognized characters (digit 9 and 0 included: the decoder reads
    // only 1 through 8) degrade to empty cells instead of failing.
    let messy = Grid::from_debug_str("a?9\nX.0");
    let plain = Grid::from_debug_str("***\nX**");
    assert!(messy == plain);
}

#[test]
fn encode_has_no_trailing_newline() {
    let grid = Grid::make_empty(2, 2);
    assert_eq!(grid.to_debug_str(), "**\n**");
    let empty = Grid::from_debug_str("");
    assert_eq!(empty.to_debug_str(), "");
}

#[test]
fn decode_records_max_row_length_at_newlines() {
    // The column count is the high-water mark over the rows closed by a
    // newline; a final unterminated row is flushed but does not raise it.
    let ragged = Grid::from_debug_str("*\n***\n**");
    assert_eq!(ragged.dims(), (3, 3));
    let unterminated = Grid::from_debug_str("**X");
    assert_eq!(unterminated.dims(), (1, 0));
}

#[test]
fn decode_empty_text() {
    let grid = Grid::from_debug_str("");
    assert_eq!(grid.dims(), (0, 0));
    let blank = Grid::from_debug_str("\n\n\n");
    assert_eq!(blank.dims(), (0, 0));
}
