use minesweeper::Grid;

#[test]
fn make_random_standard_shape() {
    let grid = Grid::make_random();
    assert_eq!(grid.dims(), (10, 10));
    let encoded = grid.to_debug_str();
    let lines: Vec<&str> = encoded.split('\n').collect();
    assert_eq!(lines.len(), 10);
    for line in lines {
        assert_eq!(line.chars().count(), 10);
    }
}

#[test]
fn mine_rate_is_about_five_percent() {
    // Mine placement is a per-cell Bernoulli trial with p = 0.05. Over 500
    // standard boards (50,000 cells) the expected mine count is 2,500 with a
    // standard deviation of about 49; the bounds below sit eight standard
    // deviations out, so the test is statistically stable while still
    // rejecting any clearly wrong rate. Hints never overwrite a mine, so
    // counting `X` in the encoding counts the mines placed.
    let mut mines = 0usize;
    for _ in 0..500 {
        let grid = Grid::make_random();
        let encoded = grid.to_debug_str();
        mines += encoded.chars().filter(|&c| c == 'X').count();
    }
    assert!(mines > 2100, "mine rate too low: {mines} of 50000");
    assert!(mines < 2900, "mine rate too high: {mines} of 50000");
}

#[test]
fn make_random_hints_consistent_with_mines() {
    // Every digit on a generated board equals the number of adjacent mines,
    // and every empty cell has none adjacent.
    let grid = Grid::make_random();
    let encoded = grid.to_debug_str();
    let lines: Vec<Vec<char>> = encoded.split('\n').map(|l| l.chars().collect()).collect();
    for r in 0..10i32 {
        for c in 0..10i32 {
            let mut around = 0u32;
            for dr in -1..=1 {
                for dc in -1..=1 {
                    if (dr, dc) == (0, 0) {
                        continue;
                    }
                    let (nr, nc) = (r + dr, c + dc);
                    if (0..10).contains(&nr)
                        && (0..10).contains(&nc)
                        && lines[nr as usize][nc as usize] == 'X'
                    {
                        around += 1;
                    }
                }
            }
            let ch = lines[r as usize][c as usize];
            match ch {
                'X' => {}
                '*' => assert_eq!(around, 0),
                d => assert_eq!(d.to_digit(10), Some(around)),
            }
        }
    }
}
