use mazecast::maze::Maze;

fn flood_reaches(m: &Maze, tx: usize, ty: usize) -> bool {
    let mut seen = vec![vec![false; m.width]; m.height];
    let mut queue = vec![(1usize, 1usize)];
    seen[1][1] = true;
    while let Some((x, y)) = queue.pop() {
        if x == tx && y == ty {
            return true;
        }
        let mut cands = Vec::new();
        if x > 0 {
            cands.push((x - 1, y));
        }
        if x + 1 < m.width {
            cands.push((x + 1, y));
        }
        if y > 0 {
            cands.push((x, y - 1));
        }
        if y + 1 < m.height {
            cands.push((x, y + 1));
        }
        for (nx, ny) in cands {
            if !m.cells[ny][nx] && !seen[ny][nx] {
                seen[ny][nx] = true;
                queue.push((nx, ny));
            }
        }
    }
    false
}

#[test]
fn test_maze_border_walls() {
    let m = Maze::new(41, 41);
    for x in 0..41 {
        assert!(m.is_wall(x, 0));
        assert!(m.is_wall(x, 40));
    }
    for y in 0..41 {
        assert!(m.is_wall(0, y));
        assert!(m.is_wall(40, y));
    }
}

#[test]
fn test_maze_entrance_and_exit_open() {
    for _ in 0..5 {
        let m = Maze::new(41, 41);
        assert!(!m.is_wall(1, 1));
        assert!(!m.is_wall(39, 39));
    }
}

#[test]
fn test_maze_connectivity() {
    for _ in 0..5 {
        let m = Maze::new(41, 41);
        assert!(flood_reaches(&m, 39, 39));
    }
}

#[test]
fn test_maze_small_sizes() {
    for size in [5usize, 7, 9, 21] {
        let m = Maze::new(size, size);
        assert_eq!(m.width, size);
        assert_eq!(m.height, size);
        assert!(!m.is_wall(1, 1));
        assert!(!m.is_wall(size - 2, size - 2));
        assert!(flood_reaches(&m, size - 2, size - 2));
    }
}

#[test]
fn test_is_wall_out_of_bounds() {
    let m = Maze::new(5, 5);
    assert!(m.is_wall(5, 1));
    assert!(m.is_wall(1, 5));
    assert!(m.is_wall(100, 100));
}

#[test]
fn test_get_cell_fixed_point() {
    let m = Maze::new(41, 41);
    // (1.5, 1.5) lies in the entrance cell, which is open.
    assert!(!m.get_cell(98304, 98304));
    // (0.5, 0.5) lies in the border wall.
    assert!(m.get_cell(32768, 32768));
    // Negative coordinates saturate into the border wall.
    assert!(m.get_cell(-5, 98304));
}

#[test]
fn test_lattice_cells_open() {
    // Generation visits the whole interior lattice: every cell with both
    // coordinates odd is open.
    let m = Maze::new(21, 21);
    for y in (1..20).step_by(2) {
        for x in (1..20).step_by(2) {
            assert!(!m.is_wall(x, y));
        }
    }
}

#[test]
fn test_even_even_cells_stay_walls() {
    // Only lattice points and corridor midpoints are carved: every cell
    // with both coordinates even remains a wall.
    let m = Maze::new(21, 21);
    for y in (0..21).step_by(2) {
        for x in (0..21).step_by(2) {
            assert!(m.is_wall(x, y));
        }
    }
}
