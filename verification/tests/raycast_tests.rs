use mazecast::maze::Maze;
use mazecast::raycast::cast_ray;

const FP: i64 = 65536;

/// A grid of walls with the listed cells opened.
fn grid_with_open(width: usize, height: usize, open: &[(usize, usize)]) -> Maze {
    let mut cells = vec![vec![true; width]; height];
    for &(x, y) in open {
        cells[y][x] = false;
    }
    Maze { width, height, cells }
}

#[test]
fn test_ray_corridor_hits_east_wall() {
    // A 5x5 maze with a single corridor (1,1) -> (3,1) -> (3,3). A ray from
    // (1.5, 1.5) facing +x passes the open cells at x = 1..3 and strikes
    // the wall at x = 4 at perpendicular distance 2.5, on an east/west face.
    let m = grid_with_open(5, 5, &[(1, 1), (2, 1), (3, 1), (3, 2), (3, 3)]);
    let r = cast_ray(FP + FP / 2, FP + FP / 2, 0, &m, 20 * FP);
    assert_eq!(r.distance, 2 * FP + FP / 2);
    assert_eq!(r.wall_type, 3);
    // Hit point: origin + direction * distance, with cos 0 = 1 and sin 0 = 0.
    assert_eq!(r.hit_x, 4 * FP);
    assert_eq!(r.hit_y, FP + FP / 2);
}

#[test]
fn test_ray_clamps_to_max_distance() {
    // An open 45x45 room: the far wall lies about 42.5 cells away, beyond
    // the 20-cell visibility range, so the result is exactly the range.
    let mut open = Vec::new();
    for y in 1..44 {
        for x in 1..44 {
            open.push((x, y));
        }
    }
    let m = grid_with_open(45, 45, &open);
    let r = cast_ray(FP + FP / 2, FP + FP / 2, 0, &m, 20 * FP);
    assert_eq!(r.distance, 20 * FP);
}

#[test]
fn test_ray_monotone_in_start_distance() {
    // One corridor row; the wall ahead lies at x = 9. Cast the same +x ray
    // adjacent to the wall and two cells farther back, with nothing in
    // between: the nearer origin reports the strictly smaller distance.
    let mut open = Vec::new();
    for x in 1..9 {
        open.push((x, 1usize));
    }
    let m = grid_with_open(11, 5, &open);
    let near = cast_ray(7 * FP + FP / 2, FP + FP / 2, 0, &m, 20 * FP);
    let far = cast_ray(5 * FP + FP / 2, FP + FP / 2, 0, &m, 20 * FP);
    assert_eq!(near.distance, FP + FP / 2);
    assert_eq!(far.distance, 3 * FP + FP / 2);
    assert!(near.distance < far.distance);
}

#[test]
fn test_ray_backward_hits_west_wall() {
    // Facing -x from the corridor: the wall behind the entrance is at
    // x = 0, struck at distance 0.5 on the other horizontal face code.
    let m = grid_with_open(5, 5, &[(1, 1), (2, 1), (3, 1)]);
    // pi in fixed-point units.
    let r = cast_ray(FP + FP / 2, FP + FP / 2, 205887, &m, 20 * FP);
    assert_eq!(r.wall_type, 2);
    // cos pi is -65536 +/- rounding; the perpendicular distance is close
    // to 0.5 but depends on the fixed-point cosine, so only bound it.
    assert!(r.distance >= FP / 4 && r.distance <= 3 * FP / 4);
}

#[test]
fn test_ray_vertical_faces() {
    // Facing +y (angle pi/2): the wall below the corridor is struck on a
    // north/south face.
    let m = grid_with_open(5, 5, &[(1, 1), (1, 2), (1, 3)]);
    let r = cast_ray(FP + FP / 2, FP + FP / 2, 102944, &m, 20 * FP);
    assert_eq!(r.wall_type, 1);
    let r2 = cast_ray(FP + FP / 2, FP + FP / 2, 3 * 102944, &m, 20 * FP);
    assert_eq!(r2.wall_type, 0);
}

#[test]
fn test_ray_distance_never_exceeds_max() {
    let m = Maze::new(21, 21);
    for i in 0..64 {
        let angle = i * (411775 / 64);
        let r = cast_ray(FP + FP / 2, FP + FP / 2, angle, &m, 20 * FP);
        assert!(r.distance >= 0);
        assert!(r.distance <= 20 * FP);
        assert!(r.wall_type <= 3);
    }
}
