use mazecast::game::{GameState, MazeData, PlayerInput, MOVE_SPEED, TURN_SPEED, MAX_DISTANCE};
use mazecast::game::{get_ascii_char, get_color, get_floor_char, calculate_floor_distance};
use mazecast::maze::Maze;

const FP: i64 = 65536;
const TWO_PI: i64 = 411775;

fn no_input() -> PlayerInput {
    PlayerInput {
        forward: false,
        backward: false,
        left: false,
        right: false,
        turn_left: false,
        turn_right: false,
    }
}

fn walls_except(width: usize, height: usize, open: &[(usize, usize)]) -> Maze {
    let mut cells = vec![vec![true; width]; height];
    for &(x, y) in open {
        cells[y][x] = false;
    }
    Maze { width, height, cells }
}

#[test]
fn test_forward_moves_by_increment() {
    // Starting pose (1.5, 1.5, angle 0) in the default maze: one forward
    // tick moves +x by exactly the move increment (the candidate stays in
    // the open entrance cell), with y unchanged.
    let mut gs = GameState::new();
    assert_eq!(gs.player_x, FP + FP / 2);
    assert_eq!(gs.player_y, FP + FP / 2);
    assert_eq!(gs.player_angle, 0);
    let mut input = no_input();
    input.forward = true;
    gs.update(&input);
    assert_eq!(gs.player_x, FP + FP / 2 + MOVE_SPEED);
    assert_eq!(gs.player_y, FP + FP / 2);
}

#[test]
fn test_movement_blocked_by_wall() {
    // The player stands one move increment from the wall at x = 2 in a
    // single-cell room: a forward tick leaves the position unchanged.
    let maze = walls_except(5, 5, &[(1, 1)]);
    let x0 = 2 * FP - MOVE_SPEED + 1;
    let mut gs = GameState { player_x: x0, player_y: FP + FP / 2, player_angle: 0, maze };
    let mut input = no_input();
    input.forward = true;
    gs.update(&input);
    assert_eq!(gs.player_x, x0);
    assert_eq!(gs.player_y, FP + FP / 2);
}

#[test]
fn test_backward_and_strafe() {
    // In an open room every intent moves by its own increment: backward
    // along -x, strafe-left toward -y, strafe-right toward +y (angle 0).
    let mut open = Vec::new();
    for y in 1..8 {
        for x in 1..8 {
            open.push((x, y));
        }
    }
    let maze = walls_except(9, 9, &open);
    let mut gs = GameState { player_x: 4 * FP, player_y: 4 * FP, player_angle: 0, maze };
    let mut input = no_input();
    input.backward = true;
    gs.update(&input);
    assert_eq!(gs.player_x, 4 * FP - MOVE_SPEED);
    assert_eq!(gs.player_y, 4 * FP);
    let mut input2 = no_input();
    input2.left = true;
    input2.right = true;
    let x1 = gs.player_x;
    gs.update(&input2);
    // Left then right strafe cancel on the y axis and leave x alone.
    assert_eq!(gs.player_x, x1);
    assert_eq!(gs.player_y, 4 * FP);
}

#[test]
fn test_turn_left_wraps_into_range() {
    let mut gs = GameState::new();
    let mut input = no_input();
    input.turn_left = true;
    gs.update(&input);
    assert_eq!(gs.player_angle, TWO_PI - TURN_SPEED);
    assert!(gs.player_angle >= 0 && gs.player_angle < TWO_PI);
}

#[test]
fn test_angle_always_normalized() {
    // Any sequence of turn intents keeps the heading in [0, two pi).
    let mut gs = GameState::new();
    let mut right = no_input();
    right.turn_right = true;
    for _ in 0..300 {
        gs.update(&right);
        assert!(gs.player_angle >= 0 && gs.player_angle < TWO_PI);
    }
    let mut left = no_input();
    left.turn_left = true;
    for _ in 0..300 {
        gs.update(&left);
        assert!(gs.player_angle >= 0 && gs.player_angle < TWO_PI);
    }
}

#[test]
fn test_render_shape() {
    // render(w, h) yields exactly h rows separated by line breaks, each of
    // exactly w characters, with no trailing separator.
    let gs = GameState::new();
    for (w, h) in [(80usize, 24usize), (1, 1), (7, 3), (120, 40)] {
        let frame = gs.render_frame(w, h);
        let rows: Vec<&str> = frame.split('\n').collect();
        assert_eq!(rows.len(), h);
        for row in rows {
            assert_eq!(row.chars().count(), w);
        }
        assert!(!frame.ends_with('\n'));
    }
}

#[test]
fn test_render_wall_band_glyph() {
    // A one-cell room, ray straight at a wall 0.5 cells away: the center
    // row of the frame lies inside the wall band and carries the densest
    // glyph (distance ratio 0.025 of the visibility range).
    let maze = walls_except(5, 5, &[(1, 1)]);
    let gs = GameState { player_x: FP + FP / 2, player_y: FP + FP / 2, player_angle: 0, maze };
    let frame = gs.render_frame(1, 5);
    let rows: Vec<&str> = frame.split('\n').collect();
    assert_eq!(rows[2], "\u{2588}");
}

#[test]
fn test_maze_data_round_trip() {
    let m = Maze::new(21, 21);
    let w = m.width;
    let h = m.height;
    let open_11 = !m.cells[1][1];
    let data = MazeData::from(m);
    assert_eq!(data.width, w);
    assert_eq!(data.height, h);
    let back = Maze::from(data);
    assert_eq!(back.width, w);
    assert_eq!(back.height, h);
    assert_eq!(!back.cells[1][1], open_11);
}

#[test]
fn test_wall_glyph_bands() {
    let m = MAX_DISTANCE;
    assert_eq!(get_ascii_char(m / 20, 0, m), '\u{2588}');
    assert_eq!(get_ascii_char(m / 5, 1, m), '\u{2593}');
    assert_eq!(get_ascii_char(2 * m / 5, 2, m), '\u{2592}');
    assert_eq!(get_ascii_char(3 * m / 5, 3, m), '\u{2591}');
    assert_eq!(get_ascii_char(9 * m / 10, 0, m), '\u{b7}');
    // The wall face code does not affect the glyph.
    assert_eq!(get_ascii_char(m / 5, 0, m), get_ascii_char(m / 5, 3, m));
}

#[test]
fn test_color_bands() {
    let m = MAX_DISTANCE;
    assert_eq!(get_color(m / 10, m), 5);
    assert_eq!(get_color(3 * m / 10, m), 4);
    assert_eq!(get_color(m / 2, m), 3);
    assert_eq!(get_color(7 * m / 10, m), 2);
    assert_eq!(get_color(9 * m / 10, m), 1);
}

#[test]
fn test_floor_glyph_bands() {
    let m = MAX_DISTANCE;
    assert_eq!(get_floor_char(m / 5, m), '.');
    assert_eq!(get_floor_char(9 * m / 20, m), ',');
    assert_eq!(get_floor_char(9 * m / 10, m), ' ');
}

#[test]
fn test_floor_distance_row_mapping() {
    // At or above the screen center the vertical offset is floored at one
    // tenth, giving the fixed far distance 1 / 0.1000061... in fixed point.
    assert_eq!(calculate_floor_distance(0, 12, 80, 24, 0, 0), 655320);
    assert_eq!(calculate_floor_distance(0, 0, 80, 24, 0, 0), 655320);
    // Farther down the screen the floor is nearer.
    let lower = calculate_floor_distance(0, 23, 80, 24, 0, 0);
    let upper = calculate_floor_distance(0, 18, 80, 24, 0, 0);
    assert!(lower < upper);
}
