//! Game state: player pose, per-tick state transition, and frame rendering.
//!
//! The player pose is a fixed-point position in grid-cell units and a
//! fixed-point heading kept normalized in `[0, TWO_PI)`. One update tick
//! applies the turn intents, renormalizes the heading, and then evaluates
//! each movement intent independently against the maze (a blocked intent
//! leaves the position unchanged; intents are not combined into a diagonal
//! step). Rendering casts one ray per output column and projects the
//! results into a character grid.

use vstd::prelude::*;
use crate::fixed::{FP, TWO_PI, HALF_PI, spec_sin, spec_cos, spec_scale, spec_normalize_angle,
    sin_fix, cos_fix, fix_scale, normalize_angle};
use crate::maze::{Maze, reachable, spec_cell_index};
use crate::raycast::{cast_ray, spec_ray_distance};

verus! {

/// Distance moved per tick with a movement intent set, in fixed-point
/// grid-cell units (about 0.05 of a cell).
pub const MOVE_SPEED: i64 = 3277;

/// Heading change per tick with a turn intent set, in fixed-point radians
/// (about 0.05 rad).
pub const TURN_SPEED: i64 = 3277;

/// Field of view of the rendered cone, in fixed-point radians (pi/3).
pub const FOV: i64 = 68629;

/// Maximum visibility distance of a ray, in fixed-point grid-cell units
/// (20 cells).
pub const MAX_DISTANCE: i64 = 1310720;

/// Width and height of the maze built for a new game.
pub const DEFAULT_MAZE_SIZE: usize = 41;

/// Plain structural form of the maze grid, for carrying maze state across
/// an outside boundary.
pub struct MazeData {
    pub width: usize,
    pub height: usize,
    pub cells: Vec<Vec<bool>>,
}

/// The six boolean intents of one input tick.
pub struct PlayerInput {
    pub forward: bool,
    pub backward: bool,
    pub left: bool,
    pub right: bool,
    pub turn_left: bool,
    pub turn_right: bool,
}

/// The whole game session state: player pose and the maze.
pub struct GameState {
    pub player_x: i64,
    pub player_y: i64,
    pub player_angle: i64,
    pub maze: Maze,
}

impl From<Maze> for MazeData {
    fn from(m: Maze) -> (r: MazeData) {
        MazeData { width: m.width, height: m.height, cells: m.cells }
    }
}

impl vstd::std_specs::convert::FromSpecImpl<Maze> for MazeData {
    open spec fn obeys_from_spec() -> bool {
        true
    }

    open spec fn from_spec(m: Maze) -> MazeData {
        MazeData { width: m.width, height: m.height, cells: m.cells }
    }
}

impl From<MazeData> for Maze {
    fn from(d: MazeData) -> (r: Maze) {
        Maze { width: d.width, height: d.height, cells: d.cells }
    }
}

impl vstd::std_specs::convert::FromSpecImpl<MazeData> for Maze {
    open spec fn obeys_from_spec() -> bool {
        true
    }

    open spec fn from_spec(d: MazeData) -> Maze {
        Maze { width: d.width, height: d.height, cells: d.cells }
    }
}

/// One movement attempt: the candidate position offset by `(dx, dy)` is
/// taken when the cell containing it is open, and the position stays
/// unchanged when that cell is a wall.
pub open spec fn spec_move(m: Maze, x: int, y: int, dx: int, dy: int) -> (int, int) {
    let nx = x + dx;
    let ny = y + dy;
    if !m.spec_is_wall(spec_cell_index(nx), spec_cell_index(ny)) {
        (nx, ny)
    } else {
        (x, y)
    }
}

/// Law: a movement intent whose candidate cell is a wall leaves the
/// position exactly unchanged.
pub proof fn lemma_move_blocked(m: Maze, x: int, y: int, dx: int, dy: int)
    requires
        m.spec_is_wall(spec_cell_index(x + dx), spec_cell_index(y + dy)),
    ensures
        spec_move(m, x, y, dx, dy) == (x, y),
{
}

/// Law: a movement intent whose candidate cell is open moves the position
/// by exactly the intended increment.
pub proof fn lemma_move_open(m: Maze, x: int, y: int, dx: int, dy: int)
    requires
        !m.spec_is_wall(spec_cell_index(x + dx), spec_cell_index(y + dy)),
    ensures
        spec_move(m, x, y, dx, dy) == (x + dx, y + dy),
{
}

/// The heading after one tick: turn intents applied, then folded back into
/// `[0, TWO_PI)`.
pub open spec fn spec_angle_after(angle: int, turn_left: bool, turn_right: bool) -> int {
    spec_normalize_angle(
        angle - (if turn_left {
            TURN_SPEED as int
        } else {
            0
        }) + (if turn_right {
            TURN_SPEED as int
        } else {
            0
        }),
    )
}

/// Law: from a normalized heading, any combination of turn intents leaves
/// the heading normalized in `[0, TWO_PI)`; by induction, any sequence of
/// ticks does.
pub proof fn lemma_angle_normalized(angle: int, turn_left: bool, turn_right: bool)
    requires
        0 <= angle < TWO_PI,
    ensures
        0 <= spec_angle_after(angle, turn_left, turn_right) < TWO_PI,
{
}

/// The position after one tick, given the already-updated heading `a`:
/// the four movement intents are evaluated in order (forward, backward,
/// strafe-left, strafe-right), each independently against the maze.
pub open spec fn spec_pose_after(m: Maze, x: int, y: int, a: int, input: PlayerInput) -> (
    int,
    int,
) {
    let dx = spec_scale(spec_cos(a), MOVE_SPEED as int);
    let dy = spec_scale(spec_sin(a), MOVE_SPEED as int);
    let ldx = spec_scale(spec_cos(a - HALF_PI), MOVE_SPEED as int);
    let ldy = spec_scale(spec_sin(a - HALF_PI), MOVE_SPEED as int);
    let rdx = spec_scale(spec_cos(a + HALF_PI), MOVE_SPEED as int);
    let rdy = spec_scale(spec_sin(a + HALF_PI), MOVE_SPEED as int);
    let p1 = if input.forward {
        spec_move(m, x, y, dx, dy)
    } else {
        (x, y)
    };
    let p2 = if input.backward {
        spec_move(m, p1.0, p1.1, -dx, -dy)
    } else {
        p1
    };
    let p3 = if input.left {
        spec_move(m, p2.0, p2.1, ldx, ldy)
    } else {
        p2
    };
    if input.right {
        spec_move(m, p3.0, p3.1, rdx, rdy)
    } else {
        p3
    }
}

impl GameState {
    /// The session state is well formed: the maze has its shape invariant
    /// and a solid border, the player position lies inside the grid, and
    /// the heading is normalized.
    pub open spec fn wf(self) -> bool {
        &&& self.maze.wf()
        &&& self.maze.border_walled()
        &&& 0 <= self.player_x < (self.maze.width as int) * FP
        &&& 0 <= self.player_y < (self.maze.height as int) * FP
        &&& 0 <= self.player_angle < TWO_PI
    }

    /// Starts a session: a freshly generated default-size maze and the
    /// player in the middle of the entrance cell, facing along +x.
    pub fn new() -> (s: GameState)
        ensures
            s.wf(),
            s.maze.width == DEFAULT_MAZE_SIZE,
            s.maze.height == DEFAULT_MAZE_SIZE,
            !s.maze.spec_cell(1, 1),
            !s.maze.spec_cell(s.maze.width - 2, s.maze.height - 2),
            forall|x: int, y: int|
                0 <= x < s.maze.width && 0 <= y < s.maze.height && !#[trigger] s.maze.spec_cell(
                    x,
                    y,
                ) ==> reachable(s.maze, x, y),
            reachable(s.maze, s.maze.width - 2, s.maze.height - 2),
            s.player_x == FP + FP / 2,
            s.player_y == FP + FP / 2,
            s.player_angle == 0,
    {
        let maze = Maze::new(DEFAULT_MAZE_SIZE, DEFAULT_MAZE_SIZE);
        GameState { player_x: FP + FP / 2, player_y: FP + FP / 2, player_angle: 0, maze }
    }

    /// Advances the state by one input tick: turns are applied to the
    /// heading (renormalized), then each movement intent is tried
    /// independently from the heading-derived direction, committing only
    /// candidates whose cell is open.
    #[verifier::rlimit(100)]
    pub fn update(&mut self, input: &PlayerInput)
        requires
            old(self).wf(),
        ensures
            final(self).wf(),
            final(self).maze == old(self).maze,
            final(self).player_angle == spec_angle_after(
                old(self).player_angle as int,
                input.turn_left,
                input.turn_right,
            ),
            (final(self).player_x as int, final(self).player_y as int) == spec_pose_after(
                old(self).maze,
                old(self).player_x as int,
                old(self).player_y as int,
                final(self).player_angle as int,
                *input,
            ),
    {
        let mut angle = self.player_angle;
        if input.turn_left {
            angle = angle - TURN_SPEED;
        }
        if input.turn_right {
            angle = angle + TURN_SPEED;
        }
        angle = normalize_angle(angle);
        self.player_angle = angle;

        let dx = fix_scale(cos_fix(angle), MOVE_SPEED);
        let dy = fix_scale(sin_fix(angle), MOVE_SPEED);

        if input.forward {
            let new_x = self.player_x + dx;
            let new_y = self.player_y + dy;
            if !self.maze.get_cell(new_x, new_y) {
                proof {
                    lemma_wall_cell_interior(self.maze, new_x as int, new_y as int);
                }
                self.player_x = new_x;
                self.player_y = new_y;
            }
        }
        if input.backward {
            let new_x = self.player_x - dx;
            let new_y = self.player_y - dy;
            if !self.maze.get_cell(new_x, new_y) {
                proof {
                    lemma_wall_cell_interior(self.maze, new_x as int, new_y as int);
                }
                self.player_x = new_x;
                self.player_y = new_y;
            }
        }
        if input.left {
            let left_angle = angle - HALF_PI;
            let ldx = fix_scale(cos_fix(left_angle), MOVE_SPEED);
            let ldy = fix_scale(sin_fix(left_angle), MOVE_SPEED);
            let new_x = self.player_x + ldx;
            let new_y = self.player_y + ldy;
            if !self.maze.get_cell(new_x, new_y) {
                proof {
                    lemma_wall_cell_interior(self.maze, new_x as int, new_y as int);
                }
                self.player_x = new_x;
                self.player_y = new_y;
            }
        }
        if input.right {
            let right_angle = angle + HALF_PI;
            let rdx = fix_scale(cos_fix(right_angle), MOVE_SPEED);
            let rdy = fix_scale(sin_fix(right_angle), MOVE_SPEED);
            let new_x = self.player_x + rdx;
            let new_y = self.player_y + rdy;
            if !self.maze.get_cell(new_x, new_y) {
                proof {
                    lemma_wall_cell_interior(self.maze, new_x as int, new_y as int);
                }
                self.player_x = new_x;
                self.player_y = new_y;
            }
        }

    }
}

/// Wall glyph for a ray distance: distance-banded shading, densest glyph
/// nearest, sparsest in the farthest visible band, background beyond the
/// visibility range. All four wall faces share this table.
pub open spec fn spec_ascii_char(distance: int, max_distance: int) -> char {
    if distance * 10 < max_distance {
        '█'
    } else if distance * 10 < 3 * max_distance {
        '▓'
    } else if distance * 2 < max_distance {
        '▒'
    } else if distance * 10 < 7 * max_distance {
        '░'
    } else {
        '·'
    }
}

/// Picks the wall glyph for a ray result. The wall face code does not
/// affect the choice: all four orientations share one shading table.
pub fn get_ascii_char(distance: i64, _wall_type: u8, max_distance: i64) -> (r: char)
    requires
        0 <= distance <= 1000 * FP,
        0 < max_distance <= 1000 * FP,
    ensures
        r == spec_ascii_char(distance as int, max_distance as int),
{
    if distance * 10 < max_distance {
        '█'
    } else if distance * 10 < 3 * max_distance {
        '▓'
    } else if distance * 2 < max_distance {
        '▒'
    } else if distance * 10 < 7 * max_distance {
        '░'
    } else {
        '·'
    }
}

/// Brightness level (5 = nearest and brightest, 1 = farthest) for a ray
/// distance, in five even bands of the visibility range.
pub open spec fn spec_color(distance: int, max_distance: int) -> u8 {
    if distance * 5 < max_distance {
        5u8
    } else if distance * 5 < 2 * max_distance {
        4u8
    } else if distance * 5 < 3 * max_distance {
        3u8
    } else if distance * 5 < 4 * max_distance {
        2u8
    } else {
        1u8
    }
}

/// Brightness level of a wall at the given distance.
pub fn get_color(distance: i64, max_distance: i64) -> (r: u8)
    requires
        0 <= distance <= 1000 * FP,
        0 < max_distance <= 1000 * FP,
    ensures
        r == spec_color(distance as int, max_distance as int),
{
    if distance * 5 < max_distance {
        5
    } else if distance * 5 < 2 * max_distance {
        4
    } else if distance * 5 < 3 * max_distance {
        3
    } else if distance * 5 < 4 * max_distance {
        2
    } else {
        1
    }
}

/// Floor distance for an output row: an inverse-perspective mapping of the
/// row's vertical offset below the screen center, with the offset floored
/// at one tenth to bound the distance for rows near the horizon.
pub open spec fn spec_floor_distance(row: int, height: int) -> int {
    let num = 2 * row - height;
    let p = if num <= 0 {
        0
    } else {
        (num * FP) / height
    };
    let pm = if p < 6554 {
        6554
    } else {
        p
    };
    ((FP * FP) as int) / pm
}

/// Floor distance for one output row; independent of the column.
pub fn calculate_floor_distance(
    _col: usize,
    row: usize,
    _width: usize,
    height: usize,
    _fov: i64,
    _player_angle: i64,
) -> (r: i64)
    requires
        1 <= height <= 4096,
        row < height,
    ensures
        r == spec_floor_distance(row as int, height as int),
        FP / 2 <= r <= 655321,
{
    let hh = height as i64;
    let num = 2 * (row as i64) - hh;
    let p: i64 = if num <= 0 {
        0
    } else {
        (num * FP) / hh
    };
    let pm: i64 = if p < 6554 {
        6554
    } else {
        p
    };
    proof {
        if num > 0 {
            assert(0 <= (num as int * FP) / (hh as int) <= 2 * FP) by (nonlinear_arith)
                requires
                    0 < num as int <= 2 * (hh as int) && 1 <= hh as int && FP == 65536,
            ;
        }
        assert(6554 <= pm <= 2 * FP);
        assert(FP / 2 <= (FP * FP) / (pm as int) <= 655321) by (nonlinear_arith)
            requires
                6554 <= pm as int <= 2 * FP && FP == 65536,
        ;
    }
    (FP * FP) / pm
}

/// Floor glyph for a floor distance: two coarse bands, then background.
pub open spec fn spec_floor_char(distance: int, max_distance: int) -> char {
    if distance * 10 < 3 * max_distance {
        '.'
    } else if distance * 5 < 3 * max_distance {
        ','
    } else {
        ' '
    }
}

/// Picks the floor glyph for a floor distance.
pub fn get_floor_char(distance: i64, max_distance: i64) -> (r: char)
    requires
        0 <= distance <= 1000 * FP,
        0 < max_distance <= 1000 * FP,
    ensures
        r == spec_floor_char(distance as int, max_distance as int),
{
    if distance * 10 < 3 * max_distance {
        '.'
    } else if distance * 5 < 3 * max_distance {
        ','
    } else {
        ' '
    }
}

/// The ray angle for one output column: a linear sweep of the field of
/// view centered on the heading.
pub open spec fn spec_column_angle(angle: int, col: int, width: int) -> int {
    angle - (FOV as int) / 2 + (col * FOV) / width
}

/// Projected wall height in rows for a ray distance: `height / distance`
/// capped at twice the output height, with very near distances taking the
/// cap directly.
pub open spec fn spec_wall_height(distance: int, height: int) -> int {
    if 100 * distance > FP {
        let wh = (height * FP) / distance;
        if wh < 2 * height {
            wh
        } else {
            2 * height
        }
    } else {
        2 * height
    }
}

/// The character of the rendered frame at (`row`, `col`): ceiling above
/// the projected wall band, a distance-shaded wall glyph inside it, and an
/// inverse-perspective floor glyph below it.
pub open spec fn spec_frame_char(
    s: GameState,
    width: int,
    height: int,
    row: int,
    col: int,
) -> char {
    let a = spec_column_angle(s.player_angle as int, col, width);
    let d = spec_ray_distance(
        s.maze,
        s.player_x as int,
        s.player_y as int,
        a,
        MAX_DISTANCE as int,
    );
    let wh = spec_wall_height(d, height);
    let ws = if height > wh {
        (height - wh) / 2
    } else {
        0
    };
    let we = if ws + wh < height {
        ws + wh
    } else {
        height
    };
    if row < ws {
        ' '
    } else if row < we {
        spec_ascii_char(d, MAX_DISTANCE as int)
    } else {
        let fd = spec_floor_distance(row, height);
        if fd < MAX_DISTANCE {
            spec_floor_char(fd, MAX_DISTANCE as int)
        } else {
            ' '
        }
    }
}

/// Index of the character for (`row`, `col`) in the rendered frame text,
/// where each of the first `height - 1` rows is followed by a line break;
/// `col == width` addresses a row's line break itself.
pub open spec fn frame_pos(row: int, col: int, width: int) -> int {
    row * (width + 1) + col
}

proof fn lemma_frame_pos_lt(r2: int, c2: int, row: int, width: int)
    requires
        0 <= r2 < row,
        0 <= c2 <= width,
        1 <= width,
    ensures
        0 <= frame_pos(r2, c2, width) <= row * (width + 1) - (width + 1 - c2),
{
    assert(r2 * (width + 1) + c2 <= row * (width + 1) - (width + 1 - c2)) by (nonlinear_arith)
        requires
            0 <= r2 < row && 0 <= c2 <= width && 1 <= width,
    ;
}

/// Relies on `String`'s `FromIterator<char>` implementation (through
/// `Iterator::collect`): the resulting string holds exactly the characters
/// of the vector, in order.
#[verifier::external_body]
fn chars_to_string(v: &Vec<char>) -> (r: String)
    ensures
        r@ == v@,
{
    v.iter().collect()
}

impl GameState {
    /// Renders the visible scene as `height` rows of `width` characters,
    /// rows joined by a line break with none after the last row. One ray
    /// is cast per column; its result is reused for every row of that
    /// column.
    #[verifier::loop_isolation(false)]
    #[verifier::rlimit(100)]
    pub fn render_frame(&self, width: usize, height: usize) -> (r: String)
        requires
            self.wf(),
            1 <= width <= 4096,
            1 <= height <= 4096,
        ensures
            r@.len() == height * (width + 1) - 1,
            forall|row: int, col: int|
                0 <= row < height && 0 <= col < width ==> r@[#[trigger] frame_pos(
                    row,
                    col,
                    width as int,
                )] == spec_frame_char(*self, width as int, height as int, row, col),
            forall|row: int|
                0 <= row < height - 1 ==> r@[#[trigger] frame_pos(row, width as int, width as int)]
                    == '\n',
    {
        let mut column_data: Vec<(i64, u8)> = Vec::new();
        let mut col: usize = 0;
        while col < width
            invariant
                col <= width,
                column_data@.len() == col,
                forall|c: int| 0 <= c < col ==> {
                    let a = spec_column_angle(self.player_angle as int, c, width as int);
                    let p = #[trigger] column_data@[c];
                    &&& p.0 == spec_ray_distance(
                        self.maze,
                        self.player_x as int,
                        self.player_y as int,
                        a,
                        MAX_DISTANCE as int,
                    )
                    &&& 0 <= p.0 <= MAX_DISTANCE
                },
            decreases width - col,
        {
            proof {
                assert(0 <= ((col as int) * FOV) / (width as int) <= FOV) by (nonlinear_arith)
                    requires
                        0 <= col < width && 1 <= width && FOV == 68629,
                ;
            }
            let ray_angle = self.player_angle - FOV / 2 + ((col as i64) * FOV) / (width as i64);
            let result = cast_ray(
                self.player_x,
                self.player_y,
                ray_angle,
                &self.maze,
                MAX_DISTANCE,
            );
            column_data.push((result.distance, result.wall_type));
            col = col + 1;
        }

        let mut frame: Vec<char> = Vec::new();
        let hh = height as i64;
        let mut row: usize = 0;
        while row < height
            invariant
                row <= height,
                frame@.len() == if row == 0 {
                    0int
                } else {
                    row * (width + 1) - 1
                },
                forall|r2: int, c2: int|
                    0 <= r2 < row && 0 <= c2 < width ==> frame@[#[trigger] frame_pos(
                        r2,
                        c2,
                        width as int,
                    )] == spec_frame_char(*self, width as int, height as int, r2, c2),
                forall|r2: int|
                    0 <= r2 < row - 1 ==> frame@[#[trigger] frame_pos(r2, width as int, width as int)]
                        == '\n',
            decreases height - row,
        {
            if row > 0 {
                frame.push('\n');
            }
            proof {
                assert forall|r2: int, c2: int|
                    0 <= r2 < row && 0 <= c2 < width implies frame@[#[trigger] frame_pos(
                    r2,
                    c2,
                    width as int,
                )] == spec_frame_char(*self, width as int, height as int, r2, c2) by {
                    lemma_frame_pos_lt(r2, c2, row as int, width as int);
                }
                assert forall|r2: int| 0 <= r2 < row - 1 implies frame@[#[trigger] frame_pos(
                    r2,
                    width as int,
                    width as int,
                )] == '\n' by {
                    lemma_frame_pos_lt(r2, width as int, row - 1, width as int);
                    assert((row - 1) * (width + 1) + (width + 1) == row * (width + 1))
                        by (nonlinear_arith);
                }
                if row > 0 {
                    assert((row - 1) * (width + 1) + width == row * (width + 1) - 1)
                        by (nonlinear_arith);
                    assert(frame@[frame_pos(row - 1, width as int, width as int)] == '\n');
                }
            }
            let mut col2: usize = 0;
            while col2 < width
                invariant
                    col2 <= width,
                    frame@.len() == row * (width + 1) + col2,
                    forall|r2: int, c2: int|
                        0 <= r2 < row && 0 <= c2 < width ==> frame@[#[trigger] frame_pos(
                            r2,
                            c2,
                            width as int,
                        )] == spec_frame_char(*self, width as int, height as int, r2, c2),
                    forall|r2: int|
                        0 <= r2 < row - 1 ==> frame@[#[trigger] frame_pos(
                            r2,
                            width as int,
                            width as int,
                        )] == '\n',
                    row > 0 ==> frame@[frame_pos(row - 1, width as int, width as int)] == '\n',
                    forall|c2: int|
                        0 <= c2 < col2 ==> frame@[#[trigger] frame_pos(
                            row as int,
                            c2,
                            width as int,
                        )] == spec_frame_char(
                            *self,
                            width as int,
                            height as int,
                            row as int,
                            c2,
                        ),
                decreases width - col2,
            {
                let (distance, wall_type) = column_data[col2];
                let wall_height: i64 = if 100 * distance > FP {
                    let whr = (hh * FP) / distance;
                    if whr < 2 * hh {
                        whr
                    } else {
                        2 * hh
                    }
                } else {
                    2 * hh
                };
                let wall_start: i64 = if hh > wall_height {
                    (hh - wall_height) / 2
                } else {
                    0
                };
                let wall_end: i64 = if wall_start + wall_height < hh {
                    wall_start + wall_height
                } else {
                    hh
                };

                let ch: char = if (row as i64) < wall_start {
                    ' '
                } else if (row as i64) < wall_end {
                    get_ascii_char(distance, wall_type, MAX_DISTANCE)
                } else {
                    let floor_dist = calculate_floor_distance(
                        col2,
                        row,
                        width,
                        height,
                        FOV,
                        self.player_angle,
                    );
                    if floor_dist < MAX_DISTANCE {
                        get_floor_char(floor_dist, MAX_DISTANCE)
                    } else {
                        ' '
                    }
                };
                frame.push(ch);
                proof {
                    assert forall|r2: int, c2: int|
                        0 <= r2 < row && 0 <= c2 < width implies frame@[#[trigger] frame_pos(
                        r2,
                        c2,
                        width as int,
                    )] == spec_frame_char(*self, width as int, height as int, r2, c2) by {
                        lemma_frame_pos_lt(r2, c2, row as int, width as int);
                    }
                    assert forall|r2: int| 0 <= r2 < row - 1 implies frame@[#[trigger] frame_pos(
                        r2,
                        width as int,
                        width as int,
                    )] == '\n' by {
                        lemma_frame_pos_lt(r2, width as int, row as int, width as int);
                    }
                }
                col2 = col2 + 1;
            }
            proof {
                assert(((row + 1) as int) * ((width + 1) as int) - 1 == (row as int) * ((width
                    + 1) as int) + (width as int)) by (nonlinear_arith);
            }
            row = row + 1;
        }

        chars_to_string(&frame)
    }
}

/// An open cell of a border-walled maze is an interior cell, so a position
/// committed by a movement check stays strictly inside the grid.
proof fn lemma_wall_cell_interior(m: Maze, x: int, y: int)
    requires
        m.wf(),
        m.border_walled(),
        !m.spec_is_wall(spec_cell_index(x), spec_cell_index(y)),
    ensures
        0 <= x < (m.width as int) * FP,
        0 <= y < (m.height as int) * FP,
{
    let cx = spec_cell_index(x);
    let cy = spec_cell_index(y);
    assert(0 <= cx < m.width && 0 <= cy < m.height);
    assert(x >= 0 && y >= 0);
    assert(x / (FP as int) < m.width);
    assert(x < (m.width as int) * FP && y < (m.height as int) * FP) by (nonlinear_arith)
        requires
            x >= 0 && y >= 0 && FP == 65536 && x / (FP as int) < m.width && y / (FP as int)
                < m.height,
    ;
}

} // verus!
