//! The simulation state and its deterministic tick: paddle motion, paddle
//! and wall collision, velocity reflection, and fold-back position
//! resolution, all in fixed-point world coordinates.
//!
//! Conventions: the arena spans `[-SCALE, SCALE]` on both axes with +y up;
//! the ball is anchored so that `ball_pos_x` ranges over
//! `[-SCALE, SCALE - ball_diameter]` and `ball_pos_y` over
//! `[-SCALE + ball_diameter, SCALE]`.

use vstd::prelude::*;

verus! {

use crate::fixed::{
    SCALE,
    SQRT_3,
    div_trunc,
    mag_sq,
    spec_isqrt,
    spec_mag,
    spec_normalize,
    spec_reflect,
    lemma_isqrt_bounds,
    lemma_isqrt_square,
    lemma_div_trunc_bound,
    lemma_div_trunc_multiple,
    magnitude,
    reflect,
};
use vstd::arithmetic::div_mod::{lemma_div_pos_is_pos, lemma_multiply_divide_lt};

/// The ball's color.
pub const MAGENTA: u32 = 0xFF00FF;

/// The background color.
pub const CYAN: u32 = 0x00FFFF;

/// The paddle's color.
pub const YELLOW: u32 = 0xFFFF00;

/// The bricks' color.
pub const BRICK_COLOR: u32 = 0x00FF00;

/// How many bricks the brick row holds.
pub const BRICK_COUNT: usize = 13;

/// One brick's width in world units.
pub const BRICK_WIDTH: i64 = 138_500;

/// One brick's height in world units: a third of its width, rounded down.
pub const BRICK_HEIGHT: i64 = 46_166;

/// The gap between bricks: the row covers 90% of the arena's width
/// (1 800 000 units), and the remainder is divided evenly into the
/// fourteen gaps around the thirteen bricks, rounded down.
pub const GAP_WIDTH: i64 = 14_285;

/// The vertical position of the brick row.
pub const BRICK_Y: i64 = 250_000;

/// How far (in fixed-point units) the speed after a paddle bounce may
/// drift from the speed before it; a larger drift falls back to the plain
/// vertical reflection, which conserves speed exactly.
pub const SPEED_TOLERANCE: i64 = 4;

/// The row of static bricks: per-brick positions and colors with a shared
/// width and height.
pub struct Bricks {
    /// Left edge of each brick.
    pub x_positions: Vec<i64>,
    /// Top edge of each brick.
    pub y_positions: Vec<i64>,
    /// Color of each brick.
    pub colors: Vec<u32>,
    /// Width shared by all bricks.
    pub width: i64,
    /// Height shared by all bricks.
    pub height: i64,
}

/// The brick row `Bricks::new` builds: `BRICK_COUNT` bricks of the shared
/// width and height, evenly spaced across 90% of the arena's width on the
/// row at `BRICK_Y`, all in the bricks' color.
pub open spec fn standard_brick_row(b: Bricks) -> bool {
    &&& b.x_positions@.len() == BRICK_COUNT
    &&& b.y_positions@.len() == BRICK_COUNT
    &&& b.colors@.len() == BRICK_COUNT
    &&& forall|i: int|
        0 <= i < BRICK_COUNT ==> #[trigger] b.x_positions@[i] == -SCALE + (i + 1) * GAP_WIDTH + i
            * BRICK_WIDTH
    &&& forall|i: int| 0 <= i < BRICK_COUNT ==> #[trigger] b.y_positions@[i] == BRICK_Y
    &&& forall|i: int| 0 <= i < BRICK_COUNT ==> #[trigger] b.colors@[i] == BRICK_COLOR
    &&& b.width == BRICK_WIDTH
    &&& b.height == BRICK_HEIGHT
}

impl Bricks {
    /// The three columns run in parallel and every coordinate lies in the
    /// arena.
    pub open spec fn wf(self) -> bool {
        &&& self.x_positions@.len() == self.y_positions@.len()
        &&& self.x_positions@.len() == self.colors@.len()
        &&& forall|i: int|
            0 <= i < self.x_positions@.len() ==> -SCALE <= #[trigger] self.x_positions@[i] <= SCALE
        &&& forall|i: int|
            0 <= i < self.y_positions@.len() ==> -SCALE <= #[trigger] self.y_positions@[i] <= SCALE
        &&& 0 <= self.width <= SCALE
        &&& 0 <= self.height <= SCALE
    }

    /// Builds the brick row: evenly spaced bricks across 90% of the arena.
    pub fn new() -> (b: Bricks)
        ensures
            b.wf(),
            standard_brick_row(b),
    {
        let mut x_positions: Vec<i64> = Vec::new();
        let mut y_positions: Vec<i64> = Vec::new();
        let mut colors: Vec<u32> = Vec::new();
        let mut b: usize = 0;
        while b < BRICK_COUNT
            invariant
                b <= BRICK_COUNT,
                x_positions@.len() == b,
                y_positions@.len() == b,
                colors@.len() == b,
                forall|i: int|
                    0 <= i < b ==> #[trigger] x_positions@[i] == -SCALE + (i + 1) * GAP_WIDTH + i
                        * BRICK_WIDTH,
                forall|i: int| 0 <= i < b ==> #[trigger] y_positions@[i] == BRICK_Y,
                forall|i: int| 0 <= i < b ==> #[trigger] colors@[i] == BRICK_COLOR,
            decreases BRICK_COUNT - b,
        {
            let brick_x_pos = -SCALE + ((b + 1) as i64) * GAP_WIDTH + (b as i64) * BRICK_WIDTH;
            x_positions.push(brick_x_pos);
            y_positions.push(BRICK_Y);
            colors.push(BRICK_COLOR);
            b = b + 1;
        }
        let bricks = Bricks {
            x_positions,
            y_positions,
            colors,
            width: BRICK_WIDTH,
            height: BRICK_HEIGHT,
        };
        proof {
            assert forall|i: int|
                0 <= i < bricks.x_positions@.len() implies -SCALE
                <= #[trigger] bricks.x_positions@[i] <= SCALE by {
                assert(bricks.x_positions@[i] == -SCALE + (i + 1) * GAP_WIDTH + i * BRICK_WIDTH);
            }
        }
        bricks
    }
}

/// Which way the player is steering the paddle.
#[derive(Clone, Copy, PartialEq, Eq, Debug)]
pub enum PaddleDirection {
    /// Steer left: the paddle moves at `-paddle_movement_speed`.
    Left,
    /// Steer right: the paddle moves at `+paddle_movement_speed`.
    Right,
    /// No key held: the paddle stops.
    Idle,
}

/// The whole simulation: ball, paddle, bricks, colors, and the debug
/// overlay switch.
pub struct GameState {
    /// Whether the debug-statistics overlay is drawn.
    pub debug_stats: bool,
    /// Pixel height of one debug-overlay text line.
    pub debug_stats_height: u32,
    /// Left edge of the ball's bounding square.
    pub ball_pos_x: i64,
    /// Top edge of the ball's bounding square.
    pub ball_pos_y: i64,
    /// Ball displacement per tick, x component.
    pub ball_vel_x: i64,
    /// Ball displacement per tick, y component.
    pub ball_vel_y: i64,
    /// Ball diameter in world units.
    pub ball_diameter: i64,
    /// Ball color.
    pub ball_color: u32,
    /// Color the canvas is cleared to each frame.
    pub background_color: u32,
    /// Left edge of the paddle.
    pub paddle_pos_x: i64,
    /// Top edge of the paddle (fixed).
    pub paddle_pos_y: i64,
    /// Paddle width in world units.
    pub paddle_width: i64,
    /// Paddle height in world units.
    pub paddle_height: i64,
    /// Paddle displacement per tick; a three-valued control signal.
    pub paddle_vel_x: i64,
    /// The magnitude `paddle_vel_x` takes while a direction key is held.
    pub paddle_movement_speed: i64,
    /// Paddle color.
    pub paddle_color: u32,
    /// The static brick row.
    pub bricks: Bricks,
}

/// Clamping to a closed interval.
pub open spec fn spec_clamp(v: int, lo: int, hi: int) -> int {
    if v < lo {
        lo
    } else if v > hi {
        hi
    } else {
        v
    }
}

/// Fold-back bounce resolution: overshoot past a bound is mirrored back
/// inside rather than clamped.
pub open spec fn fold_back(d: int, lo: int, hi: int) -> int {
    if d > hi {
        hi - (d - hi)
    } else if d < lo {
        lo + (lo - d)
    } else {
        d
    }
}

/// Where on the paddle the ball would strike this tick: `Some(h)` with the
/// normalized hit location `h` (fixed-point, `0` at the paddle's extreme
/// left, `SCALE` at its extreme right) when the ball moves downward and its
/// tentative bounding box overlaps the paddle's, else `None`.
pub open spec fn spec_paddle_collision(s: GameState) -> Option<int> {
    let dx = s.ball_pos_x + s.ball_vel_x;
    let dy = s.ball_pos_y + s.ball_vel_y;
    if s.ball_vel_y < 0 && dx + s.ball_diameter >= s.paddle_pos_x && dx < s.paddle_pos_x
        + s.paddle_width && dy - s.ball_diameter <= s.paddle_pos_y && dy >= s.paddle_pos_y
        - s.paddle_height {
        let lo = s.paddle_pos_x - s.ball_diameter;
        let hi = s.paddle_pos_x + s.paddle_width;
        Some((dx - lo) * SCALE / (hi - lo))
    } else {
        None
    }
}

/// The reflection direction for a hit location: the left third of the
/// paddle deflects to the upper left, the right third to the upper right,
/// and the middle third straight up. The thirds are compared exactly
/// (`3 * hit` against `SCALE` and `2 * SCALE`), so each boundary belongs to
/// the zone on its right.
pub open spec fn paddle_zone_normal(hit: int) -> (int, int) {
    if 3 * hit < SCALE {
        (-SCALE as int, SQRT_3 as int)
    } else if 3 * hit < 2 * SCALE {
        (0int, SCALE as int)
    } else {
        (SCALE as int, SQRT_3 as int)
    }
}

/// The ball's velocity after a paddle bounce: the velocity is reflected
/// about the zone's direction and rescaled to its original speed. A zero
/// speed skips the bounce, and a result whose speed drifted beyond
/// `SPEED_TOLERANCE` (or left the per-component bound `SCALE`) falls back
/// to the plain vertical reflection, which conserves speed exactly.
pub open spec fn spec_paddle_bounce(vx: int, vy: int, hit: int) -> (int, int) {
    let m = spec_mag(vx, vy);
    if m == 0 {
        (vx, vy)
    } else {
        let n = paddle_zone_normal(hit);
        let r = spec_reflect(vx, vy, n.0, n.1);
        let m2 = spec_mag(r.0, r.1);
        if m2 == 0 {
            (vx, -vy)
        } else {
            let sx = div_trunc(r.0 * m, m2);
            let sy = div_trunc(r.1 * m, m2);
            if -SCALE <= sx <= SCALE && -SCALE <= sy <= SCALE && m <= spec_mag(sx, sy)
                + SPEED_TOLERANCE && spec_mag(sx, sy) <= m + SPEED_TOLERANCE {
                (sx, sy)
            } else {
                (vx, -vy)
            }
        }
    }
}

/// One tick's effect on the ball: the tentative displacement is tested
/// against the paddle (reflecting the velocity) and the walls (negating the
/// crossed axis), and the position is resolved by fold-back.
pub open spec fn spec_ball_step(s: GameState) -> GameState {
    let dx = s.ball_pos_x + s.ball_vel_x;
    let dy = s.ball_pos_y + s.ball_vel_y;
    let max_x = SCALE - s.ball_diameter;
    let min_y = -SCALE + s.ball_diameter;
    let bounced = match spec_paddle_collision(s) {
        Some(h) => spec_paddle_bounce(s.ball_vel_x as int, s.ball_vel_y as int, h),
        None => (s.ball_vel_x as int, s.ball_vel_y as int),
    };
    let vx = if dx <= -SCALE || dx >= max_x {
        -bounced.0
    } else {
        bounced.0
    };
    let vy = if dy <= min_y || dy >= SCALE {
        -bounced.1
    } else {
        bounced.1
    };
    GameState {
        ball_pos_x: fold_back(dx, -SCALE as int, max_x) as i64,
        ball_pos_y: fold_back(dy, min_y, SCALE as int) as i64,
        ball_vel_x: vx as i64,
        ball_vel_y: vy as i64,
        ..s
    }
}

/// One tick's effect on the paddle: it moves by its velocity, clamped to
/// the arena.
pub open spec fn spec_paddle_step(s: GameState) -> GameState {
    GameState {
        paddle_pos_x: spec_clamp(
            s.paddle_pos_x + s.paddle_vel_x,
            -SCALE as int,
            SCALE - s.paddle_width,
        ) as i64,
        ..s
    }
}

/// One full tick: the paddle step first, then the ball step, so the
/// paddle collision test sees the paddle's post-move position.
pub open spec fn spec_tick(s: GameState) -> GameState {
    spec_ball_step(spec_paddle_step(s))
}

/// The velocity after a paddle bounce at hit location `hit`.
#[verifier::loop_isolation(false)]
pub fn paddle_bounce_velocity(vx: i64, vy: i64, hit: i64) -> (r: (i64, i64))
    requires
        -SCALE <= vx <= SCALE,
        -SCALE <= vy <= SCALE,
        0 <= hit <= SCALE,
    ensures
        (r.0 as int, r.1 as int) == spec_paddle_bounce(vx as int, vy as int, hit as int),
        -SCALE <= r.0 <= SCALE,
        -SCALE <= r.1 <= SCALE,
        spec_mag(vx as int, vy as int) <= spec_mag(r.0 as int, r.1 as int) + SPEED_TOLERANCE,
        spec_mag(r.0 as int, r.1 as int) <= spec_mag(vx as int, vy as int) + SPEED_TOLERANCE,
{
    let m = magnitude(vx, vy);
    if m == 0 {
        return (vx, vy);
    }
    proof {
        let ms = mag_sq(vx as int, vy as int);
        assert(0 <= ms <= 2_000_000_000_000) by (nonlinear_arith)
            requires
                ms == mag_sq(vx as int, vy as int),
                -1_000_000 <= vx <= 1_000_000,
                -1_000_000 <= vy <= 1_000_000,
        ;
        lemma_isqrt_bounds(ms as nat);
        assert((m as int) * (m as int) <= ms);
        assert(m <= 1_414_214) by (nonlinear_arith)
            requires
                (m as int) * (m as int) <= 2_000_000_000_000,
                m >= 0,
        ;
    }
    let (nx, ny) = if 3 * hit < SCALE {
        (-SCALE, SQRT_3)
    } else if 3 * hit < 2 * SCALE {
        (0i64, SCALE)
    } else {
        (SCALE, SQRT_3)
    };
    let (rx, ry) = reflect(vx, vy, nx, ny);
    let m2 = magnitude(rx, ry);
    if m2 == 0 {
        proof {
            lemma_wall_bounce_conserves_speed(vx as int, vy as int);
        }
        return (vx, -vy);
    }
    proof {
        assert(-(8_000_000_000_000i64 as int) <= (rx as int) * (m as int)
            <= 8_000_000_000_000i64 as int && -(8_000_000_000_000i64 as int) <= (ry as int) * (
        m as int) <= 8_000_000_000_000i64 as int) by (nonlinear_arith)
            requires
                -5_000_000 <= rx <= 5_000_000,
                -5_000_000 <= ry <= 5_000_000,
                0 <= m <= 1_414_214,
        ;
        lemma_div_trunc_bound((rx as int) * (m as int), m2 as int, 8_000_000_000_000);
        lemma_div_trunc_bound((ry as int) * (m as int), m2 as int, 8_000_000_000_000);
    }
    let sx = rx * m / m2;
    let sy = ry * m / m2;
    if sx < -SCALE || SCALE < sx || sy < -SCALE || SCALE < sy {
        proof {
            lemma_wall_bounce_conserves_speed(vx as int, vy as int);
        }
        return (vx, -vy);
    }
    let mo = magnitude(sx, sy);
    if m <= mo + SPEED_TOLERANCE && mo <= m + SPEED_TOLERANCE {
        (sx, sy)
    } else {
        proof {
            lemma_wall_bounce_conserves_speed(vx as int, vy as int);
        }
        (vx, -vy)
    }
}

/// Negating one velocity component (a wall bounce) changes neither the
/// other component's magnitude nor the vector's speed.
pub proof fn lemma_wall_bounce_conserves_speed(vx: int, vy: int)
    ensures
        mag_sq(-vx, vy) == mag_sq(vx, vy),
        mag_sq(vx, -vy) == mag_sq(vx, vy),
        spec_mag(-vx, vy) == spec_mag(vx, vy),
        spec_mag(vx, -vy) == spec_mag(vx, vy),
{
    assert((-vx) * (-vx) == vx * vx && (-vy) * (-vy) == vy * vy) by (nonlinear_arith);
}

/// A hit on the paddle's middle third reflects the velocity about the
/// vertical exactly: the bounce is `(vx, -vy)`, with no speed drift at all.
pub proof fn lemma_middle_zone_bounce_exact(vx: int, vy: int, hit: int)
    requires
        -SCALE <= vx <= SCALE,
        -SCALE <= vy <= SCALE,
        SCALE <= 3 * hit < 2 * SCALE,
    ensures
        spec_paddle_bounce(vx, vy, hit) == (vx, -vy),
{
    let s = SCALE as int;
    let m = spec_mag(vx, vy);
    lemma_isqrt_bounds(mag_sq(vx, vy) as nat);
    if m == 0 {
        let z = spec_isqrt(mag_sq(vx, vy) as nat);
        assert(mag_sq(vx, vy) >= 0) by (nonlinear_arith);
        assert((z + 1) * (z + 1) == 1) by (nonlinear_arith)
            requires
                z == 0,
        ;
        assert(vx == 0 && vy == 0) by (nonlinear_arith)
            requires
                vx * vx + vy * vy < 1,
        ;
    } else {
        assert(paddle_zone_normal(hit) == (0int, s));
        // The unit vector along (0, SCALE) is (0, SCALE) itself.
        assert(mag_sq(0, s) == s * s);
        lemma_isqrt_square(s as nat);
        assert((s * s) as nat == (s as nat) * (s as nat)) by (nonlinear_arith)
            requires
                s >= 0,
        ;
        assert(spec_mag(0, s) == s);
        assert(div_trunc(0 * s, s) == 0);
        lemma_div_trunc_multiple(s, s);
        assert(spec_normalize(0, s) == (0int, s));
        // The dot product with it recovers vy, so the reflection is exact.
        lemma_div_trunc_multiple(vy, s);
        assert(vx * 0 + vy * s == vy * s);
        let d = div_trunc(vx * 0 + vy * s, s);
        assert(d == vy);
        lemma_div_trunc_multiple(2 * vy, s);
        assert(2 * d * s == (2 * vy) * s) by (nonlinear_arith)
            requires
                d == vy,
        ;
        assert(div_trunc(2 * d * 0, s) == 0);
        assert(spec_reflect(vx, vy, 0, s) == (vx, vy - 2 * vy));
        // Rescaling to the unchanged speed changes nothing.
        lemma_wall_bounce_conserves_speed(vx, vy);
        let m2 = spec_mag(vx, -vy);
        assert(m2 == m);
        lemma_div_trunc_multiple(vx, m);
        lemma_div_trunc_multiple(-vy, m);
        assert(div_trunc(vx * m, m2) == vx && div_trunc((-vy) * m, m2) == -vy);
    }
}

/// A paddle bounce conserves the ball's speed up to `SPEED_TOLERANCE`.
pub proof fn lemma_paddle_bounce_conserves_speed(vx: int, vy: int, hit: int)
    ensures
        ({
            let r = spec_paddle_bounce(vx, vy, hit);
            let m = spec_mag(vx, vy);
            &&& m <= spec_mag(r.0, r.1) + SPEED_TOLERANCE
            &&& spec_mag(r.0, r.1) <= m + SPEED_TOLERANCE
        }),
{
    lemma_wall_bounce_conserves_speed(vx, vy);
}

impl GameState {
    /// All coordinates lie in the arena, the ball's position respects its
    /// diameter, and no per-tick displacement exceeds one world unit.
    pub open spec fn wf(self) -> bool {
        &&& 0 < self.ball_diameter <= SCALE
        &&& -SCALE <= self.ball_pos_x <= SCALE - self.ball_diameter
        &&& -SCALE + self.ball_diameter <= self.ball_pos_y <= SCALE
        &&& -SCALE <= self.ball_vel_x <= SCALE
        &&& -SCALE <= self.ball_vel_y <= SCALE
        &&& 0 < self.paddle_width <= SCALE
        &&& -SCALE <= self.paddle_pos_x <= SCALE - self.paddle_width
        &&& -SCALE <= self.paddle_pos_y <= SCALE
        &&& 0 <= self.paddle_height <= SCALE
        &&& -SCALE <= self.paddle_vel_x <= SCALE
        &&& 0 <= self.paddle_movement_speed <= SCALE
        &&& self.bricks.wf()
    }

    /// Tests the tentative ball box against the paddle; on overlap returns
    /// the normalized hit location along the paddle's width.
    pub fn paddle_collision(&self) -> (r: Option<i64>)
        requires
            self.wf(),
        ensures
            ({
                match spec_paddle_collision(*self) {
                    Some(h) => r == Some(h as i64) && 0 <= h < SCALE,
                    None => r is None,
                }
            }),
    {
        let dx = self.ball_pos_x + self.ball_vel_x;
        let dy = self.ball_pos_y + self.ball_vel_y;
        if self.ball_vel_y < 0 && dx + self.ball_diameter >= self.paddle_pos_x && dx
            < self.paddle_pos_x + self.paddle_width && dy - self.ball_diameter
            <= self.paddle_pos_y && dy >= self.paddle_pos_y - self.paddle_height {
            let extreme_left = self.paddle_pos_x - self.ball_diameter;
            let extreme_right = self.paddle_pos_x + self.paddle_width;
            proof {
                let num = (dx - extreme_left) as int * SCALE as int;
                let den = (extreme_right - extreme_left) as int;
                assert(0 <= num <= 4_000_000_000_000i64 as int) by (nonlinear_arith)
                    requires
                        num == (dx - extreme_left) as int * SCALE as int,
                        0 <= dx - extreme_left <= 4_000_000,
                ;
                lemma_div_pos_is_pos(num, den);
                assert(num < den * SCALE) by (nonlinear_arith)
                    requires
                        num == (dx - extreme_left) as int * SCALE as int,
                        dx - extreme_left < den,
                        SCALE > 0,
                ;
                lemma_multiply_divide_lt(num, den, SCALE as int);
            }
            let hit_location = (dx - extreme_left) * SCALE / (extreme_right - extreme_left);
            Some(hit_location)
        } else {
            None
        }
    }

    /// Advances the ball by one tick (paddle test, wall test, fold-back).
    pub fn update_ball_pos(&mut self)
        requires
            old(self).wf(),
        ensures
            *final(self) == spec_ball_step(*old(self)),
            final(self).wf(),
    {
        let max_x = SCALE - self.ball_diameter;
        let min_y = -SCALE + self.ball_diameter;
        let dx = self.ball_pos_x + self.ball_vel_x;
        let dy = self.ball_pos_y + self.ball_vel_y;
        if let Some(location) = self.paddle_collision() {
            let (nvx, nvy) = paddle_bounce_velocity(self.ball_vel_x, self.ball_vel_y, location);
            self.ball_vel_x = nvx;
            self.ball_vel_y = nvy;
        }
        if dx <= -SCALE || dx >= max_x {
            self.ball_vel_x = -self.ball_vel_x;
        }
        if dy <= min_y || dy >= SCALE {
            self.ball_vel_y = -self.ball_vel_y;
        }
        self.ball_pos_x = if dx > max_x {
            max_x - (dx - max_x)
        } else if dx < -SCALE {
            -SCALE + (-SCALE - dx)
        } else {
            dx
        };
        self.ball_pos_y = if dy > SCALE {
            SCALE - (dy - SCALE)
        } else if dy < min_y {
            min_y + (min_y - dy)
        } else {
            dy
        };
    }

    /// Moves the paddle by its velocity, clamped to `[-SCALE,
    /// SCALE - paddle_width]`.
    pub fn update_paddle_pos(&mut self)
        requires
            old(self).wf(),
        ensures
            *final(self) == spec_paddle_step(*old(self)),
            -SCALE <= final(self).paddle_pos_x <= SCALE - final(self).paddle_width,
            final(self).wf(),
    {
        let max_x = SCALE - self.paddle_width;
        let next = self.paddle_pos_x + self.paddle_vel_x;
        self.paddle_pos_x = if next < -SCALE {
            -SCALE
        } else if next > max_x {
            max_x
        } else {
            next
        };
    }

    /// Advances the whole simulation by one tick: first the paddle, then
    /// the ball (resolved against the paddle's post-move position).
    pub fn tick(&mut self)
        requires
            old(self).wf(),
        ensures
            *final(self) == spec_tick(*old(self)),
            final(self).wf(),
    {
        self.update_paddle_pos();
        self.update_ball_pos();
    }

    /// Scales both velocity components by the fixed-point factor
    /// (`SCALE` stands for 1.0).
    pub fn update_ball_speed(&mut self, factor: i64)
        requires
            old(self).wf(),
            -(SCALE * SCALE) <= old(self).ball_vel_x * factor <= SCALE * SCALE,
            -(SCALE * SCALE) <= old(self).ball_vel_y * factor <= SCALE * SCALE,
        ensures
            (*final(self) == GameState {
                ball_vel_x: div_trunc(old(self).ball_vel_x * factor, SCALE as int) as i64,
                ball_vel_y: div_trunc(old(self).ball_vel_y * factor, SCALE as int) as i64,
                ..*old(self)
            }),
            final(self).wf(),
    {
        proof {
            lemma_div_trunc_bound((self.ball_vel_x as int) * (factor as int), SCALE as int, SCALE as int);
            lemma_div_trunc_bound((self.ball_vel_y as int) * (factor as int), SCALE as int, SCALE as int);
        }
        self.ball_vel_x = self.ball_vel_x * factor / SCALE;
        self.ball_vel_y = self.ball_vel_y * factor / SCALE;
    }

    /// Applies a steering event: sets the paddle's velocity to the held
    /// direction, or to zero on release.
    pub fn set_paddle_direction(&mut self, dir: PaddleDirection)
        requires
            old(self).wf(),
        ensures
            (*final(self) == GameState {
                paddle_vel_x: match dir {
                    PaddleDirection::Left => (-old(self).paddle_movement_speed) as i64,
                    PaddleDirection::Right => old(self).paddle_movement_speed,
                    PaddleDirection::Idle => 0i64,
                },
                ..*old(self)
            }),
            final(self).wf(),
    {
        match dir {
            PaddleDirection::Left => {
                self.paddle_vel_x = -self.paddle_movement_speed;
            },
            PaddleDirection::Right => {
                self.paddle_vel_x = self.paddle_movement_speed;
            },
            PaddleDirection::Idle => {
                self.paddle_vel_x = 0;
            },
        }
    }
}

/// Across one whole tick the ball's speed is conserved up to
/// `SPEED_TOLERANCE`: a wall bounce only flips component signs, and a
/// paddle bounce may drift the speed by at most the tolerance.
pub proof fn lemma_tick_conserves_speed(s: GameState)
    requires
        s.wf(),
    ensures
        ({
            let t = spec_tick(s);
            let before = spec_mag(s.ball_vel_x as int, s.ball_vel_y as int);
            let after = spec_mag(t.ball_vel_x as int, t.ball_vel_y as int);
            &&& before <= after + SPEED_TOLERANCE
            &&& after <= before + SPEED_TOLERANCE
        }),
{
    let p = spec_paddle_step(s);
    let bounced = match spec_paddle_collision(p) {
        Some(h) => spec_paddle_bounce(p.ball_vel_x as int, p.ball_vel_y as int, h),
        None => (p.ball_vel_x as int, p.ball_vel_y as int),
    };
    match spec_paddle_collision(p) {
        Some(h) => {
            lemma_paddle_bounce_conserves_speed(p.ball_vel_x as int, p.ball_vel_y as int, h);
            lemma_paddle_bounce_component_bounds(p.ball_vel_x as int, p.ball_vel_y as int, h);
        },
        None => {},
    }
    lemma_wall_bounce_conserves_speed(bounced.0, bounced.1);
    lemma_wall_bounce_conserves_speed(-bounced.0, bounced.1);
    lemma_wall_bounce_conserves_speed(bounced.0, -bounced.1);
}

/// A tick of a well-formed state yields a well-formed state, so the ball
/// never leaves the arena however many ticks run.
pub proof fn lemma_ball_containment(s: GameState)
    requires
        s.wf(),
    ensures
        spec_tick(s).wf(),
        -SCALE <= spec_tick(s).ball_pos_x <= SCALE - spec_tick(s).ball_diameter,
        -SCALE + spec_tick(s).ball_diameter <= spec_tick(s).ball_pos_y <= SCALE,
{
    let p = spec_paddle_step(s);
    assert(p.wf());
    let b = spec_ball_step(p);
    match spec_paddle_collision(p) {
        Some(h) => {
            lemma_paddle_bounce_component_bounds(p.ball_vel_x as int, p.ball_vel_y as int, h);
        },
        None => {},
    }
    assert(b.wf());
}

/// Every branch of the paddle bounce keeps each velocity component within
/// the arena-crossing bound.
pub proof fn lemma_paddle_bounce_component_bounds(vx: int, vy: int, hit: int)
    requires
        -SCALE <= vx <= SCALE,
        -SCALE <= vy <= SCALE,
    ensures
        -SCALE <= spec_paddle_bounce(vx, vy, hit).0 <= SCALE,
        -SCALE <= spec_paddle_bounce(vx, vy, hit).1 <= SCALE,
{
}

impl Default for GameState {
    /// The simulation's starting state.
    fn default() -> (s: GameState)
        ensures
            s.wf(),
            s.debug_stats == true,
            s.debug_stats_height == 16u32,
            s.ball_pos_x == 0i64,
            s.ball_pos_y == 0i64,
            s.ball_vel_x == 3_900i64,
            s.ball_vel_y == 2_400i64,
            s.ball_diameter == 32_000i64,
            s.ball_color == MAGENTA,
            s.background_color == CYAN,
            s.paddle_pos_x == -40_000i64,
            s.paddle_pos_y == -800_000i64,
            s.paddle_width == 200_000i64,
            s.paddle_height == 20_000i64,
            s.paddle_vel_x == 0i64,
            s.paddle_movement_speed == 22_000i64,
            s.paddle_color == YELLOW,
            standard_brick_row(s.bricks),
    {
        GameState {
            debug_stats: true,
            debug_stats_height: 16,
            ball_pos_x: 0,
            ball_pos_y: 0,
            ball_vel_x: 3_900,
            ball_vel_y: 2_400,
            ball_diameter: 32_000,
            ball_color: MAGENTA,
            background_color: CYAN,
            paddle_pos_x: -40_000,
            paddle_pos_y: -800_000,
            paddle_width: 200_000,
            paddle_height: 20_000,
            paddle_vel_x: 0,
            paddle_movement_speed: 22_000,
            paddle_color: YELLOW,
            bricks: Bricks::new(),
        }
    }
}

} // verus!
