use breakrs::fixed::{dot_product, isqrt, magnitude, normalize, reflect, SCALE};
use breakrs::state::{
    paddle_bounce_velocity, Bricks, GameState, PaddleDirection, BRICK_COUNT, BRICK_HEIGHT,
    BRICK_WIDTH, CYAN, GAP_WIDTH, MAGENTA, YELLOW,
};

fn neutral_state() -> GameState {
    // A state whose ball is far from the paddle and every wall.
    GameState {
        ball_pos_x: 0,
        ball_pos_y: 0,
        ball_vel_x: 0,
        ball_vel_y: 0,
        paddle_vel_x: 0,
        ..GameState::default()
    }
}

#[test]
fn isqrt_small_values() {
    assert_eq!(isqrt(0), 0);
    assert_eq!(isqrt(1), 1);
    assert_eq!(isqrt(2), 1);
    assert_eq!(isqrt(3), 1);
    assert_eq!(isqrt(4), 2);
    assert_eq!(isqrt(999_999), 999);
    assert_eq!(isqrt(1_000_000), 1000);
    // The default ball speed: sqrt(3900^2 + 2400^2).
    assert_eq!(isqrt(20_970_000), 4579);
    assert_eq!(isqrt(u64::MAX), 0xFFFF_FFFF);
}

#[test]
fn magnitude_pythagorean() {
    assert_eq!(magnitude(3, 4), 5);
    assert_eq!(magnitude(-3, 4), 5);
    assert_eq!(magnitude(3, -4), 5);
    assert_eq!(magnitude(0, 0), 0);
    assert_eq!(magnitude(0, -7), 7);
}

#[test]
fn normalize_scales_to_unit() {
    assert_eq!(normalize(3, 4), (600_000, 800_000));
    assert_eq!(normalize(-3, 4), (-600_000, 800_000));
    assert_eq!(normalize(0, 5), (0, 1_000_000));
}

#[test]
fn dot_product_fixed_point() {
    assert_eq!(dot_product(SCALE, 0, 0, SCALE), 0);
    assert_eq!(dot_product(500_000, 0, SCALE, 0), 500_000);
    assert_eq!(dot_product(500_000, 500_000, SCALE, SCALE), 1_000_000);
}

#[test]
fn reflect_about_vertical_flips_y() {
    assert_eq!(reflect(0, -5_000, 0, SCALE), (0, 5_000));
    assert_eq!(reflect(3_000, -4_000, 0, SCALE), (3_000, 4_000));
}

#[test]
fn wall_bounce_folds_position() {
    // Ball at (0.9, 0.0) moving (0.05, 0.0) with diameter 0.1: the tentative
    // x of 0.95 exceeds max_x = 0.9, so the velocity flips and the overshoot
    // folds back to 0.85.
    let mut s = neutral_state();
    s.ball_pos_x = 900_000;
    s.ball_pos_y = 0;
    s.ball_vel_x = 50_000;
    s.ball_vel_y = 0;
    s.ball_diameter = 100_000;
    s.tick();
    assert_eq!(s.ball_pos_x, 850_000);
    assert_eq!(s.ball_vel_x, -50_000);
    assert_eq!(s.ball_pos_y, 0);
    assert_eq!(s.ball_vel_y, 0);
}

#[test]
fn wall_bounce_conserves_component_magnitudes() {
    let mut s = neutral_state();
    s.ball_pos_x = 900_000;
    s.ball_pos_y = 100_000;
    s.ball_vel_x = 50_000;
    s.ball_vel_y = 7_000;
    s.ball_diameter = 100_000;
    s.tick();
    // Exactly one component changed sign; both magnitudes are unchanged.
    assert_eq!(s.ball_vel_x, -50_000);
    assert_eq!(s.ball_vel_y, 7_000);
}

#[test]
fn paddle_moves_and_clamps() {
    // Paddle at -0.1 with velocity 0.022 reaches -0.078 next tick.
    let mut s = neutral_state();
    s.paddle_pos_x = -100_000;
    s.paddle_width = 200_000;
    s.paddle_vel_x = 22_000;
    s.tick();
    assert_eq!(s.paddle_pos_x, -78_000);
    // For any velocity the position stays within [-1, 1 - width].
    s.paddle_vel_x = 1_000_000;
    for _ in 0..10 {
        s.tick();
        assert!(s.paddle_pos_x >= -1_000_000);
        assert!(s.paddle_pos_x <= 1_000_000 - s.paddle_width);
    }
    assert_eq!(s.paddle_pos_x, 800_000);
    s.paddle_vel_x = -1_000_000;
    for _ in 0..10 {
        s.tick();
        assert!(s.paddle_pos_x >= -1_000_000);
        assert!(s.paddle_pos_x <= 1_000_000 - s.paddle_width);
    }
    assert_eq!(s.paddle_pos_x, -1_000_000);
}

#[test]
fn scale_ball_speed_exact() {
    // A 1.05 speed-up of (0.0039, 0.0024) gives (0.004095, 0.00252).
    let mut s = GameState::default();
    assert_eq!(s.ball_vel_x, 3_900);
    assert_eq!(s.ball_vel_y, 2_400);
    s.update_ball_speed(1_050_000);
    assert_eq!(s.ball_vel_x, 4_095);
    assert_eq!(s.ball_vel_y, 2_520);
}

#[test]
fn scale_ball_speed_slowdown_and_zero() {
    let mut s = GameState::default();
    s.update_ball_speed(950_000);
    assert_eq!(s.ball_vel_x, 3_705);
    assert_eq!(s.ball_vel_y, 2_280);
    s.update_ball_speed(0);
    assert_eq!(s.ball_vel_x, 0);
    assert_eq!(s.ball_vel_y, 0);
    // A zero velocity is harmless: ticks still run and the ball stays put.
    let (px, py) = (s.ball_pos_x, s.ball_pos_y);
    s.tick();
    assert_eq!((s.ball_pos_x, s.ball_pos_y), (px, py));
}

#[test]
fn ball_stays_contained_for_many_ticks() {
    let mut s = GameState::default();
    for _ in 0..20_000 {
        s.tick();
        assert!(s.ball_pos_x >= -1_000_000);
        assert!(s.ball_pos_x <= 1_000_000 - s.ball_diameter);
        assert!(s.ball_pos_y >= -1_000_000 + s.ball_diameter);
        assert!(s.ball_pos_y <= 1_000_000);
    }
}

#[test]
fn paddle_collision_requires_downward_motion() {
    let mut s = neutral_state();
    s.paddle_pos_x = -100_000;
    s.paddle_width = 200_000;
    s.paddle_pos_y = -800_000;
    s.paddle_height = 20_000;
    s.ball_diameter = 32_000;
    s.ball_pos_x = -16_000;
    s.ball_pos_y = -770_000;
    s.ball_vel_x = 0;
    s.ball_vel_y = 5_000;
    // Moving upward: no collision.
    assert_eq!(s.paddle_collision(), None);
    s.ball_vel_y = -5_000;
    // Moving downward into the paddle: hit dead center.
    assert_eq!(s.paddle_collision(), Some(500_000));
    // Far to the side: no collision.
    s.ball_pos_x = 500_000;
    assert_eq!(s.paddle_collision(), None);
}

#[test]
fn paddle_bounce_center_reflects_straight_up() {
    let mut s = neutral_state();
    s.paddle_pos_x = -100_000;
    s.paddle_width = 200_000;
    s.paddle_pos_y = -800_000;
    s.paddle_height = 20_000;
    s.ball_diameter = 32_000;
    s.ball_pos_x = -16_000;
    s.ball_pos_y = -770_000;
    s.ball_vel_x = 0;
    s.ball_vel_y = -5_000;
    s.tick();
    // A dead-center hit reflects about the vertical exactly.
    assert_eq!(s.ball_vel_x, 0);
    assert_eq!(s.ball_vel_y, 5_000);
    assert_eq!(s.ball_pos_x, -16_000);
    assert_eq!(s.ball_pos_y, -775_000);
}

#[test]
fn tick_moves_paddle_before_ball_collision() {
    // The paddle starts just right of the falling ball and moves left under
    // it this tick; since the paddle step comes first, the collision test
    // sees the moved paddle and the ball bounces instead of passing.
    let mut s = neutral_state();
    s.paddle_pos_x = 290_000;
    s.paddle_width = 200_000;
    s.paddle_pos_y = -800_000;
    s.paddle_height = 20_000;
    s.paddle_vel_x = -22_000;
    s.ball_diameter = 32_000;
    s.ball_pos_x = 250_000;
    s.ball_pos_y = -770_000;
    s.ball_vel_x = 0;
    s.ball_vel_y = -5_000;
    s.tick();
    assert_eq!(s.paddle_pos_x, 268_000);
    // A left-third hit: the ball deflects to the upper left at its old
    // speed (5000, within tolerance).
    assert_eq!(s.ball_vel_x, -4_330);
    assert_eq!(s.ball_vel_y, 2_499);
    assert_eq!(s.ball_pos_x, 250_000);
    assert_eq!(s.ball_pos_y, -775_000);
}

#[test]
fn scale_ball_speed_negative_factor_reverses() {
    // A factor of exactly -1 reverses the velocity without changing its
    // magnitude.
    let mut s = GameState::default();
    s.update_ball_speed(-1_000_000);
    assert_eq!(s.ball_vel_x, -3_900);
    assert_eq!(s.ball_vel_y, -2_400);
}

#[test]
fn paddle_bounce_conserves_speed_within_tolerance() {
    // An angled hit on the left third: the speed (exactly 5000 before) may
    // drift by at most 4 fixed-point units.
    let (vx, vy) = paddle_bounce_velocity(3_000, -4_000, 100_000);
    let speed_sq = (vx as i128) * (vx as i128) + (vy as i128) * (vy as i128);
    assert!(speed_sq >= 4_996 * 4_996);
    assert!(speed_sq < 5_005 * 5_005);
    // The reflection changed the direction.
    assert!((vx, vy) != (3_000, -4_000));
}

#[test]
fn paddle_zone_boundaries_are_deterministic() {
    let v = (3_000i64, -4_000i64);
    // The left zone is exactly hit * 3 < SCALE, so 333_333 is still left
    // and 333_334 already middle; likewise 666_666 is middle and 666_667
    // right.
    let left = paddle_bounce_velocity(v.0, v.1, 0);
    assert_eq!(paddle_bounce_velocity(v.0, v.1, 333_333), left);
    let middle = paddle_bounce_velocity(v.0, v.1, 500_000);
    assert_eq!(paddle_bounce_velocity(v.0, v.1, 333_334), middle);
    assert_eq!(paddle_bounce_velocity(v.0, v.1, 666_666), middle);
    let right = paddle_bounce_velocity(v.0, v.1, 1_000_000);
    assert_eq!(paddle_bounce_velocity(v.0, v.1, 666_667), right);
    assert_ne!(left, middle);
    assert_ne!(middle, right);
}

#[test]
fn paddle_bounce_zero_speed_is_skipped() {
    assert_eq!(paddle_bounce_velocity(0, 0, 500_000), (0, 0));
}

#[test]
fn set_paddle_direction_sets_velocity() {
    let mut s = GameState::default();
    s.set_paddle_direction(PaddleDirection::Left);
    assert_eq!(s.paddle_vel_x, -22_000);
    s.set_paddle_direction(PaddleDirection::Right);
    assert_eq!(s.paddle_vel_x, 22_000);
    s.set_paddle_direction(PaddleDirection::Idle);
    assert_eq!(s.paddle_vel_x, 0);
}

#[test]
fn bricks_row_layout() {
    let b = Bricks::new();
    assert_eq!(b.x_positions.len(), BRICK_COUNT);
    assert_eq!(b.y_positions.len(), BRICK_COUNT);
    assert_eq!(b.colors.len(), BRICK_COUNT);
    assert_eq!(b.width, BRICK_WIDTH);
    assert_eq!(b.height, BRICK_HEIGHT);
    assert_eq!(b.x_positions[0], -SCALE + GAP_WIDTH);
    assert_eq!(
        b.x_positions[12],
        -SCALE + 13 * GAP_WIDTH + 12 * BRICK_WIDTH
    );
    assert_eq!(b.x_positions[12], 847_705);
    for i in 0..BRICK_COUNT {
        assert_eq!(b.y_positions[i], 250_000);
        assert_eq!(b.colors[i], 0x00FF00);
    }
}

#[test]
fn default_state_values() {
    let s = GameState::default();
    assert!(s.debug_stats);
    assert_eq!(s.debug_stats_height, 16);
    assert_eq!(s.ball_pos_x, 0);
    assert_eq!(s.ball_pos_y, 0);
    assert_eq!(s.ball_diameter, 32_000);
    assert_eq!(s.ball_color, MAGENTA);
    assert_eq!(s.background_color, CYAN);
    assert_eq!(s.paddle_pos_x, -40_000);
    assert_eq!(s.paddle_pos_y, -800_000);
    assert_eq!(s.paddle_width, 200_000);
    assert_eq!(s.paddle_height, 20_000);
    assert_eq!(s.paddle_movement_speed, 22_000);
    assert_eq!(s.paddle_color, YELLOW);
}

#[test]
fn tick_changes_speed_by_at_most_the_tolerance() {
    // Wall bounces conserve speed exactly and paddle bounces within the
    // fixed tolerance, so no single tick moves the speed by more than 4
    // fixed-point units.
    let mut s = GameState::default();
    for _ in 0..5_000 {
        let before = magnitude(s.ball_vel_x, s.ball_vel_y);
        s.tick();
        let after = magnitude(s.ball_vel_x, s.ball_vel_y);
        assert!(before <= after + 4);
        assert!(after <= before + 4);
    }
}
