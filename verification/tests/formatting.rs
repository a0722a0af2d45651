use breakrs::state::GameState;
use breakrs::stats::{format_fixed, stat_line};

#[test]
fn format_fixed_exact_strings() {
    assert_eq!(format_fixed(900_000), b"+0.900".to_vec());
    assert_eq!(format_fixed(-78_000), b"-0.078".to_vec());
    assert_eq!(format_fixed(0), b"+0.000".to_vec());
    assert_eq!(format_fixed(4_095), b"+0.004".to_vec());
    assert_eq!(format_fixed(-1_000_000), b"-1.000".to_vec());
    assert_eq!(format_fixed(2_500_000), b"+2.500".to_vec());
    // Micro-units below a milli-unit are truncated, not rounded.
    assert_eq!(format_fixed(1_999), b"+0.001".to_vec());
    assert_eq!(format_fixed(-999), b"-0.000".to_vec());
}

#[test]
fn stat_line_pads_label_to_twelve_columns() {
    let line = stat_line(&b"pos:".to_vec(), 900_000, -78_000);
    assert_eq!(line, b"pos:        (+0.900, -0.078)".to_vec());
}

#[test]
fn debug_stat_lines_render_the_state() {
    let s = GameState {
        ball_pos_x: 123_000,
        ball_pos_y: -456_000,
        ball_vel_x: 3_900,
        ball_vel_y: 2_400,
        paddle_pos_x: -40_000,
        paddle_pos_y: -800_000,
        ..GameState::default()
    };
    let lines = s.debug_stat_lines();
    assert_eq!(lines.len(), 3);
    assert_eq!(lines[0], b"pos:        (+0.123, -0.456)".to_vec());
    assert_eq!(lines[1], b"vel:        (+0.003, +0.002)".to_vec());
    assert_eq!(lines[2], b"paddle_pos: (-0.040, -0.800)".to_vec());
}
