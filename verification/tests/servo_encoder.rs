use light_robot_core::servo::{encoder_offset, encoder_target, ENCODER_COUNTS_PER_TURN};

#[test]
fn target_wraps_below_zero() {
    assert_eq!(encoder_target(100, -200), 16284);
    assert_eq!(encoder_target(16000, 500), 116);
    assert_eq!(encoder_target(0, 0), 0);
}

#[test]
fn offset_takes_the_short_way_round() {
    assert_eq!(encoder_offset(100, 16284), -200);
    assert_eq!(encoder_offset(16000, 116), 500);
    assert_eq!(encoder_offset(0, 8192), -8192);
    assert_eq!(encoder_offset(0, 8191), 8191);
}

#[test]
fn offset_reads_back_the_commanded_deflection() {
    for zero in [0u16, 1, 8191, 8192, 16383] {
        for delta in [-8192i32, -1, 0, 1, 4000, 8191] {
            assert_eq!(encoder_offset(zero, encoder_target(zero, delta)), delta);
        }
    }
}

#[test]
fn target_of_offset_gives_back_the_reading() {
    for zero in [0u16, 77, 16383] {
        for encoder in [0u16, 1, 8192, (ENCODER_COUNTS_PER_TURN - 1) as u16] {
            assert_eq!(encoder_target(zero, encoder_offset(zero, encoder)), encoder);
        }
    }
}
