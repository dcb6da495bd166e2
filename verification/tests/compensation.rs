use light_robot_core::compensation::{
    compensate_pressure, compensate_temperature, pressure_computable, temperature_computable,
};
use light_robot_core::sensors::Calibration;

fn datasheet_calibration() -> Calibration {
    Calibration {
        t1: 27504,
        t2: 26435,
        t3: -1000,
        p1: 36477,
        p2: -10685,
        p3: 3024,
        p4: 2855,
        p5: 140,
        p6: -7,
        p7: 15500,
        p8: -14600,
        p9: 6000,
    }
}

#[test]
fn temperature_matches_datasheet_example() {
    let c = datasheet_calibration();
    assert!(temperature_computable(519888, c));
    let (hundredths, fine) = compensate_temperature(519888, c);
    assert_eq!(fine, 128422);
    assert_eq!(hundredths, 2508);
}

#[test]
fn pressure_for_datasheet_calibration() {
    let c = datasheet_calibration();
    assert!(pressure_computable(415148, 128422, c));
    assert_eq!(compensate_pressure(415148, 128422, c), Some(25767233));
}

#[test]
fn pressure_with_zero_divisor_is_none() {
    let mut c = datasheet_calibration();
    c.p1 = 0;
    assert!(pressure_computable(415148, 128422, c));
    assert_eq!(compensate_pressure(415148, 128422, c), None);
}

#[test]
fn negative_intermediates_round_down() {
    // A raw reading below 8 * t1 makes the first term negative: the shift
    // rounds towards negative infinity.
    let c = Calibration { t1: 100, t2: 3, t3: 0, ..datasheet_calibration() };
    let (_, fine) = compensate_temperature(0, c);
    // ((0 - 200) * 3) >> 11 = -600 >> 11 = -1; d = -100, (10000 >> 12) * 0 = 0.
    assert_eq!(fine, -1);
}

#[test]
fn overflowing_inputs_are_refused() {
    let c = Calibration { t1: 0, t2: i16::MAX, t3: i16::MAX, ..datasheet_calibration() };
    assert!(!temperature_computable(i32::MAX, c));
    let c = Calibration { p6: i16::MAX, ..datasheet_calibration() };
    assert!(!pressure_computable(0, i32::MIN, c));
}
