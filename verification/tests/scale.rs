use tiler::scale::{curve_needed, hold_in_unit, UNIT};
use tiler::{normalize, Scale};

#[test]
fn linear_scale_rescales_and_clamps() {
    let scale = Scale::Linear { min: 0, max: 20 * UNIT };
    assert_eq!(normalize(&scale, 5 * UNIT, 0), 250_000);
    assert_eq!(normalize(&scale, 0, 0), 0);
    assert_eq!(normalize(&scale, 20 * UNIT, 0), UNIT);
    assert_eq!(normalize(&scale, -1, 0), 0);
    assert_eq!(normalize(&scale, 20 * UNIT + 1, 0), UNIT);
    // the curve does not count on a linear scale
    assert_eq!(normalize(&scale, 5 * UNIT, 777), 250_000);
}

#[test]
fn linear_scale_rounds_down() {
    let scale = Scale::Linear { min: 0, max: 3 };
    assert_eq!(normalize(&scale, 1, 0), 333_333);
    assert_eq!(normalize(&scale, 2, 0), 666_666);
}

#[test]
fn linear_scale_with_one_value() {
    let scale = Scale::Linear { min: 7, max: 7 };
    assert_eq!(normalize(&scale, 7, 0), 0);
    assert_eq!(normalize(&scale, 6, 0), 0);
    assert_eq!(normalize(&scale, 8, 0), UNIT);
}

#[test]
fn linear_scale_over_the_whole_word() {
    let scale = Scale::Linear { min: i64::MIN, max: i64::MAX };
    assert_eq!(normalize(&scale, i64::MIN, 0), 0);
    assert_eq!(normalize(&scale, i64::MAX, 0), UNIT);
    assert_eq!(normalize(&scale, -1, 0), 499_999);
}

#[test]
fn log_scale_takes_the_curve_inside_its_range() {
    let scale = Scale::Log { min: 10, max: 1000 };
    assert_eq!(normalize(&scale, 9, 300_000), 0);
    assert_eq!(normalize(&scale, 1001, 300_000), UNIT);
    assert_eq!(normalize(&scale, 10, 300_000), 300_000);
    assert_eq!(normalize(&scale, 500, 300_000), 300_000);
    assert_eq!(normalize(&scale, 500, 2 * UNIT), UNIT);
    assert_eq!(normalize(&scale, 500, -4), 0);
    assert!(curve_needed(&scale, 10));
    assert!(curve_needed(&scale, 1000));
    assert!(!curve_needed(&scale, 9));
}

#[test]
fn exponential_scale_takes_the_curve_between_its_ends() {
    let scale = Scale::Exponential { min: 10, max: 1000 };
    assert_eq!(normalize(&scale, 10, 400_000), 0);
    assert_eq!(normalize(&scale, 1000, 400_000), UNIT);
    assert_eq!(normalize(&scale, 11, 400_000), 400_000);
    assert_eq!(normalize(&scale, 999, 1_000_001), UNIT);
    assert!(!curve_needed(&scale, 10));
    assert!(curve_needed(&scale, 11));
    assert!(!curve_needed(&scale, 1000));
}

#[test]
fn equal_scale_passes_the_value_on() {
    assert_eq!(normalize(&Scale::Equal, 123, 9), 123);
    assert_eq!(normalize(&Scale::Equal, -5 * UNIT, 9), -5 * UNIT);
    assert!(!curve_needed(&Scale::Equal, 3));
    assert!(!curve_needed(&Scale::Linear { min: 0, max: 9 }, 3));
}

#[test]
fn normalized_values_stay_in_the_range() {
    let scales = [
        Scale::Linear { min: -50, max: 70 },
        Scale::Log { min: -50, max: 70 },
        Scale::Exponential { min: -50, max: 70 },
    ];
    for scale in scales.iter() {
        for value in -60..80 {
            for curve in [-3, 0, 1, UNIT / 2, UNIT, UNIT + 9] {
                let n = normalize(scale, value, curve);
                assert!(0 <= n && n <= UNIT);
                if value < -50 {
                    assert_eq!(n, 0);
                }
                if value > 70 {
                    assert_eq!(n, UNIT);
                }
            }
        }
    }
}

#[test]
fn positions_are_held_in_the_range() {
    assert_eq!(hold_in_unit(-1), 0);
    assert_eq!(hold_in_unit(0), 0);
    assert_eq!(hold_in_unit(17), 17);
    assert_eq!(hold_in_unit(UNIT), UNIT);
    assert_eq!(hold_in_unit(i64::MAX), UNIT);
}
