use town_builder_physics::root::ceil_sqrt;
use town_builder_physics::{steer, CarState, ForwardVector, InputState, UNIT};

#[test]
fn car_state_holds_its_five_fields() {
    let car = CarState::new(1, -2, 3, -4, 5);
    assert_eq!(car.x, 1);
    assert_eq!(car.z, -2);
    assert_eq!(car.rotation_y, 3);
    assert_eq!(car.velocity_x, -4);
    assert_eq!(car.velocity_z, 5);
}

#[test]
fn input_state_holds_its_four_flags() {
    let input = InputState::new(true, false, true, false);
    assert!(input.forward && !input.backward && input.left && !input.right);
    let input = InputState::new(false, true, false, true);
    assert!(!input.forward && input.backward && !input.left && input.right);
    let all = InputState::new(true, true, true, true);
    assert!(all.forward && all.backward && all.left && all.right);
}

#[test]
fn forward_vector_accepts_unit_vectors() {
    for (x, z) in [(0, UNIT), (UNIT, 0), (0, -UNIT), (-UNIT, 0), (600_000_000, 800_000_000)] {
        let forward = ForwardVector::new(x, z).unwrap();
        assert_eq!((forward.x(), forward.z()), (x, z));
    }
    // sin and cos of a quarter turn, rounded
    assert!(ForwardVector::new(707_106_781, 707_106_781).is_some());
}

#[test]
fn forward_vector_accepts_a_length_within_two_billionths_of_one() {
    assert!(ForwardVector::new(0, UNIT - 2).is_some());
    assert!(ForwardVector::new(0, UNIT - 3).is_none());
    assert!(ForwardVector::new(UNIT, 63_245).is_some());
    assert!(ForwardVector::new(UNIT, 63_246).is_none());
}

#[test]
fn forward_vector_rejects_what_is_no_unit_vector() {
    assert!(ForwardVector::new(0, 0).is_none());
    assert!(ForwardVector::new(UNIT, UNIT).is_none());
    assert!(ForwardVector::new(UNIT + 1, 0).is_none());
    assert!(ForwardVector::new(0, -UNIT - 1).is_none());
    assert!(ForwardVector::new(i64::MAX, i64::MIN).is_none());
    assert!(ForwardVector::new(500_000_000, 500_000_000).is_none());
}

#[test]
fn ceil_sqrt_rounds_up() {
    assert_eq!(ceil_sqrt(0), 0);
    assert_eq!(ceil_sqrt(1), 1);
    assert_eq!(ceil_sqrt(2), 2);
    assert_eq!(ceil_sqrt(4), 2);
    assert_eq!(ceil_sqrt(5), 3);
    assert_eq!(ceil_sqrt(9), 3);
    assert_eq!(ceil_sqrt(10), 4);
    assert_eq!(ceil_sqrt(1_000_000_000_000_000_000), 1_000_000_000);
    assert_eq!(ceil_sqrt(1_000_000_000_000_000_001), 1_000_000_001);
    assert_eq!(ceil_sqrt(u128::MAX), 1 << 64);
    assert_eq!(ceil_sqrt(((1u128 << 64) - 1) * ((1u128 << 64) - 1)), (1 << 64) - 1);
}

#[test]
fn speed_is_the_length_of_the_velocity_rounded_up() {
    assert_eq!(CarState::new(0, 0, 0, 0, 0).speed(), 0);
    assert_eq!(CarState::new(9, 9, 9, 3, -4).speed(), 5);
    assert_eq!(CarState::new(0, 0, 0, 1, 1).speed(), 2);
    assert_eq!(CarState::new(0, 0, 0, -150_000_000, 0).speed(), 150_000_000);
    assert_eq!(CarState::new(0, 0, 0, i64::MIN, 0).speed(), 1 << 63);
    assert_eq!(CarState::new(0, 0, 0, i64::MIN, i64::MIN).speed(), 13_043_817_825_332_782_213);
}

#[test]
fn steer_adds_left_and_takes_right() {
    let none = InputState::new(true, true, false, false);
    let left = InputState::new(false, false, true, false);
    let right = InputState::new(false, false, false, true);
    let both = InputState::new(false, false, true, true);
    assert_eq!(steer(1_000, none), 1_000);
    assert_eq!(steer(1_000, left), 40_001_000);
    assert_eq!(steer(1_000, right), -39_999_000);
    assert_eq!(steer(1_000, both), 1_000);
    assert_eq!(steer(i64::MAX, left), i64::MAX);
    assert_eq!(steer(i64::MIN, right), i64::MIN);
    // left and right together cancel before the heading is touched
    assert_eq!(steer(i64::MAX, both), i64::MAX);
    assert_eq!(steer(i64::MIN, both), i64::MIN);
}
