use town_builder_physics::{steer, update_car_physics, CarState, ForwardVector, InputState, UNIT};

const IDLE: (bool, bool, bool, bool) = (false, false, false, false);
const FORWARD: (bool, bool, bool, bool) = (true, false, false, false);
const BACKWARD: (bool, bool, bool, bool) = (false, true, false, false);
const LEFT: (bool, bool, bool, bool) = (false, false, true, false);

fn input(flags: (bool, bool, bool, bool)) -> InputState {
    InputState::new(flags.0, flags.1, flags.2, flags.3)
}

/// The unit vector along `heading`, rounded to the nearest billionth.
fn facing(heading: i64) -> ForwardVector {
    let angle = heading as f64 / 1e9;
    let x = (angle.sin() * 1e9).round() as i64;
    let z = (angle.cos() * 1e9).round() as i64;
    ForwardVector::new(x, z).unwrap()
}

/// One tick, with the forward vector taken along the steered heading.
fn drive(car: CarState, flags: (bool, bool, bool, bool)) -> CarState {
    let snapshot = input(flags);
    let forward = facing(steer(car.rotation_y, snapshot));
    update_car_physics(car, snapshot, forward)
}

#[test]
fn forward_from_rest_gains_acceleration_times_friction() {
    let car = CarState::new(0, 0, 0, 0, 0);
    let forward = ForwardVector::new(0, UNIT).unwrap();
    let next = update_car_physics(car, input(FORWARD), forward);
    assert_eq!(next, CarState::new(0, 4_900_000, 0, 0, 4_900_000));
}

#[test]
fn forward_from_rest_moves_by_the_new_velocity() {
    let car = CarState::new(-3 * UNIT, 7 * UNIT, 0, 0, 0);
    let next = drive(car, FORWARD);
    assert_eq!(next.velocity_x, 0);
    assert_eq!(next.velocity_z, 4_900_000);
    assert_eq!(next.x, -3 * UNIT);
    assert_eq!(next.z, 7 * UNIT + 4_900_000);
    assert_eq!(next.rotation_y, 0);
}

#[test]
fn hundred_forward_ticks_reach_the_ceiling_and_never_pass_it() {
    let mut car = CarState::new(0, 0, 0, 0, 0);
    let mut fastest: u64 = 0;
    for tick in 0..100 {
        let next = drive(car, FORWARD);
        assert!(next.speed() <= 200_000_000, "tick {tick}");
        assert!(next.speed() >= car.speed(), "tick {tick}");
        fastest = fastest.max(next.speed());
        car = next;
    }
    assert_eq!(fastest, 200_000_000);
    assert_eq!(car, CarState::new(0, 13_974_534_206, 0, 0, 200_000_000));
}

#[test]
fn forward_ticks_follow_the_recurrence() {
    let mut car = CarState::new(0, 0, 0, 0, 0);
    let expected: [i64; 3] = [4_900_000, 9_702_000, 14_407_960];
    for velocity in expected {
        car = drive(car, FORWARD);
        assert_eq!(car.velocity_z, velocity);
        assert_eq!(car.velocity_x, 0);
    }
    assert_eq!(car.z, 29_009_960);
}

#[test]
fn backward_brakes_a_vehicle_that_moves_forward() {
    let car = CarState::new(0, 0, 0, 0, 50_000_000);
    let next = drive(car, BACKWARD);
    // (0.05 - 0.01) * 0.98
    assert_eq!(next, CarState::new(0, 39_200_000, 0, 0, 39_200_000));
}

#[test]
fn braking_turns_into_reversing_once_the_vehicle_no_longer_moves_forward() {
    let mut car = CarState::new(0, 0, 0, 0, 50_000_000);
    let expected: [i64; 8] = [
        39_200_000,
        28_616_000,
        18_243_680,
        8_078_806,
        // the brake takes more than the speed that is left
        -1_882_770,
        // from here on the backward input accelerates backward
        -6_745_114,
        -11_510_211,
        -16_180_006,
    ];
    for velocity in expected {
        car = drive(car, BACKWARD);
        assert_eq!(car.velocity_z, velocity);
        assert_eq!(car.velocity_x, 0);
    }
    assert_eq!(car.z, 57_820_385);
}

#[test]
fn backward_from_rest_accelerates_backward() {
    let car = CarState::new(0, 0, 0, 0, 0);
    let next = drive(car, BACKWARD);
    assert_eq!(next, CarState::new(0, -4_900_000, 0, 0, -4_900_000));
}

#[test]
fn backward_accelerates_backward_when_moving_sideways() {
    // the velocity is at a right angle to the forward vector: nothing to brake
    let car = CarState::new(0, 0, 0, 50_000_000, 0);
    let next = drive(car, BACKWARD);
    assert_eq!(next.velocity_x, 49_000_000);
    assert_eq!(next.velocity_z, -4_900_000);
}

#[test]
fn forward_and_backward_both_apply_in_that_order() {
    // the throttle sets the vehicle moving forward, the brake then takes twice as much
    let car = CarState::new(0, 0, 0, 0, 0);
    let next = drive(car, (true, true, false, false));
    assert_eq!(next, CarState::new(0, -4_900_000, 0, 0, -4_900_000));
}

#[test]
fn left_alone_turns_in_place() {
    let mut car = CarState::new(11, -12, 0, 0, 0);
    for tick in 1..=200 {
        car = drive(car, LEFT);
        assert_eq!(car.rotation_y, 40_000_000 * tick);
        assert_eq!((car.x, car.z), (11, -12));
        assert_eq!((car.velocity_x, car.velocity_z), (0, 0));
    }
}

#[test]
fn right_alone_turns_the_other_way() {
    let car = CarState::new(0, 0, 100_000_000, 0, 0);
    let next = drive(car, (false, false, false, true));
    assert_eq!(next, CarState::new(0, 0, 60_000_000, 0, 0));
}

#[test]
fn left_and_right_cancel() {
    let car = CarState::new(5, 6, 1000, 0, 0);
    let next = drive(car, (false, false, true, true));
    assert_eq!(next, car);
}

#[test]
fn steering_acts_before_the_throttle() {
    let car = CarState::new(0, 0, 0, 0, 0);
    let next = drive(car, (true, false, true, false));
    // sin(0.04) * 0.005 * 0.98 and cos(0.04) * 0.005 * 0.98
    assert_eq!(next, CarState::new(195_947, 4_896_080, 40_000_000, 195_947, 4_896_080));
}

#[test]
fn the_heading_is_never_wrapped() {
    // a hundred full turns and a quarter: the vehicle faces along +x
    let quarter: i64 = 1_570_796_327;
    let turns: i64 = 100 * 6_283_185_307;
    let car = CarState::new(0, 0, turns + quarter, 0, 0);
    let next = drive(car, FORWARD);
    assert_eq!(next.rotation_y, turns + quarter);
    assert!((next.velocity_x - 4_900_000).abs() <= 1);
    assert!(next.velocity_z.abs() <= 1_000);
    let turned = drive(car, (true, false, true, false));
    assert_eq!(turned.rotation_y, turns + quarter + 40_000_000);
    // left of +x is toward -z
    assert!(turned.velocity_z < -190_000);
    assert!(turned.velocity_x > 4_890_000);
}

#[test]
fn the_heading_stops_at_the_end_of_its_range() {
    let forward = ForwardVector::new(0, UNIT).unwrap();
    let car = CarState::new(0, 0, i64::MAX - 10, 0, 0);
    let next = update_car_physics(car, input(LEFT), forward);
    assert_eq!(next.rotation_y, i64::MAX);
    let both = update_car_physics(car, input((false, false, true, true)), forward);
    assert_eq!(both.rotation_y, i64::MAX - 10);
    let low = CarState::new(0, 0, i64::MIN + 10, 0, 0);
    let next = update_car_physics(low, input((false, false, false, true)), forward);
    assert_eq!(next.rotation_y, i64::MIN);
}

#[test]
fn the_position_stops_at_the_end_of_its_range() {
    let forward = ForwardVector::new(0, UNIT).unwrap();
    let car = CarState::new(i64::MAX - 5, i64::MIN + 5, 0, 150_000_000, -150_000_000);
    let next = update_car_physics(car, input(IDLE), forward);
    assert_eq!(next.x, i64::MAX);
    assert_eq!(next.z, i64::MIN);
    assert_eq!((next.velocity_x, next.velocity_z), (141_421_356, -141_421_356));
}

#[test]
fn friction_rounds_toward_zero_on_both_sides() {
    let forward = ForwardVector::new(0, UNIT).unwrap();
    // 100_000_001 * 0.98 = 98_000_000.98
    let car = CarState::new(0, 0, 0, -100_000_001, 100_000_001);
    let next = update_car_physics(car, input(IDLE), forward);
    assert_eq!((next.velocity_x, next.velocity_z), (-98_000_000, 98_000_000));
}

#[test]
fn a_fast_vehicle_is_held_to_the_ceiling_along_its_own_direction() {
    let forward = ForwardVector::new(0, UNIT).unwrap();
    let car = CarState::new(0, 0, 0, 3 * UNIT, 4 * UNIT);
    let next = update_car_physics(car, input(IDLE), forward);
    assert_eq!((next.velocity_x, next.velocity_z), (120_000_000, 160_000_000));
    assert_eq!((next.x, next.z), (120_000_000, 160_000_000));
    assert_eq!(next.speed(), 200_000_000);
}

#[test]
fn a_crawling_vehicle_is_brought_to_rest() {
    let forward = ForwardVector::new(0, UNIT).unwrap();
    // 1_020_408 * 0.98 = 999_999.84: just under the threshold
    let car = CarState::new(1, 2, 3, 0, 1_020_408);
    let next = update_car_physics(car, input(IDLE), forward);
    assert_eq!(next, CarState::new(1, 2, 3, 0, 0));
    // 1_020_409 * 0.98 = 1_000_000.82: at the threshold, the vehicle keeps moving
    let car = CarState::new(1, 2, 3, 0, 1_020_409);
    let next = update_car_physics(car, input(IDLE), forward);
    assert_eq!(next, CarState::new(1, 1_000_002, 3, 0, 1_000_000));
}

#[test]
fn a_speed_just_under_the_rest_threshold_is_brought_to_rest() {
    let forward = ForwardVector::new(0, UNIT).unwrap();
    // friction leaves (600_000, 799_999): a speed of 0.0009999992
    let car = CarState::new(10, 20, 30, 612_245, 816_326);
    let next = update_car_physics(car, input(IDLE), forward);
    assert_eq!(next, CarState::new(10, 20, 30, 0, 0));
    assert_eq!(update_car_physics(next, input(IDLE), forward), next);
    // friction leaves (600_000, 800_000): a speed of 0.001 exactly, which is kept
    let car = CarState::new(10, 20, 30, 612_245, 816_327);
    let next = update_car_physics(car, input(IDLE), forward);
    assert_eq!(next, CarState::new(600_010, 800_020, 30, 600_000, 800_000));
}

#[test]
fn braking_at_a_crawl_takes_the_full_brake_power_off() {
    // the vehicle creeps forward at (1, 1) billionths, facing (0.6, 0.8)
    let forward = ForwardVector::new(600_000_000, 800_000_000).unwrap();
    let car = CarState::new(0, 0, 643_501_109, 1, 1);
    let next = update_car_physics(car, input(BACKWARD), forward);
    // (1 - 0.01 / sqrt(2)) * 0.98 per component, and not the reverse thrust
    assert_eq!((next.velocity_x, next.velocity_z), (-6_929_644, -6_929_644));
    assert_eq!((next.x, next.z), (-6_929_644, -6_929_644));
    // along an axis the brake takes exactly its power
    let north = ForwardVector::new(0, UNIT).unwrap();
    let car = CarState::new(0, 0, 0, 0, 1);
    let next = update_car_physics(car, input(BACKWARD), north);
    assert_eq!((next.velocity_x, next.velocity_z), (0, -9_799_999));
}

#[test]
fn braking_takes_the_same_amount_whichever_way_a_slow_vehicle_moves() {
    let north = ForwardVector::new(0, UNIT).unwrap();
    for vx in -40i64..=40 {
        for vz in 1i64..=40 {
            let car = CarState::new(0, 0, 0, vx, vz);
            let next = update_car_physics(car, input(BACKWARD), north);
            // the brake leaves 0.01 less the crawl, against the old direction; then friction
            let x = (next.velocity_x * 100 / 98) as f64;
            let z = (next.velocity_z * 100 / 98) as f64;
            let taken = ((vx as f64 - x).powi(2) + (vz as f64 - z).powi(2)).sqrt();
            assert!((taken - 10_000_000.0).abs() < 6.0, "{car:?} {taken}");
        }
    }
}

#[test]
fn backward_never_leaves_a_vehicle_at_rest_that_was_not_moving_forward() {
    let backward = input(BACKWARD);
    for step in 0..628i64 {
        let heading = step * 10_000_000;
        let forward = facing(heading);
        let (fx, fz) = (forward.x() as i128, forward.z() as i128);
        let (bx, bz) = (-(fx as i64) / 10, -(fz as i64) / 10);
        let (sx, sz) = (fz as i64 / 5, -(fx as i64) / 5);
        // at rest, backing up, and sliding sideways while backing up a little
        for (vx, vz) in [(0, 0), (bx, bz), (sx + bx, sz + bz)] {
            let car = CarState::new(0, 0, heading, vx, vz);
            assert!(vx as i128 * fx + vz as i128 * fz <= 0);
            let next = update_car_physics(car, backward, forward);
            let projection = next.velocity_x as i128 * fx + next.velocity_z as i128 * fz;
            assert!(projection < 0, "{car:?}");
            assert_eq!(next.rotation_y, heading);
        }
    }
}

#[test]
fn cruising_gains_speed_until_the_ceiling() {
    let north = ForwardVector::new(0, UNIT).unwrap();
    let mut car = CarState::new(0, 0, 0, 0, 0);
    let mut ticks = 0;
    while car.velocity_z < 200_000_000 {
        let next = update_car_physics(car, input(FORWARD), north);
        // (v + 0.005) * 0.98, rounded toward zero and held to the ceiling
        let gained = (car.velocity_z + 5_000_000) * 98 / 100;
        assert_eq!(next.velocity_z, gained.min(200_000_000));
        assert!(next.velocity_z > car.velocity_z);
        assert_eq!(next.velocity_x, 0);
        car = next;
        ticks += 1;
    }
    assert_eq!(ticks, 84);
    assert_eq!(update_car_physics(car, input(FORWARD), north).velocity_z, 200_000_000);
}

#[test]
fn the_input_state_is_not_changed_by_a_tick() {
    let car = CarState::new(1, 2, 3, 4_000_000, 5_000_000);
    let kept = car;
    let _ = drive(car, FORWARD);
    assert_eq!(car, kept);
}
