use town_builder_physics::{steer, update_car_physics, CarState, ForwardVector, InputState};

fn facing(heading: i64) -> ForwardVector {
    let angle = heading as f64 / 1e9;
    let x = (angle.sin() * 1e9).round() as i64;
    let z = (angle.cos() * 1e9).round() as i64;
    ForwardVector::new(x, z).unwrap()
}

fn drive(car: CarState, input: InputState) -> CarState {
    let forward = facing(steer(car.rotation_y, input));
    update_car_physics(car, input, forward)
}

fn every_input() -> Vec<InputState> {
    let mut inputs = Vec::new();
    for bits in 0..16u8 {
        inputs.push(InputState::new(bits & 1 != 0, bits & 2 != 0, bits & 4 != 0, bits & 8 != 0));
    }
    inputs
}

fn norm_squared(car: &CarState) -> i128 {
    let x = car.velocity_x as i128;
    let z = car.velocity_z as i128;
    x * x + z * z
}

const CEILING_SQUARED: i128 = 200_000_000 * 200_000_000;

#[test]
fn speed_is_bounded_after_one_tick_from_any_velocity() {
    let samples: [i64; 11] = [
        i64::MIN,
        -5_000_000_000,
        -200_000_001,
        -141_421_357,
        -1,
        0,
        1,
        199_999_999,
        200_000_000,
        3_000_000_000,
        i64::MAX,
    ];
    let headings: [i64; 4] = [0, 785_398_163, 3_141_592_654, -1_000_000_000_000];
    for vx in samples {
        for vz in samples {
            for heading in headings {
                for input in every_input() {
                    let car = CarState::new(0, 0, heading, vx, vz);
                    let next = drive(car, input);
                    assert!(norm_squared(&next) <= CEILING_SQUARED, "{car:?} {input:?}");
                    assert!(next.speed() <= 200_000_000);
                }
            }
        }
    }
}

#[test]
fn speed_stays_bounded_over_a_long_drive() {
    let mut car = CarState::new(0, 0, 0, 0, 0);
    for tick in 0..2_000u32 {
        let input = InputState::new(tick % 7 != 0, tick % 11 == 0, tick % 3 == 0, tick % 5 == 0);
        car = drive(car, input);
        assert!(norm_squared(&car) <= CEILING_SQUARED, "tick {tick}");
    }
}

#[test]
fn idle_decay_shrinks_the_velocity_by_the_friction_factor() {
    let idle = InputState::new(false, false, false, false);
    let mut car = CarState::new(0, 0, 0, 0, 100_000_000);
    let expected: [i64; 3] = [98_000_000, 96_040_000, 94_119_200];
    for velocity in expected {
        car = drive(car, idle);
        assert_eq!(car.velocity_z, velocity);
    }
    assert_eq!(car.z, 288_159_200);
}

#[test]
fn idle_decay_ends_at_rest_and_stays_there() {
    let idle = InputState::new(false, false, false, false);
    let mut car = CarState::new(7, -9, 123, 60_000_000, -80_000_000);
    let mut ticks = 0;
    while (car.velocity_x, car.velocity_z) != (0, 0) {
        let next = drive(car, idle);
        assert!(norm_squared(&next) < norm_squared(&car));
        assert!(next.velocity_x.abs() * 100 <= car.velocity_x.abs() * 98);
        assert!(next.velocity_z.abs() * 100 <= car.velocity_z.abs() * 98);
        assert_eq!(next.rotation_y, 123);
        car = next;
        ticks += 1;
        assert!(ticks <= 1_000);
    }
    assert_eq!(ticks, 228);
    assert_eq!(car, CarState::new(2_910_027_175, -3_880_037_241, 123, 0, 0));
    for _ in 0..10 {
        assert_eq!(drive(car, idle), car);
    }
}

#[test]
fn idle_decay_does_not_depend_on_the_forward_vector() {
    let idle = InputState::new(false, false, false, false);
    let car = CarState::new(0, 0, 0, 12_345_678, -87_654_321);
    let north = ForwardVector::new(0, 1_000_000_000).unwrap();
    let east = ForwardVector::new(1_000_000_000, 0).unwrap();
    assert_eq!(update_car_physics(car, idle, north), update_car_physics(car, idle, east));
}

#[test]
fn equal_inputs_give_equal_states() {
    let mut car = CarState::new(0, 0, 0, 0, 0);
    for tick in 0..500u32 {
        let input = InputState::new(tick % 2 == 0, tick % 13 == 0, tick % 3 == 0, tick % 4 == 0);
        let first = drive(car, input);
        let second = drive(car, input);
        assert_eq!(first, second);
        car = first;
    }
}

#[test]
fn throttle_from_rest_gives_the_same_speed_whichever_way_the_vehicle_faces() {
    let forward = InputState::new(true, false, false, false);
    let backward = InputState::new(false, true, false, false);
    for step in 0..6_284i64 {
        let car = CarState::new(0, 0, step * 1_000_000, 0, 0);
        for input in [forward, backward] {
            // 0.005 * 0.98, less what rounding takes
            let speed = drive(car, input).speed();
            assert!((4_899_995..=4_900_001).contains(&speed), "{car:?} {speed}");
        }
    }
}
