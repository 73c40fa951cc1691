use blob_simulator::blob::{check_spawn_radius, choose_steering, trail_sample, BlobGroupError, Steering};
use blob_simulator::config::{BLOB_SPAWN_RADIUS, SIM_SIZE};
use blob_simulator::trail_map::{GRID_HEIGHT, GRID_WIDTH};

#[test]
fn sensing_nothing_turns_around() {
    assert_eq!(choose_steering(None, None, None), Steering::TurnAround);
}

#[test]
fn strongest_forward_keeps_heading() {
    assert_eq!(choose_steering(Some(10), Some(3), Some(9)), Steering::KeepHeading);
    assert_eq!(choose_steering(Some(0), None, None), Steering::KeepHeading);
}

#[test]
fn weakest_forward_wanders() {
    assert_eq!(choose_steering(Some(1), Some(3), Some(3)), Steering::Wander);
    assert_eq!(choose_steering(None, Some(0), Some(0)), Steering::Wander);
}

#[test]
fn stronger_side_wins() {
    assert_eq!(choose_steering(Some(5), Some(3), Some(7)), Steering::TurnRight);
    assert_eq!(choose_steering(Some(5), Some(7), Some(3)), Steering::TurnLeft);
    assert_eq!(choose_steering(Some(5), None, Some(5)), Steering::TurnRight);
    assert_eq!(choose_steering(None, Some(2), None), Steering::TurnLeft);
}

#[test]
fn ties_keep_heading() {
    assert_eq!(choose_steering(Some(4), Some(4), Some(4)), Steering::KeepHeading);
    assert_eq!(choose_steering(Some(9), Some(4), Some(9)), Steering::TurnRight);
    assert_eq!(choose_steering(Some(2), Some(9), Some(9)), Steering::Wander);
    assert_eq!(choose_steering(Some(9), Some(9), Some(2)), Steering::TurnLeft);
}

#[test]
fn steering_mirrors_when_sides_swap() {
    let weights = [None, Some(0), Some(1), Some(2)];
    for f in weights {
        for l in weights {
            for r in weights {
                let mirrored = match choose_steering(f, l, r) {
                    Steering::TurnLeft => Steering::TurnRight,
                    Steering::TurnRight => Steering::TurnLeft,
                    other => other,
                };
                assert_eq!(choose_steering(f, r, l), mirrored);
            }
        }
    }
}

#[test]
fn trail_sample_reads_row_major() {
    let mut trail = vec![0u32; SIM_SIZE];
    trail[3 * GRID_WIDTH + 4] = 77;
    assert_eq!(trail_sample(&trail, 4, 3), Some(77));
    assert_eq!(trail_sample(&trail, 3, 4), Some(0));
}

#[test]
fn trail_sample_off_grid() {
    let trail = vec![1u32; SIM_SIZE];
    assert_eq!(trail_sample(&trail, GRID_WIDTH, 0), None);
    assert_eq!(trail_sample(&trail, 0, GRID_HEIGHT), None);
    assert_eq!(trail_sample(&trail, GRID_WIDTH - 1, GRID_HEIGHT - 1), Some(1));
}

#[test]
fn trail_sample_past_short_map() {
    let trail = vec![5u32; 10];
    assert_eq!(trail_sample(&trail, 9, 0), Some(5));
    assert_eq!(trail_sample(&trail, 10, 0), None);
    assert_eq!(trail_sample(&trail, 0, 1), None);
}

#[test]
fn spawn_radius_within_bounds() {
    assert_eq!(check_spawn_radius(BLOB_SPAWN_RADIUS), Ok(()));
    assert_eq!(check_spawn_radius(0), Ok(()));
    assert_eq!(check_spawn_radius(720), Ok(()));
}

#[test]
fn spawn_radius_too_large() {
    assert_eq!(
        check_spawn_radius(721),
        Err(BlobGroupError::RadiusTooLarge { radius: 721, maximum: 720 })
    );
    assert_eq!(
        check_spawn_radius(u16::MAX),
        Err(BlobGroupError::RadiusTooLarge { radius: u16::MAX, maximum: 720 })
    );
}
