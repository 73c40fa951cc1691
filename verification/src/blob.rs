//! The integer decisions of a blob: where its sensors read the trail map,
//! how it steers on what they read, and how far from the centre blobs may be
//! spawned.

use vstd::prelude::*;

use crate::config::{SIM_HEIGHT, SIM_WIDTH};
use crate::trail_map::{GRID_HEIGHT, GRID_WIDTH};

verus! {

// ---------------------------------------------------------------------------
// Sensing
// ---------------------------------------------------------------------------

/// What a sensor reads at the cell `(x, y)` of a trail map laid out row by
/// row with the grid's width: the pixel there, or nothing when the cell is
/// off the grid or past the end of the map.
pub open spec fn sample_at(trail: Seq<u32>, x: int, y: int) -> Option<u32> {
    if 0 <= x < GRID_WIDTH && 0 <= y < GRID_HEIGHT && y * GRID_WIDTH + x < trail.len() {
        Some(trail[y * GRID_WIDTH + x])
    } else {
        None
    }
}

/// Reads the trail map at the cell `(x, y)` that a sensor point falls in.
pub fn trail_sample(trail: &[u32], x: usize, y: usize) -> (sample: Option<u32>)
    ensures
        sample == sample_at(trail@, x as int, y as int),
        x < GRID_WIDTH && y < GRID_HEIGHT && y * GRID_WIDTH + x < trail@.len() ==> sample == Some(
            trail@[y * GRID_WIDTH + x],
        ),
        !(x < GRID_WIDTH && y < GRID_HEIGHT && y * GRID_WIDTH + x < trail@.len()) ==> sample
            is None,
{
    if x >= GRID_WIDTH || y >= GRID_HEIGHT {
        return None;
    }
    let index = match y.checked_mul(GRID_WIDTH) {
        Some(row_start) => match row_start.checked_add(x) {
            Some(index) => index,
            None => {
                return None;
            },
        },
        None => {
            return None;
        },
    };
    if index < trail.len() {
        Some(trail[index])
    } else {
        None
    }
}

// ---------------------------------------------------------------------------
// Steering
// ---------------------------------------------------------------------------

/// How a blob changes its heading after sensing.
#[derive(Clone, Copy, Debug, PartialEq, Eq, Structural)]
pub enum Steering {
    /// Nothing was sensed: turn half a circle.
    TurnAround,
    /// Keep the current heading.
    KeepHeading,
    /// Turn by a random amount to either side, up to the turn speed.
    Wander,
    /// Turn right by a random fraction of the turn speed.
    TurnRight,
    /// Turn left by a random fraction of the turn speed.
    TurnLeft,
}

/// `a` senses more trail than `b`. A sensor that saw nothing weighs less than
/// any that saw something.
pub open spec fn weighs_more(a: Option<u32>, b: Option<u32>) -> bool {
    match (a, b) {
        (Some(x), Some(y)) => x > y,
        (Some(_), None) => true,
        _ => false,
    }
}

/// The steering for the weights sensed ahead, to the left and to the right.
pub open spec fn steering_for(forward: Option<u32>, left: Option<u32>, right: Option<u32>) -> Steering {
    if forward is None && left is None && right is None {
        Steering::TurnAround
    } else if weighs_more(forward, left) && weighs_more(forward, right) {
        Steering::KeepHeading
    } else if weighs_more(left, forward) && weighs_more(right, forward) {
        Steering::Wander
    } else if weighs_more(right, left) {
        Steering::TurnRight
    } else if weighs_more(left, right) {
        Steering::TurnLeft
    } else {
        Steering::KeepHeading
    }
}

/// The steering with left and right exchanged.
pub open spec fn mirrored(steering: Steering) -> Steering {
    match steering {
        Steering::TurnRight => Steering::TurnLeft,
        Steering::TurnLeft => Steering::TurnRight,
        other => other,
    }
}

fn weighs_more_than(a: Option<u32>, b: Option<u32>) -> (more: bool)
    ensures
        more == weighs_more(a, b),
{
    match (a, b) {
        (Some(x), Some(y)) => x > y,
        (Some(_), None) => true,
        _ => false,
    }
}

/// Chooses how a blob steers from what its three sensors read.
///
/// Each weight is a key that orders as the trail strength the sensor read,
/// or `None` when the sensor saw no cell of the grid.
pub fn choose_steering(forward: Option<u32>, left: Option<u32>, right: Option<u32>) -> (steering:
    Steering)
    ensures
        steering == steering_for(forward, left, right),
        steering == Steering::TurnAround <==> (forward is None && left is None && right is None),
{
    if forward.is_none() && left.is_none() && right.is_none() {
        Steering::TurnAround
    } else if weighs_more_than(forward, left) && weighs_more_than(forward, right) {
        Steering::KeepHeading
    } else if weighs_more_than(left, forward) && weighs_more_than(right, forward) {
        Steering::Wander
    } else if weighs_more_than(right, left) {
        Steering::TurnRight
    } else if weighs_more_than(left, right) {
        Steering::TurnLeft
    } else {
        Steering::KeepHeading
    }
}

/// Steering is symmetric: exchanging what the left and right sensors read
/// exchanges turning left and turning right, and changes nothing else.
pub proof fn lemma_steering_mirror(forward: Option<u32>, left: Option<u32>, right: Option<u32>)
    ensures
        steering_for(forward, right, left) == mirrored(steering_for(forward, left, right)),
{
}

/// The reading `reading` one step brighter, with a sensor that saw nothing
/// reading zero.
pub open spec fn one_brighter(reading: Option<u32>) -> Option<u32> {
    match reading {
        Some(v) => Some((v + 1) as u32),
        None => Some(0u32),
    }
}

/// Steering when all three sensors saw something: keep heading when forward
/// reads strictly most; wander when forward reads strictly least, whatever
/// the order of the sides; otherwise turn towards the side that reads more,
/// and keep heading when the sides tie. In particular three equal readings
/// keep the heading, and a blob that saw something never turns around.
pub proof fn lemma_steering_on_readings(forward: u32, left: u32, right: u32)
    ensures
        forward > left && forward > right ==> steering_for(Some(forward), Some(left), Some(right))
            == Steering::KeepHeading,
        forward < left && forward < right ==> steering_for(Some(forward), Some(left), Some(right))
            == Steering::Wander,
        !(forward > left && forward > right) && !(forward < left && forward < right) && right
            > left ==> steering_for(Some(forward), Some(left), Some(right)) == Steering::TurnRight,
        !(forward > left && forward > right) && !(forward < left && forward < right) && left
            > right ==> steering_for(Some(forward), Some(left), Some(right)) == Steering::TurnLeft,
        left == right && !(forward < left) ==> steering_for(Some(forward), Some(left), Some(right))
            == Steering::KeepHeading,
        steering_for(Some(forward), Some(left), Some(right)) != Steering::TurnAround,
{
}

/// A sensor that saw nothing ranks below every sensor that saw something:
/// unless all three saw nothing, the steering is the one for readings where
/// each sensor that saw nothing reads zero and each other reads one more.
pub proof fn lemma_steering_unseen_ranks_lowest(
    forward: Option<u32>,
    left: Option<u32>,
    right: Option<u32>,
)
    requires
        !(forward is None && left is None && right is None),
        forward matches Some(v) ==> v < u32::MAX,
        left matches Some(v) ==> v < u32::MAX,
        right matches Some(v) ==> v < u32::MAX,
    ensures
        steering_for(forward, left, right) == steering_for(
            one_brighter(forward),
            one_brighter(left),
            one_brighter(right),
        ),
{
}

/// A blob turns around exactly when none of its sensors saw anything.
pub proof fn lemma_turn_around_only_when_blind(
    forward: Option<u32>,
    left: Option<u32>,
    right: Option<u32>,
)
    ensures
        steering_for(forward, left, right) == Steering::TurnAround <==> (forward is None && left
            is None && right is None),
{
}

/// A sensor reads the whole pixel at its cell: the cell `(x, y)` of the grid
/// is the element `y * 2560 + x` of the map when the map holds it, and a
/// cell off the grid, or past the end of the map, reads nothing.
pub proof fn lemma_sample_reads_whole_pixel(trail: Seq<u32>, x: int, y: int)
    ensures
        0 <= x < 2560 && 0 <= y < 1440 && y * 2560 + x < trail.len() ==> sample_at(trail, x, y)
            == Some(trail[y * 2560 + x]),
        !(0 <= x < 2560 && 0 <= y < 1440 && y * 2560 + x < trail.len()) ==> sample_at(trail, x, y)
            is None,
{
}

// ---------------------------------------------------------------------------
// Spawning
// ---------------------------------------------------------------------------

/// The blobs cannot be spawned in a circle of this radius around the centre.
#[derive(Clone, Copy, Debug, PartialEq, Eq, Structural)]
pub enum BlobGroupError {
    /// The radius exceeds the largest circle around the centre that fits in
    /// the simulation.
    RadiusTooLarge { radius: u16, maximum: u16 },
}

/// The radius of the largest circle around the centre that fits in the
/// simulation: half the smaller dimension of the grid.
pub open spec fn max_spawn_radius() -> int {
    if SIM_WIDTH < SIM_HEIGHT {
        SIM_WIDTH as int / 2
    } else {
        SIM_HEIGHT as int / 2
    }
}

/// The largest spawn radius is half the grid's height, 720 cells.
pub proof fn lemma_max_spawn_radius()
    ensures
        max_spawn_radius() == 720,
        max_spawn_radius() == SIM_HEIGHT / 2,
        SIM_HEIGHT <= SIM_WIDTH,
{
}

/// Checks that a circle of `radius` around the centre fits in the simulation.
pub fn check_spawn_radius(radius: u16) -> (result: Result<(), BlobGroupError>)
    ensures
        result is Ok <==> radius <= max_spawn_radius(),
        result is Ok <==> radius <= 720,
        result is Err ==> result == Err::<(), BlobGroupError>(
            BlobGroupError::RadiusTooLarge { radius, maximum: 720 },
        ),
        result is Err ==> result == Err::<(), BlobGroupError>(
            BlobGroupError::RadiusTooLarge { radius, maximum: max_spawn_radius() as u16 },
        ),
{
    let smaller: u16 = if SIM_WIDTH < SIM_HEIGHT { SIM_WIDTH } else { SIM_HEIGHT };
    let maximum: u16 = smaller / 2;
    if radius > maximum {
        return Err(BlobGroupError::RadiusTooLarge { radius, maximum });
    }
    Ok(())
}

} // verus!
