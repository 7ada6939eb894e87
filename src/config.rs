use vstd::prelude::*;

verus! {

/// Largest radius a configuration may use (world units).
pub const RADIUS_LIMIT: i64 = 0x100_0000_0000;

/// Largest speed or force cap a configuration may use.
pub const CAP_LIMIT: i64 = 0x4000_0000;

/// Largest rule weight, in thousandths.
pub const WEIGHT_LIMIT: i64 = 0x10_0000;

/// Weights are expressed in thousandths: a weight of `1500` multiplies by 1.5.
pub const WEIGHT_SCALE: i64 = 1000;

/// Tuning of the flocking rules. Distances and speeds are in world units
/// per frame; weights are in thousandths.
#[derive(Clone, Copy, Debug, PartialEq, Eq, Structural)]
pub struct Config {
    /// Agents closer than this push each other apart.
    pub separation_radius: i64,
    /// Agents closer than this align with and are drawn toward each other.
    pub neighbor_radius: i64,
    /// Cap on the length of every velocity after a step.
    pub max_speed: i64,
    /// Cap on the length of each steering contribution.
    pub max_force: i64,
    pub separation_weight: i64,
    pub alignment_weight: i64,
    pub cohesion_weight: i64,
}

impl Config {
    /// Every parameter is non-negative and within the limits that keep the
    /// arithmetic of a step inside machine integers.
    pub open spec fn valid(&self) -> bool {
        &&& 0 <= self.separation_radius <= RADIUS_LIMIT
        &&& 0 <= self.neighbor_radius <= RADIUS_LIMIT
        &&& 0 <= self.max_speed <= CAP_LIMIT
        &&& 0 <= self.max_force <= CAP_LIMIT
        &&& 0 <= self.separation_weight <= WEIGHT_LIMIT
        &&& 0 <= self.alignment_weight <= WEIGHT_LIMIT
        &&& 0 <= self.cohesion_weight <= WEIGHT_LIMIT
    }

    pub fn is_valid(&self) -> (r: bool)
        ensures
            r == self.valid(),
    {
        0 <= self.separation_radius && self.separation_radius <= RADIUS_LIMIT
            && 0 <= self.neighbor_radius && self.neighbor_radius <= RADIUS_LIMIT
            && 0 <= self.max_speed && self.max_speed <= CAP_LIMIT
            && 0 <= self.max_force && self.max_force <= CAP_LIMIT
            && 0 <= self.separation_weight && self.separation_weight <= WEIGHT_LIMIT
            && 0 <= self.alignment_weight && self.alignment_weight <= WEIGHT_LIMIT
            && 0 <= self.cohesion_weight && self.cohesion_weight <= WEIGHT_LIMIT
    }

    /// The classic tuning, with one world unit a thousandth of a pixel:
    /// separation within 25 px, neighbours within 50 px, speed capped at
    /// 2 px per frame, forces at 0.1 px, separation weighted 1.5.
    pub fn standard() -> (r: Config)
        ensures
            r.valid(),
            r.separation_radius == 25_000,
            r.neighbor_radius == 50_000,
            r.max_speed == 2_000,
            r.max_force == 100,
            r.separation_weight == 1500,
            r.alignment_weight == 1000,
            r.cohesion_weight == 1000,
    {
        Config {
            separation_radius: 25_000,
            neighbor_radius: 50_000,
            max_speed: 2_000,
            max_force: 100,
            separation_weight: 1500,
            alignment_weight: 1000,
            cohesion_weight: 1000,
        }
    }
}

} // verus!
