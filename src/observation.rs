use vstd::prelude::*;

verus! {

/// Number of fixed-point steps in one whole unit: coordinates are held in hundredths.
pub const UNITS_PER_WHOLE: i32 = 100;

/// Largest magnitude, in hundredths, of a coordinate that a fit accepts.
pub const MAX_MAGNITUDE: i32 = 1_000_000;

/// Largest number of observations that a fit accepts.
pub const MAX_OBSERVATIONS: usize = 2048;

/// One measured sample: `x` and `y` are fixed-point numbers counted in hundredths,
/// so `Observation { x: 750, y: 975 }` stands for the point (7.5, 9.75).
#[derive(Clone, Copy, Debug, PartialEq, Eq, Structural)]
pub struct Observation {
    pub x: i32,
    pub y: i32,
}

impl Observation {
    /// Both coordinates lie within the magnitude that a fit accepts.
    pub open spec fn in_range(self) -> bool {
        -MAX_MAGNITUDE <= self.x <= MAX_MAGNITUDE && -MAX_MAGNITUDE <= self.y <= MAX_MAGNITUDE
    }

    pub fn new(x: i32, y: i32) -> (r: Observation)
        ensures
            r.x == x,
            r.y == y,
    {
        Observation { x, y }
    }

    pub fn is_in_range(&self) -> (r: bool)
        ensures
            r == self.in_range(),
    {
        -MAX_MAGNITUDE <= self.x && self.x <= MAX_MAGNITUDE && -MAX_MAGNITUDE <= self.y
            && self.y <= MAX_MAGNITUDE
    }
}

} // verus!
