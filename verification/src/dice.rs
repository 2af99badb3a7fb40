//! The die source: uniform six-sided draws from the process-wide generator.

use vstd::prelude::*;

verus! {

/// Relies on rand::random: it draws a value of the requested type from the
/// thread-local generator. Nothing is promised of a random draw.
pub assume_specification<T>[ rand::random::<T> ]() -> (r: T)
    where
        rand::distributions::Standard: rand::distributions::Distribution<T>,
;

/// Draws one six-sided die: whatever the generator produced, the result is a
/// face value between 1 and 6.
pub fn roll_d6() -> (r: u32)
    ensures
        1 <= r <= 6,
{
    let raw = rand::random::<u32>();
    (raw % 6) + 1
}

} // verus!
