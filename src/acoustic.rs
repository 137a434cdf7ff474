//! Acoustic impedances of the media of the transducer model and the
//! reflection coefficient between them.
use vstd::prelude::*;

verus! {

/// Acoustic impedance of water, in rayl (kg m^-2 s^-1).
pub const Z_WATER: u64 = 1_480_000;

/// Acoustic impedance of borosilicate glass, in rayl.
pub const Z_GLASS: u64 = 12_600_000;

/// Pressure reflection coefficient at normal incidence, for a wave in a
/// medium of impedance `z1` meeting a medium of impedance `z2`, as the exact
/// fraction `(z2 - z1) / (z2 + z1)`: numerator and denominator.
pub fn reflection_coefficient(z1: u64, z2: u64) -> (r: (i64, u64))
    requires
        z1 <= i64::MAX,
        z2 <= i64::MAX,
        z1 + z2 > 0,
    ensures
        r.0 == z2 - z1,
        r.1 == z2 + z1,
{
    ((z2 as i64) - (z1 as i64), z2 + z1)
}

} // verus!
