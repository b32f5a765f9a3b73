//! Defaults of the terrain-shape genome that are not floating point.

use vstd::prelude::*;

verus! {

/// Schema version of the terrain-shape genome when the file does not say.
pub fn default_schema() -> (v: u32)
    ensures
        v == 1,
{
    1
}

/// Flags of the terrain-shape genome (such as an octave's `ridged`) are off
/// unless the file turns them on.
pub fn default_false() -> (b: bool)
    ensures
        !b,
{
    false
}

} // verus!
