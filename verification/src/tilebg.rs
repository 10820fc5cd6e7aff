//! The background tile map, which holds no state of its own.
use vstd::prelude::*;

verus! {

/// The background tile map.
pub struct TileBG {}

impl TileBG {
    /// A background tile map.
    pub fn new() -> (r: TileBG)
        ensures
            r == (TileBG {}),
    {
        TileBG {}
    }
}

} // verus!
