//! Shapes of the layers of the agents' network.
use vstd::prelude::*;

verus! {

/// Zero padding added around an image: `pad_w` columns on each side and
/// `pad_h` rows above and below.
pub struct Padding {
    pub pad_w: usize,
    pub pad_h: usize,
}

impl Padding {
    pub fn new(pad_w: usize, pad_h: usize) -> (r: Padding)
        ensures
            r.pad_w == pad_w,
            r.pad_h == pad_h,
    {
        Padding { pad_w, pad_h }
    }
}

} // verus!
