use vstd::prelude::*;

verus! {

/// One corner's rounding radii: vertical and horizontal.
#[derive(Clone, Copy, PartialEq, Eq, Structural, Debug)]
pub struct Corner {
    pub v: u32,
    pub h: u32,
}

impl Corner {
    pub fn vertical(&self) -> (r: u32)
        ensures
            r == self.v,
    {
        self.v
    }

    pub fn horizontal(&self) -> (r: u32)
        ensures
            r == self.h,
    {
        self.h
    }

}

/// A corner with both radii taken from a `(vertical, horizontal)` pair.
impl From<(u32, u32)> for Corner {
    fn from(pair: (u32, u32)) -> (r: Corner) {
        Corner { v: pair.0, h: pair.1 }
    }
}

impl vstd::std_specs::convert::FromSpecImpl<(u32, u32)> for Corner {
    open spec fn obeys_from_spec() -> bool {
        true
    }

    open spec fn from_spec(pair: (u32, u32)) -> Corner {
        Corner { v: pair.0, h: pair.1 }
    }
}

/// A corner with the same radius in both directions.
impl From<u32> for Corner {
    fn from(val: u32) -> (r: Corner) {
        Corner { v: val, h: val }
    }
}

impl vstd::std_specs::convert::FromSpecImpl<u32> for Corner {
    open spec fn obeys_from_spec() -> bool {
        true
    }

    open spec fn from_spec(val: u32) -> Corner {
        Corner { v: val, h: val }
    }
}

} // verus!
