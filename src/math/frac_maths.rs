use vstd::prelude::*;

verus! {

/// A fraction `num / denom` applied by multiplying first and dividing after.
#[derive(Copy, Clone, Debug)]
pub struct SimpleFracTemplate<T> {
    pub num: T,
    pub denom: T,
}

pub type SimpleFracu32 = SimpleFracTemplate<u32>;

impl SimpleFracTemplate<u32> {
    pub fn new(num: u32, denom: u32) -> (r: Self)
        ensures
            r.num == num && r.denom == denom,
    {
        SimpleFracTemplate { num, denom }
    }

    /// `num * rhs / denom`.
    pub fn mul(self, rhs: u32) -> (r: u32)
        requires
            self.denom > 0,
            self.num * rhs <= u32::MAX,
        ensures
            r == (self.num * rhs) / (self.denom as int),
    {
        self.num * rhs / self.denom
    }
}

} // verus!
