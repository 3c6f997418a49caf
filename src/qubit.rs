use vstd::prelude::*;

verus! {

/// The index of a physical node of the topology.
#[derive(Clone, Copy, Debug, PartialEq, Eq, Structural, Hash, PartialOrd, Ord)]
pub struct PhysicalQubit(pub u32);

impl PhysicalQubit {
    pub fn new(index: u32) -> (r: PhysicalQubit)
        ensures
            r.0 == index,
    {
        PhysicalQubit(index)
    }

    pub fn index(&self) -> (r: u32)
        ensures
            r == self.0,
    {
        self.0
    }
}

} // verus!
