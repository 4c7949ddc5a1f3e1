use vstd::prelude::*;

verus! {

/// Identity of a concrete data layout: equal tokens name the same struct.
#[derive(Clone, Copy, Debug, PartialEq, Eq, Structural, PartialOrd, Ord, Hash)]
pub struct StructId {
    pub id: u64,
}

/// Identity of a capability (an interface that structs may implement).
#[derive(Clone, Copy, Debug, PartialEq, Eq, Structural, PartialOrd, Ord, Hash)]
pub struct TraitId {
    pub id: u64,
}

impl StructId {
    pub fn new(id: u64) -> (r: StructId)
        ensures
            r.id == id,
    {
        StructId { id }
    }
}

impl TraitId {
    pub fn new(id: u64) -> (r: TraitId)
        ensures
            r.id == id,
    {
        TraitId { id }
    }
}

} // verus!
