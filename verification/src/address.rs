use vstd::prelude::*;

verus! {

/// An account or contract identity, as the protocol's logic sees it: only
/// whether two identities are the same matters, so an identity is a number.
#[derive(Clone, Copy, Debug, PartialEq, Eq, Structural, Hash)]
pub struct Address {
    pub id: u64,
}

impl Address {
    /// The identity with the given number.
    pub fn new(id: u64) -> (a: Address)
        ensures
            a.id == id,
    {
        Address { id }
    }
}

} // verus!
