//! Chat members as the transport identifies them.

use vstd::prelude::*;

verus! {

/// A chat member: an opaque id and the display name last seen for it.
#[derive(Clone, Debug)]
pub struct Member {
    pub id: u64,
    pub name: String,
}

impl Member {
    pub fn new(id: u64, name: String) -> (r: Member)
        ensures
            r.id == id,
            r.name == name,
    {
        Member { id, name }
    }

    /// A copy of the member, equal to it field by field.
    pub fn duplicate(&self) -> (r: Member)
        ensures
            r == *self,
    {
        Member { id: self.id, name: self.name.clone() }
    }
}

} // verus!
