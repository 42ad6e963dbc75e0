use vstd::prelude::*;
use crate::live_id::LiveId;

verus! {

/// The dense index of a physical file. Index zero is a reserved empty slot.
#[derive(Clone, Copy, Debug, PartialEq, Eq, Hash, Structural)]
pub struct LiveFileId(pub u16);

impl LiveFileId {
    pub open spec fn spec_to_index(&self) -> usize {
        self.0 as usize
    }

    /// The index of the file's slot.
    #[verifier::when_used_as_spec(spec_to_index)]
    pub fn to_index(&self) -> (r: usize)
        ensures
            r == self.0,
    {
        self.0 as usize
    }

    /// The file identity of a slot index.
    pub fn index(index: usize) -> (r: LiveFileId)
        requires
            index <= u16::MAX,
        ensures
            r.0 == index,
    {
        LiveFileId(index as u16)
    }
}

/// A logical compilation unit: the crate's identifier, then the module's.
#[derive(Clone, Copy, Debug, PartialEq, Eq, Hash, Structural)]
pub struct LiveModuleId(pub LiveId, pub LiveId);

/// A node of one file's expanded document.
#[derive(Clone, Copy, Debug, PartialEq, Eq, Hash, Structural)]
pub struct LivePtr {
    pub file_id: LiveFileId,
    pub index: u32,
}

} // verus!
