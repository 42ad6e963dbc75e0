use vstd::prelude::*;

verus! {

/// A 64-bit identifier that stands for a name. Zero is the empty identifier.
#[derive(Clone, Copy, Debug, PartialEq, Eq, Hash, Structural)]
pub struct LiveId(pub u64);

/// The number that `makepad_live_tokenizer::LiveId::from_str` gives a name.
pub uninterp spec fn live_id_hash(name: Seq<char>) -> u64;

/// Calls `makepad_live_tokenizer::LiveId::from_str`, a hash of the name's
/// bytes with a fixed seed, and hands back the number it holds. The contract
/// only names that number.
#[verifier::external_body]
fn hash_of_name(name: &str) -> (r: u64)
    ensures
        r == live_id_hash(name@),
{
    makepad_live_tokenizer::LiveId::from_str(name).0
}

impl LiveId {
    pub open spec fn spec_empty() -> LiveId {
        LiveId(0)
    }

    /// The empty identifier, which a wildcard import carries as its name.
    #[verifier::when_used_as_spec(spec_empty)]
    pub fn empty() -> (r: LiveId)
        ensures
            r == LiveId(0),
    {
        LiveId(0)
    }

    pub open spec fn spec_is_empty(&self) -> bool {
        self.0 == 0
    }

    /// Whether this is the empty identifier.
    #[verifier::when_used_as_spec(spec_is_empty)]
    pub fn is_empty(&self) -> (r: bool)
        ensures
            r == (self.0 == 0),
    {
        self.0 == 0
    }

    /// The identifier of a name.
    pub fn from_str(name: &str) -> (r: LiveId)
        ensures
            r == LiveId(live_id_hash(name@)),
    {
        LiveId(hash_of_name(name))
    }

    /// The identifier under which a module refers to its own crate.
    pub open spec fn spec_own_crate() -> LiveId {
        LiveId(live_id_hash("crate"@))
    }

    #[verifier::when_used_as_spec(spec_own_crate)]
    pub fn own_crate() -> (r: LiveId)
        ensures
            r == LiveId::spec_own_crate(),
    {
        LiveId::from_str("crate")
    }
}

} // verus!
