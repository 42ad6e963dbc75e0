use vstd::prelude::*;
use crate::live_id::LiveId;
use crate::live_ptr::{LiveModuleId, LivePtr};
use crate::live_token::TokenId;

verus! {

/// The opaque identity of an object type that was registered from outside.
#[derive(Clone, Copy, Debug, PartialEq, Eq, Hash, Structural)]
pub struct LiveType(pub u64);

/// A field of a registered object type, with a reference to the field's own
/// type: that type's identity and the module that owns it.
#[derive(Clone, Copy, Debug, PartialEq, Eq, Hash, Structural)]
pub struct LiveTypeField {
    pub id: LiveId,
    pub live_type: LiveType,
    pub module_id: LiveModuleId,
}

/// The shape of a registered object type: the module that owns it and its fields.
#[derive(Clone, Debug)]
pub struct LiveTypeInfo {
    pub live_type: LiveType,
    pub name: LiveId,
    pub module_id: LiveModuleId,
    pub fields: Vec<LiveTypeField>,
}

/// Where a node comes from: the token it was parsed from and its own place
/// in the node array, as far as they are known.
#[derive(Clone, Copy, Debug, PartialEq, Eq, Hash)]
pub struct LiveNodeOrigin {
    pub token_id: Option<TokenId>,
    pub node_index: Option<u32>,
}

impl LiveNodeOrigin {
    pub fn token_id(&self) -> (r: Option<TokenId>)
        ensures
            r == self.token_id,
    {
        self.token_id
    }

    pub fn node_index(&self) -> (r: Option<usize>)
        ensures
            r == match self.node_index {
                Some(index) => Some(index as usize),
                None => None,
            },
    {
        match self.node_index {
            Some(index) => Some(index as usize),
            None => None,
        }
    }
}

/// The value of a node. Floating-point numbers are held by their bit
/// patterns. `Object`, `Array` and `Class` open a run of child nodes that a
/// `Close` node ends.
#[derive(Clone, Copy, Debug, PartialEq, Eq, Hash)]
pub enum LiveValue {
    Bool(bool),
    Int(i64),
    Float(u64),
    Color(u32),
    Vec2 { x: u32, y: u32 },
    Vec3 { x: u32, y: u32, z: u32 },
    Vec4 { x: u32, y: u32, z: u32, w: u32 },
    String { index: u32, len: u32 },
    Use(LiveModuleId),
    Object,
    Array,
    Class { live_type: LiveType, class_parent: Option<LivePtr> },
    Close,
}

impl LiveValue {
    pub open spec fn spec_is_open(&self) -> bool {
        self is Object || self is Array || self is Class
    }

    /// Whether the value opens a run of child nodes.
    #[verifier::when_used_as_spec(spec_is_open)]
    pub fn is_open(&self) -> (r: bool)
        ensures
            r == self.spec_is_open(),
    {
        match self {
            LiveValue::Object | LiveValue::Array | LiveValue::Class { .. } => true,
            _ => false,
        }
    }

    pub open spec fn spec_is_close(&self) -> bool {
        self is Close
    }

    /// Whether the value ends a run of child nodes.
    #[verifier::when_used_as_spec(spec_is_close)]
    pub fn is_close(&self) -> (r: bool)
        ensures
            r == self.spec_is_close(),
    {
        match self {
            LiveValue::Close => true,
            _ => false,
        }
    }
}

/// One entry of a document's flat node array.
#[derive(Clone, Copy, Debug, PartialEq, Eq, Hash)]
pub struct LiveNode {
    pub origin: LiveNodeOrigin,
    pub id: LiveId,
    pub value: LiveValue,
}

} // verus!
