use vstd::prelude::*;
use crate::live_node::LiveNode;
use crate::live_token::{TokenId, TokenWithSpan};
use crate::span::Span;

verus! {

/// The node-array form of one file: raw as the parser produced it, or
/// expanded.
#[derive(Debug)]
pub struct LiveDocument {
    pub nodes: Vec<LiveNode>,
    pub strings: Vec<char>,
    pub tokens: Vec<TokenWithSpan>,
    /// Whether the document is stale and has to be expanded again.
    pub recompile: bool,
}

/// A copy of a vector of plain values.
pub fn copy_of<T: Copy>(items: &Vec<T>) -> (r: Vec<T>)
    ensures
        r@ == items@,
{
    let mut copy: Vec<T> = Vec::new();
    let mut i: usize = 0;
    while i < items.len()
        invariant
            i <= items@.len(),
            copy@ == items@.subrange(0, i as int),
        decreases items@.len() - i,
    {
        copy.push(items[i]);
        i += 1;
    }
    assert(items@.subrange(0, items@.len() as int) == items@);
    copy
}

impl LiveDocument {
    /// Whether the document holds no node, string or token.
    pub open spec fn is_blank(&self) -> bool {
        self.nodes@.len() == 0 && self.strings@.len() == 0 && self.tokens@.len() == 0
    }

    /// A blank document that is due for expansion.
    pub fn new() -> (r: LiveDocument)
        ensures
            r.is_blank(),
            r.recompile,
    {
        LiveDocument { nodes: Vec::new(), strings: Vec::new(), tokens: Vec::new(), recompile: true }
    }

    /// The node at an index.
    pub fn resolve_ptr(&self, index: usize) -> (r: &LiveNode)
        requires
            index < self.nodes@.len(),
        ensures
            *r == self.nodes@[index as int],
    {
        &self.nodes[index]
    }

    /// Empties the node array and takes over the strings and tokens of
    /// another document, ready to be filled from it.
    pub fn restart_from(&mut self, other: &LiveDocument)
        ensures
            final(self).nodes@.len() == 0,
            final(self).strings@ == other.strings@,
            final(self).tokens@ == other.tokens@,
            final(self).recompile == old(self).recompile,
    {
        self.nodes = Vec::new();
        self.strings = copy_of(&other.strings);
        self.tokens = copy_of(&other.tokens);
    }

    /// The span of one of the document's tokens.
    pub fn token_id_to_span(&self, token_id: TokenId) -> (r: Span)
        requires
            token_id.token_index < self.tokens@.len(),
        ensures
            r == self.tokens@[token_id.token_index as int].span,
    {
        self.tokens[token_id.token_index()].span
    }
}

impl Default for LiveDocument {
    /// The blank document of the reserved slot zero, which is never expanded.
    fn default() -> (r: LiveDocument)
        ensures
            r.is_blank(),
            !r.recompile,
    {
        LiveDocument { nodes: Vec::new(), strings: Vec::new(), tokens: Vec::new(), recompile: false }
    }
}

} // verus!
