use vstd::prelude::*;
use crate::live_id::LiveId;
use crate::live_ptr::LiveFileId;
use crate::span::Span;

verus! {

/// The three kinds of bracket.
#[derive(Clone, Copy, Debug, PartialEq, Eq, Hash, Structural)]
pub enum Delim {
    Paren,
    Bracket,
    Brace,
}

/// What the lexer recognizes at one place of a line. A floating-point literal
/// is held by the bit pattern of its value.
#[derive(Clone, Copy, Debug, PartialEq, Eq, Hash, Structural)]
pub enum Fragment {
    Punct(LiveId),
    Ident(LiveId),
    Open(Delim),
    Close(Delim),
    String,
    Bool(bool),
    Color(u32),
    Float(u64),
    Int(i64),
    OtherNumber,
    Lifetime,
    Comment,
    Whitespace,
    Unknown,
}

/// A token of a document's token stream. A string literal is held as a range
/// of the document's string buffer, a floating-point literal by the bit
/// pattern of its value.
#[derive(Clone, Copy, Debug, PartialEq, Eq, Hash, Structural)]
pub enum LiveToken {
    Punct(LiveId),
    Ident(LiveId),
    Open(Delim),
    Close(Delim),
    String { index: u32, len: u32 },
    Bool(bool),
    Int(i64),
    Float(u64),
    Color(u32),
    Eof,
}

/// A token together with the place it was read from.
#[derive(Clone, Copy, Debug, PartialEq, Eq, Hash, Structural)]
pub struct TokenWithSpan {
    pub span: Span,
    pub token: LiveToken,
}

/// The place of a token: a file, and an index into that file's token stream.
#[derive(Clone, Copy, Debug, PartialEq, Eq, Hash, Structural)]
pub struct TokenId {
    pub file_id: LiveFileId,
    pub token_index: u32,
}

impl TokenId {
    pub fn new(file_id: LiveFileId, token_index: u32) -> (r: TokenId)
        ensures
            r == (TokenId { file_id, token_index }),
    {
        TokenId { file_id, token_index }
    }

    pub fn file_id(&self) -> (r: LiveFileId)
        ensures
            r == self.file_id,
    {
        self.file_id
    }

    pub fn token_index(&self) -> (r: usize)
        ensures
            r == self.token_index,
    {
        self.token_index as usize
    }
}

impl LiveToken {
    /// The token that a lexed fragment contributes to the token stream, if it
    /// contributes one by itself: string literals, whitespace, comments and
    /// the rejected fragments do not.
    pub open spec fn spec_from_full_token(fragment: Fragment) -> Option<LiveToken> {
        match fragment {
            Fragment::Punct(id) => Some(LiveToken::Punct(id)),
            Fragment::Ident(id) => Some(LiveToken::Ident(id)),
            Fragment::Open(delim) => Some(LiveToken::Open(delim)),
            Fragment::Close(delim) => Some(LiveToken::Close(delim)),
            Fragment::Bool(value) => Some(LiveToken::Bool(value)),
            Fragment::Color(value) => Some(LiveToken::Color(value)),
            Fragment::Float(bits) => Some(LiveToken::Float(bits)),
            Fragment::Int(value) => Some(LiveToken::Int(value)),
            _ => None,
        }
    }

    /// The token that a lexed fragment contributes by itself, if any.
    #[verifier::when_used_as_spec(spec_from_full_token)]
    pub fn from_full_token(fragment: Fragment) -> (r: Option<LiveToken>)
        ensures
            r == LiveToken::spec_from_full_token(fragment),
    {
        match fragment {
            Fragment::Punct(id) => Some(LiveToken::Punct(id)),
            Fragment::Ident(id) => Some(LiveToken::Ident(id)),
            Fragment::Open(delim) => Some(LiveToken::Open(delim)),
            Fragment::Close(delim) => Some(LiveToken::Close(delim)),
            Fragment::Bool(value) => Some(LiveToken::Bool(value)),
            Fragment::Color(value) => Some(LiveToken::Color(value)),
            Fragment::Float(bits) => Some(LiveToken::Float(bits)),
            Fragment::Int(value) => Some(LiveToken::Int(value)),
            _ => None,
        }
    }
}

} // verus!
