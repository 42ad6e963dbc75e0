use vstd::prelude::*;
use vstd::string::{StrSliceExecFns, StringExecFns};
use crate::live_error::LiveError;
use crate::live_ptr::LiveFileId;
use crate::live_token::{Fragment, LiveToken, TokenWithSpan};
use crate::span::{Span, TextPos};

verus! {

/// The token stream and the string buffer that lexing has produced so far.
pub struct LexOutput {
    pub tokens: Seq<TokenWithSpan>,
    pub strings: Seq<char>,
}

/// The span of a fragment of `len` characters that starts at `pos`.
pub open spec fn fragment_span(file_id: LiveFileId, pos: TextPos, len: usize) -> Span {
    Span {
        file_id,
        start: pos,
        end: TextPos { line: pos.line, column: (pos.column + len) as u32 },
    }
}

/// Whether a fragment stops the lexing of its file: the unrecognized
/// fragments, the number and quote forms outside the language, and a piece of
/// a string literal too short to hold both of its quotes.
pub open spec fn fragment_rejected(fragment: Fragment, len: usize) -> bool {
    match fragment {
        Fragment::Unknown | Fragment::OtherNumber | Fragment::Lifetime => true,
        Fragment::String => len < 2,
        _ => false,
    }
}

/// The output after an accepted fragment that starts at character `offset` of
/// `line`. A string literal adds the characters between its quotes to the
/// string buffer and a token that points at them; whitespace and comments add
/// nothing; every other fragment adds its token.
pub open spec fn output_after(
    out: LexOutput,
    line: Seq<char>,
    offset: int,
    fragment: Fragment,
    len: usize,
    span: Span,
) -> LexOutput {
    match fragment {
        Fragment::String => LexOutput {
            tokens: out.tokens.push(
                TokenWithSpan {
                    span,
                    token: LiveToken::String {
                        index: out.strings.len() as u32,
                        len: (len - 2) as u32,
                    },
                },
            ),
            strings: out.strings + line.subrange(offset + 1, offset + len - 1),
        },
        _ => match LiveToken::spec_from_full_token(fragment) {
            Some(token) => LexOutput {
                tokens: out.tokens.push(TokenWithSpan { span, token }),
                strings: out.strings,
            },
            None => out,
        },
    }
}

/// What one answer of the lexer at character `offset` of a line leads to:
/// the end of the line's lexing, or the lexing of the rest of the line. No
/// fragment ends the line with the state and the output as they are. A
/// rejected fragment ends it with the fragment's span; one that claims no
/// character, or more than the line has left, ends it with an empty span at
/// its start.
pub open spec fn line_goes_on<S, L>(
    lex: L,
    file_id: LiveFileId,
    state: S,
    line: Vec<char>,
    offset: int,
    line_no: int,
    base: int,
    out: LexOutput,
    answer: (S, Option<(Fragment, usize)>),
    end: (S, Result<LexOutput, Span>),
) -> bool where L: Fn(S, &Vec<char>, usize) -> (S, Option<(Fragment, usize)>)
    decreases line@.len() - offset, 0int,
{
    match answer {
        (_, None) => end == (state, Ok::<LexOutput, Span>(out)),
        (next, Some((fragment, len))) => {
            let pos = TextPos { line: line_no as u32, column: (base + offset) as u32 };
            let span = fragment_span(file_id, pos, len);
            if len < 1 || offset + len > line@.len() {
                end == (state, Err::<LexOutput, Span>(Span { file_id, start: pos, end: pos }))
            } else if fragment_rejected(fragment, len) {
                end == (state, Err::<LexOutput, Span>(span))
            } else {
                lexes_line(
                    lex,
                    file_id,
                    next,
                    line,
                    offset + len,
                    line_no,
                    base,
                    output_after(out, line@, offset, fragment, len, span),
                    end,
                )
            }
        },
    }
}

/// Whether the lexing of a line from character `offset` on can end in
/// `end`: the state that the next line starts in, and the output or the span
/// of the rejected fragment. The line's first character stands in column
/// `base` of line `line_no`. The lexer is asked at `offset`, and whatever it
/// answers leads on as `line_goes_on` says.
pub open spec fn lexes_line<S, L>(
    lex: L,
    file_id: LiveFileId,
    state: S,
    line: Vec<char>,
    offset: int,
    line_no: int,
    base: int,
    out: LexOutput,
    end: (S, Result<LexOutput, Span>),
) -> bool where L: Fn(S, &Vec<char>, usize) -> (S, Option<(Fragment, usize)>)
    decreases line@.len() - offset, 1int,
{
    exists|answer: (S, Option<(Fragment, usize)>)| #[trigger]
        lex.ensures((state, &line, offset as usize), answer) && line_goes_on(
            lex,
            file_id,
            state,
            line,
            offset,
            line_no,
            base,
            out,
            answer,
            end,
        )
}

/// The first index from `at` on that holds a newline, or the end of the text.
pub open spec fn line_end(source: Seq<char>, at: int) -> int
    decreases source.len() - at,
{
    if at >= source.len() || source[at] == '\n' {
        at
    } else {
        line_end(source, at + 1)
    }
}

/// The line that runs from `at` to `end`. Where a newline ends it, one
/// carriage return just before that newline does not belong to the line.
pub open spec fn line_between(source: Seq<char>, at: int, end: int) -> Seq<char> {
    if end < source.len() && at < end && source[end - 1] == '\r' {
        source.subrange(at, end - 1)
    } else {
        source.subrange(at, end)
    }
}

/// Whether the lexing of the text from index `at` on, line by line, can end
/// in `end`. The lexer's state carries over from one line to the next; the
/// column starts again at zero.
pub open spec fn lexes_lines<S, L>(
    lex: L,
    file_id: LiveFileId,
    state: S,
    source: Seq<char>,
    at: int,
    line_no: int,
    base: int,
    out: LexOutput,
    end: Result<LexOutput, Span>,
) -> bool where L: Fn(S, &Vec<char>, usize) -> (S, Option<(Fragment, usize)>)
    decreases source.len() - at,
{
    if at < 0 || at >= source.len() {
        end == Ok::<LexOutput, Span>(out)
    } else {
        let stop = line_end(source, at);
        exists|line: Vec<char>, next: S, lexed: Result<LexOutput, Span>|
            {
                &&& line@ == line_between(source, at, stop)
                &&& #[trigger] lexes_line(lex, file_id, state, line, 0, line_no, base, out, (next, lexed))
                &&& match lexed {
                    Err(span) => end == Err::<LexOutput, Span>(span),
                    Ok(out) => if at <= stop < source.len() {
                        lexes_lines(lex, file_id, next, source, stop + 1, line_no + 1, 0, out, end)
                    } else {
                        end == Ok::<LexOutput, Span>(out)
                    },
                }
            }
    }
}

/// Whether the lexing of a source text that starts at `start_pos`, with the
/// lexer in state `start`, can end in `end`: the token stream, closed by an
/// end-of-file token, and the string buffer, or the span of the first
/// rejected fragment.
pub open spec fn tokenized_by<S, L>(
    lex: L,
    start: S,
    source: Seq<char>,
    start_pos: TextPos,
    file_id: LiveFileId,
    end: Result<LexOutput, Span>,
) -> bool where L: Fn(S, &Vec<char>, usize) -> (S, Option<(Fragment, usize)>) {
    exists|lexed: Result<LexOutput, Span>| #[trigger]
        lexes_lines(
            lex,
            file_id,
            start,
            source,
            0,
            start_pos.line as int,
            start_pos.column as int,
            LexOutput { tokens: Seq::empty(), strings: Seq::empty() },
            lexed,
        ) && end == match lexed {
            Err(span) => Err::<LexOutput, Span>(span),
            Ok(out) => Ok(
                LexOutput {
                    tokens: out.tokens.push(TokenWithSpan { span: Span::spec_empty(), token: LiveToken::Eof }),
                    strings: out.strings,
                },
            ),
        }
}

/// What a result of `tokenize` says of the lexing: the token stream and the
/// string buffer, or the span of the error.
pub open spec fn lexing_of(result: Result<(Vec<TokenWithSpan>, Vec<char>), LiveError>) -> Result<LexOutput, Span> {
    match result {
        Ok(found) => Ok(LexOutput { tokens: found.0@, strings: found.1@ }),
        Err(error) => Err(error.span),
    }
}

/// Whether the lexer can be asked at every place of every line.
pub open spec fn lexer_takes_lines<S, L>(lex: L) -> bool where
    L: Fn(S, &Vec<char>, usize) -> (S, Option<(Fragment, usize)>),
 {
    forall|state: S, line: &Vec<char>, from: usize|
        from <= line@.len() ==> #[trigger] lex.requires((state, line, from))
}

/// Whether a source text that starts at `start_pos` keeps every line and
/// column number within 32 bits.
pub open spec fn fits_positions(source: Seq<char>, start_pos: TextPos) -> bool {
    &&& start_pos.line + source.len() < u32::MAX
    &&& start_pos.column + source.len() < u32::MAX
}

/// A line ends at the first newline from its start on, or at the end of
/// the text.
pub proof fn lemma_line_end_bounds(source: Seq<char>, at: int)
    requires
        0 <= at <= source.len(),
    ensures
        at <= line_end(source, at) <= source.len(),
        forall|k: int| at <= k < line_end(source, at) ==> source[k] != '\n',
        line_end(source, at) < source.len() ==> source[line_end(source, at)] == '\n',
    decreases source.len() - at,
{
    if at < source.len() && source[at] != '\n' {
        lemma_line_end_bounds(source, at + 1);
    }
}

/// Whether a source text that starts at `start_pos` keeps every line and
/// column number within 32 bits.
pub fn positions_fit(source: &str, start_pos: TextPos) -> (r: bool)
    ensures
        r == fits_positions(source@, start_pos),
{
    let len = source.unicode_len();
    let limit: usize = u32::MAX as usize;
    len < limit && start_pos.line as usize <= limit - len - 1 && start_pos.column as usize <= limit - len - 1
}

/// The characters of a text.
pub fn chars_of(source: &str) -> (r: Vec<char>)
    ensures
        r@ == source@,
{
    let mut chars: Vec<char> = Vec::new();
    for c in it: source.chars()
        invariant
            chars@ == it.seq().take(it.index() as int),
            it.seq() == source@,
    {
        chars.push(c);
    }
    chars
}

/// Takes one lexed fragment into the token stream and the string buffer.
/// Returns whether the fragment was accepted; a rejected one leaves both
/// unchanged.
pub fn push_fragment(
    tokens: &mut Vec<TokenWithSpan>,
    strings: &mut Vec<char>,
    line: &Vec<char>,
    offset: usize,
    fragment: Fragment,
    len: usize,
    span: Span,
) -> (accepted: bool)
    requires
        1 <= len,
        offset + len <= line@.len(),
        old(strings)@.len() + len <= u32::MAX,
    ensures
        accepted == !fragment_rejected(fragment, len),
        accepted ==> (LexOutput { tokens: final(tokens)@, strings: final(strings)@ }) == output_after(
            LexOutput { tokens: old(tokens)@, strings: old(strings)@ },
            line@,
            offset as int,
            fragment,
            len,
            span,
        ),
        !accepted ==> final(tokens)@ == old(tokens)@ && final(strings)@ == old(strings)@,
{
    match fragment {
        Fragment::Unknown | Fragment::OtherNumber | Fragment::Lifetime => false,
        Fragment::String => {
            if len < 2 {
                return false;
            }
            let inner: usize = len - 2;
            let size: usize = line.len();
            tokens.push(
                TokenWithSpan {
                    span,
                    token: LiveToken::String { index: strings.len() as u32, len: inner as u32 },
                },
            );
            let first: usize = offset + 1;
            let mut k: usize = 0;
            while k < inner
                invariant
                    k <= inner,
                    inner == len - 2,
                    first == offset + 1,
                    offset + len <= line@.len() == size,
                    strings@ == old(strings)@ + line@.subrange(first as int, first + k),
                decreases inner - k,
            {
                strings.push(line[first + k]);
                k += 1;
            }
            true
        },
        _ => {
            match LiveToken::from_full_token(fragment) {
                Some(token) => {
                    tokens.push(TokenWithSpan { span, token });
                },
                None => {},
            }
            true
        },
    }
}

/// Lexes one line whose first character stands in column `base` of line
/// `line_no`. Returns the state for the next line, and the span of the
/// rejected fragment if there was one.
fn lex_one_line<S: Copy, L>(
    lex: &L,
    file_id: LiveFileId,
    state: S,
    line: &Vec<char>,
    line_no: u32,
    base: u32,
    tokens: &mut Vec<TokenWithSpan>,
    strings: &mut Vec<char>,
) -> (r: (S, Option<Span>)) where L: Fn(S, &Vec<char>, usize) -> (S, Option<(Fragment, usize)>)
    requires
        lexer_takes_lines::<S, L>(*lex),
        base + line@.len() <= u32::MAX,
        old(strings)@.len() + line@.len() <= u32::MAX,
    ensures
        lexes_line(
            *lex,
            file_id,
            state,
            *line,
            0,
            line_no as int,
            base as int,
            LexOutput { tokens: old(tokens)@, strings: old(strings)@ },
            (
                r.0,
                match r.1 {
                    Some(span) => Err::<LexOutput, Span>(span),
                    None => Ok::<LexOutput, Span>(LexOutput { tokens: final(tokens)@, strings: final(strings)@ }),
                },
            ),
        ),
        final(strings)@.len() <= old(strings)@.len() + line@.len(),
{
    let mut current = state;
    let mut offset: usize = 0;
    let size = line.len();
    loop
        invariant
            offset <= line@.len() == size,
            lexer_takes_lines::<S, L>(*lex),
            base + line@.len() <= u32::MAX,
            old(strings)@.len() + line@.len() <= u32::MAX,
            strings@.len() <= old(strings)@.len() + offset,
            forall|end: (S, Result<LexOutput, Span>)| #[trigger]
                lexes_line(
                    *lex,
                    file_id,
                    current,
                    *line,
                    offset as int,
                    line_no as int,
                    base as int,
                    LexOutput { tokens: tokens@, strings: strings@ },
                    end,
                ) ==> lexes_line(
                    *lex,
                    file_id,
                    state,
                    *line,
                    0,
                    line_no as int,
                    base as int,
                    LexOutput { tokens: old(tokens)@, strings: old(strings)@ },
                    end,
                ),
        decreases line@.len() - offset,
    {
        let ghost before = LexOutput { tokens: tokens@, strings: strings@ };
        let answer = lex(current, line, offset);
        let ghost asked = answer;
        match answer.1 {
            None => {
                proof {
                    let end = (current, Ok::<LexOutput, Span>(before));
                    assert(line_goes_on(*lex, file_id, current, *line, offset as int, line_no as int, base as int, before, asked, end));
                    assert(lexes_line(*lex, file_id, current, *line, offset as int, line_no as int, base as int, before, end));
                }
                return (current, None);
            },
            Some((fragment, len)) => {
                let column: u32 = base + offset as u32;
                let pos = TextPos { line: line_no, column };
                if len < 1 || len > size - offset {
                    let span = Span { file_id, start: pos, end: pos };
                    proof {
                        let end = (current, Err::<LexOutput, Span>(span));
                        assert(line_goes_on(*lex, file_id, current, *line, offset as int, line_no as int, base as int, before, asked, end));
                        assert(lexes_line(*lex, file_id, current, *line, offset as int, line_no as int, base as int, before, end));
                    }
                    return (current, Some(span));
                }
                let span = Span {
                    file_id,
                    start: pos,
                    end: TextPos { line: line_no, column: column + len as u32 },
                };
                let accepted = push_fragment(tokens, strings, line, offset, fragment, len, span);
                if !accepted {
                    proof {
                        let end = (current, Err::<LexOutput, Span>(span));
                        assert(line_goes_on(*lex, file_id, current, *line, offset as int, line_no as int, base as int, before, asked, end));
                        assert(lexes_line(*lex, file_id, current, *line, offset as int, line_no as int, base as int, before, end));
                    }
                    return (current, Some(span));
                }
                proof {
                    let after = LexOutput { tokens: tokens@, strings: strings@ };
                    assert forall|end: (S, Result<LexOutput, Span>)| #[trigger]
                        lexes_line(
                            *lex,
                            file_id,
                            asked.0,
                            *line,
                            offset + len,
                            line_no as int,
                            base as int,
                            after,
                            end,
                        ) implies lexes_line(
                        *lex,
                        file_id,
                        state,
                        *line,
                        0,
                        line_no as int,
                        base as int,
                        LexOutput { tokens: old(tokens)@, strings: old(strings)@ },
                        end,
                    ) by {
                        assert(line_goes_on(*lex, file_id, current, *line, offset as int, line_no as int, base as int, before, asked, end));
                        assert(lexes_line(*lex, file_id, current, *line, offset as int, line_no as int, base as int, before, end));
                    }
                }
                offset += len;
                current = answer.0;
            },
        }
    }
}

/// Turns a source text into its token stream and its string buffer, with
/// `lex` as the lexer, which starts in state `start`. The text is lexed
/// line by line: at each place of a line `lex` is given its state, the line
/// and the place, and answers with its next state and the fragment it
/// recognizes there, with the fragment's length in characters, or with no
/// fragment at the end of the line. The stream ends with an end-of-file
/// token. The first rejected fragment stops the lexing with an error at its
/// span.
pub fn tokenize<S: Copy, L>(source: &str, start_pos: TextPos, file_id: LiveFileId, start: S, lex: L) -> (r: Result<
    (Vec<TokenWithSpan>, Vec<char>),
    LiveError,
>) where L: Fn(S, &Vec<char>, usize) -> (S, Option<(Fragment, usize)>)
    requires
        fits_positions(source@, start_pos),
        lexer_takes_lines::<S, L>(lex),
    ensures
        tokenized_by(lex, start, source@, start_pos, file_id, lexing_of(r)),
        r matches Err(error) ==> error.message@ == "Error tokenizing"@,
{
    let chars = chars_of(source);
    let mut tokens: Vec<TokenWithSpan> = Vec::new();
    let mut strings: Vec<char> = Vec::new();
    let mut state = start;
    let mut at: usize = 0;
    let mut line_no: u32 = start_pos.line;
    let mut base: u32 = start_pos.column;
    while at < chars.len()
        invariant
            chars@ == source@,
            fits_positions(source@, start_pos),
            lexer_takes_lines::<S, L>(lex),
            at <= chars@.len(),
            strings@.len() <= at,
            line_no <= start_pos.line + at,
            base <= start_pos.column,
            forall|end: Result<LexOutput, Span>| #[trigger]
                lexes_lines(
                    lex,
                    file_id,
                    state,
                    chars@,
                    at as int,
                    line_no as int,
                    base as int,
                    LexOutput { tokens: tokens@, strings: strings@ },
                    end,
                ) ==> lexes_lines(
                    lex,
                    file_id,
                    start,
                    chars@,
                    0,
                    start_pos.line as int,
                    start_pos.column as int,
                    LexOutput { tokens: Seq::empty(), strings: Seq::empty() },
                    end,
                ),
        decreases chars@.len() - at,
    {
        let mut end: usize = at;
        while end < chars.len() && chars[end] != '\n'
            invariant
                at <= end <= chars@.len(),
                line_end(chars@, end as int) == line_end(chars@, at as int),
            decreases chars@.len() - end,
        {
            end += 1;
        }
        let stop: usize = if end < chars.len() && at < end && chars[end - 1] == '\r' {
            end - 1
        } else {
            end
        };
        let mut line: Vec<char> = Vec::new();
        let mut k: usize = at;
        while k < stop
            invariant
                at <= k <= stop <= chars@.len(),
                line@ == chars@.subrange(at as int, k as int),
            decreases stop - k,
        {
            line.push(chars[k]);
            k += 1;
        }
        assert(line@ == line_between(chars@, at as int, end as int));
        assert(line_end(chars@, at as int) == end);
        let ghost before = LexOutput { tokens: tokens@, strings: strings@ };
        let ghost entered = state;
        let (next, rejected) = lex_one_line(&lex, file_id, state, &line, line_no, base, &mut tokens, &mut strings);
        match rejected {
            Some(span) => {
                proof {
                    let lexed = Err::<LexOutput, Span>(span);
                    assert(lexes_line(lex, file_id, entered, line, 0, line_no as int, base as int, before, (next, lexed)));
                    assert(lexes_lines(lex, file_id, entered, chars@, at as int, line_no as int, base as int, before, lexed));
                }
                return Err(LiveError { span, message: String::from_str("Error tokenizing") });
            },
            None => {},
        }
        proof {
            let after = LexOutput { tokens: tokens@, strings: strings@ };
            let lexed = Ok::<LexOutput, Span>(after);
            let then = if end >= chars@.len() {
                chars@.len() as int
            } else {
                end + 1
            };
            assert forall|last: Result<LexOutput, Span>| #[trigger]
                lexes_lines(lex, file_id, next, chars@, then, line_no + 1, 0, after, last) implies lexes_lines(
                lex,
                file_id,
                start,
                chars@,
                0,
                start_pos.line as int,
                start_pos.column as int,
                LexOutput { tokens: Seq::empty(), strings: Seq::empty() },
                last,
            ) by {
                assert(lexes_line(lex, file_id, entered, line, 0, line_no as int, base as int, before, (next, lexed)));
                assert(lexes_lines(lex, file_id, entered, chars@, at as int, line_no as int, base as int, before, last));
            }
        }
        state = next;
        at = if end >= chars.len() {
            chars.len()
        } else {
            end + 1
        };
        line_no = line_no + 1;
        base = 0;
    }
    proof {
        let lexed = Ok::<LexOutput, Span>(LexOutput { tokens: tokens@, strings: strings@ });
        assert(lexes_lines(
            lex,
            file_id,
            state,
            chars@,
            at as int,
            line_no as int,
            base as int,
            LexOutput { tokens: tokens@, strings: strings@ },
            lexed,
        ));
    }
    tokens.push(TokenWithSpan { span: Span::default(), token: LiveToken::Eof });
    Ok((tokens, strings))
}

} // verus!
