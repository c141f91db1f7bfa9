//! Token streams: a cursor over the lexed tokens of a source, and a
//! growable token list for editing.
use std::ops::Range;
use std::sync::Arc;
use vstd::prelude::*;
use crate::defs::{RawSpan, Span, Spanned};
use crate::lexer::{lex_source, spec_lex, stop_error, tokens_match, LexingError};
use crate::text::string_of;
use crate::toks::{fixed_text, kind_of, Token};

verus! {

/// A second handle on shared data.
/// Trusted: `Arc::clone` hands out a pointer to the same value.
#[verifier::external_body]
pub(crate) fn share<T>(a: &Arc<T>) -> (r: Arc<T>)
    ensures
        *r == **a,
{
    a.clone()
}

/// A copy of a spanned token.
pub fn clone_spanned(t: &Spanned<Token>) -> (r: Spanned<Token>)
    ensures
        r.span == t.span,
        r.value@ == t.value@,
        kind_of(r.value) == kind_of(t.value),
{
    Spanned { span: t.span, value: t.value.clone() }
}

/// Line breaks, spaces and tabs.
pub open spec fn is_ws_token(t: Token) -> bool {
    t is Newline || t is Space || t is Tab
}

/// The first index `m >= k`, `m < end`, of a token that is not white space.
pub open spec fn first_non_ws(toks: Seq<Spanned<Token>>, k: int, end: int) -> Option<int>
    decreases end - k,
{
    if k < 0 || k >= end || k >= toks.len() {
        None
    } else if !is_ws_token(toks[k].value) {
        Some(k)
    } else {
        first_non_ws(toks, k + 1, end)
    }
}

proof fn lemma_first_non_ws(toks: Seq<Spanned<Token>>, k: int, end: int)
    requires
        0 <= k,
    ensures
        first_non_ws(toks, k, end) matches Some(m) ==> {
            &&& k <= m < end && m < toks.len()
            &&& !is_ws_token(toks[m].value)
            &&& forall|j: int| k <= j < m ==> is_ws_token(#[trigger] toks[j].value)
        },
        first_non_ws(toks, k, end) is None ==>
            forall|j: int| k <= j < end && j < toks.len() ==> is_ws_token(#[trigger] toks[j].value),
    decreases end - k,
{
    if k < end && k < toks.len() && is_ws_token(toks[k].value) {
        lemma_first_non_ws(toks, k + 1, end);
    }
}

proof fn lemma_first_non_ws_is(toks: Seq<Spanned<Token>>, k: int, end: int, m: int)
    requires
        0 <= k <= m <= end,
        m <= toks.len(),
        forall|j: int| k <= j < m ==> is_ws_token(#[trigger] toks[j].value),
    ensures
        first_non_ws(toks, k, end) == first_non_ws(toks, m, end),
    decreases m - k,
{
    if k < m {
        lemma_first_non_ws_is(toks, k + 1, end, m);
    }
}

/// Which pair of brackets to match.
#[derive(Debug, Clone, Copy, PartialEq, Eq)]
pub enum Delimiter {
    Brace,
    Bracket,
    Paren,
}

pub open spec fn is_open(d: Delimiter, t: Token) -> bool {
    match d {
        Delimiter::Brace => t is LBrace,
        Delimiter::Bracket => t is LBracket,
        Delimiter::Paren => t is LParen,
    }
}

pub open spec fn is_close(d: Delimiter, t: Token) -> bool {
    match d {
        Delimiter::Brace => t is RBrace,
        Delimiter::Bracket => t is RBracket,
        Delimiter::Paren => t is RParen,
    }
}

impl Delimiter {
    pub fn open_token(self) -> (r: Token)
        ensures
            is_open(self, r),
    {
        match self {
            Delimiter::Brace => Token::LBrace,
            Delimiter::Bracket => Token::LBracket,
            Delimiter::Paren => Token::LParen,
        }
    }

    pub fn close_token(self) -> (r: Token)
        ensures
            is_close(self, r),
    {
        match self {
            Delimiter::Brace => Token::RBrace,
            Delimiter::Bracket => Token::RBracket,
            Delimiter::Paren => Token::RParen,
        }
    }

    fn opens(self, t: &Token) -> (r: bool)
        ensures
            r == is_open(self, *t),
    {
        match self {
            Delimiter::Brace => t.kind() == 5,
            Delimiter::Bracket => t.kind() == 9,
            Delimiter::Paren => t.kind() == 7,
        }
    }

    fn closes(self, t: &Token) -> (r: bool)
        ensures
            r == is_close(self, *t),
    {
        match self {
            Delimiter::Brace => t.kind() == 6,
            Delimiter::Bracket => t.kind() == 10,
            Delimiter::Paren => t.kind() == 8,
        }
    }
}

/// The index of the bracket that closes the ones open so far (`depth`),
/// scanning from `k` up to `end`.
pub open spec fn close_match(toks: Seq<Spanned<Token>>, d: Delimiter, k: int, end: int, depth: int) -> Option<int>
    decreases end - k,
{
    if k < 0 || k >= end || k >= toks.len() {
        None
    } else if is_open(d, toks[k].value) {
        close_match(toks, d, k + 1, end, depth + 1)
    } else if is_close(d, toks[k].value) && depth > 0 {
        if depth == 1 {
            Some(k)
        } else {
            close_match(toks, d, k + 1, end, depth - 1)
        }
    } else {
        close_match(toks, d, k + 1, end, depth)
    }
}

/// The text a token type is described by in errors.
fn describe(t: &Token) -> (r: String)
    ensures
        r@ == fixed_text(*t),
{
    let cs = t.fixed_chars();
    string_of(cs.as_slice())
}

/// A cursor over a range of the tokens of a source text.
#[derive(Debug)]
pub struct TokenStream {
    pub(crate) source: Arc<String>,
    pub(crate) tokens: Arc<Vec<Spanned<Token>>>,
    pub(crate) cursor: usize,
    range_start: usize,
    range_end: usize,
    is_fork: bool,
}

impl TokenStream {
    /// The cursor lies in the range, and the range in the tokens.
    pub closed spec fn wf(&self) -> bool {
        self.range_start <= self.cursor <= self.range_end <= self.tokens@.len()
    }

    /// All the tokens of the source, shared between forks.
    pub closed spec fn toks(&self) -> Seq<Spanned<Token>> {
        self.tokens@
    }

    pub closed spec fn spec_cursor(&self) -> usize {
        self.cursor
    }

    pub closed spec fn spec_range_start(&self) -> usize {
        self.range_start
    }

    pub closed spec fn spec_range_end(&self) -> usize {
        self.range_end
    }

    pub closed spec fn spec_is_fork(&self) -> bool {
        self.is_fork
    }

    pub closed spec fn src(&self) -> Seq<char> {
        self.source@
    }

    /// What `wf` says, for callers.
    pub proof fn lemma_wf(&self)
        requires
            self.wf(),
        ensures
            self.spec_range_start() <= self.spec_cursor() <= self.spec_range_end() <= self.toks().len(),
    {
    }

    /// Lexes `source` into a stream over all of its tokens.
    pub fn lex(source: &str) -> (r: Result<Self, LexingError>)
        ensures
            match r {
                Ok(ts) => {
                    &&& spec_lex(source@) matches Ok(lexed) && tokens_match(source@, ts.toks(), lexed)
                    &&& ts.wf()
                    &&& ts.spec_cursor() == 0
                    &&& ts.spec_range_start() == 0
                    &&& ts.spec_range_end() == ts.toks().len()
                    &&& !ts.spec_is_fork()
                    &&& ts.src() == source@
                },
                Err(e) => spec_lex(source@) matches Err(stop) && e == stop_error(source@, stop),
            },
    {
        match lex_source(source) {
            Ok(toks) => {
                let range_end = toks.len();
                Ok(TokenStream {
                    source: Arc::new(String::from_str(source)),
                    tokens: Arc::new(toks),
                    cursor: 0,
                    range_start: 0,
                    range_end,
                    is_fork: false,
                })
            },
            Err(e) => Err(e),
        }
    }

    /// A second cursor over the same tokens, marked as a fork.
    pub fn fork(&self) -> (r: Self)
        ensures
            r.toks() == self.toks(),
            r.src() == self.src(),
            r.spec_cursor() == self.spec_cursor(),
            r.spec_range_start() == self.spec_range_start(),
            r.spec_range_end() == self.spec_range_end(),
            r.spec_is_fork(),
    {
        TokenStream {
            source: share(&self.source),
            tokens: share(&self.tokens),
            cursor: self.cursor,
            range_start: self.range_start,
            range_end: self.range_end,
            is_fork: true,
        }
    }

    pub fn is_empty(&self) -> (r: bool)
        ensures
            r == (self.spec_cursor() >= self.spec_range_end()),
    {
        self.cursor >= self.range_end
    }

    /// The first token at or after the cursor that is not white space, when
    /// the cursor is inside the range (the search itself may run past the
    /// end of the range).
    pub fn peek_unchecked(&self) -> (r: Option<&Spanned<Token>>)
        requires
            self.wf(),
        ensures
            self.spec_cursor() < self.spec_range_end() ==> match first_non_ws(self.toks(), self.spec_cursor() as int, self.toks().len() as int) {
                Some(m) => r matches Some(t) && *t == self.toks()[m],
                None => r is None,
            },
            self.spec_cursor() >= self.spec_range_end() ==> r is None,
    {
        if self.cursor >= self.range_end {
            return None;
        }
        let toks: &Vec<Spanned<Token>> = &self.tokens;
        let mut k = self.cursor;
        while k < toks.len()
            invariant
                self.wf(),
                *toks == *self.tokens,
                self.spec_cursor() < self.spec_range_end(),
                self.spec_cursor() <= k <= toks@.len(),
                first_non_ws(toks@, self.spec_cursor() as int, toks@.len() as int) == first_non_ws(toks@, k as int, toks@.len() as int),
            decreases toks@.len() - k,
        {
            if !toks[k].value.is_whitespace() {
                return Some(&toks[k]);
            }
            k += 1;
        }
        None
    }

    /// The token under the cursor, white space included.
    pub fn peek_unchecked_with_whitespace(&self) -> (r: Option<&Spanned<Token>>)
        requires
            self.wf(),
        ensures
            self.spec_cursor() < self.spec_range_end() ==> (r matches Some(t) && *t == self.toks()[self.spec_cursor() as int]),
            self.spec_cursor() >= self.spec_range_end() ==> r is None,
    {
        if self.cursor < self.range_end {
            Some(&self.tokens[self.cursor])
        } else {
            None
        }
    }

    /// The token `n` places after the cursor, if it lies in the range.
    pub fn nth(&self, n: usize) -> (r: Option<&Spanned<Token>>)
        requires
            self.wf(),
            self.spec_cursor() + n <= usize::MAX,
        ensures
            self.spec_cursor() + n < self.spec_range_end() ==> (r matches Some(t) && *t == self.toks()[self.spec_cursor() + n]),
            self.spec_cursor() + n >= self.spec_range_end() ==> r is None,
    {
        let idx = self.cursor + n;
        if idx < self.range_end {
            Some(&self.tokens[idx])
        } else {
            None
        }
    }

    /// Takes the token under the cursor, white space included.
    pub fn next_with_whitespace(&mut self) -> (r: Option<Spanned<Token>>)
        requires
            old(self).wf(),
        ensures
            final(self).wf(),
            final(self).toks() == old(self).toks(),
            final(self).src() == old(self).src(),
            final(self).spec_range_start() == old(self).spec_range_start(),
            final(self).spec_range_end() == old(self).spec_range_end(),
            final(self).spec_is_fork() == old(self).spec_is_fork(),
            old(self).spec_cursor() < old(self).spec_range_end() ==> {
                &&& r matches Some(t)
                &&& t.span == old(self).toks()[old(self).spec_cursor() as int].span
                &&& t.value@ == old(self).toks()[old(self).spec_cursor() as int].value@
                &&& kind_of(t.value) == kind_of(old(self).toks()[old(self).spec_cursor() as int].value)
                &&& final(self).spec_cursor() == old(self).spec_cursor() + 1
            },
            old(self).spec_cursor() >= old(self).spec_range_end() ==> r is None && final(self).spec_cursor() == old(self).spec_cursor(),
    {
        if self.cursor >= self.range_end {
            return None;
        }
        let t = clone_spanned(&self.tokens[self.cursor]);
        self.cursor += 1;
        Some(t)
    }

    /// Takes the next token that is not white space, skipping white space.
    pub fn next(&mut self) -> (r: Option<Spanned<Token>>)
        requires
            old(self).wf(),
        ensures
            final(self).wf(),
            final(self).toks() == old(self).toks(),
            final(self).src() == old(self).src(),
            final(self).spec_range_start() == old(self).spec_range_start(),
            final(self).spec_range_end() == old(self).spec_range_end(),
            final(self).spec_is_fork() == old(self).spec_is_fork(),
            match first_non_ws(old(self).toks(), old(self).spec_cursor() as int, old(self).spec_range_end() as int) {
                Some(m) => {
                    &&& r matches Some(t)
                    &&& t.span == old(self).toks()[m].span
                    &&& t.value@ == old(self).toks()[m].value@
                    &&& kind_of(t.value) == kind_of(old(self).toks()[m].value)
                    &&& final(self).spec_cursor() == m + 1
                },
                None => r is None && final(self).spec_cursor() == old(self).spec_range_end(),
            },
    {
        let ghost start = self.cursor as int;
        let ghost toks = self.tokens@;
        loop
            invariant
                self.wf(),
                self.toks() == toks,
                self.toks() == old(self).toks(),
                self.src() == old(self).src(),
                self.spec_range_start() == old(self).spec_range_start(),
                self.spec_range_end() == old(self).spec_range_end(),
                self.spec_is_fork() == old(self).spec_is_fork(),
                start <= self.spec_cursor(),
                start == old(self).spec_cursor(),
                first_non_ws(toks, start, self.spec_range_end() as int) == first_non_ws(toks, self.spec_cursor() as int, self.spec_range_end() as int),
            decreases self.range_end - self.cursor,
        {
            let ghost c = self.cursor as int;
            match self.next_with_whitespace() {
                Some(v) => {
                    if !v.value.is_whitespace() {
                        return Some(v);
                    }
                },
                None => {
                    return None;
                },
            }
        }
    }

    pub fn cursor(&self) -> (r: usize)
        ensures
            r == self.spec_cursor(),
    {
        self.cursor
    }

    /// Moves the cursor to `to`, clamped to the range.
    pub fn rewind(&mut self, to: usize)
        requires
            old(self).wf(),
        ensures
            final(self).wf(),
            final(self).spec_cursor() == if to < old(self).spec_range_start() {
                old(self).spec_range_start()
            } else if to > old(self).spec_range_end() {
                old(self).spec_range_end()
            } else {
                to
            },
            final(self).toks() == old(self).toks(),
            final(self).src() == old(self).src(),
            final(self).spec_range_start() == old(self).spec_range_start(),
            final(self).spec_range_end() == old(self).spec_range_end(),
            final(self).spec_is_fork() == old(self).spec_is_fork(),
    {
        let clamped = if to < self.range_start {
            self.range_start
        } else if to > self.range_end {
            self.range_end
        } else {
            to
        };
        self.cursor = clamped;
    }

    /// The number of tokens left in the range.
    pub fn len(&self) -> (r: usize)
        ensures
            r == if self.spec_cursor() <= self.spec_range_end() { self.spec_range_end() - self.spec_cursor() } else { 0 },
    {
        if self.cursor <= self.range_end {
            self.range_end - self.cursor
        } else {
            0
        }
    }

    /// All the tokens of the range, white space included.
    pub fn all(&self) -> (r: &[Spanned<Token>])
        requires
            self.wf(),
        ensures
            r@ == self.toks().subrange(self.spec_range_start() as int, self.spec_range_end() as int),
    {
        let toks: &Vec<Spanned<Token>> = &self.tokens;
        &toks.as_slice()[self.range_start..self.range_end]
    }

    pub fn source(&self) -> (r: &str)
        ensures
            r@ == self.src(),
    {
        self.source.as_str()
    }

    /// The span of the token at `cursor`, if it lies in the range.
    pub fn span_of(&self, cursor: usize) -> (r: Option<Span>)
        requires
            self.wf(),
        ensures
            cursor < self.spec_range_end() ==> r == Some(self.toks()[cursor as int].span),
            cursor >= self.spec_range_end() ==> r is None,
    {
        if cursor < self.range_end {
            Some(self.tokens[cursor].span)
        } else {
            None
        }
    }

    /// The span of the token under the cursor, or the call site at the end.
    pub fn current_span(&self) -> (r: Span)
        requires
            self.wf(),
        ensures
            self.spec_cursor() < self.spec_range_end() ==> r == self.toks()[self.spec_cursor() as int].span,
            self.spec_cursor() >= self.spec_range_end() ==> r == Span::CallSite,
    {
        match self.span_of(self.cursor) {
            Some(s) => s,
            None => Span::CallSite,
        }
    }

    /// The span of the token just before the cursor.
    pub fn last_span(&self) -> (r: Option<Span>)
        requires
            self.wf(),
        ensures
            self.spec_cursor() == 0 ==> r is None,
            self.spec_cursor() > 0 ==> r == Some(self.toks()[self.spec_cursor() - 1].span),
    {
        if self.cursor != 0 {
            self.span_of(self.cursor - 1)
        } else {
            None
        }
    }

    pub fn is_fork(&self) -> (r: bool)
        ensures
            r == self.spec_is_fork(),
    {
        self.is_fork
    }

    /// Checks that only white space is left in the range (a fork is never
    /// checked).
    pub fn ensure_consumed(&self) -> (r: Result<(), LexingError>)
        requires
            self.wf(),
        ensures
            self.spec_is_fork() ==> r is Ok,
            !self.spec_is_fork() ==> match first_non_ws(self.toks(), self.spec_cursor() as int, self.spec_range_end() as int) {
                None => r is Ok,
                Some(m) => r matches Err(LexingError::Expected { expected, found, span }) && {
                    &&& expected@ == fixed_text(Token::Semi)
                    &&& found@ == self.toks()[m].value@
                    &&& span == self.toks()[m].span
                },
            },
    {
        if self.is_fork {
            return Ok(());
        }
        let toks: &Vec<Spanned<Token>> = &self.tokens;
        let mut idx = self.cursor;
        while idx < self.range_end
            invariant
                self.wf(),
                *toks == *self.tokens,
                !self.spec_is_fork(),
                self.spec_cursor() <= idx <= self.spec_range_end(),
                first_non_ws(toks@, self.spec_cursor() as int, self.spec_range_end() as int) == first_non_ws(toks@, idx as int, self.spec_range_end() as int),
            decreases self.range_end - idx,
        {
            if toks[idx].value.is_whitespace() {
                idx += 1;
            } else {
                let next = &toks[idx];
                return Err(LexingError::Expected {
                    expected: describe(&Token::Semi),
                    found: next.value.clone(),
                    span: next.span,
                });
            }
        }
        Ok(())
    }

    /// Reads a bracketed group: the next token must open it; returns a fork
    /// over the tokens strictly inside, and the token indices of the group.
    pub fn extract_inner_tokens(&mut self, d: Delimiter) -> (r: Result<(TokenStream, Spanned<()>), LexingError>)
        requires
            old(self).wf(),
        ensures
            final(self).wf(),
            final(self).toks() == old(self).toks(),
            final(self).src() == old(self).src(),
            final(self).spec_range_start() == old(self).spec_range_start(),
            final(self).spec_range_end() == old(self).spec_range_end(),
            final(self).spec_is_fork() == old(self).spec_is_fork(),
            match first_non_ws(old(self).toks(), old(self).spec_cursor() as int, old(self).spec_range_end() as int) {
                None => r matches Err(LexingError::Empty { expected, span }) && expected@ == fixed_text(d.open_token_spec()) && span == Span::CallSite,
                Some(m) => if !is_open(d, old(self).toks()[m].value) {
                    &&& r matches Err(LexingError::Expected { expected, found, span })
                    &&& expected@ == fixed_text(d.open_token_spec())
                    &&& found@ == old(self).toks()[m].value@
                    &&& span == old(self).toks()[m].span
                    &&& final(self).spec_cursor() == m + 1
                } else {
                    match close_match(old(self).toks(), d, m + 1, old(self).spec_range_end() as int, 1) {
                        Some(c) => {
                            &&& r matches Ok((inner, group))
                            &&& inner.toks() == old(self).toks()
                            &&& inner.src() == old(self).src()
                            &&& inner.spec_cursor() == m + 1
                            &&& inner.spec_range_start() == m + 1
                            &&& inner.spec_range_end() == c
                            &&& inner.spec_is_fork()
                            &&& inner.wf()
                            &&& group.span == Span::Known(RawSpan { start: m as usize, end: (c + 1) as usize })
                            &&& final(self).spec_cursor() == c + 1
                        },
                        None => {
                            &&& r matches Err(LexingError::Empty { expected, span })
                            &&& expected@ == fixed_text(d.close_token_spec())
                            &&& span == old(self).toks()[old(self).spec_range_end() - 1].span
                            &&& final(self).spec_cursor() == old(self).spec_range_end()
                        },
                    }
                },
            },
    {
        let ghost toks = self.tokens@;
        let ghost end = self.range_end as int;
        proof { lemma_first_non_ws(toks, self.cursor as int, end); }
        let first = match self.next() {
            Some(f) => f,
            None => {
                return Err(LexingError::Empty { expected: describe(&d.open_token()), span: Span::CallSite });
            },
        };
        if !d.opens(&first.value) {
            return Err(LexingError::Expected {
                expected: describe(&d.open_token()),
                found: first.value,
                span: first.span,
            });
        }
        let open_index = self.cursor - 1;
        let mut depth: usize = 1;
        let ghost m = open_index as int;
        loop
            invariant
                self.wf(),
                self.toks() == toks,
                self.toks() == old(self).toks(),
                self.src() == old(self).src(),
                self.spec_range_start() == old(self).spec_range_start(),
                self.spec_range_end() == old(self).spec_range_end(),
                self.spec_is_fork() == old(self).spec_is_fork(),
                end == self.spec_range_end(),
                m == open_index,
                first_non_ws(toks, old(self).spec_cursor() as int, end) == Some(m),
                is_open(d, toks[m].value),
                open_index < self.spec_cursor(),
                1 <= depth <= self.spec_cursor() - open_index,
                close_match(toks, d, m + 1, end, 1) == close_match(toks, d, self.spec_cursor() as int, end, depth as int),
            decreases self.range_end - self.cursor,
        {
            let ghost c = self.cursor as int;
            proof { lemma_first_non_ws(toks, c, end); }
            match self.next() {
                Some(tok) => {
                    let ghost k = self.cursor - 1;
                    proof { lemma_close_match_skip_ws(toks, d, c, k, end, depth as int); }
                    if d.opens(&tok.value) {
                        depth += 1;
                    } else if d.closes(&tok.value) && depth > 0 {
                        depth -= 1;
                        if depth == 0 {
                            let cur = self.cursor;
                            let close_index = cur - 1;
                            let inner_start = open_index + 1;
                            let inner = TokenStream {
                                source: share(&self.source),
                                tokens: share(&self.tokens),
                                cursor: inner_start,
                                range_start: inner_start,
                                range_end: close_index,
                                is_fork: true,
                            };
                            return Ok((inner, Spanned::new(open_index, cur, ())));
                        }
                    }
                },
                None => {
                    proof { lemma_close_match_none(toks, d, c, end, depth as int); }
                    let last = &self.tokens[self.cursor - 1];
                    return Err(LexingError::Empty { expected: describe(&d.close_token()), span: last.span });
                },
            }
        }
    }
}

impl Delimiter {
    pub open spec fn open_token_spec(self) -> Token {
        match self {
            Delimiter::Brace => Token::LBrace,
            Delimiter::Bracket => Token::LBracket,
            Delimiter::Paren => Token::LParen,
        }
    }

    pub open spec fn close_token_spec(self) -> Token {
        match self {
            Delimiter::Brace => Token::RBrace,
            Delimiter::Bracket => Token::RBracket,
            Delimiter::Paren => Token::RParen,
        }
    }
}

proof fn lemma_close_match_skip_ws(toks: Seq<Spanned<Token>>, d: Delimiter, c: int, k: int, end: int, depth: int)
    requires
        0 <= c <= k < end,
        k < toks.len(),
        forall|j: int| c <= j < k ==> is_ws_token(#[trigger] toks[j].value),
    ensures
        close_match(toks, d, c, end, depth) == close_match(toks, d, k, end, depth),
    decreases k - c,
{
    if c < k {
        lemma_close_match_skip_ws(toks, d, c + 1, k, end, depth);
    }
}

proof fn lemma_close_match_none(toks: Seq<Spanned<Token>>, d: Delimiter, c: int, end: int, depth: int)
    requires
        0 <= c <= end <= toks.len(),
        forall|j: int| c <= j < end ==> is_ws_token(#[trigger] toks[j].value),
    ensures
        close_match(toks, d, c, end, depth) is None,
    decreases end - c,
{
    if c < end {
        lemma_close_match_none(toks, d, c + 1, end, depth);
    }
}

/// A growable list of spanned tokens, for building or editing token text.
#[derive(Debug)]
pub struct MutTokenStream {
    pub(crate) tokens: Vec<Spanned<Token>>,
}

/// The span covered by the tokens `start..end` of a list, as
/// `MutTokenStream::span_of_range` computes it.
pub open spec fn range_span(toks: Seq<Spanned<Token>>, start: int, end: int) -> Span {
    let len = toks.len();
    if len == 0 {
        Span::Known(RawSpan { start: 0, end: 0 })
    } else if start < end && start < len {
        let s = toks[start].span.spec_raw().start;
        let e = if end <= len { toks[end - 1].span.spec_raw().end } else { toks[len - 1].span.spec_raw().end };
        Span::Known(RawSpan { start: s, end: e })
    } else if start < len {
        let a = toks[start].span.spec_raw().start;
        Span::Known(RawSpan { start: a, end: a })
    } else {
        let z = toks[len - 1].span.spec_raw().end;
        Span::Known(RawSpan { start: z, end: z })
    }
}

/// The tokens of `with`, each given the span `sp`.
pub open spec fn spanned_all(with: Seq<Token>, sp: Span) -> Seq<Spanned<Token>> {
    with.map_values(|t: Token| Spanned { span: sp, value: t })
}

impl MutTokenStream {
    pub closed spec fn toks(&self) -> Seq<Spanned<Token>> {
        self.tokens@
    }

    pub fn new() -> (r: Self)
        ensures
            r.toks() == Seq::<Spanned<Token>>::empty(),
    {
        MutTokenStream { tokens: Vec::new() }
    }

    pub fn with_capacity(sz: usize) -> (r: Self)
        ensures
            r.toks() == Seq::<Spanned<Token>>::empty(),
    {
        MutTokenStream { tokens: Vec::with_capacity(sz) }
    }

    pub fn push(&mut self, token: Spanned<Token>)
        ensures
            final(self).toks() == old(self).toks().push(token),
    {
        self.tokens.push(token)
    }

    pub fn extend(&mut self, i: Vec<Spanned<Token>>)
        ensures
            final(self).toks() == old(self).toks() + i@,
    {
        let mut i = i;
        self.tokens.append(&mut i);
    }

    /// The span of the last token, or `0..0` when there is none.
    fn last_span(&self) -> (r: Span)
        ensures
            r == if self.toks().len() == 0 {
                Span::Known(RawSpan { start: 0, end: 0 })
            } else {
                self.toks().last().span
            },
    {
        if self.tokens.len() == 0 {
            Span::new(0, 0)
        } else {
            self.tokens[self.tokens.len() - 1].span
        }
    }

    /// Appends `token` with a one-byte span ending where the last token ends.
    pub fn write_with_last(&mut self, token: Token)
        ensures
            ({
                let last = if old(self).toks().len() == 0 {
                    RawSpan { start: 0, end: 0 }
                } else {
                    old(self).toks().last().span.spec_raw()
                };
                let start = if last.end >= 1 { (last.end - 1) as usize } else { 0usize };
                final(self).toks() == old(self).toks().push(
                    Spanned { span: Span::Known(RawSpan { start, end: last.end }), value: token },
                )
            }),
    {
        let last = self.last_span();
        let raw = last.span();
        let start = if raw.end >= 1 { raw.end - 1 } else { 0 };
        self.push(Spanned::new(start, raw.end, token));
    }

    pub fn write_with_span(&mut self, token: Token, start: usize, end: usize)
        ensures
            final(self).toks() == old(self).toks().push(
                Spanned { span: Span::Known(RawSpan { start, end }), value: token },
            ),
    {
        self.push(Spanned::new(start, end, token));
    }

    /// The span covered by the tokens in `range` (see `range_span`).
    pub fn span_of_range(&self, range: &Range<usize>) -> (r: Span)
        ensures
            r == range_span(self.toks(), range.start as int, range.end as int),
    {
        if self.tokens.len() == 0 {
            return Span::new(0, 0);
        }
        let len = self.tokens.len();
        if range.start < range.end && range.start < len {
            let start_span = self.tokens[range.start].span.span().start;
            let end_span = if range.end <= len {
                self.tokens[range.end - 1].span.span().end
            } else {
                self.tokens[len - 1].span.span().end
            };
            return Span::new(start_span, end_span);
        }
        if range.start < len {
            let anchor = self.tokens[range.start].span.span().start;
            return Span::new(anchor, anchor);
        }
        let last = &self.tokens[len - 1];
        Span::new(last.span.span().end, last.span.span().end)
    }

    /// Replaces the tokens in `range` by `with`, each spanned like the
    /// range they replace.
    pub fn splice_with(&mut self, range: Range<usize>, with: Vec<Token>)
        requires
            range.start <= range.end <= old(self).toks().len(),
        ensures
            final(self).toks() == old(self).toks().subrange(0, range.start as int)
                + spanned_all(with@, range_span(old(self).toks(), range.start as int, range.end as int))
                + old(self).toks().subrange(range.end as int, old(self).toks().len() as int),
    {
        let spans = self.span_of_range(&range);
        let rng = spans.span();
        let sp = Span::new(rng.start, rng.end);
        let ghost old_toks = self.tokens@;
        let mut rest = self.tokens.split_off(range.end);
        self.tokens.truncate(range.start);
        let mut with = with;
        let mut k: usize = 0;
        let n = with.len();
        let ghost w = with@;
        let mut mapped: Vec<Spanned<Token>> = Vec::new();
        while with.len() > 0
            invariant
                with@ == w.subrange(k as int, w.len() as int),
                k + with@.len() == w.len(),
                n == w.len(),
                mapped@ == spanned_all(w.subrange(0, k as int), sp),
            decreases with@.len(),
        {
            let t = with.remove(0);
            mapped.push(Spanned { span: sp, value: t });
            proof {
                assert(spanned_all(w.subrange(0, k + 1), sp) =~= spanned_all(w.subrange(0, k as int), sp).push(Spanned { span: sp, value: w[k as int] }));
            }
            k += 1;
        }
        assert(w.subrange(0, k as int) =~= w);
        self.tokens.append(&mut mapped);
        self.tokens.append(&mut rest);
        assert(self.tokens@ =~= old_toks.subrange(0, range.start as int) + spanned_all(w, sp) + old_toks.subrange(range.end as int, old_toks.len() as int));
    }

    /// Does nothing.
    pub fn write_with_spanned() {
    }

    pub fn all_tokens(&self) -> (r: &[Spanned<Token>])
        ensures
            r@ == self.toks(),
    {
        self.tokens.as_slice()
    }

    pub fn tokens_ref(&self) -> (r: &Vec<Spanned<Token>>)
        ensures
            r@ == self.toks(),
    {
        &self.tokens
    }

    /// The tokens, in order, by value.
    pub fn into_tokens(self) -> (r: Vec<Spanned<Token>>)
        ensures
            r@ == self.toks(),
    {
        self.tokens
    }
}

/// Whether the token at `pos` is of the same kind as `kind` (the scan for
/// an earlier match on the same line covers no tokens, so only `pos` counts).
pub fn has_tokens_before_newline(tokens: &[Spanned<Token>], pos: usize, kind: &Token) -> (r: bool)
    ensures
        r == (pos < tokens@.len() && kind_of(tokens@[pos as int].value) == kind_of(*kind)),
{
    if pos < tokens.len() {
        tokens[pos].value.kind() == kind.kind()
    } else {
        false
    }
}

} // verus!
