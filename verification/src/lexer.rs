//! The lexer: source text to tokens with byte spans.
//!
//! At each position the longest token wins; a keyword wins over an
//! identifier of the same length; spaces, tabs, carriage returns and form
//! feeds between tokens are skipped, line feeds (with an optional preceding
//! carriage return) become `Newline` tokens.
use vstd::prelude::*;
use vstd::utf8::*;
use crate::defs::{RawSpan, Span, Spanned};
use crate::escape::{is_ws, newline_from, spec_unescape, spec_unescape_comment, trim, trim_end, trim_start, unescape_chars, unescape_comment_chars, unescape_raw};
use crate::text::{chars_of, digit_char, int_decimal, nat_decimal, string_of_range};
use crate::toks::{fixed_text, keyword, keyword_of, strings_view, token_text, Path, Token, TokenV};

verus! {

pub open spec fn is_ident_start(c: char) -> bool {
    ('a' <= c && c <= 'z') || ('A' <= c && c <= 'Z') || c == '_'
}

pub open spec fn is_digit(c: char) -> bool {
    '0' <= c && c <= '9'
}

pub open spec fn is_ident_char(c: char) -> bool {
    is_ident_start(c) || is_digit(c)
}

/// Characters skipped between tokens.
pub open spec fn is_blank(c: char) -> bool {
    c == ' ' || c == '\t' || c == '\r' || c == '\u{c}'
}

/// Characters allowed inside a `/* ... */` comment.
pub open spec fn is_comment_body(c: char) -> bool {
    c != '/' && c != '*'
}

/// The end of the longest run of characters satisfying `p` from `k`.
pub open spec fn run_end(s: Seq<char>, k: int, p: spec_fn(char) -> bool) -> int
    decreases s.len() - k,
{
    if 0 <= k < s.len() && p(s[k]) {
        run_end(s, k + 1, p)
    } else {
        k
    }
}

pub open spec fn ident_end(s: Seq<char>, k: int) -> int {
    run_end(s, k, |c: char| is_ident_char(c))
}

pub proof fn lemma_run_end_bounds(s: Seq<char>, k: int, p: spec_fn(char) -> bool)
    requires
        0 <= k <= s.len(),
    ensures
        k <= run_end(s, k, p) <= s.len(),
        forall|m: int| k <= m < run_end(s, k, p) ==> p(s[m]),
        run_end(s, k, p) < s.len() ==> !p(s[run_end(s, k, p)]),
    decreases s.len() - k,
{
    if k < s.len() && p(s[k]) {
        lemma_run_end_bounds(s, k + 1, p);
    }
}

pub proof fn lemma_run_end_is(s: Seq<char>, k: int, j: int, p: spec_fn(char) -> bool)
    requires
        0 <= k <= j <= s.len(),
        forall|m: int| k <= m < j ==> p(s[m]),
        j == s.len() || !p(s[j]),
    ensures
        run_end(s, k, p) == j,
    decreases j - k,
{
    if k < j {
        lemma_run_end_is(s, k + 1, j, p);
    }
}

/// Whether a path continues at `j` with `::` and an identifier.
pub open spec fn path_continues(s: Seq<char>, j: int) -> bool {
    j + 2 < s.len() && s[j] == ':' && s[j + 1] == ':' && is_ident_start(s[j + 2])
}

/// The end of a path whose last identifier so far ends at `j`.
pub open spec fn path_end(s: Seq<char>, j: int) -> int
    decreases s.len() - j,
{
    if 0 <= j && path_continues(s, j) {
        let e = ident_end(s, j + 2);
        proof { lemma_run_end_bounds(s, j + 2, |c: char| is_ident_char(c)); }
        path_end(s, e)
    } else {
        j
    }
}

/// The segments of a path after the identifier that ends at `j`.
pub open spec fn path_tail(s: Seq<char>, j: int) -> Seq<Seq<char>>
    decreases s.len() - j,
{
    if 0 <= j && path_continues(s, j) {
        let e = ident_end(s, j + 2);
        proof { lemma_run_end_bounds(s, j + 2, |c: char| is_ident_char(c)); }
        seq![s.subrange(j + 2, e)] + path_tail(s, e)
    } else {
        Seq::empty()
    }
}

/// The value of a run of decimal digits.
pub open spec fn decimal_value(ds: Seq<char>) -> int
    decreases ds.len(),
{
    if ds.len() == 0 {
        0
    } else {
        decimal_value(ds.drop_last()) * 10 + (ds.last() as int - '0' as int)
    }
}

/// The index of the quote `q` that closes a literal whose body starts at `k`.
pub open spec fn string_close(s: Seq<char>, k: int, q: char) -> Option<int>
    decreases s.len() - k,
{
    if k < 0 || k >= s.len() {
        None
    } else if s[k] == q {
        Some(k)
    } else if s[k] == '\\' {
        if k + 1 < s.len() && s[k + 1] != '\n' {
            string_close(s, k + 2, q)
        } else {
            None
        }
    } else {
        string_close(s, k + 1, q)
    }
}

/// The one-character tokens.
pub open spec fn single_char_token(c: char) -> Option<Token> {
    if c == '&' { Some(Token::Amp) }
    else if c == '{' { Some(Token::LBrace) }
    else if c == '}' { Some(Token::RBrace) }
    else if c == '(' { Some(Token::LParen) }
    else if c == ')' { Some(Token::RParen) }
    else if c == '[' { Some(Token::LBracket) }
    else if c == ']' { Some(Token::RBracket) }
    else if c == ';' { Some(Token::Semi) }
    else if c == ',' { Some(Token::Comma) }
    else if c == '?' { Some(Token::QMark) }
    else if c == '=' { Some(Token::Eq) }
    else if c == '|' { Some(Token::Pipe) }
    else if c == '#' { Some(Token::Hash) }
    else if c == '!' { Some(Token::Bang) }
    else { None }
}

/// Why no token could be read.
#[derive(Debug, Clone, Copy, PartialEq, Eq)]
pub enum LexFailure {
    /// No token of the language starts here.
    InvalidToken,
    /// A numeral whose value does not fit in `i32`.
    NumberTooLarge,
}

/// What the lexer does at one position.
pub ghost enum Step {
    /// Skip the blank run up to the index.
    Skip(int),
    /// Emit the token, which ends at the index.
    Tok(TokenV, int),
    /// Stop with an error on the characters up to the index.
    Fail(int, LexFailure),
}

/// The lexer's decision at char index `i` (`0 <= i < s.len()`).
pub open spec fn lex_step(s: Seq<char>, i: int) -> Step {
    let c = s[i];
    if c == '\n' {
        Step::Tok(TokenV::Fixed(Token::Newline), i + 1)
    } else if c == '\r' && i + 1 < s.len() && s[i + 1] == '\n' {
        Step::Tok(TokenV::Fixed(Token::Newline), i + 2)
    } else if is_blank(c) {
        Step::Skip(run_end(s, i, |c: char| is_blank(c)))
    } else if is_ident_start(c) {
        let j = ident_end(s, i);
        let e = path_end(s, j);
        if e > j {
            Step::Tok(TokenV::Path(seq![s.subrange(i, j)] + path_tail(s, j)), e)
        } else {
            match keyword(s.subrange(i, j)) {
                Some(k) => Step::Tok(TokenV::Fixed(k), j),
                None => Step::Tok(TokenV::Ident(s.subrange(i, j)), j),
            }
        }
    } else if is_digit(c) {
        let j = run_end(s, i, |c: char| is_digit(c));
        let n = decimal_value(s.subrange(i, j));
        if n <= i32::MAX {
            Step::Tok(TokenV::Number(n as i32), j)
        } else {
            Step::Fail(j, LexFailure::NumberTooLarge)
        }
    } else if c == '"' || c == '\'' {
        match string_close(s, i + 1, c) {
            Some(k) => Step::Tok(TokenV::Str(spec_unescape(s.subrange(i + 1, k))), k + 1),
            None => Step::Fail(i + 1, LexFailure::InvalidToken),
        }
    } else if c == '/' && i + 1 < s.len() && s[i + 1] == '/' {
        let j = newline_from(s, i + 2);
        Step::Tok(TokenV::CommentSingleLine(spec_unescape_comment(s.subrange(i + 2, j))), j)
    } else if c == '/' && i + 1 < s.len() && s[i + 1] == '*' {
        let j = run_end(s, i + 2, |c: char| is_comment_body(c));
        if j + 1 < s.len() && s[j] == '*' && s[j + 1] == '/' {
            Step::Tok(TokenV::CommentMultiLine(spec_unescape_comment(s.subrange(i + 2, j))), j + 2)
        } else {
            Step::Fail(i + 1, LexFailure::InvalidToken)
        }
    } else if c == '-' && i + 1 < s.len() && s[i + 1] == '>' {
        Step::Tok(TokenV::Fixed(Token::Return), i + 2)
    } else if c == ':' && i + 1 < s.len() && s[i + 1] == ':' {
        Step::Tok(TokenV::Fixed(Token::DoubleColon), i + 2)
    } else if c == ':' {
        Step::Tok(TokenV::Fixed(Token::Colon), i + 1)
    } else {
        match single_char_token(c) {
            Some(t) => Step::Tok(TokenV::Fixed(t), i + 1),
            None => Step::Fail(i + 1, LexFailure::InvalidToken),
        }
    }
}

/// A token read by the lexer with the char indices it spans.
pub type Lexed = (TokenV, int, int);

/// Where and why lexing stopped: char indices `start..end` and the reason.
pub type LexStop = (int, int, LexFailure);

/// Lexing from char index `i` to the end of `s`.
pub open spec fn spec_lex_from(s: Seq<char>, i: int) -> Result<Seq<Lexed>, LexStop>
    decreases s.len() - i,
{
    if i < 0 || i >= s.len() {
        Ok(Seq::empty())
    } else {
        match lex_step(s, i) {
            Step::Skip(j) => if i < j <= s.len() {
                spec_lex_from(s, j)
            } else {
                Err((i, i + 1, LexFailure::InvalidToken))
            },
            Step::Tok(t, j) => if i < j <= s.len() {
                match spec_lex_from(s, j) {
                    Ok(rest) => Ok(seq![(t, i, j)] + rest),
                    Err(e) => Err(e),
                }
            } else {
                Err((i, i + 1, LexFailure::InvalidToken))
            },
            Step::Fail(j, k) => Err((i, j, k)),
        }
    }
}

/// The tokens of a whole source text, or where lexing stops.
pub open spec fn spec_lex(s: Seq<char>) -> Result<Seq<Lexed>, LexStop> {
    spec_lex_from(s, 0)
}

/// The byte offset of char index `k` in the UTF-8 encoding of `s`.
pub open spec fn byte_offset(s: Seq<char>, k: int) -> int {
    encode_utf8(s.take(k)).len() as int
}

/// The number of bytes that encode `c` in UTF-8.
pub open spec fn utf8_width(c: char) -> int {
    if (c as u32) < 0x80 { 1 }
    else if (c as u32) < 0x800 { 2 }
    else if (c as u32) < 0x10000 { 3 }
    else { 4 }
}

proof fn lemma_encode_push(a: Seq<char>, c: char)
    ensures
        encode_utf8(a.push(c)) == encode_utf8(a) + encode_scalar(c as u32),
    decreases a.len(),
{
    if a.len() == 0 {
        assert(a.push(c).drop_first() =~= Seq::<char>::empty());
        assert(encode_utf8(Seq::<char>::empty()) =~= Seq::<u8>::empty());
        assert(encode_utf8(a.push(c)) =~= encode_scalar(c as u32));
    } else {
        lemma_encode_push(a.drop_first(), c);
        assert(a.push(c).drop_first() =~= a.drop_first().push(c));
        assert(encode_utf8(a.push(c)) =~= encode_utf8(a) + encode_scalar(c as u32));
    }
}

proof fn lemma_scalar_width(c: char)
    ensures
        encode_scalar(c as u32).len() == utf8_width(c),
{
    char_is_scalar(c);
}

proof fn lemma_byte_offset_step(s: Seq<char>, k: int)
    requires
        0 <= k < s.len(),
    ensures
        byte_offset(s, k + 1) == byte_offset(s, k) + utf8_width(s[k]),
{
    assert(s.take(k + 1) =~= s.take(k).push(s[k]));
    lemma_encode_push(s.take(k), s[k]);
    lemma_scalar_width(s[k]);
}

proof fn lemma_byte_offset_mono(s: Seq<char>, k: int, m: int)
    requires
        0 <= k <= m <= s.len(),
    ensures
        byte_offset(s, k) <= byte_offset(s, m),
    decreases m - k,
{
    if k < m {
        lemma_byte_offset_mono(s, k, m - 1);
        lemma_byte_offset_step(s, m - 1);
    }
}

proof fn lemma_byte_offset_total(s: Seq<char>)
    ensures
        byte_offset(s, s.len() as int) == encode_utf8(s).len(),
{
    assert(s.take(s.len() as int) =~= s);
}

fn char_width(c: char) -> (r: usize)
    ensures
        r == utf8_width(c),
{
    let u = c as u32;
    if u < 0x80 { 1 } else if u < 0x800 { 2 } else if u < 0x10000 { 3 } else { 4 }
}

/// The byte offset of char index `to`, given that of `from`.
fn advance_bytes(v: &Vec<char>, from: usize, to: usize, b: usize, total: usize) -> (r: usize)
    requires
        from <= to <= v@.len(),
        b == byte_offset(v@, from as int),
        total == encode_utf8(v@).len(),
    ensures
        r == byte_offset(v@, to as int),
{
    let mut k = from;
    let mut bk = b;
    while k < to
        invariant
            from <= k <= to <= v@.len(),
            bk == byte_offset(v@, k as int),
            total == encode_utf8(v@).len(),
        decreases to - k,
    {
        proof {
            lemma_byte_offset_step(v@, k as int);
            lemma_byte_offset_mono(v@, k + 1, v@.len() as int);
            lemma_byte_offset_total(v@);
        }
        bk = bk + char_width(v[k]);
        k += 1;
    }
    bk
}

/// An error of the lexer or of the token stream.
#[derive(Debug)]
pub enum LexingError {
    /// No token of the language starts here.
    InvalidToken { span: Span },
    /// A numeral whose value does not fit in `i32`.
    NumberTooLarge { span: Span },
    /// A token other than the expected one.
    Expected { expected: String, found: Token, span: Span },
    /// The input ended where a token was expected.
    Empty { expected: String, span: Span },
}

/// What `lex_step` decided, as values.
pub enum ExecStep {
    Skip(usize),
    Tok(Token, usize),
    Fail(usize, LexFailure),
}

pub open spec fn step_matches(r: ExecStep, s: Step) -> bool {
    match (r, s) {
        (ExecStep::Skip(a), Step::Skip(b)) => a == b,
        (ExecStep::Tok(t, a), Step::Tok(tv, b)) => t@ == tv && a == b,
        (ExecStep::Fail(a, k), Step::Fail(b, k2)) => a == b && k == k2,
        _ => false,
    }
}

fn ident_char(c: char) -> (r: bool)
    ensures
        r == is_ident_char(c),
{
    ('a' <= c && c <= 'z') || ('A' <= c && c <= 'Z') || c == '_' || ('0' <= c && c <= '9')
}

fn ident_start(c: char) -> (r: bool)
    ensures
        r == is_ident_start(c),
{
    ('a' <= c && c <= 'z') || ('A' <= c && c <= 'Z') || c == '_'
}

fn blank(c: char) -> (r: bool)
    ensures
        r == is_blank(c),
{
    c == ' ' || c == '\t' || c == '\r' || c == '\u{c}'
}

/// The end of the identifier that starts at `k`.
fn scan_ident(v: &Vec<char>, k: usize) -> (r: usize)
    requires
        k <= v@.len(),
    ensures
        r == ident_end(v@, k as int),
        k <= r <= v@.len(),
{
    let mut j = k;
    while j < v.len() && ident_char(v[j])
        invariant
            k <= j <= v@.len(),
            forall|m: int| k <= m < j ==> is_ident_char(v@[m]),
        decreases v@.len() - j,
    {
        j += 1;
    }
    proof { lemma_run_end_is(v@, k as int, j as int, |c: char| is_ident_char(c)); }
    j
}

fn path_continues_at(v: &Vec<char>, j: usize) -> (r: bool)
    requires
        j <= v@.len(),
    ensures
        r == path_continues(v@, j as int),
{
    j < v.len() && v.len() - j > 2 && v[j] == ':' && v[j + 1] == ':' && ident_start(v[j + 2])
}

fn single_char(c: char) -> (r: Option<Token>)
    ensures
        r matches Some(t) ==> single_char_token(c) matches Some(u) && t@ == TokenV::Fixed(u),
        r is None <==> single_char_token(c) is None,
{
    if c == '&' { Some(Token::Amp) }
    else if c == '{' { Some(Token::LBrace) }
    else if c == '}' { Some(Token::RBrace) }
    else if c == '(' { Some(Token::LParen) }
    else if c == ')' { Some(Token::RParen) }
    else if c == '[' { Some(Token::LBracket) }
    else if c == ']' { Some(Token::RBracket) }
    else if c == ';' { Some(Token::Semi) }
    else if c == ',' { Some(Token::Comma) }
    else if c == '?' { Some(Token::QMark) }
    else if c == '=' { Some(Token::Eq) }
    else if c == '|' { Some(Token::Pipe) }
    else if c == '#' { Some(Token::Hash) }
    else if c == '!' { Some(Token::Bang) }
    else { None }
}

/// Reads the identifier, keyword or path that starts at `i`.
fn lex_word(v: &Vec<char>, i: usize) -> (r: ExecStep)
    requires
        i < v@.len(),
        is_ident_start(v@[i as int]),
    ensures
        step_matches(r, lex_step(v@, i as int)),
        r matches ExecStep::Skip(j) ==> i < j <= v@.len(),
        r matches ExecStep::Tok(_, j) ==> i < j <= v@.len(),
        r matches ExecStep::Fail(j, _) ==> i < j <= v@.len(),
{
    let ghost s = v@;
    let n = v.len();
    let j = scan_ident(v, i);
    proof { lemma_run_end_bounds(s, i + 1, |c: char| is_ident_char(c)); }
    assert(j > i);
    if path_continues_at(v, j) {
        let mut bits: Vec<String> = Vec::new();
        bits.push(string_of_range(v, i, j));
        let mut cur = j;
        proof { lemma_run_end_bounds(s, i as int, |c: char| is_ident_char(c)); }
        while path_continues_at(v, cur)
            invariant
                j <= cur <= s.len(),
                s == v@,
                j > i,
                n == s.len(),
                strings_view(bits@) + path_tail(s, cur as int) == seq![s.subrange(i as int, j as int)] + path_tail(s, j as int),
                path_end(s, cur as int) == path_end(s, j as int),
            decreases s.len() - cur,
        {
            let e = scan_ident(v, cur + 2);
            proof { lemma_run_end_bounds(s, cur + 2, |c: char| is_ident_char(c)); }
            let ghost before = bits@;
            bits.push(string_of_range(v, cur + 2, e));
            proof {
                assert(strings_view(bits@) =~= strings_view(before).push(s.subrange(cur + 2, e as int)));
                assert(path_tail(s, cur as int) == seq![s.subrange(cur + 2, e as int)] + path_tail(s, e as int));
                assert(strings_view(bits@) + path_tail(s, e as int) =~= strings_view(before) + path_tail(s, cur as int));
            }
            cur = e;
        }
        proof {
            assert(path_tail(s, cur as int) =~= Seq::<Seq<char>>::empty());
            assert(strings_view(bits@) =~= seq![s.subrange(i as int, j as int)] + path_tail(s, j as int));
            assert(path_end(s, j as int) > j) by {
                lemma_run_end_bounds(s, j + 2, |c: char| is_ident_char(c));
                lemma_path_end_ge(s, ident_end(s, j + 2));
            }
        }
        let t = Token::Path(Path::Ambiguous { bits });
        ExecStep::Tok(t, cur)
    } else {
        match keyword_of(v, i, j) {
            Some(k) => {
                proof { lemma_keyword_fixed(s.subrange(i as int, j as int)); }
                ExecStep::Tok(k, j)
            },
            None => ExecStep::Tok(Token::Ident(string_of_range(v, i, j)), j),
        }
    }
}

proof fn lemma_path_end_ge(s: Seq<char>, j: int)
    requires
        0 <= j <= s.len(),
    ensures
        path_end(s, j) >= j,
    decreases s.len() - j,
{
    if path_continues(s, j) {
        lemma_run_end_bounds(s, j + 2, |c: char| is_ident_char(c));
        lemma_path_end_ge(s, ident_end(s, j + 2));
    }
}

proof fn lemma_keyword_fixed(w: Seq<char>)
    ensures
        keyword(w) matches Some(k) ==> crate::toks::is_fixed(k) && k@ == TokenV::Fixed(k),
{
}

/// Reads the numeral that starts at `i`.
fn lex_number(v: &Vec<char>, i: usize) -> (r: ExecStep)
    requires
        i < v@.len(),
        is_digit(v@[i as int]),
        !is_ident_start(v@[i as int]),
    ensures
        step_matches(r, lex_step(v@, i as int)),
        r matches ExecStep::Skip(j) ==> i < j <= v@.len(),
        r matches ExecStep::Tok(_, j) ==> i < j <= v@.len(),
        r matches ExecStep::Fail(j, _) ==> i < j <= v@.len(),
{
    let ghost s = v@;
    let big: u64 = 0x8000_0000;
    let mut acc: u64 = 0;
    let mut j = i;
    while j < v.len() && '0' <= v[j] && v[j] <= '9'
        invariant
            i <= j <= s.len(),
            s == v@,
            big == 0x8000_0000,
            forall|m: int| i <= m < j ==> is_digit(s[m]),
            decimal_value(s.subrange(i as int, j as int)) >= 0,
            acc == if decimal_value(s.subrange(i as int, j as int)) > i32::MAX { big as int } else { decimal_value(s.subrange(i as int, j as int)) },
        decreases s.len() - j,
    {
        let d = (v[j] as u32 - '0' as u32) as u64;
        proof {
            assert(s.subrange(i as int, j + 1).drop_last() =~= s.subrange(i as int, j as int));
        }
        if acc < big {
            let n = acc * 10 + d;
            acc = if n > 0x7fff_ffff { big } else { n };
        }
        j += 1;
    }
    proof { lemma_run_end_is(s, i as int, j as int, |c: char| is_digit(c)); }
    assert(j > i);
    if acc < big {
        ExecStep::Tok(Token::Number(acc as i32), j)
    } else {
        ExecStep::Fail(j, LexFailure::NumberTooLarge)
    }
}

/// Reads the string literal whose opening quote is at `i`.
fn lex_string(v: &Vec<char>, i: usize) -> (r: ExecStep)
    requires
        i < v@.len(),
        v@[i as int] == '"' || v@[i as int] == '\'',
    ensures
        step_matches(r, lex_step(v@, i as int)),
        r matches ExecStep::Skip(j) ==> i < j <= v@.len(),
        r matches ExecStep::Tok(_, j) ==> i < j <= v@.len(),
        r matches ExecStep::Fail(j, _) ==> i < j <= v@.len(),
{
    let ghost s = v@;
    let n = v.len();
    let q = v[i];
    let mut k = i + 1;
    while k < v.len() && v[k] != q
        invariant
            i < k <= s.len() + 1,
            n == s.len(),
            s == v@,
            q == s[i as int],
            q == '"' || q == '\'',
            string_close(s, k as int, q) == string_close(s, i + 1, q),
        decreases s.len() + 1 - k,
    {
        if v[k] == '\\' {
            if k + 1 < v.len() && v[k + 1] != '\n' {
                k += 2;
            } else {
                assert(string_close(s, k as int, q) is None);
                return ExecStep::Fail(i + 1, LexFailure::InvalidToken);
            }
        } else {
            k += 1;
        }
    }
    if k < v.len() {
        let body = unescape_chars(v, i + 1, k);
        ExecStep::Tok(Token::String(body), k + 1)
    } else {
        ExecStep::Fail(i + 1, LexFailure::InvalidToken)
    }
}

/// Reads the comment that starts at `i` with `//` or `/*`.
fn lex_comment(v: &Vec<char>, i: usize) -> (r: ExecStep)
    requires
        i + 1 < v@.len(),
        v@[i as int] == '/',
        v@[i + 1] == '/' || v@[i + 1] == '*',
    ensures
        step_matches(r, lex_step(v@, i as int)),
        r matches ExecStep::Skip(j) ==> i < j <= v@.len(),
        r matches ExecStep::Tok(_, j) ==> i < j <= v@.len(),
        r matches ExecStep::Fail(j, _) ==> i < j <= v@.len(),
{
    let ghost s = v@;
    let n = v.len();
    if v[i + 1] == '/' {
        let mut j = i + 2;
        while j < v.len() && v[j] != '\n'
            invariant
                i + 2 <= j <= s.len(),
                s == v@,
                forall|m: int| i + 2 <= m < j ==> s[m] != '\n',
            decreases s.len() - j,
        {
            j += 1;
        }
        proof { lemma_newline_is(s, i + 2, j as int); }
        let body = unescape_comment_chars(v, i + 2, j);
        ExecStep::Tok(Token::CommentSingleLine(body), j)
    } else {
        let mut j = i + 2;
        while j < v.len() && v[j] != '/' && v[j] != '*'
            invariant
                i + 2 <= j <= s.len(),
                s == v@,
                forall|m: int| i + 2 <= m < j ==> is_comment_body(s[m]),
            decreases s.len() - j,
        {
            j += 1;
        }
        proof { lemma_run_end_is(s, i + 2, j as int, |c: char| is_comment_body(c)); }
        if j < v.len() && v.len() - j > 1 && v[j] == '*' && v[j + 1] == '/' {
            let body = unescape_comment_chars(v, i + 2, j);
            ExecStep::Tok(Token::CommentMultiLine(body), j + 2)
        } else {
            ExecStep::Fail(i + 1, LexFailure::InvalidToken)
        }
    }
}

proof fn lemma_newline_is(s: Seq<char>, k: int, j: int)
    requires
        0 <= k <= j <= s.len(),
        forall|m: int| k <= m < j ==> s[m] != '\n',
        j == s.len() || s[j] == '\n',
    ensures
        newline_from(s, k) == j,
    decreases j - k,
{
    if k < j {
        lemma_newline_is(s, k + 1, j);
    }
}

/// The lexer's decision at char index `i`.
pub fn lex_at(v: &Vec<char>, i: usize) -> (r: ExecStep)
    requires
        i < v@.len(),
    ensures
        step_matches(r, lex_step(v@, i as int)),
        r matches ExecStep::Skip(j) ==> i < j <= v@.len(),
        r matches ExecStep::Tok(_, j) ==> i < j <= v@.len(),
        r matches ExecStep::Fail(j, _) ==> i < j <= v@.len(),
{
    let ghost s = v@;
    let c = v[i];
    let n = v.len();
    if c == '\n' {
        ExecStep::Tok(Token::Newline, i + 1)
    } else if c == '\r' && i + 1 < n && v[i + 1] == '\n' {
        ExecStep::Tok(Token::Newline, i + 2)
    } else if blank(c) {
        let mut j = i;
        while j < n && blank(v[j])
            invariant
                i <= j <= n,
                n == s.len(),
                s == v@,
                forall|m: int| i <= m < j ==> is_blank(s[m]),
            decreases n - j,
        {
            j += 1;
        }
        proof { lemma_run_end_is(s, i as int, j as int, |c: char| is_blank(c)); }
        assert(j > i);
        ExecStep::Skip(j)
    } else if ident_start(c) {
        lex_word(v, i)
    } else if '0' <= c && c <= '9' {
        lex_number(v, i)
    } else if c == '"' || c == '\'' {
        lex_string(v, i)
    } else if c == '/' && i + 1 < n && (v[i + 1] == '/' || v[i + 1] == '*') {
        lex_comment(v, i)
    } else if c == '-' && i + 1 < n && v[i + 1] == '>' {
        ExecStep::Tok(Token::Return, i + 2)
    } else if c == ':' && i + 1 < n && v[i + 1] == ':' {
        ExecStep::Tok(Token::DoubleColon, i + 2)
    } else if c == ':' {
        ExecStep::Tok(Token::Colon, i + 1)
    } else {
        match single_char(c) {
            Some(t) => ExecStep::Tok(t, i + 1),
            None => ExecStep::Fail(i + 1, LexFailure::InvalidToken),
        }
    }
}

/// Lexed tokens lie inside `lo..s.len()`, each spans at least one
/// character, and each starts where or after the previous one ends.
pub open spec fn tokens_ordered(s: Seq<char>, toks: Seq<Lexed>, lo: int) -> bool {
    &&& forall|k: int| 0 <= k < toks.len() ==> lo <= (#[trigger] toks[k]).1 < toks[k].2 <= s.len()
    &&& forall|k: int, m: int| 0 <= k < m < toks.len() ==> (#[trigger] toks[k]).2 <= (#[trigger] toks[m]).1
}

proof fn lemma_lex_from_ordered(s: Seq<char>, i: int)
    requires
        0 <= i,
    ensures
        spec_lex_from(s, i) matches Ok(toks) ==> tokens_ordered(s, toks, i),
    decreases s.len() - i,
{
    if i < s.len() {
        match lex_step(s, i) {
            Step::Skip(j) => {
                if i < j <= s.len() {
                    lemma_lex_from_ordered(s, j);
                }
            },
            Step::Tok(t, j) => {
                if i < j <= s.len() {
                    lemma_lex_from_ordered(s, j);
                    match spec_lex_from(s, j) {
                        Ok(rest) => {
                            let toks = seq![(t, i, j)] + rest;
                            assert forall|k: int, m: int| 0 <= k < m < toks.len() implies (#[trigger] toks[k]).2 <= (#[trigger] toks[m]).1 by {
                                if k == 0 {
                                    assert(toks[m] == rest[m - 1]);
                                } else {
                                    assert(toks[k] == rest[k - 1]);
                                    assert(toks[m] == rest[m - 1]);
                                }
                            }
                            assert forall|k: int| 0 <= k < toks.len() implies i <= (#[trigger] toks[k]).1 < toks[k].2 <= s.len() by {
                                if k > 0 {
                                    assert(toks[k] == rest[k - 1]);
                                }
                            }
                        },
                        Err(_) => {},
                    }
                }
            },
            Step::Fail(_, _) => {},
        }
    }
}

/// Lexing a source gives tokens in source order: each token covers at
/// least one character of the source, and no two tokens overlap.
pub proof fn law_lexed_tokens_are_ordered(s: Seq<char>)
    ensures
        spec_lex(s) matches Ok(toks) ==> tokens_ordered(s, toks, 0),
{
    lemma_lex_from_ordered(s, 0);
}

/// A keyword's text is the word it was read from.
proof fn lemma_keyword_text(w: Seq<char>)
    ensures
        keyword(w) matches Some(t) ==> crate::toks::fixed_text(t) == w,
{
}

/// The tokens whose text is exactly their source: identifiers, keywords
/// and punctuation (a line break may have been written `\r\n`).
pub open spec fn reproduces_source(s: Seq<char>, x: Lexed) -> bool {
    match x.0 {
        TokenV::Ident(w) => w == s.subrange(x.1, x.2),
        TokenV::Fixed(t) => !(t is Newline) ==> crate::toks::fixed_text(t) == s.subrange(x.1, x.2),
        _ => true,
    }
}

proof fn lemma_lex_from_reproduces(s: Seq<char>, i: int)
    requires
        0 <= i,
    ensures
        spec_lex_from(s, i) matches Ok(toks) ==> forall|k: int| 0 <= k < toks.len() ==> reproduces_source(s, #[trigger] toks[k]),
    decreases s.len() - i,
{
    if i < s.len() {
        match lex_step(s, i) {
            Step::Skip(j) => {
                if i < j <= s.len() {
                    lemma_lex_from_reproduces(s, j);
                }
            },
            Step::Tok(t, j) => {
                if i < j <= s.len() {
                    lemma_lex_from_reproduces(s, j);
                    lemma_step_reproduces(s, i);
                    match spec_lex_from(s, j) {
                        Ok(rest) => {
                            let toks = seq![(t, i, j)] + rest;
                            assert forall|k: int| 0 <= k < toks.len() implies reproduces_source(s, #[trigger] toks[k]) by {
                                if k > 0 {
                                    assert(toks[k] == rest[k - 1]);
                                }
                            }
                        },
                        Err(_) => {},
                    }
                }
            },
            Step::Fail(_, _) => {},
        }
    }
}

proof fn lemma_step_reproduces(s: Seq<char>, i: int)
    requires
        0 <= i < s.len(),
    ensures
        lex_step(s, i) matches Step::Tok(t, j) ==> (j <= s.len() ==> reproduces_source(s, (t, i, j))),
{
    let c = s[i];
    if is_ident_start(c) && !(c == '\n') && !is_blank(c) {
        let j = ident_end(s, i);
        lemma_keyword_text(s.subrange(i, j));
    }
    if let Step::Tok(t, j) = lex_step(s, i) {
        if j == i + 1 {
            assert(s.subrange(i, j) =~= seq![c]);
        } else if j == i + 2 && j <= s.len() {
            assert(s.subrange(i, j) =~= seq![c, s[i + 1]]);
        }
    }
}

/// Identifiers, keywords and punctuation read by the lexer print back as
/// exactly the source text they were read from.
pub proof fn law_lexed_words_reproduce_source(s: Seq<char>)
    ensures
        spec_lex(s) matches Ok(toks) ==> forall|k: int| 0 <= k < toks.len() ==> reproduces_source(s, #[trigger] toks[k]),
{
    lemma_lex_from_reproduces(s, 0);
}

/// `toks` followed by what lexing from a later position gives.
pub open spec fn prepend(toks: Seq<Lexed>, r: Result<Seq<Lexed>, LexStop>) -> Result<Seq<Lexed>, LexStop> {
    match r {
        Ok(rest) => Ok(toks + rest),
        Err(e) => Err(e),
    }
}

/// The byte span of char indices `a..b` of `s`.
pub open spec fn byte_span(s: Seq<char>, a: int, b: int) -> Span {
    Span::Known(RawSpan { start: byte_offset(s, a) as usize, end: byte_offset(s, b) as usize })
}

/// The spanned tokens `out` are the lexed tokens `toks` of `s`, with byte spans.
pub open spec fn tokens_match(s: Seq<char>, out: Seq<Spanned<Token>>, toks: Seq<Lexed>) -> bool {
    &&& out.len() == toks.len()
    &&& forall|k: int| 0 <= k < out.len() ==> {
        &&& (#[trigger] out[k]).value@ == toks[k].0
        &&& out[k].span == byte_span(s, toks[k].1, toks[k].2)
    }
}

/// The error the lexer reports when it stops.
pub open spec fn stop_error(s: Seq<char>, stop: LexStop) -> LexingError {
    match stop.2 {
        LexFailure::InvalidToken => LexingError::InvalidToken { span: byte_span(s, stop.0, stop.1) },
        LexFailure::NumberTooLarge => LexingError::NumberTooLarge { span: byte_span(s, stop.0, stop.1) },
    }
}

/// The lexer's result agrees with `spec_lex`.
pub open spec fn lex_result_matches(s: Seq<char>, r: Result<Vec<Spanned<Token>>, LexingError>) -> bool {
    match spec_lex(s) {
        Ok(toks) => r matches Ok(out) && tokens_match(s, out@, toks),
        Err(stop) => r matches Err(e) && e == stop_error(s, stop),
    }
}

/// Lexes a whole source text.
pub fn lex_source(src: &str) -> (r: Result<Vec<Spanned<Token>>, LexingError>)
    ensures
        lex_result_matches(src@, r),
{
    let v = chars_of(src);
    let ghost s = v@;
    let total = src.as_bytes().len();
    let n = v.len();
    let mut out: Vec<Spanned<Token>> = Vec::new();
    let ghost mut toks: Seq<Lexed> = Seq::empty();
    let mut i: usize = 0;
    let mut b: usize = 0;
    proof {
        assert(s.take(0) =~= Seq::<char>::empty());
        assert(toks + Seq::<Lexed>::empty() =~= toks);
        assert(prepend(toks, spec_lex_from(s, 0)) =~= spec_lex_from(s, 0)) by {
            match spec_lex_from(s, 0) {
                Ok(rest) => { assert(toks + rest =~= rest); },
                Err(e) => {},
            }
        }
    }
    while i < n
        invariant
            s == v@,
            s == src@,
            n == s.len(),
            total == encode_utf8(s).len(),
            i <= n,
            b == byte_offset(s, i as int),
            tokens_match(s, out@, toks),
            spec_lex(s) == prepend(toks, spec_lex_from(s, i as int)),
        decreases n - i,
    {
        let step = lex_at(&v, i);
        match step {
            ExecStep::Skip(j) => {
                assert(spec_lex_from(s, i as int) == spec_lex_from(s, j as int));
                b = advance_bytes(&v, i, j, b, total);
                i = j;
            },
            ExecStep::Tok(t, j) => {
                let e = advance_bytes(&v, i, j, b, total);
                let ghost x: Lexed = (t@, i as int, j as int);
                proof {
                    match spec_lex_from(s, j as int) {
                        Ok(rest) => {
                            assert(spec_lex_from(s, i as int) == Ok::<Seq<Lexed>, LexStop>(seq![x] + rest));
                            assert(toks + (seq![x] + rest) =~= toks.push(x) + rest);
                        },
                        Err(er) => {
                            assert(spec_lex_from(s, i as int) == Err::<Seq<Lexed>, LexStop>(er));
                        },
                    }
                }
                out.push(Spanned { span: Span::Known(RawSpan { start: b, end: e }), value: t });
                proof {
                    toks = toks.push(x);
                    assert forall|k: int| 0 <= k < out@.len() implies {
                        &&& (#[trigger] out@[k]).value@ == toks[k].0
                        &&& out@[k].span == byte_span(s, toks[k].1, toks[k].2)
                    } by {
                        if k < out@.len() - 1 {
                        }
                    }
                }
                b = e;
                i = j;
            },
            ExecStep::Fail(j, kind) => {
                let e = advance_bytes(&v, i, j, b, total);
                assert(spec_lex_from(s, i as int) == Err::<Seq<Lexed>, LexStop>((i as int, j as int, kind)));
                let span = Span::Known(RawSpan { start: b, end: e });
                return match kind {
                    LexFailure::InvalidToken => Err(LexingError::InvalidToken { span }),
                    LexFailure::NumberTooLarge => Err(LexingError::NumberTooLarge { span }),
                };
            },
        }
    }
    assert(toks + Seq::<Lexed>::empty() =~= toks);
    Ok(out)
}

/// The punctuation characters of the language that stand alone.
pub open spec fn is_punctuation(c: char) -> bool {
    ||| c == '&' ||| c == '{' ||| c == '}' ||| c == '(' ||| c == ')'
    ||| c == '[' ||| c == ']' ||| c == ';' ||| c == ',' ||| c == '?'
    ||| c == '=' ||| c == '|' ||| c == '#' ||| c == '!'
}

/// Every punctuation character lexes, wherever it stands, to a token of
/// its own, one character long, that prints as that character.
pub proof fn law_punctuation_lexes_to_itself(s: Seq<char>, i: int)
    requires
        0 <= i < s.len(),
        is_punctuation(s[i]),
    ensures
        lex_step(s, i) matches Step::Tok(TokenV::Fixed(t), j) && j == i + 1 && fixed_text(t) == seq![s[i]],
{
}

proof fn lemma_unescape_plain(s: Seq<char>)
    requires
        forall|i: int| 0 <= i < s.len() ==> s[i] != '\\',
    ensures
        unescape_raw(s) == s,
    decreases s.len(),
{
    if s.len() > 0 {
        assert forall|i: int| 0 <= i < s.skip(1).len() implies s.skip(1)[i] != '\\' by {
            assert(s.skip(1)[i] == s[i + 1]);
        }
        lemma_unescape_plain(s.skip(1));
        assert(seq![s[0]] + s.skip(1) =~= s);
    }
}

proof fn lemma_string_close_plain(t: Seq<char>, k: int)
    requires
        t.len() >= 2,
        1 <= k <= t.len() - 1,
        t[t.len() - 1] == '"',
        forall|i: int| 1 <= i < t.len() - 1 ==> t[i] != '"' && t[i] != '\\',
    ensures
        string_close(t, k, '"') == Some(t.len() - 1),
    decreases t.len() - k,
{
    if k < t.len() - 1 {
        lemma_string_close_plain(t, k + 1);
    }
}

/// A string token printed and lexed again is the same token, for a text
/// with no quote or backslash in it and no white space at either end.
pub proof fn law_string_token_lexes_back(s: Seq<char>)
    requires
        forall|i: int| 0 <= i < s.len() ==> s[i] != '"' && s[i] != '\\',
        s.len() > 0 ==> !is_ws(s[0]) && !is_ws(s[s.len() - 1]),
    ensures
        spec_lex(token_text(TokenV::Str(s))) == Ok::<Seq<Lexed>, LexStop>(seq![(TokenV::Str(s), 0int, s.len() as int + 2)]),
{
    let t = token_text(TokenV::Str(s));
    assert(t == seq!['"'] + s + seq!['"']);
    assert(t.len() == s.len() as int + 2);
    assert(t[0] == '"');
    assert(t[t.len() - 1] == '"');
    assert forall|i: int| 1 <= i < t.len() - 1 implies t[i] != '"' && t[i] != '\\' by {
        assert(t[i] == s[i - 1]);
    }
    lemma_string_close_plain(t, 1);
    assert(t.subrange(1, s.len() as int + 1) =~= s);
    lemma_unescape_plain(s);
    if s.len() > 0 {
        assert(trim_start(s) == s);
        assert(trim_end(s) == s);
    } else {
        assert(trim_start(s) == s);
        assert(trim_end(s) == s);
    }
    assert(trim(unescape_raw(s)) == s);
    assert(spec_unescape(t.subrange(1, s.len() as int + 1)) == s);
    assert(lex_step(t, 0) == Step::Tok(TokenV::Str(s), s.len() as int + 2));
    assert(spec_lex_from(t, s.len() as int + 2) == Ok::<Seq<Lexed>, LexStop>(Seq::<Lexed>::empty()));
    assert(seq![(TokenV::Str(s), 0int, s.len() as int + 2)] + Seq::<Lexed>::empty() =~= seq![(TokenV::Str(s), 0int, s.len() as int + 2)]);
}

/// A string token prints between double quotes, whatever its text.
pub proof fn law_string_token_prints_quoted(s: Seq<char>)
    ensures
        token_text(TokenV::Str(s)).len() == s.len() + 2,
        token_text(TokenV::Str(s))[0] == '"',
        token_text(TokenV::Str(s))[s.len() as int + 1] == '"',
{
}

/// `->`, `::` and `:` lex to tokens of their own that print as the
/// characters they were read from; `::` wins over `:`.
pub proof fn law_operators_lex_to_themselves(s: Seq<char>, i: int)
    requires
        0 <= i < s.len(),
    ensures
        s[i] == '-' && i + 1 < s.len() && s[i + 1] == '>' ==> (lex_step(s, i) matches Step::Tok(TokenV::Fixed(t), j)
            && j == i + 2 && fixed_text(t) == s.subrange(i, i + 2)),
        s[i] == ':' ==> (lex_step(s, i) matches Step::Tok(TokenV::Fixed(t), j)
            && (j == i + 2 <==> (i + 1 < s.len() && s[i + 1] == ':'))
            && (j == i + 1 || j == i + 2)
            && fixed_text(t) == s.subrange(i, j)),
{
    if s[i] == '-' && i + 1 < s.len() && s[i + 1] == '>' {
        assert(s.subrange(i, i + 2) =~= seq!['-', '>']);
    }
    if s[i] == ':' {
        if i + 1 < s.len() && s[i + 1] == ':' {
            assert(s.subrange(i, i + 2) =~= seq![':', ':']);
        } else {
            assert(s.subrange(i, i + 1) =~= seq![':']);
        }
    }
}

proof fn lemma_nat_decimal_digits(n: nat)
    ensures
        nat_decimal(n).len() > 0,
        forall|i: int| 0 <= i < nat_decimal(n).len() ==> is_digit(#[trigger] nat_decimal(n)[i]),
        decimal_value(nat_decimal(n)) == n,
    decreases n,
{
    let d = (n % 10) as nat;
    assert(is_digit(digit_char(d)) && digit_char(d) as int - '0' as int == d) by {
        assert(d < 10);
    }
    if n >= 10 {
        lemma_nat_decimal_digits(n / 10);
        let t = nat_decimal(n);
        assert(t == nat_decimal(n / 10).push(digit_char(d)));
        assert(t.drop_last() =~= nat_decimal(n / 10));
        assert forall|i: int| 0 <= i < t.len() implies is_digit(#[trigger] t[i]) by {
            if i < t.len() - 1 {
                assert(t[i] == nat_decimal(n / 10)[i]);
            }
        }
        assert(decimal_value(t) == decimal_value(nat_decimal(n / 10)) * 10 + (digit_char(d) as int - '0' as int));
        assert(n == (n / 10) * 10 + d);
        assert(decimal_value(nat_decimal(n / 10)) == n / 10);
        assert(decimal_value(t) == n);
    } else {
        assert(d == n);
        assert(nat_decimal(n) == seq![digit_char(n)]);
        assert(nat_decimal(n).drop_last() =~= Seq::<char>::empty());
        assert(decimal_value(Seq::<char>::empty()) == 0);
        assert(decimal_value(nat_decimal(n)) == decimal_value(nat_decimal(n).drop_last()) * 10 + (nat_decimal(n).last() as int - '0' as int));
    }
}

/// A number token that is not negative, printed and lexed again, is the
/// same number.
pub proof fn law_number_token_lexes_back(n: i32)
    requires
        n >= 0,
    ensures
        spec_lex(token_text(TokenV::Number(n))) == Ok::<Seq<Lexed>, LexStop>(seq![(TokenV::Number(n), 0int, token_text(TokenV::Number(n)).len() as int)]),
{
    let t = token_text(TokenV::Number(n));
    assert(t == nat_decimal(n as nat));
    lemma_nat_decimal_digits(n as nat);
    let len = t.len() as int;
    lemma_run_end_is(t, 0, len, |c: char| is_digit(c));
    assert(t.subrange(0, len) =~= t);
    assert(is_digit(t[0]));
    assert(lex_step(t, 0) == Step::Tok(TokenV::Number(n), len));
    assert(spec_lex_from(t, len) == Ok::<Seq<Lexed>, LexStop>(Seq::<Lexed>::empty()));
    assert(seq![(TokenV::Number(n), 0int, len)] + Seq::<Lexed>::empty() =~= seq![(TokenV::Number(n), 0int, len)]);
}

} // verus!
