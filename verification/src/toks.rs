//! Tokens of the schema language and their printed text.
use vstd::prelude::*;
use crate::text::{append_chars, append_string, chars_of, push_char, push_i32_decimal, range_eq, int_decimal};

verus! {

/// A `::`-separated path such as `schema::types::User`.
#[derive(Debug)]
pub enum Path {
    Ambiguous { bits: Vec<String> },
}

impl Path {
    /// The segments of the path, in order.
    pub fn segments(&self) -> (r: &Vec<String>)
        ensures
            r == self->bits,
    {
        match self {
            Path::Ambiguous { bits } => bits,
        }
    }
}

/// The segments joined by `::`.
pub open spec fn join_segments(bits: Seq<Seq<char>>) -> Seq<char>
    decreases bits.len(),
{
    if bits.len() == 0 {
        Seq::empty()
    } else if bits.len() == 1 {
        bits[0]
    } else {
        join_segments(bits.drop_last()) + seq![':', ':'] + bits.last()
    }
}

/// The character sequences of a list of strings.
pub open spec fn strings_view(v: Seq<String>) -> Seq<Seq<char>> {
    v.map_values(|s: String| s@)
}

impl Path {
    pub open spec fn bits_view(self) -> Seq<Seq<char>> {
        strings_view(self->bits@)
    }
}

/// A token of the schema language.
#[derive(Debug)]
pub enum Token {
    Space,
    Tab,
    Return,
    Amp,
    DoubleColon,
    LBrace,
    RBrace,
    LParen,
    RParen,
    LBracket,
    RBracket,
    Semi,
    Colon,
    Comma,
    QMark,
    Eq,
    Pipe,
    Hash,
    Bang,
    KwNamespace,
    KwUse,
    KwStruct,
    KwEnum,
    KwType,
    KwOneof,
    KwError,
    KwOperation,
    KwBool,
    KwNull,
    KwStr,
    KwI8,
    KwI16,
    KwI32,
    KwI64,
    KwU8,
    KwU16,
    KwU32,
    KwU64,
    KwUsize,
    KwF16,
    KwF32,
    KwF64,
    KwComplex,
    KwDateTime,
    KwBinary,
    KwBase64,
    KwNever,
    KwSchema,
    Newline,
    Ident(String),
    Path(Path),
    Number(i32),
    String(String),
    CommentSingleLine(String),
    CommentMultiLine(String),
}

/// The mathematical value of a token: its kind, with the characters of
/// any text it carries.
pub ghost enum TokenV {
    /// A token that carries nothing (punctuation, keywords, newline).
    Fixed(Token),
    Ident(Seq<char>),
    Path(Seq<Seq<char>>),
    Number(i32),
    Str(Seq<char>),
    CommentSingleLine(Seq<char>),
    CommentMultiLine(Seq<char>),
}

impl View for Token {
    type V = TokenV;

    open spec fn view(&self) -> TokenV {
        match self {
            Token::Ident(s) => TokenV::Ident(s@),
            Token::Path(p) => TokenV::Path(p.bits_view()),
            Token::Number(n) => TokenV::Number(*n),
            Token::String(s) => TokenV::Str(s@),
            Token::CommentSingleLine(s) => TokenV::CommentSingleLine(s@),
            Token::CommentMultiLine(s) => TokenV::CommentMultiLine(s@),
            _ => TokenV::Fixed(*self),
        }
    }
}

/// The position of a token's variant in the list of variants.
pub open spec fn kind_of(t: Token) -> u8 {
    match t {
        Token::Space => 0,
        Token::Tab => 1,
        Token::Return => 2,
        Token::Amp => 3,
        Token::DoubleColon => 4,
        Token::LBrace => 5,
        Token::RBrace => 6,
        Token::LParen => 7,
        Token::RParen => 8,
        Token::LBracket => 9,
        Token::RBracket => 10,
        Token::Semi => 11,
        Token::Colon => 12,
        Token::Comma => 13,
        Token::QMark => 14,
        Token::Eq => 15,
        Token::Pipe => 16,
        Token::Hash => 17,
        Token::Bang => 18,
        Token::KwNamespace => 19,
        Token::KwUse => 20,
        Token::KwStruct => 21,
        Token::KwEnum => 22,
        Token::KwType => 23,
        Token::KwOneof => 24,
        Token::KwError => 25,
        Token::KwOperation => 26,
        Token::KwBool => 27,
        Token::KwNull => 28,
        Token::KwStr => 29,
        Token::KwI8 => 30,
        Token::KwI16 => 31,
        Token::KwI32 => 32,
        Token::KwI64 => 33,
        Token::KwU8 => 34,
        Token::KwU16 => 35,
        Token::KwU32 => 36,
        Token::KwU64 => 37,
        Token::KwUsize => 38,
        Token::KwF16 => 39,
        Token::KwF32 => 40,
        Token::KwF64 => 41,
        Token::KwComplex => 42,
        Token::KwDateTime => 43,
        Token::KwBinary => 44,
        Token::KwBase64 => 45,
        Token::KwNever => 46,
        Token::KwSchema => 47,
        Token::Newline => 48,
        Token::Ident(..) => 49,
        Token::Path(..) => 50,
        Token::Number(..) => 51,
        Token::String(..) => 52,
        Token::CommentSingleLine(..) => 53,
        Token::CommentMultiLine(..) => 54,
    }
}

/// Whether a token carries no text of its own.
pub open spec fn is_fixed(t: Token) -> bool {
    !(t is Ident || t is Path || t is Number || t is String || t is CommentSingleLine || t is CommentMultiLine)
}

/// The text of a token that carries no text of its own.
pub open spec fn fixed_text(t: Token) -> Seq<char> {
    match t {
        Token::Space => seq![' '],
        Token::Tab => seq!['\t'],
        Token::Return => seq!['-', '>'],
        Token::Amp => seq!['&'],
        Token::DoubleColon => seq![':', ':'],
        Token::LBrace => seq!['{'],
        Token::RBrace => seq!['}'],
        Token::LParen => seq!['('],
        Token::RParen => seq![')'],
        Token::LBracket => seq!['['],
        Token::RBracket => seq![']'],
        Token::Semi => seq![';'],
        Token::Colon => seq![':'],
        Token::Comma => seq![','],
        Token::QMark => seq!['?'],
        Token::Eq => seq!['='],
        Token::Pipe => seq!['|'],
        Token::Hash => seq!['#'],
        Token::Bang => seq!['!'],
        Token::KwNamespace => seq!['n', 'a', 'm', 'e', 's', 'p', 'a', 'c', 'e'],
        Token::KwUse => seq!['u', 's', 'e'],
        Token::KwStruct => seq!['s', 't', 'r', 'u', 'c', 't'],
        Token::KwEnum => seq!['e', 'n', 'u', 'm'],
        Token::KwType => seq!['t', 'y', 'p', 'e'],
        Token::KwOneof => seq!['o', 'n', 'e', 'o', 'f'],
        Token::KwError => seq!['e', 'r', 'r', 'o', 'r'],
        Token::KwOperation => seq!['o', 'p', 'e', 'r', 'a', 't', 'i', 'o', 'n'],
        Token::KwBool => seq!['b', 'o', 'o', 'l'],
        Token::KwNull => seq!['n', 'u', 'l', 'l'],
        Token::KwStr => seq!['s', 't', 'r'],
        Token::KwI8 => seq!['i', '8'],
        Token::KwI16 => seq!['i', '1', '6'],
        Token::KwI32 => seq!['i', '3', '2'],
        Token::KwI64 => seq!['i', '6', '4'],
        Token::KwU8 => seq!['u', '8'],
        Token::KwU16 => seq!['u', '1', '6'],
        Token::KwU32 => seq!['u', '3', '2'],
        Token::KwU64 => seq!['u', '6', '4'],
        Token::KwUsize => seq!['u', 's', 'i', 'z', 'e'],
        Token::KwF16 => seq!['f', '1', '6'],
        Token::KwF32 => seq!['f', '3', '2'],
        Token::KwF64 => seq!['f', '6', '4'],
        Token::KwComplex => seq!['c', 'o', 'm', 'p', 'l', 'e', 'x'],
        Token::KwDateTime => seq!['d', 'a', 't', 'e', 't', 'i', 'm', 'e'],
        Token::KwBinary => seq!['b', 'i', 'n', 'a', 'r', 'y'],
        Token::KwBase64 => seq!['b', 'a', 's', 'e', '6', '4'],
        Token::KwNever => seq!['n', 'e', 'v', 'e', 'r'],
        Token::KwSchema => seq!['s', 'c', 'h', 'e', 'm', 'a'],
        Token::Newline => seq!['\n'],
        _ => Seq::empty(),
    }
}

/// Whether a multi-line comment's text holds a line break.
pub open spec fn has_newline(s: Seq<char>) -> bool {
    s.contains('\n')
}

/// The printed form of a token.
pub open spec fn token_text(t: TokenV) -> Seq<char> {
    match t {
        TokenV::Fixed(k) => fixed_text(k),
        TokenV::Ident(s) => s,
        TokenV::Path(bits) => join_segments(bits),
        TokenV::Number(n) => int_decimal(n as int),
        TokenV::Str(s) => seq!['"'] + s + seq!['"'],
        TokenV::CommentSingleLine(s) => seq!['/', '/', ' '] + s,
        TokenV::CommentMultiLine(s) => if has_newline(s) {
            seq!['/', '*', '\n'] + s + seq!['\n', '*', '/']
        } else {
            seq!['/', '*', ' '] + s + seq![' ', '*', '/']
        },
    }
}

/// The keyword spelled by a word, if it is one.
pub open spec fn keyword(w: Seq<char>) -> Option<Token> {
    if w == seq!['n', 'a', 'm', 'e', 's', 'p', 'a', 'c', 'e'] {
        Some(Token::KwNamespace)
    } else if w == seq!['u', 's', 'e'] {
        Some(Token::KwUse)
    } else if w == seq!['s', 't', 'r', 'u', 'c', 't'] {
        Some(Token::KwStruct)
    } else if w == seq!['e', 'n', 'u', 'm'] {
        Some(Token::KwEnum)
    } else if w == seq!['t', 'y', 'p', 'e'] {
        Some(Token::KwType)
    } else if w == seq!['o', 'n', 'e', 'o', 'f'] {
        Some(Token::KwOneof)
    } else if w == seq!['e', 'r', 'r', 'o', 'r'] {
        Some(Token::KwError)
    } else if w == seq!['o', 'p', 'e', 'r', 'a', 't', 'i', 'o', 'n'] {
        Some(Token::KwOperation)
    } else if w == seq!['b', 'o', 'o', 'l'] {
        Some(Token::KwBool)
    } else if w == seq!['n', 'u', 'l', 'l'] {
        Some(Token::KwNull)
    } else if w == seq!['s', 't', 'r'] {
        Some(Token::KwStr)
    } else if w == seq!['i', '8'] {
        Some(Token::KwI8)
    } else if w == seq!['i', '1', '6'] {
        Some(Token::KwI16)
    } else if w == seq!['i', '3', '2'] {
        Some(Token::KwI32)
    } else if w == seq!['i', '6', '4'] {
        Some(Token::KwI64)
    } else if w == seq!['u', '8'] {
        Some(Token::KwU8)
    } else if w == seq!['u', '1', '6'] {
        Some(Token::KwU16)
    } else if w == seq!['u', '3', '2'] {
        Some(Token::KwU32)
    } else if w == seq!['u', '6', '4'] {
        Some(Token::KwU64)
    } else if w == seq!['u', 's', 'i', 'z', 'e'] {
        Some(Token::KwUsize)
    } else if w == seq!['f', '1', '6'] {
        Some(Token::KwF16)
    } else if w == seq!['f', '3', '2'] {
        Some(Token::KwF32)
    } else if w == seq!['f', '6', '4'] {
        Some(Token::KwF64)
    } else if w == seq!['c', 'o', 'm', 'p', 'l', 'e', 'x'] {
        Some(Token::KwComplex)
    } else if w == seq!['d', 'a', 't', 'e', 't', 'i', 'm', 'e'] {
        Some(Token::KwDateTime)
    } else if w == seq!['b', 'i', 'n', 'a', 'r', 'y'] {
        Some(Token::KwBinary)
    } else if w == seq!['b', 'a', 's', 'e', '6', '4'] {
        Some(Token::KwBase64)
    } else if w == seq!['n', 'e', 'v', 'e', 'r'] {
        Some(Token::KwNever)
    } else if w == seq!['s', 'c', 'h', 'e', 'm', 'a'] {
        Some(Token::KwSchema)
    } else {
        None
    }
}

/// The keyword spelled by `v[from..to]`, if it is one.
pub fn keyword_of(v: &Vec<char>, from: usize, to: usize) -> (r: Option<Token>)
    requires
        from <= to <= v@.len(),
    ensures
        r == keyword(v@.subrange(from as int, to as int)),
{
    if range_eq(v, from, to, &['n', 'a', 'm', 'e', 's', 'p', 'a', 'c', 'e']) {
        return Some(Token::KwNamespace);
    }
    if range_eq(v, from, to, &['u', 's', 'e']) {
        return Some(Token::KwUse);
    }
    if range_eq(v, from, to, &['s', 't', 'r', 'u', 'c', 't']) {
        return Some(Token::KwStruct);
    }
    if range_eq(v, from, to, &['e', 'n', 'u', 'm']) {
        return Some(Token::KwEnum);
    }
    if range_eq(v, from, to, &['t', 'y', 'p', 'e']) {
        return Some(Token::KwType);
    }
    if range_eq(v, from, to, &['o', 'n', 'e', 'o', 'f']) {
        return Some(Token::KwOneof);
    }
    if range_eq(v, from, to, &['e', 'r', 'r', 'o', 'r']) {
        return Some(Token::KwError);
    }
    if range_eq(v, from, to, &['o', 'p', 'e', 'r', 'a', 't', 'i', 'o', 'n']) {
        return Some(Token::KwOperation);
    }
    if range_eq(v, from, to, &['b', 'o', 'o', 'l']) {
        return Some(Token::KwBool);
    }
    if range_eq(v, from, to, &['n', 'u', 'l', 'l']) {
        return Some(Token::KwNull);
    }
    if range_eq(v, from, to, &['s', 't', 'r']) {
        return Some(Token::KwStr);
    }
    if range_eq(v, from, to, &['i', '8']) {
        return Some(Token::KwI8);
    }
    if range_eq(v, from, to, &['i', '1', '6']) {
        return Some(Token::KwI16);
    }
    if range_eq(v, from, to, &['i', '3', '2']) {
        return Some(Token::KwI32);
    }
    if range_eq(v, from, to, &['i', '6', '4']) {
        return Some(Token::KwI64);
    }
    if range_eq(v, from, to, &['u', '8']) {
        return Some(Token::KwU8);
    }
    if range_eq(v, from, to, &['u', '1', '6']) {
        return Some(Token::KwU16);
    }
    if range_eq(v, from, to, &['u', '3', '2']) {
        return Some(Token::KwU32);
    }
    if range_eq(v, from, to, &['u', '6', '4']) {
        return Some(Token::KwU64);
    }
    if range_eq(v, from, to, &['u', 's', 'i', 'z', 'e']) {
        return Some(Token::KwUsize);
    }
    if range_eq(v, from, to, &['f', '1', '6']) {
        return Some(Token::KwF16);
    }
    if range_eq(v, from, to, &['f', '3', '2']) {
        return Some(Token::KwF32);
    }
    if range_eq(v, from, to, &['f', '6', '4']) {
        return Some(Token::KwF64);
    }
    if range_eq(v, from, to, &['c', 'o', 'm', 'p', 'l', 'e', 'x']) {
        return Some(Token::KwComplex);
    }
    if range_eq(v, from, to, &['d', 'a', 't', 'e', 't', 'i', 'm', 'e']) {
        return Some(Token::KwDateTime);
    }
    if range_eq(v, from, to, &['b', 'i', 'n', 'a', 'r', 'y']) {
        return Some(Token::KwBinary);
    }
    if range_eq(v, from, to, &['b', 'a', 's', 'e', '6', '4']) {
        return Some(Token::KwBase64);
    }
    if range_eq(v, from, to, &['n', 'e', 'v', 'e', 'r']) {
        return Some(Token::KwNever);
    }
    if range_eq(v, from, to, &['s', 'c', 'h', 'e', 'm', 'a']) {
        return Some(Token::KwSchema);
    }
    None
}

impl Token {
    /// The position of this token's variant in the list of variants.
    pub fn kind(&self) -> (r: u8)
        ensures
            r == kind_of(*self),
    {
        match self {
            Token::Space => 0,
            Token::Tab => 1,
            Token::Return => 2,
            Token::Amp => 3,
            Token::DoubleColon => 4,
            Token::LBrace => 5,
            Token::RBrace => 6,
            Token::LParen => 7,
            Token::RParen => 8,
            Token::LBracket => 9,
            Token::RBracket => 10,
            Token::Semi => 11,
            Token::Colon => 12,
            Token::Comma => 13,
            Token::QMark => 14,
            Token::Eq => 15,
            Token::Pipe => 16,
            Token::Hash => 17,
            Token::Bang => 18,
            Token::KwNamespace => 19,
            Token::KwUse => 20,
            Token::KwStruct => 21,
            Token::KwEnum => 22,
            Token::KwType => 23,
            Token::KwOneof => 24,
            Token::KwError => 25,
            Token::KwOperation => 26,
            Token::KwBool => 27,
            Token::KwNull => 28,
            Token::KwStr => 29,
            Token::KwI8 => 30,
            Token::KwI16 => 31,
            Token::KwI32 => 32,
            Token::KwI64 => 33,
            Token::KwU8 => 34,
            Token::KwU16 => 35,
            Token::KwU32 => 36,
            Token::KwU64 => 37,
            Token::KwUsize => 38,
            Token::KwF16 => 39,
            Token::KwF32 => 40,
            Token::KwF64 => 41,
            Token::KwComplex => 42,
            Token::KwDateTime => 43,
            Token::KwBinary => 44,
            Token::KwBase64 => 45,
            Token::KwNever => 46,
            Token::KwSchema => 47,
            Token::Newline => 48,
            Token::Ident(..) => 49,
            Token::Path(..) => 50,
            Token::Number(..) => 51,
            Token::String(..) => 52,
            Token::CommentSingleLine(..) => 53,
            Token::CommentMultiLine(..) => 54,
        }
    }

    /// The characters of a token that carries no text of its own.
    pub fn fixed_chars(&self) -> (r: Vec<char>)
        ensures
            r@ == fixed_text(*self),
    {
        match self {
            Token::Space => vec![' '],
            Token::Tab => vec!['\t'],
            Token::Return => vec!['-', '>'],
            Token::Amp => vec!['&'],
            Token::DoubleColon => vec![':', ':'],
            Token::LBrace => vec!['{'],
            Token::RBrace => vec!['}'],
            Token::LParen => vec!['('],
            Token::RParen => vec![')'],
            Token::LBracket => vec!['['],
            Token::RBracket => vec![']'],
            Token::Semi => vec![';'],
            Token::Colon => vec![':'],
            Token::Comma => vec![','],
            Token::QMark => vec!['?'],
            Token::Eq => vec!['='],
            Token::Pipe => vec!['|'],
            Token::Hash => vec!['#'],
            Token::Bang => vec!['!'],
            Token::KwNamespace => vec!['n', 'a', 'm', 'e', 's', 'p', 'a', 'c', 'e'],
            Token::KwUse => vec!['u', 's', 'e'],
            Token::KwStruct => vec!['s', 't', 'r', 'u', 'c', 't'],
            Token::KwEnum => vec!['e', 'n', 'u', 'm'],
            Token::KwType => vec!['t', 'y', 'p', 'e'],
            Token::KwOneof => vec!['o', 'n', 'e', 'o', 'f'],
            Token::KwError => vec!['e', 'r', 'r', 'o', 'r'],
            Token::KwOperation => vec!['o', 'p', 'e', 'r', 'a', 't', 'i', 'o', 'n'],
            Token::KwBool => vec!['b', 'o', 'o', 'l'],
            Token::KwNull => vec!['n', 'u', 'l', 'l'],
            Token::KwStr => vec!['s', 't', 'r'],
            Token::KwI8 => vec!['i', '8'],
            Token::KwI16 => vec!['i', '1', '6'],
            Token::KwI32 => vec!['i', '3', '2'],
            Token::KwI64 => vec!['i', '6', '4'],
            Token::KwU8 => vec!['u', '8'],
            Token::KwU16 => vec!['u', '1', '6'],
            Token::KwU32 => vec!['u', '3', '2'],
            Token::KwU64 => vec!['u', '6', '4'],
            Token::KwUsize => vec!['u', 's', 'i', 'z', 'e'],
            Token::KwF16 => vec!['f', '1', '6'],
            Token::KwF32 => vec!['f', '3', '2'],
            Token::KwF64 => vec!['f', '6', '4'],
            Token::KwComplex => vec!['c', 'o', 'm', 'p', 'l', 'e', 'x'],
            Token::KwDateTime => vec!['d', 'a', 't', 'e', 't', 'i', 'm', 'e'],
            Token::KwBinary => vec!['b', 'i', 'n', 'a', 'r', 'y'],
            Token::KwBase64 => vec!['b', 'a', 's', 'e', '6', '4'],
            Token::KwNever => vec!['n', 'e', 'v', 'e', 'r'],
            Token::KwSchema => vec!['s', 'c', 'h', 'e', 'm', 'a'],
            Token::Newline => vec!['\n'],
            _ => Vec::new(),
        }
    }

    /// Whether this token is a line break, a space or a tab.
    pub fn is_whitespace(&self) -> (r: bool)
        ensures
            r == (*self is Newline || *self is Space || *self is Tab),
    {
        match self {
            Token::Newline | Token::Space | Token::Tab => true,
            _ => false,
        }
    }

    /// Appends the printed form of this token to `out`.
    pub fn write_text(&self, out: &mut String)
        ensures
            final(out)@ == old(out)@ + token_text(self@),
    {
        match self {
            Token::Ident(s) => append_string(out, s),
            Token::Path(p) => write_joined(out, p.segments()),
            Token::Number(n) => push_i32_decimal(out, *n),
            Token::String(s) => {
                push_char(out, '"');
                append_string(out, s);
                push_char(out, '"');
                assert(out@ =~= old(out)@ + token_text(self@));
            },
            Token::CommentSingleLine(s) => {
                append_chars(out, &['/', '/', ' ']);
                append_string(out, s);
                assert(out@ =~= old(out)@ + token_text(self@));
            },
            Token::CommentMultiLine(s) => {
                let cs = chars_of(s.as_str());
                let mut found = false;
                let mut k: usize = 0;
                while k < cs.len()
                    invariant
                        cs@ == s@,
                        k <= cs@.len(),
                        found == (exists|j: int| 0 <= j < k && cs@[j] == '\n'),
                    decreases cs@.len() - k,
                {
                    if cs[k] == '\n' {
                        found = true;
                    }
                    k += 1;
                }
                assert(found == has_newline(s@));
                if found {
                    append_chars(out, &['/', '*', '\n']);
                    append_string(out, s);
                    append_chars(out, &['\n', '*', '/']);
                } else {
                    append_chars(out, &['/', '*', ' ']);
                    append_string(out, s);
                    append_chars(out, &[' ', '*', '/']);
                }
                assert(out@ =~= old(out)@ + token_text(self@));
            },
            _ => {
                let cs = self.fixed_chars();
                append_chars(out, cs.as_slice());
            },
        }
    }

    /// The printed form of this token.
    pub fn display(&self) -> (r: String)
        ensures
            r@ == token_text(self@),
    {
        let mut out = String::new();
        self.write_text(&mut out);
        assert(out@ =~= token_text(self@));
        out
    }
}


impl Clone for Path {
    fn clone(&self) -> (r: Self)
        ensures
            r.bits_view() == self.bits_view(),
    {
        match self {
            Path::Ambiguous { bits } => {
                let b = bits.clone();
                assert forall|i: int| 0 <= i < b@.len() implies b@[i] == bits@[i] by {
                    assert(cloned::<String>(bits@[i], b@[i]));
                }
                assert(b@ =~= bits@);
                let r = Path::Ambiguous { bits: b };
                assert(r.bits_view() =~= self.bits_view());
                r
            },
        }
    }
}

impl Clone for Token {
    fn clone(&self) -> (r: Self)
        ensures
            r@ == self@,
            kind_of(r) == kind_of(*self),
    {
        match self {
            Token::Space => Token::Space,
            Token::Tab => Token::Tab,
            Token::Return => Token::Return,
            Token::Amp => Token::Amp,
            Token::DoubleColon => Token::DoubleColon,
            Token::LBrace => Token::LBrace,
            Token::RBrace => Token::RBrace,
            Token::LParen => Token::LParen,
            Token::RParen => Token::RParen,
            Token::LBracket => Token::LBracket,
            Token::RBracket => Token::RBracket,
            Token::Semi => Token::Semi,
            Token::Colon => Token::Colon,
            Token::Comma => Token::Comma,
            Token::QMark => Token::QMark,
            Token::Eq => Token::Eq,
            Token::Pipe => Token::Pipe,
            Token::Hash => Token::Hash,
            Token::Bang => Token::Bang,
            Token::KwNamespace => Token::KwNamespace,
            Token::KwUse => Token::KwUse,
            Token::KwStruct => Token::KwStruct,
            Token::KwEnum => Token::KwEnum,
            Token::KwType => Token::KwType,
            Token::KwOneof => Token::KwOneof,
            Token::KwError => Token::KwError,
            Token::KwOperation => Token::KwOperation,
            Token::KwBool => Token::KwBool,
            Token::KwNull => Token::KwNull,
            Token::KwStr => Token::KwStr,
            Token::KwI8 => Token::KwI8,
            Token::KwI16 => Token::KwI16,
            Token::KwI32 => Token::KwI32,
            Token::KwI64 => Token::KwI64,
            Token::KwU8 => Token::KwU8,
            Token::KwU16 => Token::KwU16,
            Token::KwU32 => Token::KwU32,
            Token::KwU64 => Token::KwU64,
            Token::KwUsize => Token::KwUsize,
            Token::KwF16 => Token::KwF16,
            Token::KwF32 => Token::KwF32,
            Token::KwF64 => Token::KwF64,
            Token::KwComplex => Token::KwComplex,
            Token::KwDateTime => Token::KwDateTime,
            Token::KwBinary => Token::KwBinary,
            Token::KwBase64 => Token::KwBase64,
            Token::KwNever => Token::KwNever,
            Token::KwSchema => Token::KwSchema,
            Token::Newline => Token::Newline,
            Token::Ident(x) => Token::Ident(x.clone()),
            Token::Path(p) => Token::Path(p.clone()),
            Token::Number(x) => Token::Number(*x),
            Token::String(x) => Token::String(x.clone()),
            Token::CommentSingleLine(x) => Token::CommentSingleLine(x.clone()),
            Token::CommentMultiLine(x) => Token::CommentMultiLine(x.clone()),
        }
    }
}

/// Appends the segments joined by `::`.
fn write_joined(out: &mut String, bits: &Vec<String>)
    ensures
        final(out)@ == old(out)@ + join_segments(strings_view(bits@)),
{
    let mut k: usize = 0;
    while k < bits.len()
        invariant
            k <= bits@.len(),
            out@ == old(out)@ + join_segments(strings_view(bits@.subrange(0, k as int))),
        decreases bits@.len() - k,
    {
        let ghost before = out@;
        if k > 0 {
            append_chars(out, &[':', ':']);
        }
        append_string(out, &bits[k]);
        proof {
            let pre = strings_view(bits@.subrange(0, k as int));
            let post = strings_view(bits@.subrange(0, k + 1));
            assert(post.drop_last() =~= pre);
            assert(post.last() == bits@[k as int]@);
            assert(post.len() == k + 1);
            if k == 0 {
                assert(join_segments(post) == post[0]);
                assert(join_segments(pre) =~= Seq::<char>::empty());
            }
        }
        k += 1;
    }
    assert(bits@.subrange(0, bits@.len() as int) =~= bits@);
}

/// The `Ident` token wrapper: an identifier's text.
#[derive(Debug)]
pub struct IdentToken(pub String);

impl IdentToken {
    pub fn new(string: String) -> (r: Self)
        ensures
            r.0 == string,
    {
        IdentToken(string)
    }

    pub fn borrow_string(&self) -> (r: &String)
        ensures
            r == self.0,
    {
        &self.0
    }

    /// The `Ident` token this wrapper stands for.
    pub fn token(&self) -> (r: Token)
        ensures
            r@ == TokenV::Ident(self.0@),
    {
        Token::Ident(self.0.clone())
    }
}

} // verus!
