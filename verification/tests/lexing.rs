use kintsu_parser::defs::Span;
use kintsu_parser::escape::{unescape, unescape_comment};
use kintsu_parser::lexer::{lex_source, LexingError};
use kintsu_parser::printer::{print_tokens, FormatConfig};
use kintsu_parser::stream::{Delimiter, TokenStream};
use kintsu_parser::toks::Token;

fn kinds(src: &str) -> Vec<String> {
    lex_source(src).ok().unwrap().iter().map(|t| t.value.display()).collect()
}

#[test]
fn lexes_words_and_punctuation() {
    let toks = lex_source("struct A { b: i32 };").ok().unwrap();
    let texts: Vec<String> = toks.iter().map(|t| t.value.display()).collect();
    // spaces and tabs separate tokens but are not tokens themselves
    assert_eq!(texts, vec!["struct", "A", "{", "b", ":", "i32", "}", ";"]);
    assert!(matches!(toks[0].value, Token::KwStruct));
    assert!(matches!(&toks[1].value, Token::Ident(s) if s == "A"));
    assert!(matches!(toks[5].value, Token::KwI32));
}

#[test]
fn tokens_keep_their_byte_spans() {
    let toks = lex_source("ab  cd").ok().unwrap();
    assert_eq!(toks.len(), 2);
    match toks[1].span {
        Span::Known(r) => {
            assert_eq!(r.start, 4);
            assert_eq!(r.end, 6);
        },
        Span::CallSite => panic!("expected a known span"),
    }
}

#[test]
fn lexes_numbers_paths_strings_and_comments() {
    let toks = lex_source("42 a::b::C \"x\\\"y\" // note\n").ok().unwrap();
    assert_eq!(toks.len(), 5);
    assert!(matches!(toks[0].value, Token::Number(42)));
    match &toks[1].value {
        Token::Path(p) => assert_eq!(p.segments(), &vec!["a".to_string(), "b".to_string(), "C".to_string()]),
        _ => panic!("expected a path"),
    }
    assert!(matches!(&toks[2].value, Token::String(s) if s == "x\"y"));
    assert!(matches!(&toks[3].value, Token::CommentSingleLine(s) if s == "note"));
    assert!(matches!(toks[4].value, Token::Newline));
}

#[test]
fn rejects_unknown_characters_and_huge_numbers() {
    assert!(matches!(lex_source("a $"), Err(LexingError::InvalidToken { .. })));
    assert!(matches!(lex_source("99999999999"), Err(LexingError::NumberTooLarge { .. })));
}

#[test]
fn printing_tokens_reproduces_the_words() {
    let src = "type A = B;";
    let toks = lex_source(src).ok().unwrap();
    let cfg = FormatConfig::default();
    // the tokens are printed one after the other, without the skipped spaces
    assert_eq!(print_tokens(&toks, &cfg), "typeA=B;");
    assert_eq!(kinds("x").len(), 1);
}

#[test]
fn unescaping() {
    assert_eq!(unescape("a\\nb"), "a\nb");
    assert_eq!(unescape("q\\\"t"), "q\"t");
    assert_eq!(unescape_comment("  hi  "), "hi");
}

#[test]
fn stream_skips_whitespace_and_matches_brackets() {
    let mut ts = TokenStream::lex("{ a { b } } c").ok().unwrap();
    let first = ts.peek_unchecked().map(|t| t.value.display());
    assert_eq!(first, Some("{".to_string()));
    let (inner, _span) = ts.extract_inner_tokens(Delimiter::Brace).ok().unwrap();
    let inner_texts: Vec<String> = inner.all().iter().map(|t| t.value.display()).collect();
    assert_eq!(inner_texts, vec!["a", "{", "b", "}"]);
    let next = ts.next().map(|t| t.value.display());
    assert_eq!(next, Some("c".to_string()));
    assert!(ts.next().is_none());
}

#[test]
fn parse_vs_token_contract() {
    let src = "namespace test;\n\n// comment\n";
    let mut tt = TokenStream::lex(src).ok().expect("tokenize");

    let fork = tt.fork();
    let full = fork.all();

    assert!(
        full.iter().any(|t| matches!(t.value, Token::Space | Token::Newline | Token::Tab)),
        "expected whitespace tokens in token list"
    );

    let mut iter_count = 0usize;
    while tt.next().is_some() {
        iter_count += 1;
    }

    assert!(
        full.len() > iter_count,
        "expected full token list length ({}) > parse-iterator count ({})",
        full.len(),
        iter_count
    );
}
