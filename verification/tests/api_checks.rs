use kintsu_parser::defs::{RawSpan, Span, Spanned};
use kintsu_parser::lexer::LexingError;
use kintsu_parser::paths::{RefContext, RefOrItemContext};
use kintsu_parser::printer::{FormatConfig, Printer};
use kintsu_parser::registry_auth::{AuthorizationError, AuthorizationResult, Policy, PolicyCheck};
use kintsu_parser::registry_core::{ErrorResponse, ImportOrgRequest, PublicErrorType};
use kintsu_parser::stream::{has_tokens_before_newline, MutTokenStream, TokenStream};
use kintsu_parser::toks::{IdentToken, Token};

fn check(policy: Policy, passed: bool) -> PolicyCheck {
    PolicyCheck { policy, passed, details: "d".to_string() }
}

#[test]
fn allowed_result_is_ok() {
    let r = AuthorizationResult::allow("owner".to_string(), vec![check(Policy::OrgAdmin, true)]);
    assert!(r.allowed);
    assert_eq!(r.reason, "owner");
    assert!(r.require().is_ok());
}

#[test]
fn denied_result_keeps_reason_and_checks() {
    let r = AuthorizationResult::deny("no scope".to_string(), vec![check(Policy::ScopeMatch, false)]);
    match r.into_result() {
        Err(AuthorizationError::Denied { reason, checks }) => {
            assert_eq!(reason, "no scope");
            assert_eq!(checks.len(), 1);
            assert_eq!(checks[0].policy, Policy::ScopeMatch);
        }
        _ => panic!("expected a denial"),
    }
}

#[test]
fn misconfigured_check_is_internal_error() {
    let r = AuthorizationResult::not_applicable("publish", "org");
    assert!(!r.allowed);
    assert_eq!(r.reason, "Internal error: permission 'publish' not applicable to resource 'org'");
    assert_eq!(r.checks.len(), 1);
    assert_eq!(r.checks[0].details, "Authorization check misconfiguration");
    match r.into_result() {
        Err(AuthorizationError::NotApplicable { reason }) => {
            assert_eq!(reason, "Internal error: permission 'publish' not applicable to resource 'org'");
        }
        _ => panic!("expected an internal error"),
    }
}

#[test]
fn error_responses_carry_their_errors() {
    let one = ErrorResponse::from_public_error(PublicErrorType::NotFound, Some("gone".to_string()));
    assert_eq!(one.error.as_str(), "not-found");
    assert!(one.errors.is_empty());
    assert_eq!(one.error_description.as_deref(), Some("gone"));
    let many = ErrorResponse::from_public_errors(vec![PublicErrorType::Forbidden, PublicErrorType::Validation], None);
    assert_eq!(many.error.as_str(), "multiple-errors");
    assert_eq!(many.errors.len(), 2);
    assert_eq!(many.errors[1].as_str(), "validation-error");
    assert_eq!(ErrorResponse::internal().error.as_str(), "internal-server-error");
}

#[test]
fn org_names_must_have_one_to_thirty_nine_characters() {
    assert!(!ImportOrgRequest { org_name: String::new() }.validate());
    assert!(ImportOrgRequest { org_name: "a".to_string() }.validate());
    assert!(ImportOrgRequest { org_name: "x".repeat(39) }.validate());
    assert!(!ImportOrgRequest { org_name: "x".repeat(40) }.validate());
}

#[test]
fn printer_blocks_indent_their_content() {
    let cfg = FormatConfig::default();
    let mut p = Printer::new(&cfg);
    p.open_block();
    assert_eq!(p.indent_level, 1);
    p.close_block();
    assert_eq!(p.indent_level, 0);
    assert_eq!(p.buf, "{\n\t\n}");
}

#[test]
fn printer_separates_items_with_commas() {
    let cfg = FormatConfig::default();
    let mut p = Printer::new(&cfg);
    p.write_comma_separated_inline(&vec![Token::Ident("a".to_string()), Token::Ident("b".to_string())]);
    assert_eq!(p.buf, "a, b");
    let mut q = Printer::new(&cfg);
    q.write_comma_separated(&vec![Token::Ident("a".to_string()), Token::Ident("b".to_string())]);
    assert_eq!(q.buf, "a,\nb");
}

#[test]
fn stream_cursor_moves_and_rewinds() {
    let mut ts = TokenStream::lex("a b c").ok().unwrap();
    assert!(matches!(&ts.nth(2).unwrap().value, Token::Ident(s) if s == "c"));
    assert!(ts.nth(3).is_none());
    match ts.current_span() {
        Span::Known(r) => assert_eq!((r.start, r.end), (0, 1)),
        Span::CallSite => panic!("expected a known span"),
    }
    ts.next();
    ts.next();
    assert_eq!(ts.cursor(), 2);
    ts.rewind(100);
    assert_eq!(ts.cursor(), 3);
    assert!(matches!(ts.current_span(), Span::CallSite));
    ts.rewind(0);
    assert_eq!(ts.cursor(), 0);
}

#[test]
fn unconsumed_tokens_are_reported() {
    let mut ts = TokenStream::lex("a ;").ok().unwrap();
    ts.next();
    match ts.ensure_consumed() {
        Err(LexingError::Expected { found, .. }) => assert!(matches!(found, Token::Semi)),
        _ => panic!("a semicolon is left"),
    }
    ts.next();
    assert!(ts.ensure_consumed().is_ok());
}

#[test]
fn mutable_stream_writes_and_splices() {
    let mut m = MutTokenStream::new();
    m.write_with_span(Token::Ident("a".to_string()), 0, 1);
    m.write_with_last(Token::Semi);
    MutTokenStream::write_with_spanned();
    assert_eq!(m.all_tokens().len(), 2);
    match m.tokens_ref()[1].span {
        Span::Known(r) => assert_eq!((r.start, r.end), (0, 1)),
        Span::CallSite => panic!("expected a known span"),
    }
    m.splice_with(0..1, vec![Token::Ident("x".to_string()), Token::Ident("y".to_string())]);
    let toks = m.into_tokens();
    assert_eq!(toks.len(), 3);
    assert!(matches!(&toks[1].value, Token::Ident(s) if s == "y"));
    assert!(matches!(toks[2].value, Token::Semi));
}

#[test]
fn token_kind_at_position() {
    let toks = vec![
        Spanned { span: Span::Known(RawSpan { start: 0, end: 1 }), value: Token::Ident("a".to_string()) },
        Spanned { span: Span::Known(RawSpan { start: 1, end: 2 }), value: Token::Semi },
    ];
    assert!(has_tokens_before_newline(&toks, 1, &Token::Semi));
    assert!(!has_tokens_before_newline(&toks, 0, &Token::Semi));
    assert!(!has_tokens_before_newline(&toks, 5, &Token::Semi));
}

#[test]
fn entering_a_namespace_extends_the_path() {
    let ctx = RefContext::new("pkg".to_string(), vec!["a".to_string()]);
    let inner = ctx.enter("b");
    assert_eq!(inner.package, "pkg");
    assert_eq!(inner.namespace, vec!["a".to_string(), "b".to_string()]);
    let item = inner.item(Spanned::call_site(IdentToken::new("T".to_string())));
    assert_eq!(item.name.value.borrow_string(), "T");
    let r = RefOrItemContext::from_item(item);
    assert_eq!(r.as_ref_context().namespace.len(), 2);
    let q = RefOrItemContext::from_ref(ctx);
    assert_eq!(q.as_ref_context().namespace.len(), 1);
}
