use event_game_lang::api::{
    describe_runtime_error, format_parse_error, format_runtime_error, open_session, render_runtime_error_debug,
    require_admin, runtime_error_debug_string, ApiError,
};
use event_game_lang::ast::{Loc, Value};
use event_game_lang::eval::RuntimeError;
use event_game_lang::lexer::tokenize;
use event_game_lang::parser::{try_parse_program, ParseError, ParseErrorKind};
use event_game_lang::session::{admin_authorized, session_cookie, session_cookie_value, SessionStore};
use event_game_lang::text::{div_trunc, rem_trunc, str_lt};
use event_game_lang::tick::NodeRuntimeError;

fn loc(lines: std::ops::Range<usize>) -> Loc {
    Loc { range: 0..1, line_range: lines }
}

#[test]
fn parse_error_messages() {
    let e = ParseError { loc: loc(3..5), kind: ParseErrorKind::UnexpectedToken };
    assert_eq!(format_parse_error(&e), "parse error on lines 3..5: unexpected token");
    let e = ParseError { loc: loc(1..2), kind: ParseErrorKind::UnexpectedEnd };
    assert_eq!(format_parse_error(&e), "parse error on lines 1..2: unexpected end of input");
    let e = ParseError { loc: loc(10..12), kind: ParseErrorKind::Message("expected `)`".into()) };
    assert_eq!(format_parse_error(&e), "parse error on lines 10..12: expected `)`");
}

#[test]
fn runtime_error_messages() {
    assert_eq!(describe_runtime_error(&RuntimeError::Type("expected int")), "expected int");
    assert_eq!(describe_runtime_error(&RuntimeError::MissingVariable("x".into())), "missing variable `x`");
    assert_eq!(describe_runtime_error(&RuntimeError::MissingNode("n".into())), "missing node `n`");
    assert_eq!(describe_runtime_error(&RuntimeError::OutOfBounds), "out of bounds");
    assert_eq!(describe_runtime_error(&RuntimeError::DivisionByZero), "division by zero");
    assert_eq!(
        describe_runtime_error(&RuntimeError::InvalidReceiveTarget),
        "receive target must be a string"
    );
    let e = NodeRuntimeError { node_id: "left".into(), loc: loc(7..9), error: RuntimeError::DivisionByZero };
    assert_eq!(format_runtime_error(&e), "node `left` failed on lines 7..9: division by zero");
}

#[test]
fn error_answers_have_status_and_code() {
    let e = ApiError::unauthorized("no".into());
    assert_eq!((e.status, e.code, e.message.as_str()), (401, "unauthorized", "no"));
    let e = ApiError::forbidden("no".into());
    assert_eq!((e.status, e.code), (403, "forbidden"));
    let e = ApiError::not_found("no".into());
    assert_eq!((e.status, e.code), (404, "not_found"));
    let e = ApiError::internal("no".into());
    assert_eq!((e.status, e.code), (500, "internal_error"));
}

#[test]
fn session_ids_count_up() {
    let mut sessions = SessionStore::default();
    assert_eq!(sessions.issued_count(), 0);
    assert!(!sessions.contains("session-1"));
    let first = sessions.issue();
    let second = sessions.issue();
    assert_eq!(first, "session-1");
    assert_eq!(second, "session-2");
    assert!(sessions.contains("session-1"));
    assert!(sessions.contains("session-2"));
    assert!(!sessions.contains("session-3"));
    assert_eq!(sessions.issued_count(), 2);
}

#[test]
fn stale_cookie_gets_a_new_session() {
    let mut sessions = SessionStore::default();
    let (id, is_new) = open_session(&mut sessions, Some("event_game_session=session-9"));
    assert_eq!(id, "session-1");
    assert!(is_new);
}

#[test]
fn session_cookie_is_found_among_others() {
    assert_eq!(session_cookie("a=1; event_game_session=xyz"), Some("xyz".to_string()));
    assert_eq!(session_cookie("event_game_session=abc"), Some("abc".to_string()));
    assert_eq!(session_cookie("  event_game_session=abc ;x=y"), Some("abc".to_string()));
    assert_eq!(session_cookie("event_game_session="), Some("".to_string()));
    assert_eq!(session_cookie("event_game_session=a=b"), Some("a=b".to_string()));
    assert_eq!(session_cookie("other=1"), None);
    assert_eq!(session_cookie(""), None);
    // A piece without `=` before the session cookie ends the search.
    assert_eq!(session_cookie("junk; event_game_session=abc"), None);
    assert_eq!(session_cookie("event_game_session=abc; junk"), Some("abc".to_string()));
}

#[test]
fn session_cookie_header_value() {
    assert_eq!(
        session_cookie_value("session-1"),
        "event_game_session=session-1; Path=/; HttpOnly; SameSite=Lax"
    );
}

#[test]
fn admin_token_checks() {
    assert!(admin_authorized(Some("Bearer secret"), None, "secret"));
    assert!(!admin_authorized(Some("Bearer wrong"), None, "secret"));
    assert!(!admin_authorized(Some("bearer secret"), None, "secret"));
    assert!(!admin_authorized(Some("secret"), None, "secret"));
    assert!(admin_authorized(None, Some("secret"), "secret"));
    assert!(admin_authorized(Some("Bearer wrong"), Some("secret"), "secret"));
    assert!(!admin_authorized(None, None, "secret"));
    let e = require_admin(None, Some("nope"), "secret").expect_err("refused");
    assert_eq!(e.message, "missing or invalid admin token");
}

#[test]
fn values_display() {
    assert_eq!(Value::Int(-5).to_display_string(), "-5");
    assert_eq!(Value::Int(42).to_display_string(), "42");
    assert_eq!(Value::Bool(true).to_display_string(), "true");
    assert_eq!(Value::Str("hi".into()).to_display_string(), "hi");
    assert_eq!(Value::Nil.to_display_string(), "none");
}

#[test]
fn value_conversions() {
    assert_eq!(Value::Bool(true).truthy(), Ok(true));
    assert_eq!(Value::Int(1).truthy(), Err(RuntimeError::Type("expected bool")));
    assert_eq!(Value::Int(3).as_int(), Ok(3));
    assert_eq!(Value::Nil.as_int(), Err(RuntimeError::Type("expected int")));
    assert_eq!(Value::Str("s".into()).as_str(), Ok("s"));
    assert_eq!(Value::Bool(false).as_str(), Err(RuntimeError::Type("expected string")));
}

#[test]
fn truncating_division() {
    assert_eq!(div_trunc(-7, 2), -3);
    assert_eq!(rem_trunc(-7, 2), -1);
    assert_eq!(div_trunc(7, -2), -3);
    assert_eq!(rem_trunc(7, -2), 1);
    assert_eq!(div_trunc(i64::MIN, 1), i64::MIN);
}

#[test]
fn byte_order_of_strings() {
    assert!(str_lt("B", "a"));
    assert!(str_lt("a", "ab"));
    assert!(!str_lt("ab", "ab"));
    assert!(str_lt("z", "é"));
    assert!(!str_lt("b", "a"));
}

#[test]
fn tokens_and_parse_panics() {
    let tokens = tokenize(b"x = 12 // note").expect("ints fit");
    assert_eq!(tokens.len(), 3);
    assert!(tokenize(b"99999999999999999999").is_none());
    assert!(try_parse_program("99999999999999999999").is_none());
    assert!(try_parse_program("é").is_none());
    assert!(try_parse_program("x = 1").is_some());
}

#[test]
fn debug_renderings_of_errors() {
    assert_eq!(
        render_runtime_error_debug(&RuntimeError::MissingVariable("x".into()), "\"x\""),
        "MissingVariable(\"x\")"
    );
    assert_eq!(render_runtime_error_debug(&RuntimeError::OutOfBounds, "ignored"), "OutOfBounds");
    assert_eq!(
        runtime_error_debug_string(&RuntimeError::MissingVariable("x".into())),
        "MissingVariable(\"x\")"
    );
    assert_eq!(
        runtime_error_debug_string(&RuntimeError::Type("expected int")),
        "Type(\"expected int\")"
    );
    assert_eq!(runtime_error_debug_string(&RuntimeError::DivisionByZero), "DivisionByZero");
    let e = NodeRuntimeError { node_id: "left".into(), loc: loc(1..2), error: RuntimeError::MissingNode("n".into()) };
    assert_eq!(e.to_display_string(), "node `left` failed on lines 1..2: MissingNode(\"n\")");
    let p = ParseError { loc: loc(2..3), kind: ParseErrorKind::UnexpectedToken };
    assert_eq!(p.to_display_string(), "parse error on lines 2..3: unexpected token");
}
