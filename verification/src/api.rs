//! What the HTTP interface answers: error responses and their messages, and the guards
//! of the session and admin routes.

use vstd::prelude::*;

use crate::engine::{Engine, EngineError, NodeActionResponse, SEngineError, actions_view, history_of};
use crate::eval::{RuntimeError, SRuntimeError};
use crate::parser::{ParseError, ParseErrorKind, SParseError, SParseErrorKind};
use crate::session::{SessionStore, admin_authorized, cookie_lookup, s_admin_authorized, session_cookie, SESSION_COOKIE_NAME};
use crate::text::{decimal, push_decimal, push_str};
use crate::tick::{NodeRuntimeError, SNodeError};

verus! {

/// An error answer: an HTTP status, a short code and a message.
#[derive(Debug)]
pub struct ApiError {
    pub status: u16,
    pub code: &'static str,
    pub message: String,
}

/// The view of an error answer.
pub struct SApiError {
    pub status: u16,
    pub code: Seq<char>,
    pub message: Seq<char>,
}

impl View for ApiError {
    type V = SApiError;

    open spec fn view(&self) -> SApiError {
        SApiError { status: self.status, code: self.code@, message: self.message@ }
    }
}

impl ApiError {
    /// 401: the request lacks a valid session or admin token.
    pub fn unauthorized(message: String) -> (r: ApiError)
        ensures
            r@ == (SApiError { status: 401, code: "unauthorized"@, message: message@ }),
    {
        ApiError { status: 401, code: "unauthorized", message }
    }

    /// 403: the request may not touch the node.
    pub fn forbidden(message: String) -> (r: ApiError)
        ensures
            r@ == (SApiError { status: 403, code: "forbidden"@, message: message@ }),
    {
        ApiError { status: 403, code: "forbidden", message }
    }

    /// 404: there is no such node.
    pub fn not_found(message: String) -> (r: ApiError)
        ensures
            r@ == (SApiError { status: 404, code: "not_found"@, message: message@ }),
    {
        ApiError { status: 404, code: "not_found", message }
    }

    /// 500: the server failed.
    pub fn internal(message: String) -> (r: ApiError)
        ensures
            r@ == (SApiError { status: 500, code: "internal_error"@, message: message@ }),
    {
        ApiError { status: 500, code: "internal_error", message }
    }

    /// The answer to an engine error.
    pub fn from_engine_error(value: EngineError) -> (r: ApiError)
        ensures
            r@ == s_engine_error_answer(value@),
    {
        match value {
            EngineError::Parse(error) => ApiError {
                status: 400,
                code: "parse_error",
                message: format_parse_error(&error),
            },
            EngineError::Runtime(error) => ApiError {
                status: 400,
                code: "runtime_error",
                message: format_runtime_error(&error),
            },
            EngineError::InvalidUpdate(message) => ApiError { status: 400, code: "invalid_update", message },
            EngineError::Forbidden(message) => ApiError::forbidden(message),
        }
    }
}

// ---------------------------------------------------------------------------
// Messages.
// ---------------------------------------------------------------------------

/// What a parse error says, without its location.
pub open spec fn parse_kind_text(k: SParseErrorKind) -> Seq<char> {
    match k {
        SParseErrorKind::Message(m) => m,
        SParseErrorKind::UnexpectedToken => "unexpected token"@,
        SParseErrorKind::UnexpectedEnd => "unexpected end of input"@,
    }
}

/// "parse error on lines A..B: what"
pub open spec fn parse_error_text(e: SParseError) -> Seq<char> {
    "parse error on lines "@ + decimal(e.loc.line_range.start as nat) + ".."@ + decimal(
        e.loc.line_range.end as nat,
    ) + ": "@ + parse_kind_text(e.kind)
}

/// What a runtime error says, without its node and location.
pub open spec fn runtime_error_text(e: SRuntimeError) -> Seq<char> {
    match e {
        SRuntimeError::Type(m) => m,
        SRuntimeError::MissingVariable(n) => "missing variable `"@ + n + "`"@,
        SRuntimeError::MissingNode(n) => "missing node `"@ + n + "`"@,
        SRuntimeError::OutOfBounds => "out of bounds"@,
        SRuntimeError::DivisionByZero => "division by zero"@,
        SRuntimeError::InvalidReceiveTarget => "receive target must be a string"@,
    }
}

/// "node `id` failed on lines A..B: what"
pub open spec fn node_error_text(e: SNodeError) -> Seq<char> {
    "node `"@ + e.node_id + "` failed on lines "@ + decimal(e.loc.line_range.start as nat) + ".."@
        + decimal(e.loc.line_range.end as nat) + ": "@ + runtime_error_text(e.error)
}

/// The answer to an engine error: 400 with a code for each kind, 403 for a refusal.
pub open spec fn s_engine_error_answer(e: SEngineError) -> SApiError {
    match e {
        SEngineError::Parse(p) => SApiError { status: 400, code: "parse_error"@, message: parse_error_text(p) },
        SEngineError::Runtime(n) => SApiError { status: 400, code: "runtime_error"@, message: node_error_text(n) },
        SEngineError::InvalidUpdate(m) => SApiError { status: 400, code: "invalid_update"@, message: m },
        SEngineError::Forbidden(m) => SApiError { status: 403, code: "forbidden"@, message: m },
    }
}

/// The message of a parse error.
pub fn format_parse_error(error: &ParseError) -> (r: String)
    ensures
        r@ == parse_error_text(error@),
{
    let mut out = String::new();
    push_str(&mut out, "parse error on lines ");
    push_decimal(&mut out, error.loc.line_range.start as u64);
    push_str(&mut out, "..");
    push_decimal(&mut out, error.loc.line_range.end as u64);
    push_str(&mut out, ": ");
    match &error.kind {
        ParseErrorKind::Message(message) => push_str(&mut out, message.as_str()),
        ParseErrorKind::UnexpectedToken => push_str(&mut out, "unexpected token"),
        ParseErrorKind::UnexpectedEnd => push_str(&mut out, "unexpected end of input"),
    }
    assert(out@ =~= parse_error_text(error@));
    out
}

/// What a runtime error says.
pub fn describe_runtime_error(error: &RuntimeError) -> (r: String)
    ensures
        r@ == runtime_error_text(error@),
{
    let mut out = String::new();
    match error {
        RuntimeError::Type(message) => push_str(&mut out, message),
        RuntimeError::MissingVariable(name) => {
            push_str(&mut out, "missing variable `");
            push_str(&mut out, name.as_str());
            push_str(&mut out, "`");
        },
        RuntimeError::MissingNode(name) => {
            push_str(&mut out, "missing node `");
            push_str(&mut out, name.as_str());
            push_str(&mut out, "`");
        },
        RuntimeError::OutOfBounds => push_str(&mut out, "out of bounds"),
        RuntimeError::DivisionByZero => push_str(&mut out, "division by zero"),
        RuntimeError::InvalidReceiveTarget => push_str(&mut out, "receive target must be a string"),
    }
    assert(out@ =~= runtime_error_text(error@));
    out
}

/// The message of a node's runtime error.
pub fn format_runtime_error(error: &NodeRuntimeError) -> (r: String)
    ensures
        r@ == node_error_text(error@),
{
    let mut out = String::new();
    push_str(&mut out, "node `");
    push_str(&mut out, error.node_id.as_str());
    push_str(&mut out, "` failed on lines ");
    push_decimal(&mut out, error.loc.line_range.start as u64);
    push_str(&mut out, "..");
    push_decimal(&mut out, error.loc.line_range.end as u64);
    push_str(&mut out, ": ");
    let what = describe_runtime_error(&error.error);
    push_str(&mut out, what.as_str());
    assert(out@ =~= node_error_text(error@));
    out
}

/// The `Debug` rendering of a string: quoted, with `str::escape_debug` applied.
pub uninterp spec fn debug_text(s: Seq<char>) -> Seq<char>;

/// Renders a string as `Debug` does.
///
/// Trusted: calls `<str as Debug>::fmt` through `format!("{:?}")`; the result is named
/// `debug_text` of the string, and nothing more is claimed of it.
#[verifier::external_body]
fn debug_string(s: &str) -> (r: String)
    ensures
        r@ == debug_text(s@),
{
    format!("{:?}", s)
}

/// The text a runtime error carries, if any.
pub open spec fn runtime_error_payload(e: SRuntimeError) -> Seq<char> {
    match e {
        SRuntimeError::Type(m) => m,
        SRuntimeError::MissingVariable(n) => n,
        SRuntimeError::MissingNode(n) => n,
        _ => seq![],
    }
}

/// The `Debug` rendering of a runtime error whose text renders as `quoted`.
pub open spec fn runtime_error_debug_with(e: SRuntimeError, quoted: Seq<char>) -> Seq<char> {
    match e {
        SRuntimeError::Type(_) => "Type("@ + quoted + ")"@,
        SRuntimeError::MissingVariable(_) => "MissingVariable("@ + quoted + ")"@,
        SRuntimeError::MissingNode(_) => "MissingNode("@ + quoted + ")"@,
        SRuntimeError::OutOfBounds => "OutOfBounds"@,
        SRuntimeError::DivisionByZero => "DivisionByZero"@,
        SRuntimeError::InvalidReceiveTarget => "InvalidReceiveTarget"@,
    }
}

/// The `Debug` rendering of a runtime error.
pub open spec fn runtime_error_debug(e: SRuntimeError) -> Seq<char> {
    runtime_error_debug_with(e, debug_text(runtime_error_payload(e)))
}

/// The text a runtime error carries, if any.
pub fn runtime_error_payload_text(error: &RuntimeError) -> (r: &str)
    ensures
        r@ == runtime_error_payload(error@),
{
    match error {
        RuntimeError::Type(m) => m,
        RuntimeError::MissingVariable(n) => n.as_str(),
        RuntimeError::MissingNode(n) => n.as_str(),
        _ => {
            proof {
                reveal_strlit("");
            }
            ""
        },
    }
}

/// The `Debug` rendering of a runtime error, given the rendering of its text.
pub fn render_runtime_error_debug(error: &RuntimeError, quoted: &str) -> (r: String)
    ensures
        r@ == runtime_error_debug_with(error@, quoted@),
{
    let mut out = String::new();
    match error {
        RuntimeError::Type(_) => {
            push_str(&mut out, "Type(");
            push_str(&mut out, quoted);
            push_str(&mut out, ")");
        },
        RuntimeError::MissingVariable(_) => {
            push_str(&mut out, "MissingVariable(");
            push_str(&mut out, quoted);
            push_str(&mut out, ")");
        },
        RuntimeError::MissingNode(_) => {
            push_str(&mut out, "MissingNode(");
            push_str(&mut out, quoted);
            push_str(&mut out, ")");
        },
        RuntimeError::OutOfBounds => push_str(&mut out, "OutOfBounds"),
        RuntimeError::DivisionByZero => push_str(&mut out, "DivisionByZero"),
        RuntimeError::InvalidReceiveTarget => push_str(&mut out, "InvalidReceiveTarget"),
    }
    assert(out@ =~= runtime_error_debug_with(error@, quoted@));
    out
}

/// The `Debug` rendering of a runtime error.
pub fn runtime_error_debug_string(error: &RuntimeError) -> (r: String)
    ensures
        r@ == runtime_error_debug(error@),
{
    let quoted = debug_string(runtime_error_payload_text(error));
    render_runtime_error_debug(error, quoted.as_str())
}

impl ParseError {
    /// The text of the error as it is displayed.
    pub fn to_display_string(&self) -> (r: String)
        ensures
            r@ == parse_error_text(self@),
    {
        format_parse_error(self)
    }
}

impl NodeRuntimeError {
    /// The text of the error as it is displayed: the node, the lines, and the error's
    /// `Debug` rendering.
    pub fn to_display_string(&self) -> (r: String)
        ensures
            r@ == "node `"@ + self.node_id@ + "` failed on lines "@ + decimal(self.loc.line_range.start as nat)
                + ".."@ + decimal(self.loc.line_range.end as nat) + ": "@ + runtime_error_debug(self.error@),
    {
        let mut out = String::new();
        push_str(&mut out, "node `");
        push_str(&mut out, self.node_id.as_str());
        push_str(&mut out, "` failed on lines ");
        push_decimal(&mut out, self.loc.line_range.start as u64);
        push_str(&mut out, "..");
        push_decimal(&mut out, self.loc.line_range.end as u64);
        push_str(&mut out, ": ");
        let what = runtime_error_debug_string(&self.error);
        push_str(&mut out, what.as_str());
        out
    }
}

// ---------------------------------------------------------------------------
// Guards.
// ---------------------------------------------------------------------------

/// The session cookie of a request whose `Cookie` header is given as text, or `None`
/// when the header is missing or is not visible ASCII.
pub open spec fn request_cookie(cookie_header: Option<Seq<char>>) -> Option<Seq<char>> {
    match cookie_header {
        Some(h) => cookie_lookup(h, SESSION_COOKIE_NAME@),
        None => None,
    }
}

pub open spec fn opt_view(o: Option<&str>) -> Option<Seq<char>> {
    match o {
        Some(s) => Some(s@),
        None => None,
    }
}

/// The session of a request: its cookie, if the store issued it.
pub fn require_session(sessions: &SessionStore, cookie_header: Option<&str>) -> (r: Result<String, ApiError>)
    ensures
        match request_cookie(opt_view(cookie_header)) {
            None => r matches Err(e) && e@ == (SApiError {
                status: 401,
                code: "unauthorized"@,
                message: "missing session cookie; call POST /session first"@,
            }),
            Some(id) => if sessions@.issued.contains(id) {
                r matches Ok(s) && s@ == id
            } else {
                r matches Err(e) && e@ == (SApiError {
                    status: 401,
                    code: "unauthorized"@,
                    message: "invalid session cookie"@,
                })
            },
        },
{
    let session_id = match cookie_header {
        Some(h) => session_cookie(h),
        None => None,
    };
    match session_id {
        None => Err(ApiError::unauthorized("missing session cookie; call POST /session first".to_owned())),
        Some(id) => {
            if sessions.contains(id.as_str()) {
                Ok(id)
            } else {
                Err(ApiError::unauthorized("invalid session cookie".to_owned()))
            }
        },
    }
}

/// Whether a session cookie names a session of the store.
pub open spec fn reusable_session(issued: Set<Seq<char>>, cookie_header: Option<Seq<char>>) -> bool {
    request_cookie(cookie_header) matches Some(id) && issued.contains(id)
}

/// The session of a browser: the one its cookie names, if the store issued it, or a new
/// one. The flag tells whether a new one was issued (and a cookie must be set).
pub fn open_session(sessions: &mut SessionStore, cookie_header: Option<&str>) -> (r: (String, bool))
    requires
        old(sessions).wf(),
        reusable_session(old(sessions)@.issued, opt_view(cookie_header)) || old(sessions)@.next_id < u64::MAX,
    ensures
        final(sessions).wf(),
        if reusable_session(old(sessions)@.issued, opt_view(cookie_header)) {
            &&& !r.1
            &&& request_cookie(opt_view(cookie_header)) == Some(r.0@)
            &&& final(sessions)@ == old(sessions)@
        } else {
            &&& r.1
            &&& final(sessions)@.next_id == old(sessions)@.next_id + 1
            &&& r.0@ == crate::session::session_name(final(sessions)@.next_id as nat)
            &&& !old(sessions)@.issued.contains(r.0@)
            &&& final(sessions)@.issued == old(sessions)@.issued.insert(r.0@)
        },
{
    let existing = match cookie_header {
        Some(h) => session_cookie(h),
        None => None,
    };
    match existing {
        Some(id) => {
            if sessions.contains(id.as_str()) {
                return (id, false);
            }
        },
        None => {},
    }
    (sessions.issue(), true)
}

/// Checks the admin token of a request.
pub fn require_admin(authorization: Option<&str>, x_admin_token: Option<&str>, admin_token: &str) -> (r: Result<(), ApiError>)
    ensures
        if s_admin_authorized(opt_view(authorization), opt_view(x_admin_token), admin_token@) {
            r is Ok
        } else {
            r matches Err(e) && e@ == (SApiError {
                status: 401,
                code: "unauthorized"@,
                message: "missing or invalid admin token"@,
            })
        },
{
    if admin_authorized(authorization, x_admin_token, admin_token) {
        Ok(())
    } else {
        Err(ApiError::unauthorized("missing or invalid admin token".to_owned()))
    }
}

/// The recorded actions of a node, or 404 when it is not a node.
pub fn node_actions_response(engine: &Engine, node_id: String) -> (r: Result<NodeActionResponse, ApiError>)
    requires
        engine.wf(),
    ensures
        match r {
            Ok(resp) => engine@.world.registry.dom().contains(node_id@) && resp.node_id == node_id
                && actions_view(resp.actions@) == history_of(engine@.world.actions, node_id@),
            Err(e) => !engine@.world.registry.dom().contains(node_id@) && e@ == (SApiError {
                status: 404,
                code: "not_found"@,
                message: "node `"@ + node_id@ + "` does not exist"@,
            }),
        },
{
    match engine.node_actions(node_id.as_str()) {
        Some(actions) => Ok(NodeActionResponse { node_id, actions }),
        None => {
            let mut message = String::new();
            push_str(&mut message, "node `");
            push_str(&mut message, node_id.as_str());
            push_str(&mut message, "` does not exist");
            Err(ApiError::not_found(message))
        },
    }
}

} // verus!
