//! Which framing the gateway speaks to a server, and when it tries the other one.
use vstd::prelude::*;

use crate::config::StdioProtocol;
use crate::error::{error_text, AppError};
use crate::json::{json_member, json_member_of, json_string, json_string_of};
use crate::text::{
    ascii_lower_text, chars_of, contains_chars, has_infix, lower_chars,
};

verus! {

/// A framing that a connection actually speaks.
#[derive(Debug, Clone, Copy, PartialEq, Eq, Structural)]
pub enum NegotiatedStdioProtocol {
    ContentLength,
    JsonLines,
}

/// The other framing.
pub open spec fn other_protocol(p: NegotiatedStdioProtocol) -> NegotiatedStdioProtocol {
    match p {
        NegotiatedStdioProtocol::ContentLength => NegotiatedStdioProtocol::JsonLines,
        NegotiatedStdioProtocol::JsonLines => NegotiatedStdioProtocol::ContentLength,
    }
}

/// The other framing: the one to fall back to when this one fails.
pub fn alternate_protocol(protocol: NegotiatedStdioProtocol) -> (r: NegotiatedStdioProtocol)
    ensures
        r == other_protocol(protocol),
{
    match protocol {
        NegotiatedStdioProtocol::ContentLength => NegotiatedStdioProtocol::JsonLines,
        NegotiatedStdioProtocol::JsonLines => NegotiatedStdioProtocol::ContentLength,
    }
}

/// Falling back twice returns to the framing one started from, and a fallback never
/// keeps the framing.
pub proof fn lemma_alternate_involutive(p: NegotiatedStdioProtocol)
    ensures
        other_protocol(other_protocol(p)) == p,
        other_protocol(p) != p,
{
}

/// The label of a framing.
pub open spec fn protocol_label_text(p: NegotiatedStdioProtocol) -> Seq<char> {
    match p {
        NegotiatedStdioProtocol::ContentLength => "content-length"@,
        NegotiatedStdioProtocol::JsonLines => "json-lines"@,
    }
}

/// The label of a framing: `content-length` or `json-lines`.
pub fn protocol_label(protocol: NegotiatedStdioProtocol) -> (s: &'static str)
    ensures
        s@ == protocol_label_text(protocol),
{
    match protocol {
        NegotiatedStdioProtocol::ContentLength => "content-length",
        NegotiatedStdioProtocol::JsonLines => "json-lines",
    }
}

/// The configured framing that a negotiated framing is.
pub open spec fn as_configured(p: NegotiatedStdioProtocol) -> StdioProtocol {
    match p {
        NegotiatedStdioProtocol::ContentLength => StdioProtocol::ContentLength,
        NegotiatedStdioProtocol::JsonLines => StdioProtocol::JsonLines,
    }
}

impl From<NegotiatedStdioProtocol> for StdioProtocol {
    fn from(p: NegotiatedStdioProtocol) -> (r: StdioProtocol) {
        match p {
            NegotiatedStdioProtocol::ContentLength => StdioProtocol::ContentLength,
            NegotiatedStdioProtocol::JsonLines => StdioProtocol::JsonLines,
        }
    }
}

impl vstd::std_specs::convert::FromSpecImpl<NegotiatedStdioProtocol> for StdioProtocol {
    open spec fn obeys_from_spec() -> bool {
        true
    }

    open spec fn from_spec(p: NegotiatedStdioProtocol) -> StdioProtocol {
        as_configured(p)
    }
}

/// The framing a server is spoken to in: the one learned for it, if any, else the
/// configured one, where content-length stands for `Auto`.
pub open spec fn effective_protocol_spec(
    hint: Option<NegotiatedStdioProtocol>,
    configured: StdioProtocol,
) -> NegotiatedStdioProtocol {
    match hint {
        Some(p) => p,
        None => match configured {
            StdioProtocol::JsonLines => NegotiatedStdioProtocol::JsonLines,
            _ => NegotiatedStdioProtocol::ContentLength,
        },
    }
}

/// The framing a server is spoken to in: the one learned for it, if any, else the
/// configured one, where content-length stands for `Auto`.
pub fn effective_protocol(
    hint: Option<NegotiatedStdioProtocol>,
    configured: StdioProtocol,
) -> (p: NegotiatedStdioProtocol)
    ensures
        p == effective_protocol_spec(hint, configured),
{
    match hint {
        Some(p) => p,
        None => match configured {
            StdioProtocol::JsonLines => NegotiatedStdioProtocol::JsonLines,
            _ => NegotiatedStdioProtocol::ContentLength,
        },
    }
}

/// Whether a failure of any request, not only of `initialize`, may make the gateway
/// try the other framing: only for a server configured as `Auto` whose framing has
/// not been learned yet.
pub fn allow_any_request_protocol_fallback(configured: StdioProtocol, has_hint: bool) -> (b: bool)
    ensures
        b == (configured == StdioProtocol::Auto && !has_hint),
{
    configured == StdioProtocol::Auto && !has_hint
}

/// The phrases by which an error's text shows that the framing may be wrong.
pub open spec fn framing_failure_phrases() -> Seq<Seq<char>> {
    seq![
        "request timed out waiting for stdio response"@,
        "missing content-length header"@,
        "parse content-length header"@,
        "parse stdio json payload"@,
        "closed output while waiting for response"@,
    ]
}

/// Whether an error's text, folded to lower case, holds one of the phrases that show
/// that the framing may be wrong.
pub open spec fn suggests_framing_mismatch(e: AppError) -> bool {
    exists|i: int|
        0 <= i < framing_failure_phrases().len() && has_infix(
            ascii_lower_text(error_text(e)),
            #[trigger] framing_failure_phrases()[i],
        )
}

/// Whether the other framing is worth a try after `error`, for a request with the
/// method name `method` (if it has one).
pub open spec fn fallback_applies_spec(method: Option<Seq<char>>, error: AppError, allow_any_request: bool) -> bool {
    match method {
        None => false,
        Some(m) => (m == "initialize"@ || allow_any_request) && suggests_framing_mismatch(error),
    }
}

/// Whether the error's text shows that the framing may be wrong.
pub fn error_suggests_framing_mismatch(error: &AppError) -> (b: bool)
    ensures
        b == suggests_framing_mismatch(*error),
{
    let text = error.display_string();
    let lower = lower_chars(chars_of(text.as_str()).as_slice());
    let phrases: [&str; 5] = [
        "request timed out waiting for stdio response",
        "missing content-length header",
        "parse content-length header",
        "parse stdio json payload",
        "closed output while waiting for response",
    ];
    let mut i: usize = 0;
    while i < 5
        invariant
            i <= 5,
            lower@ == ascii_lower_text(error_text(*error)),
            forall|k: int| 0 <= k < 5 ==> (#[trigger] phrases@[k])@ == framing_failure_phrases()[k],
            forall|k: int| 0 <= k < i ==> !has_infix(lower@, #[trigger] framing_failure_phrases()[k]),
        decreases 5 - i,
    {
        let p = chars_of(phrases[i]);
        if contains_chars(lower.as_slice(), p.as_slice()) {
            assert(has_infix(lower@, framing_failure_phrases()[i as int]));
            return true;
        }
        i += 1;
    }
    false
}

/// Whether the other framing is worth a try after `error`, for a request with the
/// method name `method`: for an `initialize` request, or for any request where that
/// is allowed, and only where the error's text shows that the framing may be wrong.
pub fn fallback_applies(method: Option<&str>, error: &AppError, allow_any_request: bool) -> (b: bool)
    ensures
        b == fallback_applies_spec(
            match method {
                Some(m) => Some(m@),
                None => None,
            },
            *error,
            allow_any_request,
        ),
{
    match method {
        None => false,
        Some(m) => {
            let name = chars_of(m);
            let init = chars_of("initialize");
            (crate::text::chars_equal(name.as_slice(), init.as_slice()) || allow_any_request)
                && error_suggests_framing_mismatch(error)
        },
    }
}

/// Whether the other framing is worth a try after `error` for `request`: its method
/// is its `method` member where that is a JSON string, and `fallback_applies` decides.
pub fn should_attempt_protocol_fallback(
    request: &serde_json::Value,
    error: &AppError,
    allow_any_request_fallback: bool,
) -> (b: bool)
    ensures
        b == fallback_applies_spec(
            match json_member_of(*request, "method"@) {
                Some(m) => json_string_of(m),
                None => None,
            },
            *error,
            allow_any_request_fallback,
        ),
{
    let method = match json_member(request, "method") {
        Some(m) => json_string(&m),
        None => None,
    };
    match method {
        Some(name) => fallback_applies(Some(name.as_str()), error, allow_any_request_fallback),
        None => fallback_applies(None, error, allow_any_request_fallback),
    }
}

/// The name of a configured framing as the gateway's messages write it.
pub open spec fn protocol_debug_text(p: StdioProtocol) -> Seq<char> {
    match p {
        StdioProtocol::Auto => "Auto"@,
        StdioProtocol::ContentLength => "ContentLength"@,
        StdioProtocol::JsonLines => "JsonLines"@,
    }
}

fn protocol_debug_name(p: StdioProtocol) -> (s: &'static str)
    ensures
        s@ == protocol_debug_text(p),
{
    match p {
        StdioProtocol::Auto => "Auto",
        StdioProtocol::ContentLength => "ContentLength",
        StdioProtocol::JsonLines => "JsonLines",
    }
}

/// The text of the error for a request that failed in both framings.
pub open spec fn fallback_failed_text(
    configured: StdioProtocol,
    fallback: StdioProtocol,
    primary: AppError,
    second: AppError,
) -> Seq<char> {
    "protocol fallback failed (configured: "@ + protocol_debug_text(configured) + ", fallback: "@
        + protocol_debug_text(fallback) + "); original error: "@ + error_text(primary)
        + "; fallback error: "@ + error_text(second)
}

/// The error for a request that failed in the framing it was sent in and again in the
/// other one.
pub fn fallback_failed_error(
    configured: StdioProtocol,
    fallback: StdioProtocol,
    primary: &AppError,
    second: &AppError,
) -> (e: AppError)
    ensures
        e matches AppError::Upstream(m) && m@ == fallback_failed_text(
            configured,
            fallback,
            *primary,
            *second,
        ),
{
    let mut m = String::from_str("protocol fallback failed (configured: ");
    m.append(protocol_debug_name(configured));
    m.append(", fallback: ");
    m.append(protocol_debug_name(fallback));
    m.append("); original error: ");
    m.append(primary.display_string().as_str());
    m.append("; fallback error: ");
    m.append(second.display_string().as_str());
    AppError::Upstream(m)
}

/// The text of the error for an `initialize` that failed in both framings.
pub open spec fn init_fallback_failed_text(primary: AppError, second: AppError) -> Seq<char> {
    "protocol fallback failed; original error: "@ + error_text(primary) + "; fallback error: "@
        + error_text(second)
}

/// The error for an `initialize` that failed in the framing it was sent in and again
/// in the other one.
pub fn init_fallback_failed_error(primary: &AppError, second: &AppError) -> (e: AppError)
    ensures
        e matches AppError::Upstream(m) && m@ == init_fallback_failed_text(*primary, *second),
{
    let mut m = String::from_str("protocol fallback failed; original error: ");
    m.append(primary.display_string().as_str());
    m.append("; fallback error: ");
    m.append(second.display_string().as_str());
    AppError::Upstream(m)
}

} // verus!

verus! {

/// A learned framing always wins; without one the configured framing is used as it
/// is, content-length standing in for `Auto`.
pub proof fn lemma_configured_protocol_kept(configured: StdioProtocol, learned: NegotiatedStdioProtocol)
    ensures
        effective_protocol_spec(Some(learned), configured) == learned,
        configured == StdioProtocol::ContentLength ==> effective_protocol_spec(None, configured)
            == NegotiatedStdioProtocol::ContentLength,
        configured == StdioProtocol::JsonLines ==> effective_protocol_spec(None, configured)
            == NegotiatedStdioProtocol::JsonLines,
        configured == StdioProtocol::Auto ==> effective_protocol_spec(None, configured)
            == NegotiatedStdioProtocol::ContentLength,
{
}

/// An error suggests that the framing is wrong exactly when its text, folded to ASCII
/// lower case, holds one of these phrases: a request that timed out waiting for its
/// response, a missing or unreadable `Content-Length` header, a payload that is not
/// JSON, or a server that closed its output while a response was awaited.
pub proof fn lemma_framing_mismatch_phrases(e: AppError)
    ensures
        suggests_framing_mismatch(e) <==> {
            let t = ascii_lower_text(error_text(e));
            ||| has_infix(t, "request timed out waiting for stdio response"@)
            ||| has_infix(t, "missing content-length header"@)
            ||| has_infix(t, "parse content-length header"@)
            ||| has_infix(t, "parse stdio json payload"@)
            ||| has_infix(t, "closed output while waiting for response"@)
        },
{
    let t = ascii_lower_text(error_text(e));
    let ps = framing_failure_phrases();
    assert(ps[0] == "request timed out waiting for stdio response"@);
    assert(ps[1] == "missing content-length header"@);
    assert(ps[2] == "parse content-length header"@);
    assert(ps[3] == "parse stdio json payload"@);
    assert(ps[4] == "closed output while waiting for response"@);
    assert(ps.len() == 5);
    if has_infix(t, ps[0]) {
        assert(has_infix(t, ps[0]));
    }
    if has_infix(t, ps[1]) {
        assert(has_infix(t, ps[1]));
    }
    if has_infix(t, ps[2]) {
        assert(has_infix(t, ps[2]));
    }
    if has_infix(t, ps[3]) {
        assert(has_infix(t, ps[3]));
    }
    if has_infix(t, ps[4]) {
        assert(has_infix(t, ps[4]));
    }
}

} // verus!
