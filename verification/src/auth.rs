//! Bearer-token checks on the requests to the admin and the MCP surfaces.
use vstd::prelude::*;

use crate::config::{GatewayConfig, TokenScope};
use crate::error::{error_code, status_of, AppError, ErrorCode};
use crate::text::{chars_of, chars_equal, has_prefix, starts_with_chars};

verus! {

/// Whether a header byte is visible ASCII or a tab: the bytes that `HeaderValue::to_str`
/// of `http` accepts.
pub open spec fn is_visible_ascii(b: u8) -> bool {
    (32 <= b && b < 127) || b == 9
}

/// The text of an ASCII byte string.
pub open spec fn ascii_text(b: Seq<u8>) -> Seq<char> {
    b.map_values(|x: u8| x as char)
}

/// How a request fares against a bearer token.
pub enum BearerVerdict {
    Accepted,
    Refused(Seq<char>),
}

/// The verdict on a request whose `Authorization` header holds `header` (if it has
/// one) when the token `expected` is required (`enabled`): accepted when no token is
/// required or when the header is `Bearer ` and then exactly the token; else refused,
/// with the reason.
pub open spec fn bearer_verdict(header: Option<Seq<u8>>, enabled: bool, expected: Seq<char>) -> BearerVerdict {
    if !enabled {
        BearerVerdict::Accepted
    } else {
        match header {
            None => BearerVerdict::Refused("missing bearer token"@),
            Some(b) => if !(forall|i: int| 0 <= i < b.len() ==> is_visible_ascii(#[trigger] b[i])) {
                BearerVerdict::Refused("invalid authorization header"@)
            } else if !has_prefix(ascii_text(b), "Bearer "@) {
                BearerVerdict::Refused("invalid bearer format"@)
            } else if ascii_text(b).skip(7) == expected {
                BearerVerdict::Accepted
            } else {
                BearerVerdict::Refused("token mismatch"@)
            },
        }
    }
}

/// Whether a result is what a verdict asks for: success, or an `Unauthorized` error
/// with the reason.
pub open spec fn verdict_outcome(v: BearerVerdict, r: Result<(), AppError>) -> bool {
    match v {
        BearerVerdict::Accepted => r is Ok,
        BearerVerdict::Refused(m) => r matches Err(AppError::Unauthorized(e)) && e@ == m,
    }
}

fn header_text(b: &[u8]) -> (r: Option<Vec<char>>)
    ensures
        match r {
            Some(cs) => (forall|i: int| 0 <= i < b@.len() ==> is_visible_ascii(#[trigger] b@[i]))
                && cs@ == ascii_text(b@),
            None => !(forall|i: int| 0 <= i < b@.len() ==> is_visible_ascii(#[trigger] b@[i])),
        },
{
    let mut cs: Vec<char> = Vec::new();
    let mut i: usize = 0;
    while i < b.len()
        invariant
            i <= b@.len(),
            forall|j: int| 0 <= j < i ==> is_visible_ascii(#[trigger] b@[j]),
            cs@ == ascii_text(b@.take(i as int)),
        decreases b@.len() - i,
    {
        let x = b[i];
        if !((32 <= x && x < 127) || x == 9) {
            return None;
        }
        cs.push(x as char);
        assert(ascii_text(b@.take(i as int + 1)) =~= ascii_text(b@.take(i as int)).push(x as char));
        i += 1;
    }
    assert(b@.take(b@.len() as int) == b@);
    Some(cs)
}

/// Checks a request's `Authorization` header (its bytes, where it has one) against a
/// bearer token: nothing is checked when the token is not required; else the header
/// must be `Bearer ` and then exactly the token.
pub fn check_bearer(authorization: Option<&[u8]>, enabled: bool, expected_token: &str) -> (r: Result<
    (),
    AppError,
>)
    ensures
        verdict_outcome(
            bearer_verdict(
                match authorization {
                    Some(b) => Some(b@),
                    None => None,
                },
                enabled,
                expected_token@,
            ),
            r,
        ),
{
    proof {
        reveal_strlit("Bearer ");
    }
    if !enabled {
        return Ok(());
    }
    let raw = match authorization {
        None => return Err(AppError::Unauthorized(String::from_str("missing bearer token"))),
        Some(b) => b,
    };
    let text = match header_text(raw) {
        None => return Err(AppError::Unauthorized(String::from_str("invalid authorization header"))),
        Some(cs) => cs,
    };
    let prefix = chars_of("Bearer ");
    if !starts_with_chars(text.as_slice(), prefix.as_slice()) {
        return Err(AppError::Unauthorized(String::from_str("invalid bearer format")));
    }
    let token = crate::text::copy_range(text.as_slice(), 7, text.len());
    assert(token@ == ascii_text(raw@).skip(7));
    let expected = chars_of(expected_token);
    if chars_equal(token.as_slice(), expected.as_slice()) {
        Ok(())
    } else {
        Err(AppError::Unauthorized(String::from_str("token mismatch")))
    }
}

/// The token, and whether it is required, that guards the surface of `scope`.
pub open spec fn guard_of(cfg: crate::config::ConfigModel, scope: TokenScope) -> (bool, Seq<char>) {
    match scope {
        TokenScope::Admin => (cfg.admin_enabled, cfg.admin_token),
        TokenScope::Mcp => (cfg.mcp_enabled, cfg.mcp_token),
    }
}

/// A header value of `http`. Its content is opaque here.
#[verifier::external_type_specification]
#[verifier::external_body]
pub struct ExHeaderValue(axum::http::HeaderValue);

/// A map of HTTP headers of `http`. Its content is opaque here.
#[verifier::external_type_specification]
#[verifier::external_body]
#[verifier::reject_recursive_types(T)]
pub struct ExHeaderMap<T>(axum::http::HeaderMap<T>);

/// The bytes of the first `Authorization` header that `HeaderMap::get` finds in a map
/// of headers, if there is one.
pub uninterp spec fn authorization_bytes(headers: axum::http::HeaderMap) -> Option<Seq<u8>>;

/// `HeaderMap::get` of `http` for the `Authorization` header, with the value's bytes:
/// the bytes of the first `Authorization` header, if there is one. The contract claims
/// that they depend on the map alone.
#[verifier::external_body]
fn authorization_header(headers: &axum::http::HeaderMap) -> (r: Option<Vec<u8>>)
    ensures
        match r {
            Some(b) => authorization_bytes(*headers) == Some(b@),
            None => authorization_bytes(*headers) is None,
        },
{
    match headers.get(axum::http::header::AUTHORIZATION) {
        Some(value) => Some(value.as_bytes().to_vec()),
        None => None,
    }
}

/// Checks the `Authorization` header among a request's headers against a bearer token
/// (see `check_bearer`): the result is the verdict on that header, and when no token is
/// required the request passes.
pub fn enforce_bearer(headers: &axum::http::HeaderMap, enabled: bool, expected_token: &str) -> (r:
    Result<(), AppError>)
    ensures
        verdict_outcome(bearer_verdict(authorization_bytes(*headers), enabled, expected_token@), r),
        !enabled ==> r is Ok,
{
    let authorization = authorization_header(headers);
    match &authorization {
        Some(b) => check_bearer(Some(b.as_slice()), enabled, expected_token),
        None => check_bearer(None, enabled, expected_token),
    }
}

/// Checks a request to the admin surface (`Admin`) or the MCP surface (`Mcp`), given
/// its `Authorization` header's bytes, against the token the configuration sets for it.
pub fn authorize_request(cfg: &GatewayConfig, scope: TokenScope, authorization: Option<&[u8]>) -> (r:
    Result<(), AppError>)
    ensures
        verdict_outcome(
            bearer_verdict(
                match authorization {
                    Some(b) => Some(b@),
                    None => None,
                },
                guard_of(cfg@, scope).0,
                guard_of(cfg@, scope).1,
            ),
            r,
        ),
{
    match scope {
        TokenScope::Admin => check_bearer(
            authorization,
            cfg.security.admin.enabled,
            cfg.security.admin.token.as_str(),
        ),
        TokenScope::Mcp => check_bearer(
            authorization,
            cfg.security.mcp.enabled,
            cfg.security.mcp.token.as_str(),
        ),
    }
}

/// Where a token is required, a request whose header is visible ASCII is let through
/// exactly when the header reads `Bearer ` and then the token.
pub proof fn lemma_bearer_accepts_exactly(b: Seq<u8>, expected: Seq<char>)
    requires
        forall|i: int| 0 <= i < b.len() ==> is_visible_ascii(#[trigger] b[i]),
    ensures
        (bearer_verdict(Some(b), true, expected) == BearerVerdict::Accepted) <==> ascii_text(b)
            == "Bearer "@ + expected,
{
    reveal_strlit("Bearer ");
    let t = ascii_text(b);
    if t == "Bearer "@ + expected {
        assert(t.subrange(0, 7) =~= "Bearer "@);
        assert(t.skip(7) =~= expected);
    }
    if bearer_verdict(Some(b), true, expected) == BearerVerdict::Accepted {
        assert(t =~= t.subrange(0, 7) + t.skip(7));
    }
}

/// Every refused request is answered with the `Unauthorized` code and status 401.
pub proof fn lemma_refusal_is_unauthorized(
    header: Option<Seq<u8>>,
    enabled: bool,
    expected: Seq<char>,
    r: Result<(), AppError>,
)
    requires
        bearer_verdict(header, enabled, expected) is Refused,
        verdict_outcome(bearer_verdict(header, enabled, expected), r),
    ensures
        r matches Err(e) && error_code(e) == ErrorCode::Unauthorized && status_of(error_code(e))
            == 401,
{
}

} // verus!

verus! {

/// Each surface is guarded by its own configuration: the admin surface by the admin
/// token and flag, the MCP surface by the MCP token and flag. Where a surface requires
/// a token, a request whose header is visible ASCII passes exactly when the header
/// reads `Bearer ` and that surface's own token, and a request without the header is
/// refused; where it requires none, every request passes.
pub proof fn lemma_surface_uses_its_own_token(c: crate::config::ConfigModel, b: Seq<u8>)
    requires
        forall|i: int| 0 <= i < b.len() ==> is_visible_ascii(#[trigger] b[i]),
    ensures
        guard_of(c, TokenScope::Admin) == (c.admin_enabled, c.admin_token),
        guard_of(c, TokenScope::Mcp) == (c.mcp_enabled, c.mcp_token),
        (bearer_verdict(Some(b), guard_of(c, TokenScope::Mcp).0, guard_of(c, TokenScope::Mcp).1)
            == BearerVerdict::Accepted) <==> (!c.mcp_enabled || ascii_text(b) == "Bearer "@
            + c.mcp_token),
        (bearer_verdict(Some(b), guard_of(c, TokenScope::Admin).0, guard_of(c, TokenScope::Admin).1)
            == BearerVerdict::Accepted) <==> (!c.admin_enabled || ascii_text(b) == "Bearer "@
            + c.admin_token),
        (bearer_verdict(None, guard_of(c, TokenScope::Mcp).0, guard_of(c, TokenScope::Mcp).1)
            == BearerVerdict::Accepted) <==> !c.mcp_enabled,
        (bearer_verdict(None, guard_of(c, TokenScope::Admin).0, guard_of(c, TokenScope::Admin).1)
            == BearerVerdict::Accepted) <==> !c.admin_enabled,
{
    lemma_bearer_accepts_exactly(b, c.mcp_token);
    lemma_bearer_accepts_exactly(b, c.admin_token);
}

} // verus!
