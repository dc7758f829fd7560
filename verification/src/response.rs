//! The envelope every API response comes in.
use vstd::prelude::*;

use crate::error::{error_code, error_message, map_status, status_of, AppError, ErrorCode};

verus! {

/// The error part of a failed response.
#[derive(Debug)]
pub struct ApiErrorBody {
    pub code: ErrorCode,
    pub message: String,
    pub details: Option<serde_json::Value>,
}

/// A response: `ok`, and either the data or the error, with the id of the request.
#[derive(Debug)]
pub struct ApiEnvelope<T> {
    pub ok: bool,
    pub data: Option<T>,
    pub error: Option<ApiErrorBody>,
    pub request_id: String,
}

/// Whether `c` is a lower-case hexadecimal digit.
pub open spec fn is_lower_hex(c: char) -> bool {
    let u = c as u32;
    (48 <= u <= 57) || (97 <= u <= 102)
}

/// The shape of a request id: a random (version 4, RFC 4122 variant) UUID in its
/// hyphenated lower-case form, 36 characters with `-` at positions 8, 13, 18 and 23
/// and hexadecimal digits elsewhere, the version digit `4` at position 14 and the
/// variant digit, one of `8`, `9`, `a` and `b`, at position 19.
pub open spec fn is_request_id_text(t: Seq<char>) -> bool {
    &&& t.len() == 36
    &&& forall|i: int|
        0 <= i < 36 ==> if i == 8 || i == 13 || i == 18 || i == 23 {
            t[i] == '-'
        } else {
            is_lower_hex(#[trigger] t[i])
        }
    &&& t[14] == '4'
    &&& (t[19] == '8' || t[19] == '9' || t[19] == 'a' || t[19] == 'b')
}

/// `uuid`'s `Uuid::new_v4`, written by its `Display`: a random UUID in hyphenated
/// lower-case form. The contract claims the form, with the version and variant digits
/// that `new_v4` sets by its masks and that `uuid`'s formatting code writes; the other
/// digits are chance.
#[verifier::external_body]
fn new_request_id() -> (id: String)
    ensures
        is_request_id_text(id@),
{
    uuid::Uuid::new_v4().to_string()
}

/// A successful response carrying `data`, under a fresh request id.
pub fn ok<T>(data: T) -> (r: ApiEnvelope<T>)
    ensures
        r.ok,
        r.data == Some(data),
        r.error is None,
        is_request_id_text(r.request_id@),
{
    ApiEnvelope { ok: true, data: Some(data), error: None, request_id: new_request_id() }
}

/// The status and the body that answer an error: the status of its code, and a failed
/// envelope with its code and message under a fresh request id.
pub fn err_response(error: AppError) -> (r: (u16, ApiEnvelope<serde_json::Value>))
    ensures
        r.0 == status_of(error_code(error)),
        !r.1.ok,
        r.1.data is None,
        r.1.error matches Some(body) && body.code == error_code(error) && body.message@
            == error_message(error) && body.details is None,
        is_request_id_text(r.1.request_id@),
{
    let code = error.code();
    let status = map_status(code);
    let payload = ApiEnvelope {
        ok: false,
        data: None,
        error: Some(ApiErrorBody { code, message: error.message(), details: None }),
        request_id: new_request_id(),
    };
    (status, payload)
}

/// Every error is answered with a status in the 4xx or 5xx ranges, and an error of
/// the caller's making (unauthorized, unknown, conflicting, invalid or malformed)
/// with a 4xx status.
pub proof fn lemma_error_statuses(e: AppError)
    ensures
        400 <= status_of(error_code(e)) < 600,
        (e is Unauthorized || e is NotFound || e is Conflict || e is Validation || e is BadRequest)
            <==> status_of(error_code(e)) < 500,
{
}

} // verus!
