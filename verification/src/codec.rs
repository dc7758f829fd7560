//! Framing of JSON-RPC messages on a server's standard input and output.
//!
//! Two framings exist: a `Content-Length: N` header, a blank line and `N` bytes of
//! JSON; or one JSON text per line. Reading alternates between reading a line and
//! deciding what it means; the decisions are the state machine `ReadState::step`,
//! and the caller performs the reads it asks for.
use vstd::prelude::*;

use crate::config::StdioProtocol;
use crate::error::AppError;
use crate::json::{
    encode_json, json_bytes_accepted, json_bytes_error, json_bytes_value, json_encoding,
    json_text_accepted, json_text_value, parse_json_bytes, parse_json_text,
};
use crate::text::{
    all_digits, ascii_lower, ascii_lower_text, chars_of, copy_range, decimal_text, has_prefix,
    is_digit, is_ws, lemma_decimal_roundtrip, lemma_decimal_text_value, lemma_trim_fixed,
    lower_chars, parse_usize_chars, parse_usize_text, push_decimal, starts_with_chars, trim,
    trim_chars, trim_end, trim_start,
};

verus! {

// ---------------------------------------------------------------------------
// The Content-Length header
// ---------------------------------------------------------------------------

/// The length field of a `Content-Length` header line, trimmed, where the line is
/// such a header (the name compared without regard to ASCII case).
pub open spec fn content_length_field(line: Seq<char>) -> Option<Seq<char>> {
    let lower = ascii_lower_text(line);
    if has_prefix(lower, "content-length:"@) {
        Some(trim(lower.skip("content-length:"@.len() as int)))
    } else {
        None
    }
}

/// The message of the error for a malformed `Content-Length` header.
pub open spec fn malformed_header_message(line: Seq<char>) -> Seq<char> {
    "parse Content-Length header: "@ + line
}

/// What `parse_content_length_header` owes for `line`: `Ok(None)` where the line is
/// no header, `Ok(Some(n))` where it is a header with length `n`, and an upstream
/// error where it is a header whose length is no `usize`.
pub open spec fn header_outcome(line: Seq<char>, r: Result<Option<usize>, AppError>) -> bool {
    match content_length_field(line) {
        None => r == Ok::<Option<usize>, AppError>(None),
        Some(t) => match parse_usize_text(t) {
            Some(n) => r == Ok::<Option<usize>, AppError>(Some(n)),
            None => r matches Err(AppError::Upstream(m)) && m@ == malformed_header_message(line),
        },
    }
}

/// Reads a `Content-Length` header line: `Ok(None)` where the line is no such header,
/// `Ok(Some(n))` for a header with length `n`, and an upstream error for a header
/// whose length is not a number.
pub fn parse_content_length_header(line: &str) -> (r: Result<Option<usize>, AppError>)
    ensures
        header_outcome(line@, r),
{
    let cs = chars_of(line);
    let lower = lower_chars(cs.as_slice());
    let name = chars_of("content-length:");
    if !starts_with_chars(lower.as_slice(), name.as_slice()) {
        return Ok(None);
    }
    let raw = copy_range(lower.as_slice(), name.len(), lower.len());
    assert(raw@ == ascii_lower_text(line@).skip("content-length:"@.len() as int));
    let field = trim_chars(raw.as_slice());
    match parse_usize_chars(field.as_slice()) {
        Some(n) => Ok(Some(n)),
        None => {
            let mut m = String::from_str("parse Content-Length header: ");
            m.append(line);
            Err(AppError::Upstream(m))
        },
    }
}

// ---------------------------------------------------------------------------
// Writing
// ---------------------------------------------------------------------------

/// The bytes of an ASCII text.
pub open spec fn ascii_bytes(s: Seq<char>) -> Seq<u8> {
    s.map_values(|c: char| c as u8)
}

/// The header line of a frame of `n` bytes, without its line ending.
pub open spec fn content_length_header_text(n: nat) -> Seq<char> {
    "Content-Length: "@ + decimal_text(n)
}

/// A message body framed for `protocol`: behind a `Content-Length` header and a blank
/// line (also for `Auto`), or followed by a newline.
pub open spec fn framed(body: Seq<u8>, protocol: StdioProtocol) -> Seq<u8> {
    match protocol {
        StdioProtocol::JsonLines => body.push(10u8),
        _ => ascii_bytes(content_length_header_text(body.len()) + "\r\n\r\n"@) + body,
    }
}

fn push_ascii(out: &mut Vec<u8>, cs: &[char])
    ensures
        final(out)@ == old(out)@ + ascii_bytes(cs@),
{
    let ghost start = out@;
    let mut i: usize = 0;
    while i < cs.len()
        invariant
            i <= cs@.len(),
            out@ == start + ascii_bytes(cs@.take(i as int)),
        decreases cs@.len() - i,
    {
        out.push(cs[i] as u8);
        assert(ascii_bytes(cs@.take(i as int + 1)) == ascii_bytes(cs@.take(i as int)).push(
            cs@[i as int] as u8,
        ));
        i += 1;
    }
    assert(cs@.take(cs@.len() as int) == cs@);
}

fn push_bytes(out: &mut Vec<u8>, bytes: &[u8])
    ensures
        final(out)@ == old(out)@ + bytes@,
{
    let ghost start = out@;
    let mut i: usize = 0;
    while i < bytes.len()
        invariant
            i <= bytes@.len(),
            out@ == start + bytes@.take(i as int),
        decreases bytes@.len() - i,
    {
        out.push(bytes[i]);
        assert(bytes@.take(i as int + 1) == bytes@.take(i as int).push(bytes@[i as int]));
        i += 1;
    }
    assert(bytes@.take(bytes@.len() as int) == bytes@);
}

/// Frames a message body for `protocol`.
pub fn frame_message(body: &[u8], protocol: &StdioProtocol) -> (out: Vec<u8>)
    ensures
        out@ == framed(body@, *protocol),
{
    let mut out: Vec<u8> = Vec::new();
    match protocol {
        StdioProtocol::JsonLines => {
            push_bytes(&mut out, body);
            out.push(10u8);
            assert(out@ == body@.push(10u8));
        },
        _ => {
            let mut header = chars_of("Content-Length: ");
            push_decimal(&mut header, body.len());
            let end = chars_of("\r\n\r\n");
            let mut i: usize = 0;
            let ghost h = header@;
            while i < end.len()
                invariant
                    i <= end@.len(),
                    header@ == h + end@.take(i as int),
                decreases end@.len() - i,
            {
                header.push(end[i]);
                assert(end@.take(i as int + 1) == end@.take(i as int).push(end@[i as int]));
                i += 1;
            }
            assert(end@.take(end@.len() as int) == end@);
            assert(header@ == content_length_header_text(body@.len()) + "\r\n\r\n"@);
            push_ascii(&mut out, header.as_slice());
            push_bytes(&mut out, body);
        },
    }
    out
}

/// Encodes a JSON message and frames it for `protocol`: the compact JSON text of the
/// message, framed. A JSON error would come where the message could not be encoded,
/// which no JSON value gives.
pub fn encode_message(message: &serde_json::Value, protocol: &StdioProtocol) -> (r: Result<
    Vec<u8>,
    AppError,
>)
    ensures
        r matches Ok(bytes) && bytes@ == framed(json_encoding(*message), *protocol),
{
    match encode_json(message) {
        Ok(body) => {
            let out = frame_message(body.as_slice(), protocol);
            Ok(out)
        },
        Err(e) => Err(AppError::Json(e)),
    }
}

/// Reads the body of a frame as JSON: the value it holds, or a JSON error with the
/// parser's message where it is not JSON.
pub fn decode_payload(body: &[u8]) -> (r: Result<serde_json::Value, AppError>)
    ensures
        r is Ok == json_bytes_accepted(body@),
        r matches Ok(v) ==> v == json_bytes_value(body@),
        r is Err ==> (r matches Err(AppError::Json(m)) && m@ == json_bytes_error(body@)),
{
    match parse_json_bytes(body) {
        Ok(v) => Ok(v),
        Err(e) => Err(AppError::Json(e)),
    }
}

// ---------------------------------------------------------------------------
// Reading
// ---------------------------------------------------------------------------

/// Where a reader stands.
#[derive(Debug, Clone, Copy, PartialEq, Eq)]
pub enum ReadState {
    /// Content-Length framing: reading header lines; the length, once a header gave it.
    Headers { declared: Option<usize> },
    /// JSON-lines framing: looking for a line that holds a message.
    Lines,
    /// JSON-lines framing that met a Content-Length header: skipping to the blank line.
    FrameHeaders { length: usize },
}

/// What the reader asks for next.
#[derive(Debug)]
pub enum ReadStep {
    /// Read another line, in the state given.
    Continue(ReadState),
    /// Read exactly this many bytes, and decode them as the message.
    ReadPayload(usize),
    /// This message was read.
    Message(serde_json::Value),
    /// Reading failed.
    Fail(AppError),
}

/// What a reader asks for next, with the text of a failure.
pub enum StepModel {
    Continue(ReadState),
    ReadPayload(usize),
    Message(serde_json::Value),
    Fail(Seq<char>),
}

/// The state a reader for `protocol` starts in.
pub open spec fn start_state(protocol: StdioProtocol) -> ReadState {
    match protocol {
        StdioProtocol::JsonLines => ReadState::Lines,
        _ => ReadState::Headers { declared: None },
    }
}

/// The message of the error for an output that ended before a message.
pub open spec fn closed_output_message() -> Seq<char> {
    "stdio process closed output while waiting for response"@
}

/// The message of the error for an output that ended among frame headers.
pub open spec fn closed_in_headers_message() -> Seq<char> {
    "stdio process closed output while reading Content-Length frame headers"@
}

/// What a reader does with the next line (`at_eof` where the output ended instead).
/// In Content-Length framing a header line records the length, the blank line after
/// it asks for the body, and a line that is JSON on its own is the message; in
/// JSON-lines framing a JSON line is the message and a Content-Length header starts
/// a frame. Other lines are skipped.
pub open spec fn step_model(state: ReadState, line: Seq<char>, at_eof: bool) -> StepModel {
    let t = trim(line);
    match state {
        ReadState::Headers { declared } => if at_eof {
            StepModel::Fail(closed_output_message())
        } else if t.len() == 0 {
            match declared {
                Some(n) => StepModel::ReadPayload(n),
                None => StepModel::Continue(state),
            }
        } else {
            match content_length_field(t) {
                Some(f) => match parse_usize_text(f) {
                    Some(n) => StepModel::Continue(ReadState::Headers { declared: Some(n) }),
                    None => StepModel::Fail(malformed_header_message(t)),
                },
                None => if json_text_accepted(t) {
                    StepModel::Message(json_text_value(t))
                } else {
                    StepModel::Continue(state)
                },
            }
        },
        ReadState::Lines => if at_eof {
            StepModel::Fail(closed_output_message())
        } else if t.len() == 0 {
            StepModel::Continue(state)
        } else if json_text_accepted(t) {
            StepModel::Message(json_text_value(t))
        } else {
            match content_length_field(t) {
                Some(f) => match parse_usize_text(f) {
                    Some(n) => StepModel::Continue(ReadState::FrameHeaders { length: n }),
                    None => StepModel::Fail(malformed_header_message(t)),
                },
                None => StepModel::Continue(state),
            }
        },
        ReadState::FrameHeaders { length } => if at_eof {
            StepModel::Fail(closed_in_headers_message())
        } else if t.len() == 0 {
            StepModel::ReadPayload(length)
        } else {
            StepModel::Continue(state)
        },
    }
}

/// Whether a step is what the model says, a failure by its text.
pub open spec fn step_matches(r: ReadStep, m: StepModel) -> bool {
    match m {
        StepModel::Continue(s) => r == ReadStep::Continue(s),
        StepModel::ReadPayload(n) => r == ReadStep::ReadPayload(n),
        StepModel::Message(v) => r == ReadStep::Message(v),
        StepModel::Fail(msg) => r matches ReadStep::Fail(AppError::Upstream(e)) && e@ == msg,
    }
}

fn upstream(text: &str) -> (e: AppError)
    ensures
        e matches AppError::Upstream(m) && m@ == text@,
{
    AppError::Upstream(String::from_str(text))
}

impl ReadState {
    /// The state a reader for `protocol` starts in.
    pub fn start(protocol: &StdioProtocol) -> (s: ReadState)
        ensures
            s == start_state(*protocol),
    {
        match protocol {
            StdioProtocol::JsonLines => ReadState::Lines,
            _ => ReadState::Headers { declared: None },
        }
    }

    /// Decides what the next line means: `line` as read, or `at_eof` where the
    /// output ended.
    pub fn step(self, line: &str, at_eof: bool) -> (r: ReadStep)
        ensures
            step_matches(r, step_model(self, line@, at_eof)),
    {
        let t = crate::text::trim_str(line);
        match self {
            ReadState::Headers { declared } => {
                if at_eof {
                    return ReadStep::Fail(
                        upstream("stdio process closed output while waiting for response"),
                    );
                }
                if t.as_str().is_empty() {
                    return match declared {
                        Some(n) => ReadStep::ReadPayload(n),
                        None => ReadStep::Continue(self),
                    };
                }
                match parse_content_length_header(t.as_str()) {
                    Err(e) => ReadStep::Fail(e),
                    Ok(Some(n)) => ReadStep::Continue(ReadState::Headers { declared: Some(n) }),
                    Ok(None) => match parse_json_text(t.as_str()) {
                        Some(v) => ReadStep::Message(v),
                        None => ReadStep::Continue(self),
                    },
                }
            },
            ReadState::Lines => {
                if at_eof {
                    return ReadStep::Fail(
                        upstream("stdio process closed output while waiting for response"),
                    );
                }
                if t.as_str().is_empty() {
                    return ReadStep::Continue(self);
                }
                match parse_json_text(t.as_str()) {
                    Some(v) => ReadStep::Message(v),
                    None => match parse_content_length_header(t.as_str()) {
                        Err(e) => ReadStep::Fail(e),
                        Ok(Some(n)) => ReadStep::Continue(ReadState::FrameHeaders { length: n }),
                        Ok(None) => ReadStep::Continue(self),
                    },
                }
            },
            ReadState::FrameHeaders { length } => {
                if at_eof {
                    return ReadStep::Fail(
                        upstream(
                            "stdio process closed output while reading Content-Length frame headers",
                        ),
                    );
                }
                if t.as_str().is_empty() {
                    ReadStep::ReadPayload(length)
                } else {
                    ReadStep::Continue(self)
                }
            },
        }
    }
}

} // verus!

verus! {

proof fn lemma_digits_not_ws(d: Seq<char>)
    requires
        all_digits(d),
    ensures
        forall|i: int| 0 <= i < d.len() ==> !is_ws(#[trigger] d[i]),
        ascii_lower_text(d) == d,
{
    assert forall|i: int| 0 <= i < d.len() implies !is_ws(#[trigger] d[i]) by {
        assert(is_digit(d[i]));
    }
    assert forall|i: int| 0 <= i < d.len() implies #[trigger] ascii_lower_text(d)[i] == d[i] by {
        assert(is_digit(d[i]));
    }
    assert(ascii_lower_text(d) =~= d);
}

proof fn lemma_trim_line_ending(x: Seq<char>)
    requires
        x.len() > 0,
        !is_ws(x[0]),
        !is_ws(x.last()),
    ensures
        trim(x + "\r\n"@) == x,
{
    reveal_strlit("\r\n");
    let l = x + "\r\n"@;
    assert(l[0] == x[0]);
    assert(trim_start(l) == l);
    assert(l.drop_last() == x + seq!['\r']);
    assert((x + seq!['\r']).drop_last() == x);
    assert(trim_end(l) == trim_end(x + seq!['\r']));
    assert(trim_end(x + seq!['\r']) == trim_end(x));
    lemma_trim_fixed(x);
}

/// The header line that `frame_message` writes for a body of `n` bytes, read back as a
/// line and trimmed, is a `Content-Length` header whose field is the decimal text of
/// `n`, and that field reads as `n`.
pub proof fn lemma_header_roundtrip(n: usize)
    ensures
        trim(content_length_header_text(n as nat) + "\r\n"@) == content_length_header_text(n as nat),
        content_length_field(content_length_header_text(n as nat)) == Some(decimal_text(n as nat)),
        parse_usize_text(decimal_text(n as nat)) == Some(n),
{
    reveal_strlit("Content-Length: ");
    reveal_strlit("content-length:");
    reveal_strlit("content-length: ");
    let d = decimal_text(n as nat);
    lemma_decimal_text_value(n as nat);
    lemma_decimal_roundtrip(n);
    lemma_digits_not_ws(d);
    let h = content_length_header_text(n as nat);
    assert(h.last() == d.last());
    assert(!is_ws(h[0]));
    lemma_trim_line_ending(h);
    let lower = ascii_lower_text(h);
    assert(h == "Content-Length: "@ + d);
    assert(lower =~= ascii_lower_text("Content-Length: "@) + ascii_lower_text(d));
    assert forall|i: int| 0 <= i < 16 implies #[trigger] ascii_lower_text("Content-Length: "@)[i]
        == "content-length: "@[i] by {
        assert(ascii_lower_text("Content-Length: "@)[i] == ascii_lower("Content-Length: "@[i]));
        if i == 0 {
            assert("Content-Length: "@[0] == 'C');
            assert(('C' as u32) + 32 == 'c' as u32);
        } else if i == 8 {
            assert("Content-Length: "@[8] == 'L');
            assert(('L' as u32) + 32 == 'l' as u32);
        } else {
            assert("Content-Length: "@[i] == "content-length: "@[i]);
        }
    }
    assert(ascii_lower_text("Content-Length: "@) =~= "content-length: "@);
    assert(lower.subrange(0, 15) =~= "content-length:"@);
    let rest = lower.skip(15);
    assert(rest =~= seq![' '] + d);
    assert(rest.drop_first() =~= d);
    assert(trim_start(rest) == trim_start(d));
    assert(trim_start(d) == d);
    lemma_trim_fixed(d);
}

/// A reader in Content-Length framing that reads the header line and the blank line
/// of a frame for a body of `n` bytes asks for exactly `n` bytes.
pub proof fn lemma_reader_reads_frame_header(n: usize)
    ensures
        step_model(
            ReadState::Headers { declared: None },
            content_length_header_text(n as nat) + "\r\n"@,
            false,
        ) == StepModel::Continue(ReadState::Headers { declared: Some(n) }),
        step_model(ReadState::Headers { declared: Some(n) }, "\r\n"@, false)
            == StepModel::ReadPayload(n),
{
    lemma_header_roundtrip(n);
    reveal_strlit("\r\n");
    assert(trim("\r\n"@).len() == 0) by {
        reveal_with_fuel(trim_start, 3);
        assert("\r\n"@.drop_first() =~= seq!['\n']);
        assert(seq!['\n'].drop_first() =~= Seq::<char>::empty());
    }
    let h = content_length_header_text(n as nat);
    assert(trim(h + "\r\n"@).len() != 0) by {
        lemma_decimal_text_value(n as nat);
    }
}

} // verus!

verus! {

/// In Content-Length framing the length a header declared is kept until the blank
/// line that ends the headers: a line that is not blank, not a `Content-Length`
/// header and not JSON on its own leaves the reader exactly where it was; a
/// `Content-Length` header with a length `n` declares `n`, whatever was declared
/// before; and a blank line after a declared length `n` asks for `n` bytes.
pub proof fn lemma_headers_keep_declared_length(
    declared: Option<usize>,
    line: Seq<char>,
    n: usize,
)
    ensures
        trim(line).len() > 0 && content_length_field(trim(line)) is None && !json_text_accepted(
            trim(line),
        ) ==> step_model(ReadState::Headers { declared }, line, false) == StepModel::Continue(
            ReadState::Headers { declared },
        ),
        trim(line).len() > 0 && (content_length_field(trim(line)) matches Some(f) && parse_usize_text(f)
            == Some(n)) ==> step_model(ReadState::Headers { declared }, line, false)
            == StepModel::Continue(ReadState::Headers { declared: Some(n) }),
        trim(line).len() == 0 ==> step_model(
            ReadState::Headers { declared: Some(n) },
            line,
            false,
        ) == StepModel::ReadPayload(n),
        trim(line).len() == 0 ==> step_model(ReadState::Headers { declared: None }, line, false)
            == StepModel::Continue(ReadState::Headers { declared: None }),
{
}

/// A JSON-lines reader that met a `Content-Length` header for `n` bytes skips every
/// further non-blank line, keeping `n`, and asks for `n` bytes at the blank line.
pub proof fn lemma_frame_headers_keep_length(length: usize, line: Seq<char>)
    ensures
        trim(line).len() > 0 ==> step_model(ReadState::FrameHeaders { length }, line, false)
            == StepModel::Continue(ReadState::FrameHeaders { length }),
        trim(line).len() == 0 ==> step_model(ReadState::FrameHeaders { length }, line, false)
            == StepModel::ReadPayload(length),
{
}

} // verus!
