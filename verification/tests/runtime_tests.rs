use mcp_gateway::auth::{authorize_request, check_bearer, enforce_bearer};
use mcp_gateway::cli::{RunModeArg, TokenScopeArg};
use mcp_gateway::codec::{
    decode_payload, encode_message, frame_message, parse_content_length_header, ReadState,
    ReadStep,
};
use mcp_gateway::config::{GatewayConfig, RunMode, ServerConfig, StdioProtocol, TokenScope};
use mcp_gateway::error::{map_status, AppError, ErrorCode};
use mcp_gateway::protocol::{
    alternate_protocol, allow_any_request_protocol_fallback, effective_protocol,
    error_suggests_framing_mismatch, fallback_applies, fallback_failed_error,
    init_fallback_failed_error, protocol_label, should_attempt_protocol_fallback,
    NegotiatedStdioProtocol,
};
use mcp_gateway::registry::NameMap;
use mcp_gateway::response::{err_response, ok};
use mcp_gateway::runtime::{
    after_failed_attempt, max_attempts, protocol_for_server, resolve_command, response_matches,
    server_signature, stale_servers, wait_exhausted_error,
};
use mcp_gateway::stderr::StderrTail;
use mcp_gateway::text::{decimal_string, trim_str};

fn server(name: &str) -> ServerConfig {
    ServerConfig {
        name: name.to_string(),
        description: String::new(),
        command: "npx".to_string(),
        args: vec!["-y".to_string(), "pkg".to_string()],
        cwd: "/tmp".to_string(),
        env: vec![("B".to_string(), "2".to_string()), ("A".to_string(), "1".to_string())],
        lifecycle: None,
        stdio_protocol: StdioProtocol::Auto,
        enabled: true,
    }
}

fn upstream_message(e: AppError) -> String {
    match e {
        AppError::Upstream(m) => m,
        other => panic!("expected an upstream error, got {:?}", other),
    }
}

#[test]
fn parses_content_length_header_case_insensitive() {
    assert_eq!(parse_content_length_header("Content-Length: 42").expect("parse"), Some(42));
    assert_eq!(parse_content_length_header("content-length: 7").expect("parse"), Some(7));
}

#[test]
fn parses_non_header_as_none() {
    assert_eq!(parse_content_length_header("{\"jsonrpc\":\"2.0\"}").expect("parse"), None);
}

#[test]
fn content_length_header_edge_cases() {
    assert_eq!(parse_content_length_header("CONTENT-LENGTH:12").unwrap(), Some(12));
    assert_eq!(parse_content_length_header("Content-Length: +5").unwrap(), Some(5));
    assert_eq!(parse_content_length_header("Content-Length:   0  ").unwrap(), Some(0));
    assert_eq!(parse_content_length_header("Content-Type: x").unwrap(), None);
    let e = parse_content_length_header("Content-Length: abc").unwrap_err();
    assert_eq!(upstream_message(e), "parse Content-Length header: Content-Length: abc");
    assert!(parse_content_length_header("Content-Length: -1").is_err());
    assert!(parse_content_length_header("Content-Length:").is_err());
    assert!(parse_content_length_header("Content-Length: 99999999999999999999999").is_err());
}

#[test]
fn alternate_protocol_switches_between_supported_framings() {
    assert_eq!(
        alternate_protocol(NegotiatedStdioProtocol::ContentLength),
        NegotiatedStdioProtocol::JsonLines
    );
    assert_eq!(
        alternate_protocol(NegotiatedStdioProtocol::JsonLines),
        NegotiatedStdioProtocol::ContentLength
    );
}

#[test]
fn alternate_twice_returns() {
    for p in [NegotiatedStdioProtocol::ContentLength, NegotiatedStdioProtocol::JsonLines] {
        assert_eq!(alternate_protocol(alternate_protocol(p)), p);
    }
    assert_eq!(protocol_label(NegotiatedStdioProtocol::ContentLength), "content-length");
    assert_eq!(protocol_label(NegotiatedStdioProtocol::JsonLines), "json-lines");
    assert_eq!(StdioProtocol::from(NegotiatedStdioProtocol::JsonLines), StdioProtocol::JsonLines);
}

#[test]
fn resolves_npx_on_windows() {
    let resolved = resolve_command("npx", false);
    assert_eq!(resolved, "npx");
    assert_eq!(resolve_command("npx", true), "npx.cmd");
    assert_eq!(resolve_command("NPX", true), "npx.cmd");
    assert_eq!(resolve_command("node", true), "node");
}

#[test]
fn frames_messages() {
    let body = b"{\"a\":1}";
    let framed = frame_message(body, &StdioProtocol::ContentLength);
    assert_eq!(framed, b"Content-Length: 7\r\n\r\n{\"a\":1}".to_vec());
    let framed = frame_message(body, &StdioProtocol::Auto);
    assert_eq!(framed, b"Content-Length: 7\r\n\r\n{\"a\":1}".to_vec());
    let framed = frame_message(body, &StdioProtocol::JsonLines);
    assert_eq!(framed, b"{\"a\":1}\n".to_vec());
    let framed = frame_message(b"", &StdioProtocol::ContentLength);
    assert_eq!(framed, b"Content-Length: 0\r\n\r\n".to_vec());
}

#[test]
fn header_round_trip() {
    for n in [0usize, 7, 10, 1234567] {
        let body = vec![b'x'; n];
        let framed = frame_message(&body, &StdioProtocol::ContentLength);
        let text = String::from_utf8(framed).unwrap();
        let header_line = text.split("\r\n").next().unwrap();
        assert_eq!(parse_content_length_header(header_line).unwrap(), Some(n));
    }
    assert_eq!(decimal_string(0), "0");
    assert_eq!(decimal_string(1234567), "1234567");
}

#[test]
fn encodes_and_decodes_json() {
    let v = serde_json::Value::String("hi".to_string());
    let bytes = encode_message(&v, &StdioProtocol::JsonLines).unwrap();
    assert_eq!(bytes, b"\"hi\"\n".to_vec());
    let bytes = encode_message(&v, &StdioProtocol::ContentLength).unwrap();
    assert_eq!(bytes, b"Content-Length: 4\r\n\r\n\"hi\"".to_vec());
    assert_eq!(decode_payload(b"\"hi\"").unwrap(), v);
    assert!(matches!(decode_payload(b"{nope"), Err(AppError::Json(_))));
}

#[test]
fn content_length_reader_steps() {
    let s = ReadState::start(&StdioProtocol::ContentLength);
    assert_eq!(s, ReadState::Headers { declared: None });
    let s = match s.step("Content-Length: 5\r\n", false) {
        ReadStep::Continue(s) => s,
        other => panic!("{:?}", other),
    };
    assert_eq!(s, ReadState::Headers { declared: Some(5) });
    match s.step("\r\n", false) {
        ReadStep::ReadPayload(n) => assert_eq!(n, 5),
        other => panic!("{:?}", other),
    }
    match (ReadState::Headers { declared: None }).step("\r\n", false) {
        ReadStep::Continue(ReadState::Headers { declared: None }) => {}
        other => panic!("{:?}", other),
    }
    match (ReadState::Headers { declared: None }).step("{\"id\":1}\n", false) {
        ReadStep::Message(v) => assert_eq!(v["id"], 1),
        other => panic!("{:?}", other),
    }
    match (ReadState::Headers { declared: None }).step("noise\n", false) {
        ReadStep::Continue(_) => {}
        other => panic!("{:?}", other),
    }
    match (ReadState::Headers { declared: None }).step("", true) {
        ReadStep::Fail(e) => assert_eq!(
            upstream_message(e),
            "stdio process closed output while waiting for response"
        ),
        other => panic!("{:?}", other),
    }
    match (ReadState::Headers { declared: None }).step("Content-Length: x\n", false) {
        ReadStep::Fail(e) => assert_eq!(upstream_message(e), "parse Content-Length header: Content-Length: x"),
        other => panic!("{:?}", other),
    }
}

#[test]
fn json_lines_reader_steps() {
    let s = ReadState::start(&StdioProtocol::JsonLines);
    assert_eq!(s, ReadState::Lines);
    match s.step("{\"id\":2}\n", false) {
        ReadStep::Message(v) => assert_eq!(v["id"], 2),
        other => panic!("{:?}", other),
    }
    let s = match s.step("Content-Length: 3\r\n", false) {
        ReadStep::Continue(s) => s,
        other => panic!("{:?}", other),
    };
    assert_eq!(s, ReadState::FrameHeaders { length: 3 });
    match s.step("X-Other: 1\r\n", false) {
        ReadStep::Continue(ReadState::FrameHeaders { length: 3 }) => {}
        other => panic!("{:?}", other),
    }
    match s.step("\r\n", false) {
        ReadStep::ReadPayload(3) => {}
        other => panic!("{:?}", other),
    }
    match s.step("", true) {
        ReadStep::Fail(e) => assert_eq!(
            upstream_message(e),
            "stdio process closed output while reading Content-Length frame headers"
        ),
        other => panic!("{:?}", other),
    }
}

#[test]
fn fallback_decisions() {
    let timeout = AppError::Upstream("request timed out waiting for stdio response".to_string());
    let other = AppError::Upstream("boom".to_string());
    assert!(error_suggests_framing_mismatch(&timeout));
    assert!(!error_suggests_framing_mismatch(&other));
    let missing = AppError::Upstream("missing Content-Length header".to_string());
    assert!(error_suggests_framing_mismatch(&missing));
    assert!(fallback_applies(Some("initialize"), &timeout, false));
    assert!(!fallback_applies(Some("tools/list"), &timeout, false));
    assert!(fallback_applies(Some("tools/list"), &timeout, true));
    assert!(!fallback_applies(None, &timeout, true));
    assert!(!fallback_applies(Some("initialize"), &other, true));

    let init: serde_json::Value =
        serde_json::from_str(r#"{"jsonrpc":"2.0","id":1,"method":"initialize"}"#).unwrap();
    let list: serde_json::Value =
        serde_json::from_str(r#"{"jsonrpc":"2.0","id":2,"method":"tools/list"}"#).unwrap();
    let no_method: serde_json::Value = serde_json::from_str(r#"{"id":3}"#).unwrap();
    assert!(should_attempt_protocol_fallback(&init, &timeout, false));
    assert!(!should_attempt_protocol_fallback(&list, &timeout, false));
    assert!(should_attempt_protocol_fallback(&list, &timeout, true));
    assert!(!should_attempt_protocol_fallback(&no_method, &timeout, true));
    assert!(!should_attempt_protocol_fallback(&init, &other, true));
}

#[test]
fn effective_protocols_and_hints() {
    assert_eq!(effective_protocol(None, StdioProtocol::Auto), NegotiatedStdioProtocol::ContentLength);
    assert_eq!(effective_protocol(None, StdioProtocol::JsonLines), NegotiatedStdioProtocol::JsonLines);
    assert_eq!(
        effective_protocol(Some(NegotiatedStdioProtocol::JsonLines), StdioProtocol::ContentLength),
        NegotiatedStdioProtocol::JsonLines
    );
    assert!(allow_any_request_protocol_fallback(StdioProtocol::Auto, false));
    assert!(!allow_any_request_protocol_fallback(StdioProtocol::Auto, true));
    assert!(!allow_any_request_protocol_fallback(StdioProtocol::JsonLines, false));

    let mut hints: NameMap<NegotiatedStdioProtocol> = NameMap::new();
    let s = server("fs");
    assert_eq!(protocol_for_server(&hints, &s), NegotiatedStdioProtocol::ContentLength);
    assert_eq!(hints.insert("fs".to_string(), NegotiatedStdioProtocol::JsonLines), None);
    assert_eq!(protocol_for_server(&hints, &s), NegotiatedStdioProtocol::JsonLines);
    assert_eq!(protocol_for_server(&hints, &server("other")), NegotiatedStdioProtocol::ContentLength);
}

#[test]
fn name_map_reads_back_writes() {
    let mut m: NameMap<u32> = NameMap::new();
    assert_eq!(m.get("a"), None);
    assert_eq!(m.insert("a".to_string(), 1), None);
    assert_eq!(m.insert("b".to_string(), 2), None);
    assert_eq!(m.insert("a".to_string(), 3), Some(1));
    assert_eq!(m.get("a"), Some(&3));
    assert_eq!(m.get("b"), Some(&2));
    assert!(m.contains_key("b"));
    assert_eq!(m.remove("b"), Some(2));
    assert_eq!(m.remove("b"), None);
    assert!(!m.contains_key("b"));
    assert_eq!(m.names(), vec!["a".to_string()]);
    assert_eq!(m.len(), 1);
    let values = m.drain_values();
    assert_eq!(values, vec![3]);
    assert_eq!(m.get("a"), None);
    m.insert("c".to_string(), 4);
    m.clear();
    assert!(!m.contains_key("c"));
}

#[test]
fn retry_schedule() {
    assert_eq!(max_attempts(2), 3);
    assert_eq!(max_attempts(u32::MAX), u32::MAX);
    assert_eq!(after_failed_attempt(1, 3), Some(100));
    assert_eq!(after_failed_attempt(2, 3), Some(200));
    assert_eq!(after_failed_attempt(3, 3), None);
}

#[test]
fn wait_budget_error_text() {
    assert_eq!(
        upstream_message(wait_exhausted_error(100)),
        "exceeded max response wait iterations (100) waiting for stdio response"
    );
}

#[test]
fn response_id_matching() {
    let msg: serde_json::Value = serde_json::from_str(r#"{"id":"init-1","result":{}}"#).unwrap();
    let id = serde_json::Value::String("init-1".to_string());
    let other = serde_json::Value::String("init-2".to_string());
    assert!(response_matches(&msg, &id));
    assert!(!response_matches(&msg, &other));
}

#[test]
fn stale_selection() {
    let idle = vec![("a".to_string(), 10u64), ("b".to_string(), 1000), ("c".to_string(), 999)];
    assert_eq!(stale_servers(&idle, 999), vec!["b".to_string(), "c".to_string()]);
    assert!(stale_servers(&idle, 5000).is_empty());
}

#[test]
fn signature_is_stable_under_env_order() {
    let a = server("fs");
    let mut b = server("fs");
    b.env.reverse();
    assert_eq!(server_signature(&a), server_signature(&b));
    assert_eq!(server_signature(&a), "npx|-y\u{1f}pkg|/tmp|A=1\u{1e}B=2|true|Auto");
    let mut c = server("fs");
    c.enabled = false;
    assert_ne!(server_signature(&a), server_signature(&c));
}

#[test]
fn bearer_checks() {
    assert!(check_bearer(None, false, "t").is_ok());
    let refuse = |r: Result<(), AppError>| match r {
        Err(AppError::Unauthorized(m)) => m,
        other => panic!("{:?}", other),
    };
    assert_eq!(refuse(check_bearer(None, true, "t")), "missing bearer token");
    assert_eq!(refuse(check_bearer(Some(b"Bearer t\x01"), true, "t")), "invalid authorization header");
    assert_eq!(refuse(check_bearer(Some(b"Basic t"), true, "t")), "invalid bearer format");
    assert_eq!(refuse(check_bearer(Some(b"Bearer u"), true, "t")), "token mismatch");
    assert!(check_bearer(Some(b"Bearer t"), true, "t").is_ok());
    assert!(check_bearer(Some(b"Bearer\tt"), true, "t").is_err());

    let mut cfg = GatewayConfig::default();
    cfg.security.admin.token = "adm".to_string();
    assert!(authorize_request(&cfg, TokenScope::Admin, Some(b"Bearer adm")).is_ok());
    assert!(authorize_request(&cfg, TokenScope::Admin, None).is_err());
    assert!(authorize_request(&cfg, TokenScope::Mcp, None).is_ok());
}

#[test]
fn bearer_checks_on_header_maps() {
    let mut headers = axum::http::HeaderMap::new();
    assert!(enforce_bearer(&headers, false, "t").is_ok());
    assert!(matches!(
        enforce_bearer(&headers, true, "t"),
        Err(AppError::Unauthorized(m)) if m == "missing bearer token"
    ));
    headers.insert(
        axum::http::header::AUTHORIZATION,
        axum::http::HeaderValue::from_static("Bearer t"),
    );
    assert!(enforce_bearer(&headers, true, "t").is_ok());
    assert!(matches!(
        enforce_bearer(&headers, true, "u"),
        Err(AppError::Unauthorized(m)) if m == "token mismatch"
    ));
}

#[test]
fn errors_codes_statuses_and_text() {
    let e = AppError::Validation("bad".to_string());
    assert_eq!(e.code(), ErrorCode::ValidationFailed);
    assert_eq!(e.message(), "bad");
    assert_eq!(e.display_string(), "validation failed: bad");
    assert_eq!(AppError::Io("disk".to_string()).code(), ErrorCode::Internal);
    assert_eq!(AppError::Json("x".to_string()).display_string(), "JSON parse error: x");
    assert_eq!(map_status(ErrorCode::Unauthorized), 401);
    assert_eq!(map_status(ErrorCode::NotFound), 404);
    assert_eq!(map_status(ErrorCode::Conflict), 409);
    assert_eq!(map_status(ErrorCode::ValidationFailed), 400);
    assert_eq!(map_status(ErrorCode::BadRequest), 400);
    assert_eq!(map_status(ErrorCode::UpstreamFailed), 502);
    assert_eq!(map_status(ErrorCode::Internal), 500);
    let primary = AppError::Upstream("a".to_string());
    let second = AppError::Upstream("b".to_string());
    assert_eq!(
        upstream_message(fallback_failed_error(StdioProtocol::ContentLength, StdioProtocol::JsonLines, &primary, &second)),
        "protocol fallback failed (configured: ContentLength, fallback: JsonLines); original error: upstream failed: a; fallback error: upstream failed: b"
    );
    assert_eq!(
        upstream_message(init_fallback_failed_error(&primary, &second)),
        "protocol fallback failed; original error: upstream failed: a; fallback error: upstream failed: b"
    );
}

#[test]
fn response_envelopes() {
    let r = ok(5u32);
    assert!(r.ok);
    assert_eq!(r.data, Some(5));
    assert!(r.error.is_none());
    assert_eq!(r.request_id.len(), 36);
    let (status, env) = err_response(AppError::NotFound("x".to_string()));
    assert_eq!(status, 404);
    assert!(!env.ok);
    let body = env.error.unwrap();
    assert_eq!(body.code, ErrorCode::NotFound);
    assert_eq!(body.message, "x");
    assert_eq!(env.request_id.chars().nth(8), Some('-'));
}

#[test]
fn cli_arguments_convert() {
    assert_eq!(RunMode::from(RunModeArg::Extension), RunMode::Extension);
    assert_eq!(RunMode::from(RunModeArg::General), RunMode::General);
    assert_eq!(RunMode::from(RunModeArg::Both), RunMode::Both);
    assert_eq!(TokenScope::from(TokenScopeArg::Admin), TokenScope::Admin);
    assert_eq!(TokenScope::from(TokenScopeArg::Mcp), TokenScope::Mcp);
}

#[test]
fn stderr_tail_keeps_last_lines() {
    let mut t = StderrTail::new();
    t.record("  first  ");
    t.record("   ");
    t.record("second\n");
    assert_eq!(t.len(), 2);
    assert_eq!(t.snapshot(), "first\nsecond");
    for i in 0..100 {
        t.record(&format!("line {}", i));
    }
    assert_eq!(t.len(), 80);
    assert!(t.snapshot().starts_with("line 20\n"));
    assert!(t.snapshot().ends_with("line 99"));
}

#[test]
fn trims_unicode_whitespace() {
    assert_eq!(trim_str("\u{3000} a b \u{2028}"), "a b");
    assert_eq!(trim_str("\t\n"), "");
}
