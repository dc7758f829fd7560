use mcp_gateway::codec::{decode_payload, ReadState, ReadStep};
use mcp_gateway::config::{ServerConfig, StdioProtocol};
use mcp_gateway::error::AppError;
use mcp_gateway::manager::{
    plan_after_primary_failure, reuse_pooled, settle_fallback, settle_init_fallback, wait_first,
    wait_step, FallbackPlan, WaitStep,
};
use mcp_gateway::protocol::NegotiatedStdioProtocol;
use mcp_gateway::registry::NameMap;
use mcp_gateway::runtime::{pooled_signature, response_matches, server_signature};

fn pooled_server() -> ServerConfig {
    ServerConfig {
        name: "fs".to_string(),
        description: String::new(),
        command: "node".to_string(),
        args: vec!["srv.js".to_string()],
        cwd: String::new(),
        env: vec![],
        lifecycle: None,
        stdio_protocol: StdioProtocol::Auto,
        enabled: true,
    }
}

fn upstream_text(e: AppError) -> String {
    match e {
        AppError::Upstream(m) => m,
        other => panic!("not an upstream error: {:?}", other),
    }
}

#[test]
fn plan_gives_up_without_touching_hints() {
    let mut hints: NameMap<NegotiatedStdioProtocol> = NameMap::new();
    let plan = plan_after_primary_failure(
        &mut hints,
        "fs",
        NegotiatedStdioProtocol::ContentLength,
        true,
        false,
    );
    assert_eq!(plan, FallbackPlan::GiveUp);
    assert_eq!(hints.len(), 0);
}

#[test]
fn plan_records_other_framing_and_evicts_pooled() {
    let mut hints: NameMap<NegotiatedStdioProtocol> = NameMap::new();
    let plan = plan_after_primary_failure(
        &mut hints,
        "fs",
        NegotiatedStdioProtocol::ContentLength,
        true,
        true,
    );
    assert_eq!(
        plan,
        FallbackPlan::Retry { protocol: NegotiatedStdioProtocol::JsonLines, evict_first: true }
    );
    assert_eq!(hints.get("fs"), Some(&NegotiatedStdioProtocol::JsonLines));
    let plan = plan_after_primary_failure(
        &mut hints,
        "fs",
        NegotiatedStdioProtocol::JsonLines,
        false,
        true,
    );
    assert_eq!(
        plan,
        FallbackPlan::Retry { protocol: NegotiatedStdioProtocol::ContentLength, evict_first: false }
    );
    assert_eq!(hints.get("fs"), Some(&NegotiatedStdioProtocol::ContentLength));
}

#[test]
fn settled_success_keeps_learned_framing() {
    let mut hints: NameMap<NegotiatedStdioProtocol> = NameMap::new();
    hints.insert("fs".to_string(), NegotiatedStdioProtocol::JsonLines);
    let primary = AppError::Upstream("request timed out waiting for stdio response".to_string());
    let r = settle_fallback(
        &mut hints,
        "fs",
        &primary,
        NegotiatedStdioProtocol::ContentLength,
        Ok::<u32, AppError>(7),
    );
    assert_eq!(r.unwrap(), 7);
    assert_eq!(hints.get("fs"), Some(&NegotiatedStdioProtocol::JsonLines));
}

#[test]
fn settled_failure_forgets_framing_and_names_both_errors() {
    let mut hints: NameMap<NegotiatedStdioProtocol> = NameMap::new();
    hints.insert("fs".to_string(), NegotiatedStdioProtocol::JsonLines);
    hints.insert("git".to_string(), NegotiatedStdioProtocol::JsonLines);
    let primary = AppError::Upstream("a".to_string());
    let r = settle_fallback(
        &mut hints,
        "fs",
        &primary,
        NegotiatedStdioProtocol::ContentLength,
        Err::<u32, AppError>(AppError::Upstream("b".to_string())),
    );
    assert_eq!(
        upstream_text(r.unwrap_err()),
        "protocol fallback failed (configured: ContentLength, fallback: JsonLines); original error: upstream failed: a; fallback error: upstream failed: b"
    );
    assert!(hints.get("fs").is_none());
    assert_eq!(hints.get("git"), Some(&NegotiatedStdioProtocol::JsonLines));
}

#[test]
fn settled_initialize_failure_names_both_errors() {
    let mut hints: NameMap<NegotiatedStdioProtocol> = NameMap::new();
    hints.insert("fs".to_string(), NegotiatedStdioProtocol::ContentLength);
    let primary = AppError::Upstream("a".to_string());
    let r = settle_init_fallback(
        &mut hints,
        "fs",
        &primary,
        Err::<u32, AppError>(AppError::Upstream("b".to_string())),
    );
    assert_eq!(
        upstream_text(r.unwrap_err()),
        "protocol fallback failed; original error: upstream failed: a; fallback error: upstream failed: b"
    );
    assert_eq!(hints.len(), 0);
    let mut hints: NameMap<NegotiatedStdioProtocol> = NameMap::new();
    hints.insert("fs".to_string(), NegotiatedStdioProtocol::ContentLength);
    let r = settle_init_fallback(&mut hints, "fs", &primary, Ok::<u32, AppError>(3));
    assert_eq!(r.unwrap(), 3);
    assert_eq!(hints.len(), 1);
}

#[test]
fn pooled_process_reused_only_on_same_signature() {
    assert!(reuse_pooled(Some("a|b"), "a|b"));
    assert!(!reuse_pooled(Some("a|b"), "a|c"));
    assert!(!reuse_pooled(Some("a|b"), "a|b|"));
    assert!(!reuse_pooled(None, "a|b"));
}

#[test]
fn pooled_signature_names_the_framing() {
    let s = pooled_server();
    assert_eq!(
        pooled_signature(&s, NegotiatedStdioProtocol::JsonLines),
        "node|srv.js|||true|JsonLines"
    );
    assert_eq!(
        pooled_signature(&s, NegotiatedStdioProtocol::ContentLength),
        "node|srv.js|||true|ContentLength"
    );
    assert_eq!(server_signature(&s), "node|srv.js|||true|Auto");
}

#[test]
fn signature_differs_in_framing_and_enabled() {
    let a = pooled_server();
    let mut b = pooled_server();
    b.stdio_protocol = StdioProtocol::JsonLines;
    assert_ne!(server_signature(&a), server_signature(&b));
    let mut c = pooled_server();
    c.enabled = false;
    assert_ne!(server_signature(&a), server_signature(&c));
}

fn run_wait(matches: &[bool], max: u32) -> (Result<usize, String>, usize) {
    let mut step = wait_first(max);
    let mut reads = 0usize;
    loop {
        let iterations = match step {
            WaitStep::ReadNext(i) => i,
            WaitStep::Exhausted(e) => return (Err(upstream_text(e)), reads),
            WaitStep::Done => panic!("done before a read"),
        };
        let matched = matches[reads];
        reads += 1;
        step = wait_step(iterations, max, matched);
        if matches!(step, WaitStep::Done) {
            return (Ok(reads - 1), reads);
        }
    }
}

#[test]
fn wait_returns_first_matching_message() {
    assert_eq!(run_wait(&[false, false, true, true], 4), (Ok(2), 3));
    assert_eq!(run_wait(&[true], 1), (Ok(0), 1));
}

#[test]
fn wait_gives_up_after_budget() {
    let text = "exceeded max response wait iterations (3) waiting for stdio response".to_string();
    assert_eq!(run_wait(&[false, false, false, true], 3), (Err(text), 3));
    let none = "exceeded max response wait iterations (0) waiting for stdio response".to_string();
    assert_eq!(run_wait(&[], 0), (Err(none), 0));
}

#[test]
fn wait_steps_saturate() {
    assert!(matches!(wait_step(u32::MAX, u32::MAX, false), WaitStep::Exhausted(_)));
    assert!(matches!(wait_step(0, 2, false), WaitStep::ReadNext(1)));
    assert!(matches!(wait_step(1, 2, true), WaitStep::Done));
}

#[test]
fn response_without_id_never_matches() {
    let msg: serde_json::Value = serde_json::from_str(r#"{"method":"log"}"#).unwrap();
    assert!(!response_matches(&msg, &serde_json::Value::Null));
    let msg: serde_json::Value = serde_json::from_str(r#"{"id":1}"#).unwrap();
    assert!(response_matches(&msg, &serde_json::Value::from(1)));
}

#[test]
fn reader_hands_back_the_line_value() {
    let line: serde_json::Value = serde_json::from_str(r#"{"id":3,"result":{"ok":true}}"#).unwrap();
    match ReadState::Lines.step("  {\"id\":3,\"result\":{\"ok\":true}}\r\n", false) {
        ReadStep::Message(v) => assert_eq!(v, line),
        other => panic!("{:?}", other),
    }
}

#[test]
fn payload_errors_carry_parser_text() {
    match decode_payload(b"{nope") {
        Err(AppError::Json(m)) => assert!(!m.is_empty()),
        other => panic!("{:?}", other),
    }
    let v: serde_json::Value = serde_json::from_str(r#"[1,2]"#).unwrap();
    assert_eq!(decode_payload(b"[1,2]").unwrap(), v);
}

#[test]
fn cached_tools_unless_refresh() {
    let mut cache: NameMap<u32> = NameMap::new();
    cache.insert("fs".to_string(), 9);
    assert_eq!(mcp_gateway::manager::cached_tools(&cache, "fs", false), Some(&9));
    assert_eq!(mcp_gateway::manager::cached_tools(&cache, "fs", true), None);
    assert_eq!(mcp_gateway::manager::cached_tools(&cache, "git", false), None);
}

#[test]
fn notifications_expect_no_response() {
    let req: serde_json::Value =
        serde_json::from_str(r#"{"jsonrpc":"2.0","id":"r-1","method":"tools/list"}"#).unwrap();
    assert_eq!(
        mcp_gateway::manager::expected_response_id(&req),
        Some(serde_json::Value::String("r-1".to_string()))
    );
    let note: serde_json::Value =
        serde_json::from_str(r#"{"jsonrpc":"2.0","method":"notifications/initialized"}"#).unwrap();
    assert_eq!(mcp_gateway::manager::expected_response_id(&note), None);
}

#[test]
fn drained_values_are_one_per_name() {
    let mut m: NameMap<u32> = NameMap::new();
    m.insert("a".to_string(), 1);
    m.insert("b".to_string(), 2);
    m.insert("a".to_string(), 3);
    let mut vs = m.drain_values();
    vs.sort();
    assert_eq!(vs, vec![2, 3]);
    assert_eq!(m.len(), 0);
}

#[test]
fn request_ids_are_version_four_uuids() {
    for _ in 0..20 {
        let id = mcp_gateway::response::ok(()).request_id;
        let cs: Vec<char> = id.chars().collect();
        assert_eq!(cs.len(), 36);
        assert_eq!(cs[14], '4');
        assert!(matches!(cs[19], '8' | '9' | 'a' | 'b'));
        let (_, env) = mcp_gateway::response::err_response(AppError::Upstream("x".to_string()));
        let cs: Vec<char> = env.request_id.chars().collect();
        assert_eq!(cs[14], '4');
        assert!(matches!(cs[19], '8' | '9' | 'a' | 'b'));
    }
}

#[test]
fn signature_ignores_name_and_env_order() {
    let mut a = pooled_server();
    a.env = vec![("X".to_string(), "1".to_string()), ("Y".to_string(), "2".to_string())];
    let mut b = pooled_server();
    b.name = "other".to_string();
    b.env = vec![("Y".to_string(), "2".to_string()), ("X".to_string(), "1".to_string())];
    assert_eq!(server_signature(&a), server_signature(&b));
    assert_eq!(server_signature(&a), "node|srv.js||X=1\u{1e}Y=2|true|Auto");
}
