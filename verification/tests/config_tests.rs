use mcp_gateway::config::{
    apply_runtime_overrides, generate_token, new_config_for_mode, normalize_config_in_place,
    normalize_path, rotate_token, GatewayConfig, LifecycleMode, RunMode, ServerConfig,
    StdioProtocol, TokenScope,
};
use mcp_gateway::error::AppError;
use mcp_gateway::validate::{validate_config, validate_path, SocketAddress};

fn loopback() -> Option<SocketAddress> {
    Some(SocketAddress::V4 { octets: [127, 0, 0, 1], port: 8765 })
}

fn server(name: &str, command: &str) -> ServerConfig {
    ServerConfig {
        name: name.to_string(),
        description: String::new(),
        command: command.to_string(),
        args: Vec::new(),
        cwd: String::new(),
        env: Vec::new(),
        lifecycle: None,
        stdio_protocol: StdioProtocol::Auto,
        enabled: true,
    }
}

fn validation_message(r: Result<(), AppError>) -> String {
    match r {
        Err(AppError::Validation(m)) => m,
        other => panic!("expected a validation error, got {:?}", other),
    }
}

#[test]
fn default_config_is_valid() {
    let mut cfg = GatewayConfig::default();
    cfg.security.admin.token = "abc".to_string();
    assert!(validate_config(&cfg, loopback()).is_ok());
}

#[test]
fn normalize_path_defaults() {
    let mut cfg = GatewayConfig::default();
    cfg.transport.streamable_http.base_path = "mcp/".to_string();
    normalize_config_in_place(&mut cfg);
    assert_eq!(cfg.transport.streamable_http.base_path, "/mcp");
    assert_eq!(cfg.version, 2);
}

#[test]
fn default_config_values() {
    let cfg = GatewayConfig::default();
    assert_eq!(cfg.version, 2);
    assert_eq!(cfg.listen, "127.0.0.1:8765");
    assert!(!cfg.allow_non_loopback);
    assert_eq!(cfg.mode, RunMode::Both);
    assert_eq!(cfg.api_prefix, "/api/v2");
    assert!(cfg.security.admin.enabled);
    assert!(!cfg.security.mcp.enabled);
    assert_eq!(cfg.transport.streamable_http.base_path, "/api/v2/mcp");
    assert_eq!(cfg.transport.sse.base_path, "/api/v2/sse");
    assert_eq!(cfg.defaults.lifecycle, LifecycleMode::Pooled);
    assert_eq!(cfg.defaults.idle_ttl_ms, 300_000);
    assert_eq!(cfg.defaults.request_timeout_ms, 60_000);
    assert_eq!(cfg.defaults.max_retries, 2);
    assert_eq!(cfg.defaults.max_response_wait_iterations, 100);
    assert!(cfg.servers.is_empty());
}

#[test]
fn normalize_path_cases() {
    assert_eq!(normalize_path("   ", "/api/v2/mcp"), "/api/v2/mcp");
    assert_eq!(normalize_path("", "/api/v2/sse"), "/api/v2/sse");
    assert_eq!(normalize_path("/x///", "/f"), "/x");
    assert_eq!(normalize_path("///", "/f"), "/");
    assert_eq!(normalize_path("  a/b  ", "/f"), "/a/b");
    assert_eq!(normalize_path("a /", "/f"), "/a ");
    assert_eq!(normalize_path("/a ", "/f"), "/a");
}

#[test]
fn normalization_trims_and_cleans_servers() {
    let mut cfg = GatewayConfig::default();
    cfg.listen = "  127.0.0.1:9000 \n".to_string();
    cfg.security.admin.token = "  secret\t".to_string();
    let mut s = server("  fs ", " npx ");
    s.description = "  Filesystem ".to_string();
    s.args = vec![" -y ".to_string(), "   ".to_string(), "pkg".to_string()];
    s.env = vec![
        (" A ".to_string(), " 1 ".to_string()),
        ("B".to_string(), "  ".to_string()),
        ("  ".to_string(), "x".to_string()),
        ("A".to_string(), "2".to_string()),
        ("C".to_string(), "3".to_string()),
    ];
    cfg.servers.push(s);
    normalize_config_in_place(&mut cfg);
    assert_eq!(cfg.listen, "127.0.0.1:9000");
    assert_eq!(cfg.security.admin.token, "secret");
    let s = &cfg.servers[0];
    assert_eq!(s.name, "fs");
    assert_eq!(s.description, "Filesystem");
    assert_eq!(s.command, "npx");
    assert_eq!(s.args, vec!["-y".to_string(), "pkg".to_string()]);
    assert_eq!(
        s.env,
        vec![("A".to_string(), "2".to_string()), ("C".to_string(), "3".to_string())]
    );
}

#[test]
fn normalization_is_idempotent_on_example() {
    let mut cfg = GatewayConfig::default();
    cfg.transport.sse.base_path = " sse/ ".to_string();
    let mut s = server(" a ", " b ");
    s.args = vec![" x ".to_string()];
    s.env = vec![(" K ".to_string(), " V ".to_string())];
    cfg.servers.push(s);
    normalize_config_in_place(&mut cfg);
    let once = format!("{:?}", cfg);
    normalize_config_in_place(&mut cfg);
    assert_eq!(format!("{:?}", cfg), once);
}

#[test]
fn normalization_not_idempotent_on_trailing_space_path() {
    let mut cfg = GatewayConfig::default();
    cfg.transport.streamable_http.base_path = "a /".to_string();
    normalize_config_in_place(&mut cfg);
    assert_eq!(cfg.transport.streamable_http.base_path, "/a ");
    normalize_config_in_place(&mut cfg);
    assert_eq!(cfg.transport.streamable_http.base_path, "/a");
}

#[test]
fn display_name_prefers_description() {
    let mut s = server("fs", "npx");
    assert_eq!(s.display_name(), "fs");
    s.description = "  \t".to_string();
    assert_eq!(s.display_name(), "fs");
    s.description = "Filesystem".to_string();
    assert_eq!(s.display_name(), "Filesystem");
}

#[test]
fn run_mode_display() {
    assert_eq!(RunMode::Extension.display_string(), "extension");
    assert_eq!(RunMode::General.display_string(), "general");
    assert_eq!(RunMode::Both.display_string(), "both");
    assert_eq!(RunMode::default(), RunMode::Both);
    assert_eq!(StdioProtocol::default(), StdioProtocol::Auto);
    assert_eq!(LifecycleMode::default(), LifecycleMode::Pooled);
}

#[test]
fn runtime_overrides_apply_then_normalize() {
    let mut cfg = GatewayConfig::default();
    apply_runtime_overrides(&mut cfg, Some(RunMode::General), Some(" 0.0.0.0:1 ".to_string()));
    assert_eq!(cfg.mode, RunMode::General);
    assert_eq!(cfg.listen, "0.0.0.0:1");
    let mut cfg = GatewayConfig::default();
    apply_runtime_overrides(&mut cfg, None, None);
    assert_eq!(cfg.mode, RunMode::Both);
    assert_eq!(cfg.listen, "127.0.0.1:8765");
}

#[test]
fn tokens_have_forty_alphanumerics() {
    let t = generate_token();
    assert_eq!(t.len(), 40);
    assert!(t.chars().all(|c| c.is_ascii_alphanumeric()));
    let mut cfg = GatewayConfig::default();
    let admin_before = cfg.security.admin.token.clone();
    let token = rotate_token(&mut cfg, TokenScope::Mcp);
    assert_eq!(cfg.security.mcp.token, token);
    assert_eq!(cfg.security.admin.token, admin_before);
    let token = rotate_token(&mut cfg, TokenScope::Admin);
    assert_eq!(cfg.security.admin.token, token);
}

#[test]
fn new_config_is_valid() {
    let cfg = new_config_for_mode(RunMode::Extension);
    assert_eq!(cfg.mode, RunMode::Extension);
    assert_eq!(cfg.security.admin.token.len(), 40);
    assert_eq!(cfg.security.mcp.token.len(), 40);
    assert_ne!(cfg.security.admin.token, cfg.security.mcp.token);
    assert!(validate_config(&cfg, loopback()).is_ok());
}

#[test]
fn validation_errors_in_order() {
    let mut cfg = GatewayConfig::default();
    cfg.security.admin.token = "abc".to_string();
    assert_eq!(
        validation_message(validate_config(&cfg, None)),
        "invalid listen address: 127.0.0.1:8765"
    );
    let public = Some(SocketAddress::V4 { octets: [10, 0, 0, 1], port: 80 });
    assert_eq!(
        validation_message(validate_config(&cfg, public)),
        "listen address must be loopback unless allowNonLoopback=true"
    );
    cfg.allow_non_loopback = true;
    assert!(validate_config(&cfg, public).is_ok());
    let v6_loopback = Some(SocketAddress::V6 { segments: [0, 0, 0, 0, 0, 0, 0, 1], port: 1 });
    cfg.allow_non_loopback = false;
    assert!(validate_config(&cfg, v6_loopback).is_ok());

    cfg.transport.sse.base_path = "sse".to_string();
    assert_eq!(
        validation_message(validate_config(&cfg, loopback())),
        "transport.sse.basePath must start with '/': sse"
    );
    cfg.transport.sse.base_path = "/s s".to_string();
    assert_eq!(
        validation_message(validate_config(&cfg, loopback())),
        "transport.sse.basePath cannot contain spaces: /s s"
    );
    cfg.transport.sse.base_path = "/sse".to_string();

    cfg.security.admin.token = "   ".to_string();
    assert_eq!(
        validation_message(validate_config(&cfg, loopback())),
        "security.admin.enabled=true requires non-empty security.admin.token"
    );
    cfg.security.admin.token = "abc".to_string();
    cfg.security.mcp.enabled = true;
    assert_eq!(
        validation_message(validate_config(&cfg, loopback())),
        "security.mcp.enabled=true requires non-empty security.mcp.token"
    );
    cfg.security.mcp.enabled = false;

    cfg.defaults.request_timeout_ms = 999;
    assert_eq!(
        validation_message(validate_config(&cfg, loopback())),
        "defaults.requestTimeoutMs must be >= 1000"
    );
    cfg.defaults.request_timeout_ms = 1000;
    cfg.defaults.idle_ttl_ms = 10;
    assert_eq!(
        validation_message(validate_config(&cfg, loopback())),
        "defaults.idleTtlMs must be >= 1000"
    );
    cfg.defaults.idle_ttl_ms = 1000;
    cfg.defaults.max_response_wait_iterations = 0;
    assert_eq!(
        validation_message(validate_config(&cfg, loopback())),
        "defaults.maxResponseWaitIterations must be >= 1"
    );
    cfg.defaults.max_response_wait_iterations = 1;
    assert!(validate_config(&cfg, loopback()).is_ok());
}

#[test]
fn validation_of_servers() {
    let mut cfg = GatewayConfig::default();
    cfg.security.admin.token = "abc".to_string();
    cfg.servers.push(server("a", "run"));
    cfg.servers.push(server(" ", "run"));
    assert_eq!(
        validation_message(validate_config(&cfg, loopback())),
        "server.name cannot be empty"
    );
    cfg.servers[1] = server("a", "run");
    assert_eq!(
        validation_message(validate_config(&cfg, loopback())),
        "duplicate server.name: a"
    );
    cfg.servers[1] = server("b", "  ");
    assert_eq!(
        validation_message(validate_config(&cfg, loopback())),
        "server.command cannot be empty for b"
    );
    cfg.servers[1] = server("b", "run");
    assert!(validate_config(&cfg, loopback()).is_ok());
}

#[test]
fn validate_path_messages() {
    assert!(validate_path("p", "/ok").is_ok());
    assert_eq!(validation_message(validate_path("p", "x")), "p must start with '/': x");
    assert_eq!(validation_message(validate_path("p", "")), "p must start with '/': ");
    assert_eq!(validation_message(validate_path("p", "/a b")), "p cannot contain spaces: /a b");
}
