//! The checks a configuration must pass before the gateway runs on it.
use vstd::prelude::*;

use crate::config::{
    default_model, lemma_fallback_paths_normal, lemma_token_is_trimmed, is_token_text,
    normalize_model, ConfigModel, GatewayConfig, RunMode, ServerConfig, ServerModel,
};
use crate::error::AppError;
use crate::text::{is_blank, is_blank_text};

verus! {

/// A parsed socket address: an IPv4 address and port, or an IPv6 address (its eight
/// 16-bit segments) and port.
#[derive(Debug, Clone, Copy, PartialEq, Eq)]
pub enum SocketAddress {
    V4 { octets: [u8; 4], port: u16 },
    V6 { segments: [u16; 8], port: u16 },
}

/// Whether an address is a loopback address: `127.0.0.0/8` for IPv4, `::1` for IPv6.
pub open spec fn is_loopback_address(a: SocketAddress) -> bool {
    match a {
        SocketAddress::V4 { octets, .. } => octets[0] == 127,
        SocketAddress::V6 { segments, .. } => {
            &&& segments[0] == 0
            &&& segments[1] == 0
            &&& segments[2] == 0
            &&& segments[3] == 0
            &&& segments[4] == 0
            &&& segments[5] == 0
            &&& segments[6] == 0
            &&& segments[7] == 1
        },
    }
}

impl SocketAddress {
    /// Whether this is a loopback address.
    pub fn is_loopback(&self) -> (b: bool)
        ensures
            b == is_loopback_address(*self),
    {
        match self {
            SocketAddress::V4 { octets, .. } => octets[0] == 127,
            SocketAddress::V6 { segments, .. } => segments[0] == 0 && segments[1] == 0
                && segments[2] == 0 && segments[3] == 0 && segments[4] == 0 && segments[5] == 0
                && segments[6] == 0 && segments[7] == 1,
        }
    }
}

/// What is wrong with a transport path, if anything: it must start with `/` and
/// hold no space.
pub open spec fn path_problem(name: Seq<char>, value: Seq<char>) -> Option<Seq<char>> {
    if !(value.len() > 0 && value[0] == '/') {
        Some(name + " must start with '/': "@ + value)
    } else if value.contains(' ') {
        Some(name + " cannot contain spaces: "@ + value)
    } else {
        None
    }
}

/// What is wrong with the server at `i`, given the servers before it.
pub open spec fn server_problem(servers: Seq<ServerModel>, i: int) -> Option<Seq<char>> {
    let s = servers[i];
    if is_blank_text(s.name) {
        Some("server.name cannot be empty"@)
    } else if exists|j: int| 0 <= j < i && (#[trigger] servers[j]).name == s.name {
        Some("duplicate server.name: "@ + s.name)
    } else if is_blank_text(s.command) {
        Some("server.command cannot be empty for "@ + s.name)
    } else {
        None
    }
}

/// The first problem among the first `n` servers, in order.
pub open spec fn servers_problem(servers: Seq<ServerModel>, n: int) -> Option<Seq<char>>
    decreases n,
{
    if n <= 0 {
        None
    } else {
        match servers_problem(servers, n - 1) {
            Some(m) => Some(m),
            None => server_problem(servers, n - 1),
        }
    }
}

/// The message of the first check that a configuration fails, where `listen_addr` is
/// its listen address parsed, or `None` where that does not parse; `None` when the
/// configuration passes every check.
pub open spec fn validation_problem(c: ConfigModel, listen_addr: Option<SocketAddress>) -> Option<
    Seq<char>,
> {
    match listen_addr {
        None => Some("invalid listen address: "@ + c.listen),
        Some(a) => if !c.allow_non_loopback && !is_loopback_address(a) {
            Some("listen address must be loopback unless allowNonLoopback=true"@)
        } else if path_problem("transport.streamableHttp.basePath"@, c.streamable_http_path) is Some {
            path_problem("transport.streamableHttp.basePath"@, c.streamable_http_path)
        } else if path_problem("transport.sse.basePath"@, c.sse_path) is Some {
            path_problem("transport.sse.basePath"@, c.sse_path)
        } else if c.admin_enabled && is_blank_text(c.admin_token) {
            Some("security.admin.enabled=true requires non-empty security.admin.token"@)
        } else if c.mcp_enabled && is_blank_text(c.mcp_token) {
            Some("security.mcp.enabled=true requires non-empty security.mcp.token"@)
        } else if c.defaults.request_timeout_ms < 1000 {
            Some("defaults.requestTimeoutMs must be >= 1000"@)
        } else if c.defaults.idle_ttl_ms < 1000 {
            Some("defaults.idleTtlMs must be >= 1000"@)
        } else if c.defaults.max_response_wait_iterations < 1 {
            Some("defaults.maxResponseWaitIterations must be >= 1"@)
        } else {
            servers_problem(c.servers, c.servers.len() as int)
        },
    }
}

/// The outcome that `validate_config` owes for a problem, or for none.
pub open spec fn validation_outcome(problem: Option<Seq<char>>, r: Result<(), AppError>) -> bool {
    match problem {
        None => r is Ok,
        Some(m) => r matches Err(AppError::Validation(e)) && e@ == m,
    }
}

fn text_with(a: &str, b: &str, c: &str) -> (s: String)
    ensures
        s@ == a@ + b@ + c@,
{
    let mut s = String::from_str(a);
    s.append(b);
    s.append(c);
    s
}

fn has_space(value: &str) -> (b: bool)
    ensures
        b == value@.contains(' '),
{
    let cs = crate::text::chars_of(value);
    let mut i: usize = 0;
    while i < cs.len()
        invariant
            i <= cs@.len(),
            cs@ == value@,
            forall|j: int| 0 <= j < i ==> cs@[j] != ' ',
        decreases cs@.len() - i,
    {
        if cs[i] == ' ' {
            return true;
        }
        i += 1;
    }
    false
}

/// Checks one transport path: it must start with `/` and hold no space.
pub fn validate_path(name: &str, value: &str) -> (r: Result<(), AppError>)
    ensures
        validation_outcome(path_problem(name@, value@), r),
{
    let cs = crate::text::chars_of(value);
    if !(cs.len() > 0 && cs[0] == '/') {
        return Err(AppError::Validation(text_with(name, " must start with '/': ", value)));
    }
    if has_space(value) {
        return Err(AppError::Validation(text_with(name, " cannot contain spaces: ", value)));
    }
    Ok(())
}

fn name_seen(names: &Vec<String>, name: &String) -> (b: bool)
    ensures
        b == exists|j: int| 0 <= j < names@.len() && (#[trigger] names@[j])@ == name@,
{
    let mut j: usize = 0;
    while j < names.len()
        invariant
            j <= names@.len(),
            forall|k: int| 0 <= k < j ==> (#[trigger] names@[k])@ != name@,
        decreases names@.len() - j,
    {
        if names[j] == *name {
            return true;
        }
        j += 1;
    }
    false
}

proof fn lemma_servers_problem_stable(servers: Seq<ServerModel>, k: int, n: int)
    requires
        0 <= k <= n,
        servers_problem(servers, k) is Some,
    ensures
        servers_problem(servers, n) == servers_problem(servers, k),
    decreases n - k,
{
    if k < n {
        lemma_servers_problem_stable(servers, k, n - 1);
    }
}

fn validate_servers(servers: &Vec<ServerConfig>) -> (r: Result<(), AppError>)
    ensures
        validation_outcome(
            servers_problem(
                servers@.map_values(|s: ServerConfig| s@),
                servers@.len() as int,
            ),
            r,
        ),
{
    let ghost models = servers@.map_values(|s: ServerConfig| s@);
    let mut names: Vec<String> = Vec::new();
    let mut i: usize = 0;
    while i < servers.len()
        invariant
            i <= servers@.len(),
            models == servers@.map_values(|s: ServerConfig| s@),
            servers_problem(models, i as int) is None,
            names@.len() == i,
            forall|k: int| 0 <= k < i ==> (#[trigger] names@[k])@ == models[k].name,
        decreases servers@.len() - i,
    {
        let server = &servers[i];
        assert(models[i as int] == server@);
        proof {
            if server_problem(models, i as int) is Some {
                lemma_servers_problem_stable(models, i + 1, servers@.len() as int);
            }
        }
        if is_blank(server.name.as_str()) {
            return Err(AppError::Validation(String::from_str("server.name cannot be empty")));
        }
        let seen = name_seen(&names, &server.name);
        proof {
            if seen {
                let j = choose|j: int| 0 <= j < names@.len() && (#[trigger] names@[j])@ == server.name@;
                assert(models[j].name == models[i as int].name);
            } else {
                assert forall|j: int| 0 <= j < i implies (#[trigger] models[j]).name != models[i as int].name by {
                    assert(names@[j]@ == models[j].name);
                }
            }
        }
        if seen {
            let mut m = String::from_str("duplicate server.name: ");
            m.append(server.name.as_str());
            return Err(AppError::Validation(m));
        }
        if is_blank(server.command.as_str()) {
            let mut m = String::from_str("server.command cannot be empty for ");
            m.append(server.name.as_str());
            return Err(AppError::Validation(m));
        }
        names.push(server.name.clone());
        i += 1;
    }
    Ok(())
}

/// Checks a configuration, given its listen address as parsed (`None` where it does
/// not parse as a socket address). Fails with a validation error naming the first
/// check that fails, in this order: the listen address parses; it is a loopback
/// address unless non-loopback addresses are allowed; each transport path starts with
/// `/` and holds no space; an enabled token is not blank; the request timeout and
/// the idle time are at least 1000 ms and the wait budget at least 1; and, server by
/// server, the name is not blank, not taken by an earlier server, and the command is
/// not blank.
pub fn validate_config(cfg: &GatewayConfig, listen_addr: Option<SocketAddress>) -> (r: Result<
    (),
    AppError,
>)
    ensures
        validation_outcome(validation_problem(cfg@, listen_addr), r),
{
    let addr = match listen_addr {
        None => {
            let mut m = String::from_str("invalid listen address: ");
            m.append(cfg.listen.as_str());
            return Err(AppError::Validation(m));
        },
        Some(a) => a,
    };
    if !cfg.allow_non_loopback && !addr.is_loopback() {
        return Err(
            AppError::Validation(
                String::from_str("listen address must be loopback unless allowNonLoopback=true"),
            ),
        );
    }
    validate_path(
        "transport.streamableHttp.basePath",
        cfg.transport.streamable_http.base_path.as_str(),
    )?;
    validate_path("transport.sse.basePath", cfg.transport.sse.base_path.as_str())?;
    if cfg.security.admin.enabled && is_blank(cfg.security.admin.token.as_str()) {
        return Err(
            AppError::Validation(
                String::from_str(
                    "security.admin.enabled=true requires non-empty security.admin.token",
                ),
            ),
        );
    }
    if cfg.security.mcp.enabled && is_blank(cfg.security.mcp.token.as_str()) {
        return Err(
            AppError::Validation(
                String::from_str("security.mcp.enabled=true requires non-empty security.mcp.token"),
            ),
        );
    }
    if cfg.defaults.request_timeout_ms < 1000 {
        return Err(
            AppError::Validation(String::from_str("defaults.requestTimeoutMs must be >= 1000")),
        );
    }
    if cfg.defaults.idle_ttl_ms < 1000 {
        return Err(AppError::Validation(String::from_str("defaults.idleTtlMs must be >= 1000")));
    }
    if cfg.defaults.max_response_wait_iterations < 1 {
        return Err(
            AppError::Validation(
                String::from_str("defaults.maxResponseWaitIterations must be >= 1"),
            ),
        );
    }
    validate_servers(&cfg.servers)
}

} // verus!

verus! {

proof fn lemma_default_paths_pass()
    ensures
        path_problem("transport.streamableHttp.basePath"@, "/api/v2/mcp"@) is None,
        path_problem("transport.sse.basePath"@, "/api/v2/sse"@) is None,
{
    reveal_strlit("/api/v2/mcp");
    reveal_strlit("/api/v2/sse");
    assert(!"/api/v2/mcp"@.contains(' '));
    assert(!"/api/v2/sse"@.contains(' '));
}

/// The default configuration passes validation once it has a non-blank admin token,
/// whatever loopback address it listens on.
pub proof fn lemma_default_config_valid(admin_token: Seq<char>, addr: SocketAddress)
    requires
        !is_blank_text(admin_token),
        is_loopback_address(addr),
    ensures
        validation_problem(ConfigModel { admin_token, ..default_model() }, Some(addr)) is None,
{
    lemma_default_paths_pass();
}

/// A configuration made for a run mode with fresh tokens passes validation, whatever
/// loopback address it listens on.
pub proof fn lemma_new_config_valid(
    mode: RunMode,
    admin_token: Seq<char>,
    mcp_token: Seq<char>,
    addr: SocketAddress,
)
    requires
        is_token_text(admin_token),
        is_token_text(mcp_token),
        is_loopback_address(addr),
    ensures
        validation_problem(
            normalize_model(ConfigModel { mode, admin_token, mcp_token, ..default_model() }),
            Some(addr),
        ) is None,
{
    let c = ConfigModel { mode, admin_token, mcp_token, ..default_model() };
    let n = normalize_model(c);
    lemma_token_is_trimmed(admin_token);
    lemma_token_is_trimmed(mcp_token);
    lemma_fallback_paths_normal();
    crate::config::lemma_normal_path_fixed("/api/v2/mcp"@, "/api/v2/mcp"@);
    crate::config::lemma_normal_path_fixed("/api/v2/sse"@, "/api/v2/sse"@);
    lemma_default_paths_pass();
    assert(n.admin_token == admin_token);
    assert(!is_blank_text(admin_token));
    assert(n.servers.len() == 0);
}

} // verus!

verus! {

/// An IPv4 address is a loopback address exactly when its first octet is 127, and an
/// IPv6 address exactly when it is `::1`. So where non-loopback addresses are not
/// allowed, every other listen address (the unspecified `0.0.0.0` and `::` too) is
/// refused, before any other check.
pub proof fn lemma_loopback_is_exact(c: ConfigModel, a: SocketAddress)
    ensures
        a matches SocketAddress::V4 { octets, .. } ==> (is_loopback_address(a) <==> octets[0]
            == 127),
        a matches SocketAddress::V6 { segments, .. } ==> (is_loopback_address(a) <==> forall|i: int|
            0 <= i < 8 ==> #[trigger] segments[i] == (if i == 7 {
                1u16
            } else {
                0u16
            })),
        !c.allow_non_loopback && (a matches SocketAddress::V4 { octets, .. } && octets[0] != 127)
            ==> validation_problem(c, Some(a)) == Some(
            "listen address must be loopback unless allowNonLoopback=true"@,
        ),
        !c.allow_non_loopback && (a matches SocketAddress::V6 { segments, .. } && exists|i: int|
            0 <= i < 8 && #[trigger] segments[i] != (if i == 7 {
                1u16
            } else {
                0u16
            })) ==> validation_problem(c, Some(a)) == Some(
            "listen address must be loopback unless allowNonLoopback=true"@,
        ),
{
    if let SocketAddress::V6 { segments, .. } = a {
        if is_loopback_address(a) {
            assert forall|i: int| 0 <= i < 8 implies #[trigger] segments[i] == (if i == 7 {
                1u16
            } else {
                0u16
            }) by {
                if i == 0 {
                } else if i == 1 {
                } else if i == 2 {
                } else if i == 3 {
                } else if i == 4 {
                } else if i == 5 {
                } else if i == 6 {
                } else {
                }
            }
        }
        if forall|i: int| 0 <= i < 8 ==> #[trigger] segments[i] == (if i == 7 {
            1u16
        } else {
            0u16
        }) {
            assert(segments[0] == 0 && segments[1] == 0 && segments[2] == 0 && segments[3] == 0);
            assert(segments[4] == 0 && segments[5] == 0 && segments[6] == 0 && segments[7] == 1);
        }
    }
}

} // verus!
