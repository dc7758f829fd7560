//! The gateway's configuration: its data, its defaults, and its normalization.
use vstd::prelude::*;

use rand::distributions::DistString;

use crate::text::{
    chars_of, is_blank, is_blank_text, is_ws, lemma_trim_fixed, lemma_trim_idempotent, string_of, trim,
    trim_chars, trim_str,
};

verus! {

// ---------------------------------------------------------------------------
// Data
// ---------------------------------------------------------------------------

/// Which API surfaces the gateway serves.
#[derive(Debug, Clone, Copy, PartialEq, Eq, Structural)]
pub enum RunMode {
    Extension,
    General,
    Both,
}

/// Whether a server's process is kept between requests or started for each one.
#[derive(Debug, Clone, Copy, PartialEq, Eq, Structural)]
pub enum LifecycleMode {
    Pooled,
    PerRequest,
}

/// How messages are framed on a server's standard input and output.
#[derive(Debug, Clone, Copy, PartialEq, Eq, Structural)]
pub enum StdioProtocol {
    Auto,
    ContentLength,
    JsonLines,
}

/// Which of the two bearer tokens an operation concerns.
#[derive(Debug, Clone, Copy, PartialEq, Eq, Structural)]
pub enum TokenScope {
    Admin,
    Mcp,
}

/// A bearer token and whether it is required.
#[derive(Debug, Clone)]
pub struct TokenConfig {
    pub enabled: bool,
    pub token: String,
}

/// The tokens of the MCP and the admin surfaces.
#[derive(Debug, Clone)]
pub struct SecurityConfig {
    pub mcp: TokenConfig,
    pub admin: TokenConfig,
}

/// The base path of one transport.
#[derive(Debug, Clone)]
pub struct TransportPath {
    pub base_path: String,
}

/// The base paths of the streamable HTTP and the SSE transports.
#[derive(Debug, Clone)]
pub struct TransportConfig {
    pub streamable_http: TransportPath,
    pub sse: TransportPath,
}

/// Limits and modes that apply to every server unless it says otherwise.
#[derive(Debug, Clone, Copy, PartialEq, Eq, Structural)]
pub struct DefaultsConfig {
    pub lifecycle: LifecycleMode,
    pub idle_ttl_ms: u64,
    pub request_timeout_ms: u64,
    pub max_retries: u32,
    pub max_response_wait_iterations: u32,
}

/// One MCP server that the gateway starts as a child process. `env` holds the
/// variables of its environment as name and value pairs; in a well-formed server
/// (`server_wf`, which normalization gives) each name occurs once.
#[derive(Debug, Clone)]
pub struct ServerConfig {
    pub name: String,
    pub description: String,
    pub command: String,
    pub args: Vec<String>,
    pub cwd: String,
    pub env: Vec<(String, String)>,
    pub lifecycle: Option<LifecycleMode>,
    pub stdio_protocol: StdioProtocol,
    pub enabled: bool,
}

/// The whole configuration of the gateway.
#[derive(Debug, Clone)]
pub struct GatewayConfig {
    pub version: u32,
    pub listen: String,
    pub allow_non_loopback: bool,
    pub mode: RunMode,
    pub api_prefix: String,
    pub security: SecurityConfig,
    pub transport: TransportConfig,
    pub defaults: DefaultsConfig,
    pub servers: Vec<ServerConfig>,
}

// ---------------------------------------------------------------------------
// Models
// ---------------------------------------------------------------------------

/// The mathematical content of a `ServerConfig`.
#[verifier::ext_equal]
pub struct ServerModel {
    pub name: Seq<char>,
    pub description: Seq<char>,
    pub command: Seq<char>,
    pub args: Seq<Seq<char>>,
    pub cwd: Seq<char>,
    pub env: Seq<(Seq<char>, Seq<char>)>,
    pub lifecycle: Option<LifecycleMode>,
    pub stdio_protocol: StdioProtocol,
    pub enabled: bool,
}

/// The mathematical content of a `GatewayConfig`.
#[verifier::ext_equal]
pub struct ConfigModel {
    pub version: u32,
    pub listen: Seq<char>,
    pub allow_non_loopback: bool,
    pub mode: RunMode,
    pub api_prefix: Seq<char>,
    pub mcp_enabled: bool,
    pub mcp_token: Seq<char>,
    pub admin_enabled: bool,
    pub admin_token: Seq<char>,
    pub streamable_http_path: Seq<char>,
    pub sse_path: Seq<char>,
    pub defaults: DefaultsConfig,
    pub servers: Seq<ServerModel>,
}

/// The texts of a list of strings.
pub open spec fn texts(v: Seq<String>) -> Seq<Seq<char>> {
    v.map_values(|s: String| s@)
}

/// The texts of a list of name and value pairs.
pub open spec fn pair_texts(v: Seq<(String, String)>) -> Seq<(Seq<char>, Seq<char>)> {
    v.map_values(|p: (String, String)| (p.0@, p.1@))
}

impl View for ServerConfig {
    type V = ServerModel;

    open spec fn view(&self) -> ServerModel {
        ServerModel {
            name: self.name@,
            description: self.description@,
            command: self.command@,
            args: texts(self.args@),
            cwd: self.cwd@,
            env: pair_texts(self.env@),
            lifecycle: self.lifecycle,
            stdio_protocol: self.stdio_protocol,
            enabled: self.enabled,
        }
    }
}

/// The models of a list of servers.
pub open spec fn server_models(v: Seq<ServerConfig>) -> Seq<ServerModel> {
    v.map_values(|s: ServerConfig| s@)
}

impl View for GatewayConfig {
    type V = ConfigModel;

    open spec fn view(&self) -> ConfigModel {
        ConfigModel {
            version: self.version,
            listen: self.listen@,
            allow_non_loopback: self.allow_non_loopback,
            mode: self.mode,
            api_prefix: self.api_prefix@,
            mcp_enabled: self.security.mcp.enabled,
            mcp_token: self.security.mcp.token@,
            admin_enabled: self.security.admin.enabled,
            admin_token: self.security.admin.token@,
            streamable_http_path: self.transport.streamable_http.base_path@,
            sse_path: self.transport.sse.base_path@,
            defaults: self.defaults,
            servers: server_models(self.servers@),
        }
    }
}

// ---------------------------------------------------------------------------
// Defaults
// ---------------------------------------------------------------------------

/// The defaults that apply to servers when the configuration names none.
pub open spec fn default_defaults() -> DefaultsConfig {
    DefaultsConfig {
        lifecycle: LifecycleMode::Pooled,
        idle_ttl_ms: 300_000,
        request_timeout_ms: 60_000,
        max_retries: 2,
        max_response_wait_iterations: 100,
    }
}

/// The configuration that holds nothing but defaults.
pub open spec fn default_model() -> ConfigModel {
    ConfigModel {
        version: 2,
        listen: "127.0.0.1:8765"@,
        allow_non_loopback: false,
        mode: RunMode::Both,
        api_prefix: "/api/v2"@,
        mcp_enabled: false,
        mcp_token: Seq::empty(),
        admin_enabled: true,
        admin_token: Seq::empty(),
        streamable_http_path: "/api/v2/mcp"@,
        sse_path: "/api/v2/sse"@,
        defaults: default_defaults(),
        servers: Seq::empty(),
    }
}

impl Default for RunMode {
    fn default() -> (m: Self)
        ensures
            m == RunMode::Both,
    {
        RunMode::Both
    }
}

impl Default for LifecycleMode {
    fn default() -> (m: Self)
        ensures
            m == LifecycleMode::Pooled,
    {
        LifecycleMode::Pooled
    }
}

impl Default for StdioProtocol {
    fn default() -> (p: Self)
        ensures
            p == StdioProtocol::Auto,
    {
        StdioProtocol::Auto
    }
}

impl Default for TokenConfig {
    fn default() -> (t: Self)
        ensures
            !t.enabled,
            t.token@ == Seq::<char>::empty(),
    {
        TokenConfig { enabled: false, token: String::new() }
    }
}

impl Default for SecurityConfig {
    fn default() -> (s: Self)
        ensures
            !s.mcp.enabled,
            s.mcp.token@ == Seq::<char>::empty(),
            s.admin.enabled,
            s.admin.token@ == Seq::<char>::empty(),
    {
        SecurityConfig {
            mcp: TokenConfig { enabled: false, token: String::new() },
            admin: default_admin_token_config(),
        }
    }
}

impl Default for TransportConfig {
    fn default() -> (t: Self)
        ensures
            t.streamable_http.base_path@ == "/api/v2/mcp"@,
            t.sse.base_path@ == "/api/v2/sse"@,
    {
        TransportConfig { streamable_http: default_streamable_http_path(), sse: default_sse_path() }
    }
}

impl Default for DefaultsConfig {
    fn default() -> (d: Self)
        ensures
            d == default_defaults(),
    {
        DefaultsConfig {
            lifecycle: LifecycleMode::Pooled,
            idle_ttl_ms: default_idle_ttl_ms(),
            request_timeout_ms: default_request_timeout_ms(),
            max_retries: default_max_retries(),
            max_response_wait_iterations: default_max_response_wait_iterations(),
        }
    }
}

impl Default for GatewayConfig {
    fn default() -> (c: Self)
        ensures
            c@ == default_model(),
    {
        let c = GatewayConfig {
            version: default_version(),
            listen: default_listen(),
            allow_non_loopback: false,
            mode: RunMode::Both,
            api_prefix: default_api_prefix(),
            security: SecurityConfig::default(),
            transport: TransportConfig::default(),
            defaults: DefaultsConfig::default(),
            servers: Vec::new(),
        };
        assert(c@.servers =~= Seq::<ServerModel>::empty());
        c
    }
}

/// The configuration format's version.
pub fn default_version() -> (v: u32)
    ensures
        v == 2,
{
    2
}

/// The address the gateway listens on unless told otherwise.
pub fn default_listen() -> (s: String)
    ensures
        s@ == "127.0.0.1:8765"@,
{
    String::from_str("127.0.0.1:8765")
}

/// The default base path of the streamable HTTP transport.
pub fn default_streamable_http_path() -> (p: TransportPath)
    ensures
        p.base_path@ == "/api/v2/mcp"@,
{
    TransportPath { base_path: String::from_str("/api/v2/mcp") }
}

/// The default base path of the SSE transport.
pub fn default_sse_path() -> (p: TransportPath)
    ensures
        p.base_path@ == "/api/v2/sse"@,
{
    TransportPath { base_path: String::from_str("/api/v2/sse") }
}

/// How long an idle pooled process lives, in milliseconds.
pub fn default_idle_ttl_ms() -> (v: u64)
    ensures
        v == 300_000,
{
    300_000
}

/// How long one request may take, in milliseconds.
pub fn default_request_timeout_ms() -> (v: u64)
    ensures
        v == 60_000,
{
    60_000
}

/// How many times a failed request is retried.
pub fn default_max_retries() -> (v: u32)
    ensures
        v == 2,
{
    2
}

/// How many unrelated messages are read while waiting for a response.
pub fn default_max_response_wait_iterations() -> (v: u32)
    ensures
        v == 100,
{
    100
}

/// The admin token is required by default, and empty until one is generated.
pub fn default_admin_token_config() -> (t: TokenConfig)
    ensures
        t.enabled,
        t.token@ == Seq::<char>::empty(),
{
    TokenConfig { enabled: true, token: String::new() }
}

/// The prefix of the API's routes.
pub fn default_api_prefix() -> (s: String)
    ensures
        s@ == "/api/v2"@,
{
    String::from_str("/api/v2")
}

/// A server is enabled unless the configuration says otherwise.
pub fn default_server_enabled() -> (b: bool)
    ensures
        b,
{
    true
}

// ---------------------------------------------------------------------------
// Display
// ---------------------------------------------------------------------------

/// The name of a run mode, as the command line and the configuration write it.
pub open spec fn run_mode_text(m: RunMode) -> Seq<char> {
    match m {
        RunMode::Extension => "extension"@,
        RunMode::General => "general"@,
        RunMode::Both => "both"@,
    }
}

impl RunMode {
    /// The name of this run mode: `extension`, `general` or `both`.
    pub fn display_string(&self) -> (s: String)
        ensures
            s@ == run_mode_text(*self),
    {
        match self {
            RunMode::Extension => String::from_str("extension"),
            RunMode::General => String::from_str("general"),
            RunMode::Both => String::from_str("both"),
        }
    }
}

/// The name under which a server is shown: its description, unless that is blank.
pub open spec fn display_name_text(s: ServerModel) -> Seq<char> {
    if is_blank_text(s.description) {
        s.name
    } else {
        s.description
    }
}

impl ServerConfig {
    /// The name under which this server is shown: its description, unless that is
    /// blank, else its name.
    pub fn display_name(&self) -> (n: String)
        ensures
            n@ == display_name_text(self@),
    {
        if is_blank(self.description.as_str()) {
            self.name.clone()
        } else {
            self.description.clone()
        }
    }
}

// ---------------------------------------------------------------------------
// Normalization
// ---------------------------------------------------------------------------

/// `p` without trailing slashes, keeping a lone `/`.
pub open spec fn drop_trailing_slashes(p: Seq<char>) -> Seq<char>
    decreases p.len(),
{
    if p.len() > 1 && p.last() == '/' {
        drop_trailing_slashes(p.drop_last())
    } else {
        p
    }
}

/// A base path as the gateway uses it: trimmed, `fallback` where blank, else with a
/// leading `/` and without trailing slashes.
pub open spec fn normalize_path_text(input: Seq<char>, fallback: Seq<char>) -> Seq<char> {
    let t = trim(input);
    if t.len() == 0 {
        fallback
    } else if t[0] == '/' {
        drop_trailing_slashes(t)
    } else {
        drop_trailing_slashes(seq!['/'] + t)
    }
}

/// The arguments of a server: each trimmed, the blank ones dropped.
pub open spec fn clean_args(args: Seq<Seq<char>>) -> Seq<Seq<char>>
    decreases args.len(),
{
    if args.len() == 0 {
        Seq::empty()
    } else {
        let prev = clean_args(args.drop_last());
        let t = trim(args.last());
        if t.len() == 0 {
            prev
        } else {
            prev.push(t)
        }
    }
}

/// Whether `k` is the name of some pair of `env`.
pub open spec fn has_env_key(env: Seq<(Seq<char>, Seq<char>)>, k: Seq<char>) -> bool {
    exists|j: int| 0 <= j < env.len() && (#[trigger] env[j]).0 == k
}

/// `env` with `k` set to `v`: the pair named `k` takes the new value in its place,
/// or the pair is added at the end.
pub open spec fn env_upsert(env: Seq<(Seq<char>, Seq<char>)>, k: Seq<char>, v: Seq<char>) -> Seq<
    (Seq<char>, Seq<char>),
> {
    if has_env_key(env, k) {
        let j = choose|j: int| 0 <= j < env.len() && (#[trigger] env[j]).0 == k;
        env.update(j, (k, v))
    } else {
        env.push((k, v))
    }
}

/// The environment of a server: names and values trimmed, pairs with a blank name
/// or value dropped, and a later pair with the same name replacing an earlier one.
pub open spec fn clean_env(env: Seq<(Seq<char>, Seq<char>)>) -> Seq<(Seq<char>, Seq<char>)>
    decreases env.len(),
{
    if env.len() == 0 {
        Seq::empty()
    } else {
        let prev = clean_env(env.drop_last());
        let k = trim(env.last().0);
        let v = trim(env.last().1);
        if k.len() == 0 || v.len() == 0 {
            prev
        } else {
            env_upsert(prev, k, v)
        }
    }
}

/// Whether no two pairs of `env` have the same name.
pub open spec fn env_keys_distinct(env: Seq<(Seq<char>, Seq<char>)>) -> bool {
    forall|i: int, j: int| 0 <= i < j < env.len() ==> (#[trigger] env[i]).0 != (#[trigger] env[j]).0
}

/// Whether a server's configuration is well formed: its environment is a map, no
/// variable being set twice.
pub open spec fn server_wf(s: ServerModel) -> bool {
    env_keys_distinct(s.env)
}

/// Whether every server of a configuration is well formed.
pub open spec fn servers_wf(c: ConfigModel) -> bool {
    forall|i: int| 0 <= i < c.servers.len() ==> server_wf(#[trigger] c.servers[i])
}

/// The map from variable names to values that an environment stands for.
pub open spec fn env_map(env: Seq<(Seq<char>, Seq<char>)>) -> Map<Seq<char>, Seq<char>> {
    Map::new(
        |k: Seq<char>| has_env_key(env, k),
        |k: Seq<char>| env[choose|j: int| 0 <= j < env.len() && (#[trigger] env[j]).0 == k].1,
    )
}

/// A server after normalization.
pub open spec fn normalize_server_model(s: ServerModel) -> ServerModel {
    ServerModel {
        name: trim(s.name),
        description: trim(s.description),
        command: trim(s.command),
        args: clean_args(s.args),
        cwd: trim(s.cwd),
        env: clean_env(s.env),
        lifecycle: s.lifecycle,
        stdio_protocol: s.stdio_protocol,
        enabled: s.enabled,
    }
}

/// A configuration after normalization: version 2, the listen address and the
/// tokens trimmed, the transport paths normalized, and every server normalized.
pub open spec fn normalize_model(c: ConfigModel) -> ConfigModel {
    ConfigModel {
        version: 2,
        listen: trim(c.listen),
        allow_non_loopback: c.allow_non_loopback,
        mode: c.mode,
        api_prefix: c.api_prefix,
        mcp_enabled: c.mcp_enabled,
        mcp_token: trim(c.mcp_token),
        admin_enabled: c.admin_enabled,
        admin_token: trim(c.admin_token),
        streamable_http_path: normalize_path_text(c.streamable_http_path, "/api/v2/mcp"@),
        sse_path: normalize_path_text(c.sse_path, "/api/v2/sse"@),
        defaults: c.defaults,
        servers: c.servers.map_values(|s: ServerModel| normalize_server_model(s)),
    }
}

/// A base path normalized: trimmed, `fallback` where blank, else with a leading `/`
/// and without trailing slashes.
pub fn normalize_path(input: &str, fallback: &str) -> (out: String)
    ensures
        out@ == normalize_path_text(input@, fallback@),
{
    let cs = chars_of(input);
    let t = trim_chars(cs.as_slice());
    if t.len() == 0 {
        return string_of(chars_of(fallback).as_slice());
    }
    let mut p: Vec<char> = Vec::new();
    if t[0] != '/' {
        p.push('/');
    }
    let mut i: usize = 0;
    let ghost start = p@;
    while i < t.len()
        invariant
            i <= t@.len(),
            p@ == start + t@.take(i as int),
        decreases t@.len() - i,
    {
        p.push(t[i]);
        assert(t@.take(i as int + 1) == t@.take(i as int).push(t@[i as int]));
        i += 1;
    }
    assert(t@.take(t@.len() as int) == t@);
    proof {
        if t@[0] != '/' {
            assert(p@ == seq!['/'] + t@);
        } else {
            assert(p@ == t@);
        }
    }
    let ghost whole = p@;
    while p.len() > 1 && p[p.len() - 1] == '/'
        invariant
            drop_trailing_slashes(whole) == drop_trailing_slashes(p@),
        decreases p@.len(),
    {
        p.pop();
    }
    string_of(p.as_slice())
}

/// The texts of `v`, each trimmed, the blank ones dropped.
fn clean_arg_list(v: &Vec<String>) -> (out: Vec<String>)
    ensures
        texts(out@) == clean_args(texts(v@)),
{
    let mut out: Vec<String> = Vec::new();
    let mut i: usize = 0;
    while i < v.len()
        invariant
            i <= v@.len(),
            texts(out@) == clean_args(texts(v@).take(i as int)),
        decreases v@.len() - i,
    {
        let t = trim_str(v[i].as_str());
        let ghost before = out@;
        assert(texts(v@).take(i as int + 1).drop_last() == texts(v@).take(i as int));
        assert(texts(v@).take(i as int + 1).last() == v@[i as int]@);
        if !t.as_str().is_empty() {
            out.push(t);
            assert(texts(out@) == texts(before).push(trim(v@[i as int]@)));
        }
        i += 1;
    }
    assert(texts(v@).take(v@.len() as int) == texts(v@));
    out
}

/// The position of the pair named `k` in `env`, if there is one.
fn find_env_key(env: &Vec<(String, String)>, k: &String) -> (r: Option<usize>)
    ensures
        match r {
            Some(j) => j < env@.len() && pair_texts(env@)[j as int].0 == k@,
            None => !has_env_key(pair_texts(env@), k@),
        },
{
    let mut j: usize = 0;
    while j < env.len()
        invariant
            j <= env@.len(),
            forall|i: int| 0 <= i < j ==> pair_texts(env@)[i].0 != k@,
        decreases env@.len() - j,
    {
        if env[j].0 == *k {
            return Some(j);
        }
        j += 1;
    }
    None
}

proof fn lemma_upsert_at(env: Seq<(Seq<char>, Seq<char>)>, k: Seq<char>, v: Seq<char>, j: int)
    requires
        env_keys_distinct(env),
        0 <= j < env.len(),
        env[j].0 == k,
    ensures
        env_upsert(env, k, v) == env.update(j, (k, v)),
{
    let c = choose|c: int| 0 <= c < env.len() && (#[trigger] env[c]).0 == k;
    assert(0 <= c < env.len() && env[c].0 == k);
    if c != j {
        if c < j {
            assert(env[c].0 != env[j].0);
        } else {
            assert(env[j].0 != env[c].0);
        }
    }
}

proof fn lemma_upsert_distinct(env: Seq<(Seq<char>, Seq<char>)>, k: Seq<char>, v: Seq<char>)
    requires
        env_keys_distinct(env),
    ensures
        env_keys_distinct(env_upsert(env, k, v)),
{
    let r = env_upsert(env, k, v);
    if has_env_key(env, k) {
        let j = choose|j: int| 0 <= j < env.len() && (#[trigger] env[j]).0 == k;
        assert forall|a: int, b: int| 0 <= a < b < r.len() implies (#[trigger] r[a]).0 != (
        #[trigger] r[b]).0 by {
            assert(r[a].0 == env[a].0);
            assert(r[b].0 == env[b].0);
        }
    } else {
        assert forall|a: int, b: int| 0 <= a < b < r.len() implies (#[trigger] r[a]).0 != (
        #[trigger] r[b]).0 by {
            if b == env.len() {
                assert(r[a] == env[a]);
            } else {
                assert(r[a] == env[a]);
                assert(r[b] == env[b]);
            }
        }
    }
}

/// Names and values trimmed, pairs with a blank name or value dropped, a later pair
/// with the same name replacing an earlier one.
fn clean_env_list(v: &Vec<(String, String)>) -> (out: Vec<(String, String)>)
    ensures
        pair_texts(out@) == clean_env(pair_texts(v@)),
        env_keys_distinct(pair_texts(out@)),
{
    let mut out: Vec<(String, String)> = Vec::new();
    let mut i: usize = 0;
    assert(pair_texts(v@).take(0) =~= Seq::<(Seq<char>, Seq<char>)>::empty());
    assert(pair_texts(out@) =~= Seq::<(Seq<char>, Seq<char>)>::empty());
    while i < v.len()
        invariant
            i <= v@.len(),
            pair_texts(out@) == clean_env(pair_texts(v@).take(i as int)),
            env_keys_distinct(pair_texts(out@)),
        decreases v@.len() - i,
    {
        let k = trim_str(v[i].0.as_str());
        let val = trim_str(v[i].1.as_str());
        let ghost before = pair_texts(out@);
        assert(pair_texts(v@).take(i as int + 1).drop_last() == pair_texts(v@).take(i as int));
        assert(pair_texts(v@).take(i as int + 1).last() == (v@[i as int].0@, v@[i as int].1@));
        if !k.as_str().is_empty() && !val.as_str().is_empty() {
            proof {
                lemma_upsert_distinct(before, k@, val@);
            }
            match find_env_key(&out, &k) {
                Some(j) => {
                    proof {
                        lemma_upsert_at(before, k@, val@, j as int);
                    }
                    out.set(j, (k, val));
                    assert(pair_texts(out@) =~= before.update(j as int, (k@, val@)));
                },
                None => {
                    out.push((k, val));
                    assert(pair_texts(out@) =~= before.push((k@, val@)));
                },
            }
        }
        i += 1;
    }
    assert(pair_texts(v@).take(v@.len() as int) == pair_texts(v@));
    out
}

/// One server normalized.
pub fn normalize_server(s: &ServerConfig) -> (r: ServerConfig)
    ensures
        r@ == normalize_server_model(s@),
        server_wf(r@),
{
    proof {
        lemma_clean_env_shape(s@.env);
    }
    ServerConfig {
        name: trim_str(s.name.as_str()),
        description: trim_str(s.description.as_str()),
        command: trim_str(s.command.as_str()),
        args: clean_arg_list(&s.args),
        cwd: trim_str(s.cwd.as_str()),
        env: clean_env_list(&s.env),
        lifecycle: s.lifecycle,
        stdio_protocol: s.stdio_protocol,
        enabled: s.enabled,
    }
}

/// Brings a configuration into the form the gateway works with: version 2, the
/// listen address, the tokens and every server's texts trimmed, blank arguments
/// and environment entries dropped, and the transport paths normalized.
pub fn normalize_config_in_place(cfg: &mut GatewayConfig)
    ensures
        final(cfg)@ == normalize_model(old(cfg)@),
        servers_wf(final(cfg)@),
{
    let ghost before = cfg@;
    cfg.version = 2;
    cfg.listen = trim_str(cfg.listen.as_str());
    cfg.transport.streamable_http.base_path = normalize_path(
        cfg.transport.streamable_http.base_path.as_str(),
        "/api/v2/mcp",
    );
    cfg.transport.sse.base_path = normalize_path(cfg.transport.sse.base_path.as_str(), "/api/v2/sse");
    cfg.security.admin.token = trim_str(cfg.security.admin.token.as_str());
    cfg.security.mcp.token = trim_str(cfg.security.mcp.token.as_str());
    let mut servers: Vec<ServerConfig> = Vec::new();
    let mut i: usize = 0;
    while i < cfg.servers.len()
        invariant
            i <= cfg.servers@.len(),
            server_models(cfg.servers@) == before.servers,
            servers@.len() == i,
            forall|j: int|
                0 <= j < i ==> (#[trigger] servers@[j])@ == normalize_server_model(
                    before.servers[j],
                ),
        decreases cfg.servers@.len() - i,
    {
        let s = normalize_server(&cfg.servers[i]);
        servers.push(s);
        i += 1;
    }
    cfg.servers = servers;
    assert(cfg@.servers =~= before.servers.map_values(
        |s: ServerModel| normalize_server_model(s),
    ));
    assert forall|i: int| 0 <= i < cfg@.servers.len() implies server_wf(#[trigger] cfg@.servers[i]) by {
        lemma_clean_env_shape(before.servers[i].env);
    }
}

/// Whether a text is non-empty and has nothing to trim.
pub open spec fn is_clean_text(t: Seq<char>) -> bool {
    t.len() > 0 && trim(t) == t
}

proof fn lemma_clean_args_shape(a: Seq<Seq<char>>)
    ensures
        forall|i: int| 0 <= i < clean_args(a).len() ==> is_clean_text(#[trigger] clean_args(a)[i]),
    decreases a.len(),
{
    if a.len() > 0 {
        lemma_clean_args_shape(a.drop_last());
        lemma_trim_idempotent(a.last());
        let prev = clean_args(a.drop_last());
        let r = clean_args(a);
        assert forall|i: int| 0 <= i < r.len() implies is_clean_text(#[trigger] r[i]) by {
            if i < prev.len() {
                assert(r[i] == prev[i]);
            }
        }
    }
}

proof fn lemma_clean_args_fixed(a: Seq<Seq<char>>)
    requires
        forall|i: int| 0 <= i < a.len() ==> is_clean_text(#[trigger] a[i]),
    ensures
        clean_args(a) == a,
    decreases a.len(),
{
    if a.len() > 0 {
        assert(is_clean_text(a[a.len() - 1]));
        assert forall|i: int| 0 <= i < a.drop_last().len() implies is_clean_text(
            #[trigger] a.drop_last()[i],
        ) by {
            assert(a.drop_last()[i] == a[i]);
        }
        lemma_clean_args_fixed(a.drop_last());
        assert(a.drop_last().push(a.last()) == a);
    }
}

/// Whether every pair of `env` has a clean name and a clean value.
pub open spec fn env_entries_clean(env: Seq<(Seq<char>, Seq<char>)>) -> bool {
    forall|i: int| 0 <= i < env.len() ==> is_clean_text((#[trigger] env[i]).0) && is_clean_text(env[i].1)
}

proof fn lemma_clean_env_shape(e: Seq<(Seq<char>, Seq<char>)>)
    ensures
        env_keys_distinct(clean_env(e)),
        env_entries_clean(clean_env(e)),
    decreases e.len(),
{
    if e.len() > 0 {
        lemma_clean_env_shape(e.drop_last());
        let prev = clean_env(e.drop_last());
        let k = trim(e.last().0);
        let v = trim(e.last().1);
        if k.len() != 0 && v.len() != 0 {
            lemma_trim_idempotent(e.last().0);
            lemma_trim_idempotent(e.last().1);
            lemma_upsert_distinct(prev, k, v);
            let r = env_upsert(prev, k, v);
            assert forall|i: int| 0 <= i < r.len() implies is_clean_text((#[trigger] r[i]).0)
                && is_clean_text(r[i].1) by {
                if i < prev.len() && r[i] != (k, v) {
                    assert(r[i] == prev[i]);
                }
            }
        }
    }
}

proof fn lemma_clean_env_fixed(e: Seq<(Seq<char>, Seq<char>)>)
    requires
        env_keys_distinct(e),
        env_entries_clean(e),
    ensures
        clean_env(e) == e,
    decreases e.len(),
{
    if e.len() > 0 {
        let d = e.drop_last();
        assert forall|i: int, j: int| 0 <= i < j < d.len() implies (#[trigger] d[i]).0 != (
        #[trigger] d[j]).0 by {
            assert(d[i] == e[i]);
            assert(d[j] == e[j]);
        }
        assert forall|i: int| 0 <= i < d.len() implies is_clean_text((#[trigger] d[i]).0)
            && is_clean_text(d[i].1) by {
            assert(d[i] == e[i]);
        }
        lemma_clean_env_fixed(d);
        let last = e[e.len() - 1];
        assert(is_clean_text(last.0) && is_clean_text(last.1));
        if has_env_key(d, last.0) {
            let j = choose|j: int| 0 <= j < d.len() && (#[trigger] d[j]).0 == last.0;
            assert(e[j].0 == e[e.len() - 1].0);
        }
        assert(d.push(last) == e);
    }
}

proof fn lemma_server_normalize_idempotent(s: ServerModel)
    ensures
        normalize_server_model(normalize_server_model(s)) == normalize_server_model(s),
{
    lemma_trim_idempotent(s.name);
    lemma_trim_idempotent(s.description);
    lemma_trim_idempotent(s.command);
    lemma_trim_idempotent(s.cwd);
    lemma_clean_args_shape(s.args);
    lemma_clean_args_fixed(clean_args(s.args));
    lemma_clean_env_shape(s.env);
    lemma_clean_env_fixed(clean_env(s.env));
    assert(normalize_server_model(normalize_server_model(s)) =~= normalize_server_model(s));
}

proof fn lemma_drop_trailing_shape(p: Seq<char>)
    requires
        p.len() > 0,
    ensures
        drop_trailing_slashes(p).len() > 0,
        drop_trailing_slashes(p).len() <= p.len(),
        drop_trailing_slashes(p) == p.take(drop_trailing_slashes(p).len() as int),
        drop_trailing_slashes(p).len() > 1 ==> drop_trailing_slashes(p).last() != '/',
    decreases p.len(),
{
    if p.len() > 1 && p.last() == '/' {
        lemma_drop_trailing_shape(p.drop_last());
        let r = drop_trailing_slashes(p.drop_last());
        assert(p.drop_last().take(r.len() as int) =~= p.take(r.len() as int));
    } else {
        assert(p.take(p.len() as int) == p);
    }
}

/// Whether what `normalize_path_text` makes of `p` has nothing to trim.
pub open spec fn normal_path_is_trimmed(p: Seq<char>, fallback: Seq<char>) -> bool {
    trim(normalize_path_text(p, fallback)) == normalize_path_text(p, fallback)
}

/// Whether a path is its own normal form: it starts with `/`, has nothing to trim, and
/// has no trailing slash unless it is `/`.
pub open spec fn is_normal_path(p: Seq<char>) -> bool {
    &&& p.len() > 0
    &&& p[0] == '/'
    &&& trim(p) == p
    &&& (p.len() > 1 ==> p.last() != '/')
}

/// What `normalize_path_text` makes of a path starts with `/` when the fallback does.
pub proof fn lemma_normalized_path_starts_with_slash(p: Seq<char>, fallback: Seq<char>)
    requires
        fallback.len() > 0,
        fallback[0] == '/',
    ensures
        normalize_path_text(p, fallback).len() > 0,
        normalize_path_text(p, fallback)[0] == '/',
        normalize_path_text(p, fallback).len() > 1 && normalize_path_text(p, fallback) != fallback
            ==> normalize_path_text(p, fallback).last() != '/',
{
    let t = trim(p);
    if t.len() != 0 {
        let q = if t[0] == '/' {
            t
        } else {
            seq!['/'] + t
        };
        lemma_drop_trailing_shape(q);
        let r = drop_trailing_slashes(q);
        assert(q[0] == '/');
        assert(r[0] == q.take(r.len() as int)[0]);
        assert(normalize_path_text(p, fallback) == r);
    } else {
        assert(normalize_path_text(p, fallback) == fallback);
    }
}

/// A path in normal form normalizes to itself.
pub proof fn lemma_normal_path_fixed(p: Seq<char>, fallback: Seq<char>)
    requires
        is_normal_path(p),
    ensures
        normalize_path_text(p, fallback) == p,
{
}

/// Normalizing a path twice gives what normalizing it once gives, where the once
/// normalized path has nothing to trim and the fallback is in normal form.
pub proof fn lemma_normalize_path_idempotent(p: Seq<char>, fallback: Seq<char>)
    requires
        is_normal_path(fallback),
        normal_path_is_trimmed(p, fallback),
    ensures
        normalize_path_text(normalize_path_text(p, fallback), fallback) == normalize_path_text(
            p,
            fallback,
        ),
{
    lemma_normalized_path_starts_with_slash(p, fallback);
    let n = normalize_path_text(p, fallback);
    if n != fallback {
        assert(is_normal_path(n));
    }
}

/// The two fallback paths are in normal form.
pub proof fn lemma_fallback_paths_normal()
    ensures
        is_normal_path("/api/v2/mcp"@),
        is_normal_path("/api/v2/sse"@),
{
    reveal_strlit("/api/v2/mcp");
    reveal_strlit("/api/v2/sse");
    lemma_trim_fixed("/api/v2/mcp"@);
    lemma_trim_fixed("/api/v2/sse"@);
}

/// Normalizing a configuration twice gives the configuration that normalizing it once
/// gives. The one exception is a transport path whose normal form ends in
/// whitespace, such as `a /`, which normalizes to `/a ` and then to `/a`; the law
/// leaves such paths out.
pub proof fn lemma_normalize_idempotent(c: ConfigModel)
    requires
        normal_path_is_trimmed(c.streamable_http_path, "/api/v2/mcp"@),
        normal_path_is_trimmed(c.sse_path, "/api/v2/sse"@),
    ensures
        normalize_model(normalize_model(c)) == normalize_model(c),
{
    let n = normalize_model(c);
    lemma_trim_idempotent(c.listen);
    lemma_trim_idempotent(c.mcp_token);
    lemma_trim_idempotent(c.admin_token);
    lemma_fallback_paths_normal();
    lemma_normalize_path_idempotent(c.streamable_http_path, "/api/v2/mcp"@);
    lemma_normalize_path_idempotent(c.sse_path, "/api/v2/sse"@);
    assert forall|i: int| 0 <= i < n.servers.len() implies #[trigger] normalize_server_model(
        n.servers[i],
    ) == n.servers[i] by {
        lemma_server_normalize_idempotent(c.servers[i]);
    }
    assert(normalize_model(n).servers =~= n.servers);
    assert(normalize_model(n) =~= n);
}

/// After normalization both transport paths start with `/`, so the path check of
/// validation can only fail on a space.
pub proof fn lemma_normalized_paths_start_with_slash(c: ConfigModel)
    ensures
        normalize_model(c).streamable_http_path.len() > 0,
        normalize_model(c).streamable_http_path[0] == '/',
        normalize_model(c).sse_path.len() > 0,
        normalize_model(c).sse_path[0] == '/',
{
    lemma_fallback_paths_normal();
    lemma_normalized_path_starts_with_slash(c.streamable_http_path, "/api/v2/mcp"@);
    lemma_normalized_path_starts_with_slash(c.sse_path, "/api/v2/sse"@);
}

/// The configuration with the mode and the listen address of the command line, where
/// given, taking the place of those of the file.
pub open spec fn with_overrides(c: ConfigModel, mode: Option<RunMode>, listen: Option<Seq<char>>) -> ConfigModel {
    ConfigModel {
        mode: match mode {
            Some(m) => m,
            None => c.mode,
        },
        listen: match listen {
            Some(l) => l,
            None => c.listen,
        },
        ..c
    }
}

/// The text of an optional string.
pub open spec fn opt_text(s: Option<String>) -> Option<Seq<char>> {
    match s {
        Some(t) => Some(t@),
        None => None,
    }
}

/// Applies the mode and listen address given on the command line, then normalizes.
pub fn apply_runtime_overrides(cfg: &mut GatewayConfig, mode: Option<RunMode>, listen: Option<String>)
    ensures
        final(cfg)@ == normalize_model(with_overrides(old(cfg)@, mode, opt_text(listen))),
{
    if let Some(m) = mode {
        cfg.mode = m;
    }
    if let Some(l) = listen {
        cfg.listen = l;
    }
    normalize_config_in_place(cfg);
}

// ---------------------------------------------------------------------------
// Tokens
// ---------------------------------------------------------------------------

/// Whether `c` is an ASCII letter or digit.
pub open spec fn is_ascii_alphanumeric(c: char) -> bool {
    let u = c as u32;
    (48 <= u <= 57) || (65 <= u <= 90) || (97 <= u <= 122)
}

/// The shape of a generated token: forty ASCII letters and digits.
pub open spec fn is_token_text(t: Seq<char>) -> bool {
    t.len() == 40 && forall|i: int| 0 <= i < t.len() ==> #[trigger] is_ascii_alphanumeric(t[i])
}

/// `rand`'s `Alphanumeric` distribution: `len` characters, each drawn from the ASCII
/// letters and digits, from the operating system's random source. The contract
/// claims the length and the character set, which `Alphanumeric`'s source shows; what
/// the characters are is chance.
#[verifier::external_body]
fn sample_alphanumeric(len: usize) -> (s: String)
    ensures
        s@.len() == len,
        forall|i: int| 0 <= i < s@.len() ==> #[trigger] is_ascii_alphanumeric(s@[i]),
{
    rand::distributions::Alphanumeric.sample_string(&mut rand::rngs::OsRng, len)
}

/// A fresh random token of forty ASCII letters and digits.
pub fn generate_token() -> (t: String)
    ensures
        is_token_text(t@),
{
    sample_alphanumeric(40)
}

/// The configuration with the token of `scope` replaced by `token`.
pub open spec fn with_token(c: ConfigModel, scope: TokenScope, token: Seq<char>) -> ConfigModel {
    match scope {
        TokenScope::Admin => ConfigModel { admin_token: token, ..c },
        TokenScope::Mcp => ConfigModel { mcp_token: token, ..c },
    }
}

/// Replaces the token of `scope` with a fresh one and returns it.
pub fn rotate_token(cfg: &mut GatewayConfig, scope: TokenScope) -> (token: String)
    ensures
        is_token_text(token@),
        final(cfg)@ == with_token(old(cfg)@, scope, token@),
{
    let token = generate_token();
    match scope {
        TokenScope::Admin => cfg.security.admin.token = token.clone(),
        TokenScope::Mcp => cfg.security.mcp.token = token.clone(),
    }
    token
}

/// A new configuration for `mode`: the defaults with fresh admin and MCP tokens,
/// normalized.
pub fn new_config_for_mode(mode: RunMode) -> (cfg: GatewayConfig)
    ensures
        is_token_text(cfg@.admin_token),
        is_token_text(cfg@.mcp_token),
        cfg@ == normalize_model(
            ConfigModel {
                mode,
                admin_token: cfg@.admin_token,
                mcp_token: cfg@.mcp_token,
                ..default_model()
            },
        ),
{
    let mut cfg = GatewayConfig::default();
    cfg.mode = mode;
    cfg.security.admin.token = generate_token();
    cfg.security.mcp.token = generate_token();
    let ghost admin = cfg@.admin_token;
    let ghost mcp = cfg@.mcp_token;
    proof {
        lemma_token_is_trimmed(admin);
        lemma_token_is_trimmed(mcp);
    }
    normalize_config_in_place(&mut cfg);
    cfg
}

/// A token has nothing to trim.
pub proof fn lemma_token_is_trimmed(t: Seq<char>)
    requires
        is_token_text(t),
    ensures
        trim(t) == t,
{
    assert(is_ascii_alphanumeric(t[0]));
    assert(is_ascii_alphanumeric(t[t.len() - 1]));
    assert(!is_ws(t[0]));
    assert(!is_ws(t.last()));
    lemma_trim_fixed(t);
}

} // verus!
