//! The decisions of the process manager that need no process: how often a request is
//! retried and how long the gateway waits in between, which pooled processes have been
//! idle too long, which framing a server is spoken to in, and the identity of a pooled
//! process.
use vstd::prelude::*;
use vstd::relations::sorted_by;

use crate::config::{
    env_keys_distinct, env_map, has_env_key, pair_texts, server_wf, texts, ServerConfig, ServerModel,
};
use crate::error::AppError;
use crate::json::{json_equal, json_member, json_member_of, json_values_equal};
use crate::order::{char_texts, lemma_sorted_texts_unique, lemma_text_order_total, sort_texts, text_order};
use crate::protocol::{
    allow_any_request_protocol_fallback, as_configured, effective_protocol, effective_protocol_spec,
    protocol_debug_text, NegotiatedStdioProtocol,
};
use crate::registry::NameMap;
use crate::text::{
    ascii_lower_text, chars_equal, chars_of, decimal_text, lower_chars, push_decimal, string_of,
};

verus! {

// ---------------------------------------------------------------------------
// The command of a server
// ---------------------------------------------------------------------------

/// The program that runs a server's command: on Windows `npx` (in any case) is found
/// as `npx.cmd`; everything else runs as written.
pub open spec fn resolved_command_text(command: Seq<char>, on_windows: bool) -> Seq<char> {
    if on_windows && ascii_lower_text(command) == "npx"@ {
        "npx.cmd"@
    } else {
        command
    }
}

/// The program that runs a server's command, on Windows (`on_windows`) or elsewhere.
pub fn resolve_command(command: &str, on_windows: bool) -> (r: String)
    ensures
        r@ == resolved_command_text(command@, on_windows),
{
    if on_windows {
        let lower = lower_chars(chars_of(command).as_slice());
        let npx = chars_of("npx");
        if chars_equal(lower.as_slice(), npx.as_slice()) {
            return String::from_str("npx.cmd");
        }
    }
    String::from_str(command)
}

// ---------------------------------------------------------------------------
// Retries
// ---------------------------------------------------------------------------

/// How many times a request is tried in all: once, and once more per retry.
pub open spec fn attempts_spec(max_retries: u32) -> u32 {
    if max_retries == u32::MAX {
        u32::MAX
    } else {
        (max_retries + 1) as u32
    }
}

/// How many times a request is tried in all: once, and once more per retry (at most
/// `u32::MAX`).
pub fn max_attempts(max_retries: u32) -> (n: u32)
    ensures
        n == attempts_spec(max_retries),
{
    max_retries.saturating_add(1)
}

/// What to do after attempt number `attempt` (counted from 1) of `max_attempts` failed:
/// wait `100 * attempt` milliseconds and try again, or (`None`) give up with its error.
pub fn after_failed_attempt(attempt: u32, max_attempts: u32) -> (r: Option<u64>)
    ensures
        r == (if attempt < max_attempts {
            Some((100 * attempt) as u64)
        } else {
            None::<u64>
        }),
{
    if attempt < max_attempts {
        Some(100 * (attempt as u64))
    } else {
        None
    }
}

/// A request is tried exactly `max_retries + 1` times before the gateway gives up (at
/// most `u32::MAX` times), and the waits grow by 100 ms from one retry to the next.
pub proof fn lemma_retry_schedule(max_retries: u32, attempt: u32)
    requires
        max_retries < u32::MAX,
        1 <= attempt <= max_retries + 1,
    ensures
        attempts_spec(max_retries) == max_retries + 1,
        attempt <= max_retries ==> attempt < attempts_spec(max_retries),
        attempt == max_retries + 1 ==> !(attempt < attempts_spec(max_retries)),
{
}

// ---------------------------------------------------------------------------
// Waiting for a response
// ---------------------------------------------------------------------------

/// The text of the error for a wait that read `max` unrelated messages.
pub open spec fn wait_exhausted_text(max: u32) -> Seq<char> {
    "exceeded max response wait iterations ("@ + decimal_text(max as nat)
        + ") waiting for stdio response"@
}

/// The error for a wait that read `max` messages without the response among them.
pub fn wait_exhausted_error(max: u32) -> (e: AppError)
    ensures
        e matches AppError::Upstream(m) && m@ == wait_exhausted_text(max),
{
    let mut cs = chars_of("exceeded max response wait iterations (");
    push_decimal(&mut cs, max as usize);
    let mut m = string_of(cs.as_slice());
    m.append(") waiting for stdio response");
    AppError::Upstream(m)
}

/// Whether `message` answers a request with the id `expected_id`: whether it has an
/// `id` member and that member equals it.
pub fn response_matches(message: &serde_json::Value, expected_id: &serde_json::Value) -> (b: bool)
    ensures
        b == match json_member_of(*message, "id"@) {
            Some(id) => json_values_equal(id, *expected_id),
            None => false,
        },
{
    match json_member(message, "id") {
        Some(id) => json_equal(&id, expected_id),
        None => false,
    }
}

// ---------------------------------------------------------------------------
// Idle processes
// ---------------------------------------------------------------------------

/// Whether a process idle for `idle` has outlived `ttl` (both in one unit of time).
pub open spec fn is_stale(idle: u64, ttl: u64) -> bool {
    idle >= ttl
}

/// The names, in order, of the processes that have been idle for at least `ttl`,
/// given each name with its idle time (in the unit of `ttl`).
pub fn stale_servers(idle: &Vec<(String, u64)>, ttl: u64) -> (r: Vec<String>)
    ensures
        texts(r@) == idle@.filter(|e: (String, u64)| is_stale(e.1, ttl)).map_values(
            |e: (String, u64)| e.0@,
        ),
{
    let ghost keep = |e: (String, u64)| is_stale(e.1, ttl);
    let ghost name = |e: (String, u64)| e.0@;
    let mut r: Vec<String> = Vec::new();
    let mut i: usize = 0;
    assert(idle@.take(0).filter(keep) =~= Seq::<(String, u64)>::empty());
    while i < idle.len()
        invariant
            i <= idle@.len(),
            keep == (|e: (String, u64)| is_stale(e.1, ttl)),
            name == (|e: (String, u64)| e.0@),
            texts(r@) == idle@.take(i as int).filter(keep).map_values(name),
        decreases idle@.len() - i,
    {
        let ghost before = r@;
        assert(idle@.take(i as int + 1).drop_last() == idle@.take(i as int));
        reveal_with_fuel(Seq::filter, 1);
        if idle[i].1 >= ttl {
            r.push(idle[i].0.clone());
            assert(idle@.take(i as int + 1).filter(keep) == idle@.take(i as int).filter(keep).push(
                idle@[i as int],
            ));
            assert(texts(r@) =~= texts(before).push(idle@[i as int].0@));
        } else {
            assert(idle@.take(i as int + 1).filter(keep) == idle@.take(i as int).filter(keep));
        }
        i += 1;
    }
    assert(idle@.take(idle@.len() as int) == idle@);
    r
}

// ---------------------------------------------------------------------------
// Framing per server
// ---------------------------------------------------------------------------

/// The framing learned for a server, if any.
pub open spec fn learned(hints: Map<Seq<char>, NegotiatedStdioProtocol>, name: Seq<char>) -> Option<
    NegotiatedStdioProtocol,
> {
    if hints.contains_key(name) {
        Some(hints[name])
    } else {
        None
    }
}

/// The framing a server is spoken to in: the one learned for it, else its configured
/// one, where content-length stands for `Auto`.
pub fn protocol_for_server(hints: &NameMap<NegotiatedStdioProtocol>, server: &ServerConfig) -> (p:
    NegotiatedStdioProtocol)
    ensures
        p == effective_protocol_spec(learned(hints@, server.name@), server.stdio_protocol),
{
    let hint = match hints.get(server.name.as_str()) {
        Some(p) => Some(*p),
        None => None,
    };
    effective_protocol(hint, server.stdio_protocol)
}

/// Once a framing has been learned for a server, the server is spoken to in it,
/// whatever it is configured with; once that is forgotten, the configured framing is
/// used again (content-length for `Auto`).
pub proof fn lemma_learned_protocol_is_used(
    hints: Map<Seq<char>, NegotiatedStdioProtocol>,
    name: Seq<char>,
    p: NegotiatedStdioProtocol,
    configured: crate::config::StdioProtocol,
)
    ensures
        effective_protocol_spec(learned(hints.insert(name, p), name), configured) == p,
        effective_protocol_spec(learned(hints.remove(name), name), configured)
            == effective_protocol_spec(None, configured),
{
}

/// Whether any request to this server, not only `initialize`, may fall back to the
/// other framing: only while its framing is `Auto` and not learned yet.
pub fn allow_any_request_fallback_for(
    hints: &NameMap<NegotiatedStdioProtocol>,
    server: &ServerConfig,
) -> (b: bool)
    ensures
        b == (server.stdio_protocol == crate::config::StdioProtocol::Auto && !hints@.contains_key(
            server.name@,
        )),
{
    allow_any_request_protocol_fallback(
        server.stdio_protocol,
        hints.contains_key(server.name.as_str()),
    )
}

// ---------------------------------------------------------------------------
// The identity of a pooled process
// ---------------------------------------------------------------------------

/// Texts joined with `sep` between them.
pub open spec fn join_texts(items: Seq<Seq<char>>, sep: Seq<char>) -> Seq<char>
    decreases items.len(),
{
    if items.len() == 0 {
        Seq::empty()
    } else if items.len() == 1 {
        items[0]
    } else {
        join_texts(items.drop_last(), sep) + sep + items.last()
    }
}

/// An environment entry written as `name=value`.
pub open spec fn env_item_text(p: (Seq<char>, Seq<char>)) -> Seq<char> {
    p.0 + "="@ + p.1
}

/// The entries of an environment written as `name=value`, in the order of `env`.
pub open spec fn env_item_texts(env: Seq<(Seq<char>, Seq<char>)>) -> Seq<Seq<char>> {
    env.map_values(|p: (Seq<char>, Seq<char>)| env_item_text(p))
}

/// `true` or `false`.
pub open spec fn bool_text(b: bool) -> Seq<char> {
    if b {
        "true"@
    } else {
        "false"@
    }
}

/// The identity of the process a server's configuration starts: its command, its
/// arguments, its directory, its environment entries in sorted order, whether it is
/// enabled and its framing. A pooled process is reused only while this stays the same.
pub open spec fn signature_text(s: ServerModel) -> Seq<char> {
    s.command + "|"@ + join_texts(s.args, "\u{1f}"@) + "|"@ + s.cwd + "|"@ + join_texts(
        env_item_texts(s.env).sort_by(text_order()),
        "\u{1e}"@,
    ) + "|"@ + bool_text(s.enabled) + "|"@ + protocol_debug_text(s.stdio_protocol)
}

fn append(out: &mut Vec<char>, s: &[char])
    ensures
        final(out)@ == old(out)@ + s@,
{
    let ghost start = out@;
    let mut i: usize = 0;
    while i < s.len()
        invariant
            i <= s@.len(),
            out@ == start + s@.take(i as int),
        decreases s@.len() - i,
    {
        out.push(s[i]);
        assert(s@.take(i as int + 1) == s@.take(i as int).push(s@[i as int]));
        i += 1;
    }
    assert(s@.take(s@.len() as int) == s@);
}

fn append_str(out: &mut Vec<char>, s: &str)
    ensures
        final(out)@ == old(out)@ + s@,
{
    let cs = chars_of(s);
    append(out, cs.as_slice());
}

proof fn lemma_join_step(items: Seq<Seq<char>>, sep: Seq<char>, i: int)
    requires
        0 < i < items.len(),
    ensures
        join_texts(items.take(i + 1), sep) == join_texts(items.take(i), sep) + sep + items[i],
{
    assert(items.take(i + 1).drop_last() == items.take(i));
}

fn append_joined(out: &mut Vec<char>, items: &Vec<Vec<char>>, sep: char)
    ensures
        final(out)@ == old(out)@ + join_texts(char_texts(items@), seq![sep]),
{
    let ghost start = out@;
    let ghost all = char_texts(items@);
    let mut i: usize = 0;
    assert(all.take(0) =~= Seq::<Seq<char>>::empty());
    assert(start + join_texts(all.take(0), seq![sep]) =~= start);
    while i < items.len()
        invariant
            i <= items@.len(),
            all == char_texts(items@),
            out@ == start + join_texts(all.take(i as int), seq![sep]),
        decreases items@.len() - i,
    {
        if i > 0 {
            out.push(sep);
            proof {
                lemma_join_step(all, seq![sep], i as int);
            }
        } else {
            assert(all.take(1) =~= seq![all[0]]);
        }
        append(out, items[i].as_slice());
        assert(out@ =~= start + join_texts(all.take(i as int + 1), seq![sep]));
        i += 1;
    }
    assert(all.take(items@.len() as int) == all);
}

fn protocol_debug_name(p: crate::config::StdioProtocol) -> (s: &'static str)
    ensures
        s@ == protocol_debug_text(p),
{
    match p {
        crate::config::StdioProtocol::Auto => "Auto",
        crate::config::StdioProtocol::ContentLength => "ContentLength",
        crate::config::StdioProtocol::JsonLines => "JsonLines",
    }
}

proof fn lemma_sorted_is_sort_by(items: Seq<Seq<char>>, sorted: Seq<Seq<char>>)
    requires
        sorted_by(sorted, text_order()),
        sorted.to_multiset() == items.to_multiset(),
    ensures
        sorted == items.sort_by(text_order()),
{
    lemma_text_order_total();
    items.lemma_sort_by_ensures(text_order());
    lemma_sorted_texts_unique(sorted, items.sort_by(text_order()));
}

/// The identity of the process a server's configuration starts; see `signature_text`.
pub fn server_signature(server: &ServerConfig) -> (s: String)
    ensures
        s@ == signature_text(server@),
{
    let s = signature_with_protocol(server, server.stdio_protocol);
    assert(with_protocol(server@, server.stdio_protocol) == server@);
    s
}

/// A server's configuration with its framing set to `protocol`.
pub open spec fn with_protocol(s: ServerModel, protocol: crate::config::StdioProtocol) -> ServerModel {
    ServerModel { stdio_protocol: protocol, ..s }
}

/// The identity of the pooled process that speaks to a server in `protocol`: the
/// signature of its configuration with that framing.
pub fn pooled_signature(server: &ServerConfig, protocol: NegotiatedStdioProtocol) -> (s: String)
    ensures
        s@ == signature_text(with_protocol(server@, as_configured(protocol))),
{
    signature_with_protocol(server, crate::config::StdioProtocol::from(protocol))
}

fn signature_with_protocol(server: &ServerConfig, protocol: crate::config::StdioProtocol) -> (s: String)
    ensures
        s@ == signature_text(with_protocol(server@, protocol)),
{
    proof {
        reveal_strlit("|");
        reveal_strlit("\u{1f}");
        reveal_strlit("\u{1e}");
        reveal_strlit("=");
        assert("|"@ =~= seq!['|']);
        assert("\u{1f}"@ =~= seq!['\u{1f}']);
        assert("\u{1e}"@ =~= seq!['\u{1e}']);
        assert("="@ =~= seq!['=']);
    }
    let mut out = chars_of(server.command.as_str());
    out.push('|');
    assert(out@ =~= server.command@ + "|"@);
    let mut args: Vec<Vec<char>> = Vec::new();
    let mut i: usize = 0;
    while i < server.args.len()
        invariant
            i <= server.args@.len(),
            char_texts(args@) == texts(server.args@).take(i as int),
        decreases server.args@.len() - i,
    {
        let cs = chars_of(server.args[i].as_str());
        let ghost prev = char_texts(args@);
        let ghost v = cs@;
        args.push(cs);
        assert(char_texts(args@) =~= prev.push(v));
        assert(texts(server.args@)[i as int] == server.args@[i as int]@);
        assert(texts(server.args@).take(i as int + 1) =~= texts(server.args@).take(i as int).push(v));
        i += 1;
    }
    assert(texts(server.args@).take(server.args@.len() as int) == texts(server.args@));
    let ghost a1 = out@;
    append_joined(&mut out, &args, '\u{1f}');
    assert("\u{1f}"@ =~= seq!['\u{1f}']);
    assert(out@ =~= a1 + join_texts(server@.args, "\u{1f}"@));
    out.push('|');
    append_str(&mut out, server.cwd.as_str());
    out.push('|');
    let ghost a2 = server.command@ + "|"@ + join_texts(server@.args, "\u{1f}"@) + "|"@ + server.cwd@ + "|"@;
    assert(out@ =~= a2);
    let mut items: Vec<Vec<char>> = Vec::new();
    let mut j: usize = 0;
    while j < server.env.len()
        invariant
            j <= server.env@.len(),
            char_texts(items@) == env_item_texts(pair_texts(server.env@)).take(j as int),
        decreases server.env@.len() - j,
    {
        let mut item = chars_of(server.env[j].0.as_str());
        item.push('=');
        append_str(&mut item, server.env[j].1.as_str());
        let ghost v = item@;
        proof {
            reveal_strlit("=");
        }
        assert("="@ =~= seq!['=']);
        assert(v =~= server.env@[j as int].0@ + "="@ + server.env@[j as int].1@);
        let ghost prev = char_texts(items@);
        items.push(item);
        assert(char_texts(items@) =~= prev.push(v));
        assert(env_item_texts(pair_texts(server.env@))[j as int] == v);
        assert(env_item_texts(pair_texts(server.env@)).take(j as int + 1) =~= env_item_texts(
            pair_texts(server.env@),
        ).take(j as int).push(v));
        j += 1;
    }
    assert(env_item_texts(pair_texts(server.env@)).take(server.env@.len() as int)
        == env_item_texts(pair_texts(server.env@)));
    let sorted = sort_texts(items);
    proof {
        lemma_sorted_is_sort_by(env_item_texts(pair_texts(server.env@)), char_texts(sorted@));
    }
    append_joined(&mut out, &sorted, '\u{1e}');
    assert("\u{1e}"@ =~= seq!['\u{1e}']);
    let ghost a3 = a2 + join_texts(env_item_texts(server@.env).sort_by(text_order()), "\u{1e}"@);
    assert(out@ =~= a3);
    out.push('|');
    if server.enabled {
        append_str(&mut out, "true");
    } else {
        append_str(&mut out, "false");
    }
    out.push('|');
    let ghost a4 = a3 + "|"@ + bool_text(server.enabled) + "|"@;
    assert(out@ =~= a4);
    append_str(&mut out, protocol_debug_name(protocol));
    assert(out@ =~= signature_text(with_protocol(server@, protocol)));
    string_of(out.as_slice())
}

proof fn lemma_map_values_multiset<A, B>(s1: Seq<A>, s2: Seq<A>, f: spec_fn(A) -> B)
    requires
        s1.to_multiset() == s2.to_multiset(),
    ensures
        s1.map_values(f).to_multiset() == s2.map_values(f).to_multiset(),
    decreases s1.len(),
{
    broadcast use vstd::seq_lib::group_to_multiset_ensures;
    broadcast use vstd::multiset::group_multiset_axioms;

    if s1.len() == 0 {
        assert(s2.len() == s2.to_multiset().len());
        assert(s2.map_values(f) =~= Seq::<B>::empty());
        assert(s1.map_values(f) =~= Seq::<B>::empty());
    } else {
        let x = s1.last();
        let d1 = s1.drop_last();
        assert(s1 =~= d1.push(x));
        assert(s1.to_multiset().count(x) > 0);
        assert(s2.contains(x));
        let j = choose|j: int| 0 <= j < s2.len() && s2[j] == x;
        let d2 = s2.remove(j);
        vstd::seq_lib::to_multiset_remove(s2, j);
        assert(d1.to_multiset() =~= d2.to_multiset());
        lemma_map_values_multiset(d1, d2, f);
        assert(s1.map_values(f) =~= d1.map_values(f).push(f(x)));
        assert(s2 =~= d2.insert(j, x));
        assert(s2.map_values(f) =~= d2.map_values(f).insert(j, f(x)));
        vstd::seq_lib::to_multiset_insert(d2.map_values(f), j, f(x));
    }
}

/// Two servers that differ only in the order of their environment entries start the
/// same process: their signatures are equal.
pub proof fn lemma_signature_ignores_env_order(a: ServerModel, b: ServerModel)
    requires
        a.command == b.command,
        a.args == b.args,
        a.cwd == b.cwd,
        a.enabled == b.enabled,
        a.stdio_protocol == b.stdio_protocol,
        a.env.to_multiset() == b.env.to_multiset(),
    ensures
        signature_text(a) == signature_text(b),
{
    lemma_map_values_multiset(a.env, b.env, |p: (Seq<char>, Seq<char>)| env_item_text(p));
    let x = env_item_texts(a.env);
    let y = env_item_texts(b.env);
    lemma_text_order_total();
    x.lemma_sort_by_ensures(text_order());
    y.lemma_sort_by_ensures(text_order());
    lemma_sorted_texts_unique(x.sort_by(text_order()), y.sort_by(text_order()));
}

} // verus!

verus! {

/// Two servers that differ in whether they are enabled, or in their framing, and in
/// nothing else that the signature reads, start different processes: their signatures
/// differ.
pub proof fn lemma_signature_tells_enabled_and_protocol(a: ServerModel, b: ServerModel)
    requires
        a.command == b.command,
        a.args == b.args,
        a.cwd == b.cwd,
        a.env == b.env,
        a.enabled != b.enabled || a.stdio_protocol != b.stdio_protocol,
    ensures
        signature_text(a) != signature_text(b),
{
    reveal_strlit("true");
    reveal_strlit("false");
    reveal_strlit("Auto");
    reveal_strlit("ContentLength");
    reveal_strlit("JsonLines");
    reveal_strlit("|");
    let pre = a.command + "|"@ + join_texts(a.args, "\u{1f}"@) + "|"@ + a.cwd + "|"@ + join_texts(
        env_item_texts(a.env).sort_by(text_order()),
        "\u{1e}"@,
    ) + "|"@;
    assert(signature_text(a) == pre + bool_text(a.enabled) + "|"@ + protocol_debug_text(a.stdio_protocol));
    assert(signature_text(b) == pre + bool_text(b.enabled) + "|"@ + protocol_debug_text(b.stdio_protocol));
    if a.enabled != b.enabled && a.stdio_protocol == b.stdio_protocol {
        assert(bool_text(a.enabled).len() != bool_text(b.enabled).len());
        assert(signature_text(a).len() != signature_text(b).len());
    } else if a.enabled == b.enabled {
        assert(protocol_debug_text(a.stdio_protocol).len() != protocol_debug_text(b.stdio_protocol).len());
        assert(signature_text(a).len() != signature_text(b).len());
    } else {
        let k = pre.len() as int;
        if signature_text(a) == signature_text(b) {
            let x = signature_text(a);
            if a.enabled {
                assert(x[k + 4] == '|');
                assert(signature_text(b)[k + 4] == 'e');
            } else {
                assert(x[k + 4] == 'e');
                assert(signature_text(b)[k + 4] == '|');
            }
        }
    }
}

} // verus!

verus! {

proof fn lemma_distinct_env_count(e: Seq<(Seq<char>, Seq<char>)>, x: (Seq<char>, Seq<char>))
    requires
        env_keys_distinct(e),
    ensures
        e.to_multiset().count(x) == if e.contains(x) {
            1nat
        } else {
            0nat
        },
    decreases e.len(),
{
    broadcast use vstd::seq_lib::group_to_multiset_ensures;
    broadcast use vstd::multiset::group_multiset_axioms;

    if e.len() == 0 {
        assert(!e.contains(x));
    } else {
        let d = e.drop_last();
        let l = e.last();
        assert(e =~= d.push(l));
        assert(env_keys_distinct(d)) by {
            assert forall|i: int, j: int| 0 <= i < j < d.len() implies (#[trigger] d[i]).0 != (
            #[trigger] d[j]).0 by {
                assert(d[i] == e[i] && d[j] == e[j]);
            }
        }
        lemma_distinct_env_count(d, x);
        if x == l {
            if d.contains(l) {
                let j = choose|j: int| 0 <= j < d.len() && d[j] == l;
                assert(e[j].0 == e[e.len() - 1].0);
            }
            assert(e.contains(x)) by {
                assert(e[e.len() - 1] == x);
            }
        } else {
            if e.contains(x) {
                let j = choose|j: int| 0 <= j < e.len() && e[j] == x;
                assert(j < d.len());
                assert(d[j] == x);
            }
            if d.contains(x) {
                let j = choose|j: int| 0 <= j < d.len() && d[j] == x;
                assert(e[j] == x);
            }
        }
    }
}

proof fn lemma_distinct_env_contains(e: Seq<(Seq<char>, Seq<char>)>, x: (Seq<char>, Seq<char>))
    requires
        env_keys_distinct(e),
    ensures
        e.contains(x) == (env_map(e).contains_key(x.0) && env_map(e)[x.0] == x.1),
{
    if e.contains(x) {
        let j = choose|j: int| 0 <= j < e.len() && e[j] == x;
        assert(has_env_key(e, x.0));
        let c = choose|c: int| 0 <= c < e.len() && (#[trigger] e[c]).0 == x.0;
        if c < j {
            assert(e[c].0 != e[j].0);
        } else if j < c {
            assert(e[j].0 != e[c].0);
        }
    }
    if env_map(e).contains_key(x.0) && env_map(e)[x.0] == x.1 {
        let c = choose|c: int| 0 <= c < e.len() && (#[trigger] e[c]).0 == x.0;
        assert(e[c] == x);
    }
}

/// Two well-formed servers whose environments set the same variables to the same
/// values, in whatever order the entries stand, and which agree in their command,
/// arguments, directory, enabled flag and framing, start the same process: their
/// signatures are equal, whatever their names, descriptions or lifecycles.
pub proof fn lemma_signature_depends_on_env_map(a: ServerModel, b: ServerModel)
    requires
        server_wf(a),
        server_wf(b),
        a.command == b.command,
        a.args == b.args,
        a.cwd == b.cwd,
        a.enabled == b.enabled,
        a.stdio_protocol == b.stdio_protocol,
        env_map(a.env) == env_map(b.env),
    ensures
        signature_text(a) == signature_text(b),
{
    assert forall|x: (Seq<char>, Seq<char>)| a.env.to_multiset().count(x) == b.env.to_multiset().count(x) by {
        lemma_distinct_env_count(a.env, x);
        lemma_distinct_env_count(b.env, x);
        lemma_distinct_env_contains(a.env, x);
        lemma_distinct_env_contains(b.env, x);
    }
    assert(a.env.to_multiset() =~= b.env.to_multiset());
    lemma_signature_ignores_env_order(a, b);
}

} // verus!
