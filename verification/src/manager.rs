//! The decisions the process manager takes around a request: whether to try the other
//! framing after a failure and what it learns from that try, whether a pooled process
//! can be reused, and how long it waits for the response to a request.
use vstd::prelude::*;

use crate::error::AppError;
use crate::json::{json_member, json_member_of};
use crate::protocol::{
    alternate_protocol, as_configured, fallback_failed_error, fallback_failed_text,
    init_fallback_failed_error, init_fallback_failed_text, other_protocol,
    NegotiatedStdioProtocol,
};
use crate::registry::NameMap;
use crate::runtime::{wait_exhausted_error, wait_exhausted_text};

verus! {

// ---------------------------------------------------------------------------
// Falling back to the other framing
// ---------------------------------------------------------------------------

/// What to do after a request failed in the framing it was sent in.
#[derive(Debug, Clone, Copy, PartialEq, Eq, Structural)]
pub enum FallbackPlan {
    /// Give up with the error of that try.
    GiveUp,
    /// Send the request again in `protocol`, after shutting the pooled process down
    /// where `evict_first` is set.
    Retry { protocol: NegotiatedStdioProtocol, evict_first: bool },
}

/// Decides, after a request to `server_name` failed in `effective`, whether the other
/// framing is tried (`applies`, see `should_attempt_protocol_fallback`). Where it is,
/// the other framing is recorded as the server's framing before the second try, and a
/// pooled process (`pooled`) is shut down first; otherwise nothing changes.
pub fn plan_after_primary_failure(
    hints: &mut NameMap<NegotiatedStdioProtocol>,
    server_name: &str,
    effective: NegotiatedStdioProtocol,
    pooled: bool,
    applies: bool,
) -> (p: FallbackPlan)
    ensures
        !applies ==> p == FallbackPlan::GiveUp && final(hints)@ == old(hints)@,
        applies ==> p == (FallbackPlan::Retry { protocol: other_protocol(effective), evict_first: pooled })
            && final(hints)@ == old(hints)@.insert(server_name@, other_protocol(effective)),
{
    if !applies {
        return FallbackPlan::GiveUp;
    }
    let fallback = alternate_protocol(effective);
    hints.insert(String::from_str(server_name), fallback);
    FallbackPlan::Retry { protocol: fallback, evict_first: pooled }
}

/// Settles a request to `server_name` that failed in `effective` with `primary` and
/// was sent again in the other framing, with `outcome`. A success is returned as it is,
/// and the other framing stays recorded. A failure forgets the recorded framing and
/// gives an upstream error that names both framings and both errors.
pub fn settle_fallback<V>(
    hints: &mut NameMap<NegotiatedStdioProtocol>,
    server_name: &str,
    primary: &AppError,
    effective: NegotiatedStdioProtocol,
    outcome: Result<V, AppError>,
) -> (r: Result<V, AppError>)
    ensures
        outcome is Ok ==> r == outcome && final(hints)@ == old(hints)@,
        outcome is Err ==> final(hints)@ == old(hints)@.remove(server_name@) && (r matches Err(
            AppError::Upstream(m),
        ) && m@ == fallback_failed_text(
            as_configured(effective),
            as_configured(other_protocol(effective)),
            *primary,
            outcome->Err_0,
        )),
{
    match outcome {
        Ok(v) => Ok(v),
        Err(second) => {
            hints.remove(server_name);
            Err(
                fallback_failed_error(
                    crate::config::StdioProtocol::from(effective),
                    crate::config::StdioProtocol::from(alternate_protocol(effective)),
                    primary,
                    &second,
                ),
            )
        },
    }
}

/// Settles an `initialize` to `server_name` that failed with `primary` and was sent
/// again in the other framing, with `outcome`. A success is returned as it is, and the
/// other framing stays recorded. A failure forgets the recorded framing and gives an
/// upstream error that names both errors.
pub fn settle_init_fallback<V>(
    hints: &mut NameMap<NegotiatedStdioProtocol>,
    server_name: &str,
    primary: &AppError,
    outcome: Result<V, AppError>,
) -> (r: Result<V, AppError>)
    ensures
        outcome is Ok ==> r == outcome && final(hints)@ == old(hints)@,
        outcome is Err ==> final(hints)@ == old(hints)@.remove(server_name@) && (r matches Err(
            AppError::Upstream(m),
        ) && m@ == init_fallback_failed_text(*primary, outcome->Err_0)),
{
    match outcome {
        Ok(v) => Ok(v),
        Err(second) => {
            hints.remove(server_name);
            Err(init_fallback_failed_error(primary, &second))
        },
    }
}

// ---------------------------------------------------------------------------
// Pooled processes
// ---------------------------------------------------------------------------

/// Whether the pooled process of a server, started with `existing_signature` (if there
/// is one), can serve a request that needs a process with `signature`: exactly when the
/// two signatures are the same.
pub fn reuse_pooled(existing_signature: Option<&str>, signature: &str) -> (reuse: bool)
    ensures
        reuse == (existing_signature matches Some(s) && s@ == signature@),
{
    match existing_signature {
        Some(s) => {
            let a = crate::text::chars_of(s);
            let b = crate::text::chars_of(signature);
            crate::text::chars_equal(a.as_slice(), b.as_slice())
        },
        None => false,
    }
}

// ---------------------------------------------------------------------------
// Cached tool lists
// ---------------------------------------------------------------------------

/// The tool list cached for a server: the one named `server_name` in `cache`, unless
/// a `refresh` is asked for or none is cached, where the list is fetched anew (`None`).
pub fn cached_tools<'a, V>(cache: &'a NameMap<V>, server_name: &str, refresh: bool) -> (r: Option<&'a V>)
    ensures
        match r {
            Some(v) => !refresh && cache@.contains_key(server_name@) && *v == cache@[server_name@],
            None => refresh || !cache@.contains_key(server_name@),
        },
{
    if refresh {
        None
    } else {
        cache.get(server_name)
    }
}

// ---------------------------------------------------------------------------
// Waiting for the response to a request
// ---------------------------------------------------------------------------

/// The id that the response to `request` carries: its `id` member. A request without
/// one is a notification, and no response is waited for.
pub fn expected_response_id(request: &serde_json::Value) -> (r: Option<serde_json::Value>)
    ensures
        r == json_member_of(*request, "id"@),
{
    json_member(request, "id")
}

/// What a wait for a response does next.
#[derive(Debug)]
pub enum WaitStep {
    /// Read the next message; this many unrelated messages have been read so far.
    ReadNext(u32),
    /// The message just read is the response.
    Done,
    /// Give up with this error: the allowed number of messages was read.
    Exhausted(AppError),
}

/// A `WaitStep`, with the error of giving up left to its text.
pub enum WaitModel {
    ReadNext(u32),
    Done,
    Exhausted,
}

/// How a wait that may read `max` unrelated messages begins: it reads one, unless
/// `max` is zero.
pub open spec fn wait_first_model(max: u32) -> WaitModel {
    if 0 < max {
        WaitModel::ReadNext(0)
    } else {
        WaitModel::Exhausted
    }
}

/// What a wait does after reading a message, `iterations` unrelated ones having been
/// read before it: it is done where the message matched; else one more unrelated
/// message has been read, and it reads another while that count is under `max`.
pub open spec fn wait_next_model(iterations: u32, max: u32, matched: bool) -> WaitModel {
    if matched {
        WaitModel::Done
    } else {
        let n: u32 = if iterations == u32::MAX {
            u32::MAX
        } else {
            (iterations + 1) as u32
        };
        if n < max {
            WaitModel::ReadNext(n)
        } else {
            WaitModel::Exhausted
        }
    }
}

/// Whether a step is what the model says, the error of giving up by its text.
pub open spec fn wait_step_matches(s: WaitStep, m: WaitModel, max: u32) -> bool {
    match m {
        WaitModel::ReadNext(n) => s matches WaitStep::ReadNext(k) && k == n,
        WaitModel::Done => s is Done,
        WaitModel::Exhausted => s matches WaitStep::Exhausted(AppError::Upstream(t)) && t@
            == wait_exhausted_text(max),
    }
}

/// How a wait that may read `max` unrelated messages begins.
pub fn wait_first(max: u32) -> (s: WaitStep)
    ensures
        wait_step_matches(s, wait_first_model(max), max),
{
    if 0 < max {
        WaitStep::ReadNext(0)
    } else {
        WaitStep::Exhausted(wait_exhausted_error(max))
    }
}

/// What a wait that may read `max` unrelated messages does after reading one that
/// `matched` the request or not, `iterations` unrelated ones having been read before.
pub fn wait_step(iterations: u32, max: u32, matched: bool) -> (s: WaitStep)
    ensures
        wait_step_matches(s, wait_next_model(iterations, max, matched), max),
{
    if matched {
        return WaitStep::Done;
    }
    let n = iterations.saturating_add(1);
    if n < max {
        WaitStep::ReadNext(n)
    } else {
        WaitStep::Exhausted(wait_exhausted_error(max))
    }
}

/// A wait driven by messages of which `matches[k]` says whether the `k`-th read answers
/// the request: where it ends, and how many messages it read (it ends also where no
/// message is left, in the state it then stands in).
pub open spec fn drive_wait(matches: Seq<bool>, max: u32, state: WaitModel, reads: nat) -> (
    WaitModel,
    nat,
)
    decreases matches.len() - reads,
{
    match state {
        WaitModel::ReadNext(i) => if reads < matches.len() {
            drive_wait(matches, max, wait_next_model(i, max, matches[reads as int]), reads + 1)
        } else {
            (state, reads)
        },
        _ => (state, reads),
    }
}

proof fn lemma_drive_from(matches: Seq<bool>, max: u32, reads: nat)
    requires
        reads < max,
        max <= matches.len(),
        forall|k: int| 0 <= k < reads ==> !matches[k],
    ensures
        (exists|j: int| reads <= j < max && #[trigger] matches[j]) ==> ({
            let j = choose|j: int| reads <= j < max && #[trigger] matches[j] && forall|k: int|
                reads <= k < j ==> !matches[k];
            drive_wait(matches, max, WaitModel::ReadNext(reads as u32), reads) == (
                WaitModel::Done,
                (j + 1) as nat,
            )
        }),
        (forall|k: int| 0 <= k < max ==> !#[trigger] matches[k]) ==> drive_wait(
            matches,
            max,
            WaitModel::ReadNext(reads as u32),
            reads,
        ) == (WaitModel::Exhausted, max as nat),
    decreases max - reads,
{
    assert(reads < matches.len());
    let next = wait_next_model(reads as u32, max, matches[reads as int]);
    assert(drive_wait(matches, max, WaitModel::ReadNext(reads as u32), reads) == drive_wait(
        matches,
        max,
        next,
        reads + 1,
    ));
    if matches[reads as int] {
        assert(next == WaitModel::Done);
        if exists|j: int| reads <= j < max && #[trigger] matches[j] {
            let j = choose|j: int| reads <= j < max && #[trigger] matches[j] && forall|k: int|
                reads <= k < j ==> !matches[k];
            assert(reads <= j < max && matches[j] && forall|k: int| reads <= k < j ==> !matches[k])
                by {
                lemma_first_exists(matches, reads as int, max as int);
            }
            if j > reads {
                assert(!matches[reads as int]);
            }
        }
    } else if reads + 1 < max {
        assert(next == WaitModel::ReadNext((reads + 1) as u32));
        lemma_drive_from(matches, max, reads + 1);
        if exists|j: int| reads <= j < max && #[trigger] matches[j] {
            lemma_first_exists(matches, reads as int, max as int);
            lemma_first_exists(matches, reads as int + 1, max as int);
            let j = choose|j: int| reads <= j < max && #[trigger] matches[j] && forall|k: int|
                reads <= k < j ==> !matches[k];
            let j2 = choose|j: int| reads + 1 <= j < max && #[trigger] matches[j] && forall|k: int|
                reads + 1 <= k < j ==> !matches[k];
            lemma_first_unique(matches, reads as int, j, j2);
        }
    } else {
        assert(next == WaitModel::Exhausted);
        assert(reads + 1 == max);
        if exists|j: int| reads <= j < max && #[trigger] matches[j] {
            let j = choose|j: int| reads <= j < max && #[trigger] matches[j];
            assert(j == reads);
        }
    }
}

proof fn lemma_first_exists(matches: Seq<bool>, lo: int, hi: int)
    requires
        exists|j: int| lo <= j < hi && #[trigger] matches[j],
    ensures
        exists|j: int| lo <= j < hi && #[trigger] matches[j] && forall|k: int| lo <= k < j ==> !matches[k],
    decreases hi - lo,
{
    if matches[lo] {
        assert(lo <= lo < hi && matches[lo] && forall|k: int| lo <= k < lo ==> !matches[k]);
    } else {
        let w = choose|j: int| lo <= j < hi && #[trigger] matches[j];
        assert(lo + 1 <= w < hi && matches[w]);
        lemma_first_exists(matches, lo + 1, hi);
        let j = choose|j: int| lo + 1 <= j < hi && #[trigger] matches[j] && forall|k: int|
            lo + 1 <= k < j ==> !matches[k];
        assert(forall|k: int| lo <= k < j ==> !matches[k]) by {
            assert forall|k: int| lo <= k < j implies !matches[k] by {
                if k > lo {
                    assert(lo + 1 <= k < j);
                }
            }
        }
    }
}

proof fn lemma_first_unique(matches: Seq<bool>, lo: int, j: int, j2: int)
    requires
        lo <= j && matches[j] && forall|k: int| lo <= k < j ==> !matches[k],
        lo <= j2 && matches[j2] && forall|k: int| lo <= k < j2 ==> !matches[k],
    ensures
        j == j2,
{
    if j < j2 {
        assert(!matches[j]);
    } else if j2 < j {
        assert(!matches[j2]);
    }
}

/// A request's wait, given at least `max` messages, ends with the first message that
/// answers the request where one of the first `max` does, after reading exactly up to
/// it; where none of them does, it gives up after reading `max` messages.
pub proof fn lemma_wait_finds_first_response(matches: Seq<bool>, max: u32)
    requires
        max <= matches.len(),
    ensures
        forall|j: int|
            0 <= j < max && #[trigger] matches[j] && (forall|k: int| 0 <= k < j ==> !matches[k])
                ==> drive_wait(matches, max, wait_first_model(max), 0) == (WaitModel::Done, (j
                + 1) as nat),
        (forall|k: int| 0 <= k < max ==> !#[trigger] matches[k]) ==> drive_wait(
            matches,
            max,
            wait_first_model(max),
            0,
        ) == (WaitModel::Exhausted, max as nat),
{
    if max > 0 {
        lemma_drive_from(matches, max, 0);
        assert forall|j: int|
            0 <= j < max && #[trigger] matches[j] && (forall|k: int| 0 <= k < j ==> !matches[k])
                implies drive_wait(matches, max, wait_first_model(max), 0) == (WaitModel::Done, (j
                + 1) as nat) by {
            lemma_first_exists(matches, 0, max as int);
            let j2 = choose|j: int| 0 <= j < max && #[trigger] matches[j] && forall|k: int|
                0 <= k < j ==> !matches[k];
            lemma_first_unique(matches, 0, j, j2);
        }
    }
}

} // verus!
