//! The get-or-miss decisions of the buffered and streaming response cache.
//!
//! Each call walks the same steps: derive a key (or a bypass reason), draw
//! the sampled-bypass coin, look the key up, then either replay the stored
//! entry or run the call live, optionally storing what comes back. The
//! caller owns the store, the provider call and the clock; the functions
//! here decide, step by step, what happens next and which mark records it.

use vstd::prelude::*;
use crate::json::{jget_str, Json, JsonV};
use crate::marks::{CacheMark, CacheMarkStatus, CacheReason, CacheSurface, MarkV};
use crate::cache_shapes::{
    aggregate_has_no_content, aggregate_replay_lossy, chunk_has_uncollected_response_fields,
    chunk_is_inband_error, chunk_uncollected, error_response, finished_indexes, observed_indexes, inband_error, is_error_response,
    no_content, replay_lossy, StreamCompletion,
};

verus! {

/// What key derivation produced: a key, or the reason the call is not
/// cacheable.
#[derive(Debug, PartialEq, Eq)]
pub enum KeyOutcome {
    Key(String),
    Bypass(CacheReason),
}

pub enum KeyV {
    Key(Seq<char>),
    Bypass(CacheReason),
}

impl View for KeyOutcome {
    type V = KeyV;

    open spec fn view(&self) -> KeyV {
        match self {
            KeyOutcome::Key(k) => KeyV::Key(k@),
            KeyOutcome::Bypass(r) => KeyV::Bypass(*r),
        }
    }
}

/// What a store lookup returned.
#[derive(Clone, Copy, Debug, PartialEq, Eq, Structural)]
pub enum Lookup {
    /// An entry created at the given time.
    Found { created_unix_ms: u64 },
    Absent,
    /// The store could not be read.
    Failed,
}

/// The next step of a cached call.
pub enum CacheStep {
    /// Run the call live after recording `mark`; store the result under
    /// `store_key` when one is given.
    RunLive { mark: CacheMark, store_key: Option<String> },
    /// Look `key` up in the store.
    Lookup { key: String },
    /// Serve the stored entry after recording `mark`.
    Replay { mark: CacheMark },
}

pub enum StepV {
    RunLive { mark: MarkV, store_key: Option<Seq<char>> },
    Lookup { key: Seq<char> },
    Replay { mark: MarkV },
}

impl View for CacheStep {
    type V = StepV;

    open spec fn view(&self) -> StepV {
        match self {
            CacheStep::RunLive { mark, store_key } => StepV::RunLive {
                mark: mark@,
                store_key: match store_key {
                    Some(k) => Some(k@),
                    None => None,
                },
            },
            CacheStep::Lookup { key } => StepV::Lookup { key: key@ },
            CacheStep::Replay { mark } => StepV::Replay { mark: mark@ },
        }
    }
}

/// A mark with the given fields.
pub open spec fn mark_of(
    status: CacheMarkStatus,
    surface: CacheSurface,
    reason: Option<CacheReason>,
    key_hash: Option<Seq<char>>,
    age_ms: Option<u64>,
    ttl_ms: Option<u64>,
    saved_invocations: Option<u64>,
) -> MarkV {
    MarkV { status, surface, reason, key_hash, age_ms, ttl_ms, saved_invocations }
}

/// The first step of a cached call once its key is known: a bypass reason
/// runs live unstored; a sampled call runs live and refreshes the entry;
/// otherwise the key is looked up.
pub open spec fn plan_spec(surface: CacheSurface, key: KeyV, sampled: bool) -> StepV {
    match key {
        KeyV::Bypass(reason) => StepV::RunLive {
            mark: mark_of(CacheMarkStatus::Bypass, surface, Some(reason), None, None, None, None),
            store_key: None,
        },
        KeyV::Key(k) => if sampled {
            StepV::RunLive {
                mark: mark_of(CacheMarkStatus::Bypass, surface, Some(CacheReason::Sampled), Some(k), None, None, None),
                store_key: Some(k),
            }
        } else {
            StepV::Lookup { key: k }
        },
    }
}

/// The step after looking up `key`: a stored entry is replayed (unless its
/// streamed replay would be lossy, which runs live without touching it); an
/// absent entry runs live and stores; an unreadable store runs live unstored.
pub open spec fn after_lookup_spec(
    key: Seq<char>,
    lookup: Lookup,
    now_ms: u64,
    ttl_ms: u64,
    lossy_replay: bool,
) -> StepV {
    match lookup {
        Lookup::Found { created_unix_ms } => if lossy_replay {
            StepV::RunLive {
                mark: mark_of(CacheMarkStatus::Miss, CacheSurface::Llm, Some(CacheReason::ReplayLossy), Some(key), None, None, None),
                store_key: None,
            }
        } else {
            StepV::Replay {
                mark: mark_of(
                    CacheMarkStatus::Hit,
                    CacheSurface::Llm,
                    None,
                    Some(key),
                    Some(if now_ms >= created_unix_ms { (now_ms - created_unix_ms) as u64 } else { 0 }),
                    Some(ttl_ms),
                    None,
                ),
            }
        },
        Lookup::Absent => StepV::RunLive {
            mark: mark_of(CacheMarkStatus::Miss, CacheSurface::Llm, None, Some(key), None, Some(ttl_ms), None),
            store_key: Some(key),
        },
        Lookup::Failed => StepV::RunLive {
            mark: mark_of(CacheMarkStatus::Miss, CacheSurface::Llm, Some(CacheReason::StoreError), Some(key), None, None, None),
            store_key: None,
        },
    }
}

fn copy_string(s: &String) -> (out: String)
    ensures
        out@ == s@,
{
    s.clone()
}

/// The first step of a cached call on `surface`, given its key outcome and
/// whether the sampled-bypass draw fired (only consulted for a key).
pub fn plan_call(surface: CacheSurface, key: &KeyOutcome, sampled: bool) -> (step: CacheStep)
    ensures
        step@ == plan_spec(surface, key@, sampled),
{
    match key {
        KeyOutcome::Bypass(reason) => {
            let mut mark = CacheMark::new(CacheMarkStatus::Bypass, surface);
            mark.reason = Some(*reason);
            CacheStep::RunLive { mark, store_key: None }
        },
        KeyOutcome::Key(k) => {
            if sampled {
                let mut mark = CacheMark::new(CacheMarkStatus::Bypass, surface);
                mark.reason = Some(CacheReason::Sampled);
                mark.key_hash = Some(copy_string(k));
                CacheStep::RunLive { mark, store_key: Some(copy_string(k)) }
            } else {
                CacheStep::Lookup { key: copy_string(k) }
            }
        },
    }
}

/// The first step of a streamed call: without a streaming codec for the
/// request surface the call runs live and uncached; otherwise as
/// [`plan_call`].
pub fn plan_stream_call(codec_found: bool, key: &KeyOutcome, sampled: bool) -> (step: CacheStep)
    ensures
        !codec_found ==> step@ == (StepV::RunLive {
            mark: mark_of(CacheMarkStatus::Bypass, CacheSurface::Llm, Some(CacheReason::StreamNoCodec), None, None, None, None),
            store_key: None,
        }),
        codec_found ==> step@ == plan_spec(CacheSurface::Llm, key@, sampled),
{
    if !codec_found {
        let mut mark = CacheMark::new(CacheMarkStatus::Bypass, CacheSurface::Llm);
        mark.reason = Some(CacheReason::StreamNoCodec);
        return CacheStep::RunLive { mark, store_key: None };
    }
    plan_call(CacheSurface::Llm, key, sampled)
}

/// The step after looking up `key` for a model call. `lossy_replay` tells
/// whether a streamed replay of the found entry would be unfaithful (always
/// false for a buffered call).
pub fn after_lookup(key: &String, lookup: Lookup, now_ms: u64, ttl_ms: u64, lossy_replay: bool) -> (step: CacheStep)
    ensures
        step@ == after_lookup_spec(key@, lookup, now_ms, ttl_ms, lossy_replay),
{
    match lookup {
        Lookup::Found { created_unix_ms } => {
            if lossy_replay {
                let mut mark = CacheMark::new(CacheMarkStatus::Miss, CacheSurface::Llm);
                mark.reason = Some(CacheReason::ReplayLossy);
                mark.key_hash = Some(copy_string(key));
                CacheStep::RunLive { mark, store_key: None }
            } else {
                let mut mark = CacheMark::new(CacheMarkStatus::Hit, CacheSurface::Llm);
                mark.key_hash = Some(copy_string(key));
                mark.age_ms = Some(now_ms.saturating_sub(created_unix_ms));
                mark.ttl_ms = Some(ttl_ms);
                CacheStep::Replay { mark }
            }
        },
        Lookup::Absent => {
            let mut mark = CacheMark::new(CacheMarkStatus::Miss, CacheSurface::Llm);
            mark.key_hash = Some(copy_string(key));
            mark.ttl_ms = Some(ttl_ms);
            CacheStep::RunLive { mark, store_key: Some(copy_string(key)) }
        },
        Lookup::Failed => {
            let mut mark = CacheMark::new(CacheMarkStatus::Miss, CacheSurface::Llm);
            mark.reason = Some(CacheReason::StoreError);
            mark.key_hash = Some(copy_string(key));
            CacheStep::RunLive { mark, store_key: None }
        },
    }
}

/// Whether a live response may be stored: failed calls never are.
pub fn should_store_response(response: &Json) -> (store: bool)
    ensures
        store == !error_response(response@),
{
    !is_error_response(response)
}

/// The tee of a live stream: whether any chunk so far disqualified the
/// stream from being stored, and what the chunks said about completion.
pub struct StreamTee {
    rejected: bool,
    completion: StreamCompletion,
}

impl StreamTee {
    /// Whether some chunk was an in-band error, carried fields the collector
    /// cannot keep, or was refused by the collector.
    pub closed spec fn rejected(&self) -> bool {
        self.rejected
    }

    pub closed spec fn completion(&self) -> StreamCompletion {
        self.completion
    }

    pub closed spec fn wf(&self) -> bool {
        self.completion.wf()
    }

    pub fn new() -> (tee: Self)
        ensures
            tee.wf(),
            !tee.rejected(),
            !tee.completion().terminal_spec(),
    {
        StreamTee { rejected: false, completion: StreamCompletion::new() }
    }

    /// Records a live chunk. Returns whether the chunk should be fed to the
    /// codec's collector: not when it already disqualifies the stream.
    pub fn admit_chunk(&mut self, chunk: &Json) -> (collect: bool)
        requires
            old(self).wf(),
        ensures
            final(self).wf(),
            collect == !(inband_error(chunk@) || chunk_uncollected(chunk@)),
            final(self).rejected() == (old(self).rejected() || !collect),
            final(self).completion().saw_stop() == (old(self).completion().saw_stop()
                || jget_str(chunk@, "type"@) == Some("message_stop"@)
                || jget_str(chunk@, "type"@) == Some("response.completed"@)),
            final(self).completion().seen() == old(self).completion().seen().union(observed_indexes(chunk@)),
            final(self).completion().finished() == old(self).completion().finished().union(finished_indexes(chunk@)),
    {
        let refuse = chunk_is_inband_error(chunk) || chunk_has_uncollected_response_fields(chunk);
        if refuse {
            self.rejected = true;
        }
        self.completion.observe(chunk);
        !refuse
    }

    /// Records that the collector refused a chunk.
    pub fn collector_refused(&mut self)
        requires
            old(self).wf(),
        ensures
            final(self).wf(),
            final(self).rejected(),
            final(self).completion() == old(self).completion(),
    {
        self.rejected = true;
    }

    /// After the live stream ended: the aggregate may be finalized only for
    /// a stream that reached its end, closed cleanly, had no disqualifying
    /// chunk and completed by its protocol.
    pub fn ready_to_finalize(&self, reached_eof: bool, close_ok: bool) -> (ready: bool)
        requires
            self.wf(),
        ensures
            ready == (reached_eof && close_ok && !self.rejected() && self.completion().terminal_spec()),
    {
        reached_eof && close_ok && !self.rejected && self.completion.is_terminal()
    }

    /// After the live stream ended, with the aggregate the codec assembled:
    /// whether to store it. Only a stream that reached its end and closed
    /// without error, with no disqualifying or refused chunk and a protocol
    /// completion, is stored, and only when its aggregate has content,
    /// replays faithfully and is not an error response.
    pub fn should_commit(&self, reached_eof: bool, close_ok: bool, aggregate: &Json) -> (commit: bool)
        requires
            self.wf(),
        ensures
            commit == commit_spec(*self, reached_eof, close_ok, aggregate@),
    {
        self.ready_to_finalize(reached_eof, close_ok) && aggregate_storable(aggregate)
            && should_store_response(aggregate)
    }
}

/// Whether a finalized aggregate is worth committing: it has content in some
/// provider shape and replays faithfully.
pub fn aggregate_storable(aggregate: &Json) -> (storable: bool)
    ensures
        storable == (!no_content(aggregate@) && !replay_lossy(aggregate@)),
{
    !aggregate_has_no_content(aggregate) && !aggregate_replay_lossy(aggregate)
}

/// What each step of a cached call records and does, by its inputs.
/// Planning: a key that could not be derived runs live unstored, marked a
/// bypass with its reason; a sampled call runs live and refreshes the entry,
/// marked a sampled bypass; otherwise the key is looked up. After the
/// lookup: a stored entry is replayed as a hit, aged by the time since it
/// was stored (never negative) and carrying the TTL; one whose streamed
/// replay would be lossy runs live, marked a lossy-replay miss, and is left
/// in place; an absent entry runs live and is stored, marked a miss with
/// the TTL; an unreadable store runs live unstored, marked a store-error
/// miss.
pub proof fn lemma_cached_call_marks(
    surface: CacheSurface,
    reason: CacheReason,
    key: Seq<char>,
    created_unix_ms: u64,
    now_ms: u64,
    ttl_ms: u64,
    lossy_replay: bool,
)
    ensures
        ({
            let s = plan_spec(surface, KeyV::Bypass(reason), lossy_replay);
            &&& s is RunLive && s->RunLive_store_key is None
            &&& s->RunLive_mark.status == CacheMarkStatus::Bypass && s->RunLive_mark.reason == Some(reason)
            &&& s->RunLive_mark.surface == surface
        }),
        ({
            let s = plan_spec(surface, KeyV::Key(key), true);
            &&& s is RunLive && s->RunLive_store_key == Some(key)
            &&& s->RunLive_mark.status == CacheMarkStatus::Bypass
            &&& s->RunLive_mark.reason == Some(CacheReason::Sampled)
            &&& s->RunLive_mark.key_hash == Some(key)
        }),
        plan_spec(surface, KeyV::Key(key), false) == (StepV::Lookup { key }),
        ({
            let s = after_lookup_spec(key, Lookup::Found { created_unix_ms }, now_ms, ttl_ms, false);
            &&& s is Replay
            &&& s->Replay_mark.status == CacheMarkStatus::Hit
            &&& s->Replay_mark.key_hash == Some(key)
            &&& s->Replay_mark.ttl_ms == Some(ttl_ms)
            &&& now_ms >= created_unix_ms ==> s->Replay_mark.age_ms == Some((now_ms - created_unix_ms) as u64)
            &&& now_ms < created_unix_ms ==> s->Replay_mark.age_ms == Some(0u64)
        }),
        ({
            let s = after_lookup_spec(key, Lookup::Found { created_unix_ms }, now_ms, ttl_ms, true);
            &&& s is RunLive && s->RunLive_store_key is None
            &&& s->RunLive_mark.status == CacheMarkStatus::Miss
            &&& s->RunLive_mark.reason == Some(CacheReason::ReplayLossy)
        }),
        ({
            let s = after_lookup_spec(key, Lookup::Absent, now_ms, ttl_ms, lossy_replay);
            &&& s is RunLive && s->RunLive_store_key == Some(key)
            &&& s->RunLive_mark.status == CacheMarkStatus::Miss && s->RunLive_mark.reason is None
            &&& s->RunLive_mark.ttl_ms == Some(ttl_ms)
        }),
        ({
            let s = after_lookup_spec(key, Lookup::Failed, now_ms, ttl_ms, lossy_replay);
            &&& s is RunLive && s->RunLive_store_key is None
            &&& s->RunLive_mark.status == CacheMarkStatus::Miss
            &&& s->RunLive_mark.reason == Some(CacheReason::StoreError)
        }),
{
}

/// The store key a step runs live with, `None` for other steps too.
pub open spec fn live_store_key(step: StepV) -> Option<Seq<char>> {
    match step {
        StepV::RunLive { store_key, .. } => store_key,
        _ => None,
    }
}

/// The paths of a cached call whose key is known and whose sampled-bypass
/// draw did not fire (`plan_call`, then `after_lookup`): the key is looked
/// up; an unreadable store runs the call live and stores nothing; a stored
/// entry is replayed without running the call, unless its streamed replay
/// would be lossy, which runs live and leaves the entry as it is; an absent
/// entry runs live and stores under the key, where `should_store_response`
/// keeps error responses out.
pub proof fn lemma_cached_call_paths(
    surface: CacheSurface,
    key: Seq<char>,
    created_unix_ms: u64,
    now_ms: u64,
    ttl_ms: u64,
    lossy_replay: bool,
)
    ensures
        plan_spec(surface, KeyV::Key(key), false) == (StepV::Lookup { key }),
        after_lookup_spec(key, Lookup::Failed, now_ms, ttl_ms, lossy_replay) is RunLive,
        live_store_key(after_lookup_spec(key, Lookup::Failed, now_ms, ttl_ms, lossy_replay)) is None,
        after_lookup_spec(key, Lookup::Found { created_unix_ms }, now_ms, ttl_ms, false) is Replay,
        after_lookup_spec(key, Lookup::Found { created_unix_ms }, now_ms, ttl_ms, true) is RunLive,
        live_store_key(after_lookup_spec(key, Lookup::Found { created_unix_ms }, now_ms, ttl_ms, true)) is None,
        after_lookup_spec(key, Lookup::Absent, now_ms, ttl_ms, lossy_replay) is RunLive,
        live_store_key(after_lookup_spec(key, Lookup::Absent, now_ms, ttl_ms, lossy_replay)) == Some(key),
{
}

/// Whether a tee that was `rejected` is rejected after `admit_chunk`
/// returned `collected` for each chunk in turn (each step keeps a rejection
/// and adds one for a chunk it did not collect).
pub open spec fn rejected_after(rejected: bool, collected: Seq<bool>) -> bool
    decreases collected.len(),
{
    if collected.len() == 0 {
        rejected
    } else {
        rejected_after(rejected || !collected[0], collected.drop_first())
    }
}

proof fn lemma_rejection_accumulates(rejected: bool, collected: Seq<bool>)
    ensures
        rejected_after(rejected, collected) <==> (rejected || collected.contains(false)),
    decreases collected.len(),
{
    if collected.len() > 0 {
        let rest = collected.drop_first();
        lemma_rejection_accumulates(rejected || !collected[0], rest);
        if rest.contains(false) {
            let i = choose|i: int| 0 <= i < rest.len() && rest[i] == false;
            assert(collected[i + 1] == false);
        }
        if collected.contains(false) && collected[0] {
            let i = choose|i: int| 0 <= i < collected.len() && collected[i] == false;
            assert(rest[i - 1] == false);
        }
    }
}

/// Whether a tee stores its stream's aggregate (`should_commit`).
pub open spec fn commit_spec(tee: StreamTee, reached_eof: bool, close_ok: bool, aggregate: JsonV) -> bool {
    reached_eof && close_ok && !tee.rejected() && tee.completion().terminal_spec()
        && !no_content(aggregate) && !replay_lossy(aggregate) && !error_response(aggregate)
}

/// The store law of a tee fed chunks through `admit_chunk` from `new`
/// (`collected[i]` what it returned for chunk `i`): its aggregate is stored
/// only when the stream reached its end and closed without error, every
/// chunk was collected, the completion is terminal, and the aggregate has
/// content, replays faithfully and is no error response.
pub proof fn lemma_store_needs_a_clean_stream(
    tee: StreamTee,
    collected: Seq<bool>,
    reached_eof: bool,
    close_ok: bool,
    aggregate: JsonV,
)
    requires
        tee.rejected() == rejected_after(false, collected),
    ensures
        commit_spec(tee, reached_eof, close_ok, aggregate) ==> {
            &&& reached_eof && close_ok
            &&& !collected.contains(false)
            &&& tee.completion().terminal_spec()
            &&& !no_content(aggregate) && !replay_lossy(aggregate) && !error_response(aggregate)
        },
{
    lemma_tee_rejects_iff_a_chunk_is_refused(collected);
}

/// A tee fed chunks in order through `admit_chunk` from `new`, with no
/// collector refusal (`collected[i]` what `admit_chunk` returned for chunk
/// `i`: false exactly for an in-band error or a chunk with fields the
/// collector cannot keep), ends rejected exactly when some chunk was not
/// collected; a rejected tee is never `ready_to_finalize`, so nothing is
/// stored for it.
pub proof fn lemma_tee_rejects_iff_a_chunk_is_refused(collected: Seq<bool>)
    ensures
        rejected_after(false, collected) <==> collected.contains(false),
{
    lemma_rejection_accumulates(false, collected);
}

} // verus!
