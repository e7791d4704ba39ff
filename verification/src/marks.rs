//! Cache decision marks: the surface, status and reason labels recorded for
//! every response-cache and tool-cache decision, and the mark itself.

use vstd::prelude::*;

verus! {

/// The surface a cache decision was made on.
#[derive(Clone, Copy, Debug, PartialEq, Eq, Structural)]
pub enum CacheSurface {
    Llm,
    Tool,
}

/// The outcome of a cache decision.
#[derive(Clone, Copy, Debug, PartialEq, Eq, Structural)]
pub enum CacheMarkStatus {
    Bypass,
    Hit,
    Miss,
}

/// Why a call bypassed or missed the cache.
#[derive(Clone, Copy, Debug, PartialEq, Eq, Structural)]
pub enum CacheReason {
    CanonicalizationFailed,
    CachedError,
    NondeterministicTemperature,
    ReplayLossy,
    Sampled,
    StatefulConversation,
    StatefulPreviousResponseId,
    StatefulStore,
    StoreError,
    StreamNoCodec,
    UnparseableBody,
    Uncacheable,
    UnrepresentableNumber,
}

pub open spec fn surface_label(surface: CacheSurface) -> Seq<char> {
    match surface {
        CacheSurface::Llm => "llm"@,
        CacheSurface::Tool => "tool"@,
    }
}

pub open spec fn status_label(status: CacheMarkStatus) -> Seq<char> {
    match status {
        CacheMarkStatus::Bypass => "bypass"@,
        CacheMarkStatus::Hit => "hit"@,
        CacheMarkStatus::Miss => "miss"@,
    }
}

pub open spec fn reason_label(reason: CacheReason) -> Seq<char> {
    match reason {
        CacheReason::CanonicalizationFailed => "canonicalization_failed"@,
        CacheReason::CachedError => "cached_error"@,
        CacheReason::NondeterministicTemperature => "nondeterministic_temperature"@,
        CacheReason::ReplayLossy => "replay_lossy"@,
        CacheReason::Sampled => "sampled"@,
        CacheReason::StatefulConversation => "stateful_conversation"@,
        CacheReason::StatefulPreviousResponseId => "stateful_previous_response_id"@,
        CacheReason::StatefulStore => "stateful_store"@,
        CacheReason::StoreError => "store_error"@,
        CacheReason::StreamNoCodec => "stream_no_codec"@,
        CacheReason::UnparseableBody => "unparseable_body"@,
        CacheReason::Uncacheable => "uncacheable"@,
        CacheReason::UnrepresentableNumber => "unrepresentable_number"@,
    }
}

impl CacheSurface {
    /// The stable metadata value of the surface.
    pub fn as_str(&self) -> (label: &'static str)
        ensures
            label@ == surface_label(*self),
    {
        match self {
            CacheSurface::Llm => "llm",
            CacheSurface::Tool => "tool",
        }
    }
}

impl CacheMarkStatus {
    /// The stable telemetry value of the status.
    pub fn as_str(&self) -> (label: &'static str)
        ensures
            label@ == status_label(*self),
    {
        match self {
            CacheMarkStatus::Bypass => "bypass",
            CacheMarkStatus::Hit => "hit",
            CacheMarkStatus::Miss => "miss",
        }
    }
}

impl CacheReason {
    /// The stable telemetry value of the reason.
    pub fn as_str(&self) -> (label: &'static str)
        ensures
            label@ == reason_label(*self),
    {
        match self {
            CacheReason::CanonicalizationFailed => "canonicalization_failed",
            CacheReason::CachedError => "cached_error",
            CacheReason::NondeterministicTemperature => "nondeterministic_temperature",
            CacheReason::ReplayLossy => "replay_lossy",
            CacheReason::Sampled => "sampled",
            CacheReason::StatefulConversation => "stateful_conversation",
            CacheReason::StatefulPreviousResponseId => "stateful_previous_response_id",
            CacheReason::StatefulStore => "stateful_store",
            CacheReason::StoreError => "store_error",
            CacheReason::StreamNoCodec => "stream_no_codec",
            CacheReason::UnparseableBody => "unparseable_body",
            CacheReason::Uncacheable => "uncacheable",
            CacheReason::UnrepresentableNumber => "unrepresentable_number",
        }
    }
}

/// One recorded cache decision. The store backend and the saved-token and
/// saved-cost figures are attached by the caller that owns the store.
pub struct CacheMark {
    pub status: CacheMarkStatus,
    pub surface: CacheSurface,
    pub reason: Option<CacheReason>,
    pub key_hash: Option<String>,
    pub age_ms: Option<u64>,
    pub ttl_ms: Option<u64>,
    pub saved_invocations: Option<u64>,
}

/// The mathematical content of a mark.
pub struct MarkV {
    pub status: CacheMarkStatus,
    pub surface: CacheSurface,
    pub reason: Option<CacheReason>,
    pub key_hash: Option<Seq<char>>,
    pub age_ms: Option<u64>,
    pub ttl_ms: Option<u64>,
    pub saved_invocations: Option<u64>,
}

impl View for CacheMark {
    type V = MarkV;

    open spec fn view(&self) -> MarkV {
        MarkV {
            status: self.status,
            surface: self.surface,
            reason: self.reason,
            key_hash: match self.key_hash {
                Some(k) => Some(k@),
                None => None,
            },
            age_ms: self.age_ms,
            ttl_ms: self.ttl_ms,
            saved_invocations: self.saved_invocations,
        }
    }
}

/// A mark with only a status and a surface.
pub open spec fn bare_mark(status: CacheMarkStatus, surface: CacheSurface) -> MarkV {
    MarkV {
        status,
        surface,
        reason: None,
        key_hash: None,
        age_ms: None,
        ttl_ms: None,
        saved_invocations: None,
    }
}

impl CacheMark {
    /// A mark for `status` on `surface`, with nothing else recorded.
    pub fn new(status: CacheMarkStatus, surface: CacheSurface) -> (mark: Self)
        ensures
            mark@ == bare_mark(status, surface),
    {
        CacheMark {
            status,
            surface,
            reason: None,
            key_hash: None,
            age_ms: None,
            ttl_ms: None,
            saved_invocations: None,
        }
    }
}

} // verus!
