//! The liveness lease on a shared coding-agent gateway: which gateway
//! instance the lease follows, how many coordinated restarts it allows, how
//! unhealthy heartbeats are confirmed, and how lease shutdown fences
//! in-flight recoveries.

use vstd::prelude::*;
use vstd::string::StringExecFns;
use crate::errors::{launch_error, CliError};
use crate::text::str_is;

verus! {

/// Consecutive failed health probes that confirm an unhealthy gateway.
pub const UNHEALTHY_CONFIRMATIONS: u8 = 3;

/// The gateway instance a lease follows, and whether it has already used
/// its single coordinated restart.
pub struct RecoveryState {
    instance_id: String,
    recovered: bool,
}

/// The outcome of observing `id` in state `(current, recovered)`: the same
/// instance changes nothing; a new instance is adopted once; a second
/// replacement is refused (`None`).
pub open spec fn observe_step(state: (Seq<char>, bool), id: Seq<char>) -> Option<(Seq<char>, bool)> {
    if id == state.0 {
        Some(state)
    } else if state.1 {
        None
    } else {
        Some((id, true))
    }
}

/// Observing `ids` in order from `state`; `None` once one is refused.
pub open spec fn observe_all(state: (Seq<char>, bool), ids: Seq<Seq<char>>) -> Option<(Seq<char>, bool)>
    decreases ids.len(),
{
    if ids.len() == 0 {
        Some(state)
    } else {
        match observe_step(state, ids[0]) {
            Some(next) => observe_all(next, ids.drop_first()),
            None => None,
        }
    }
}

/// How many times `ids` switch instance, starting from `current`.
pub open spec fn instance_changes(current: Seq<char>, ids: Seq<Seq<char>>) -> nat
    decreases ids.len(),
{
    if ids.len() == 0 {
        0
    } else if ids[0] == current {
        instance_changes(current, ids.drop_first())
    } else {
        1 + instance_changes(ids[0], ids.drop_first())
    }
}

pub const REPLACED_AGAIN: &'static str = "shared Relay gateway was replaced again after its coordinated restart";

pub const UNHEALTHY_AFTER_RESTART: &'static str = "shared Relay gateway became unhealthy after its coordinated restart";

impl RecoveryState {
    /// `(instance followed, restart used)`.
    pub closed spec fn view_state(&self) -> (Seq<char>, bool) {
        (self.instance_id@, self.recovered)
    }

    pub fn new(instance_id: String) -> (state: Self)
        ensures
            state.view_state() == (instance_id@, false),
    {
        RecoveryState { instance_id, recovered: false }
    }

    /// The instance the lease currently follows.
    pub fn instance_id(&self) -> (id: &str)
        ensures
            id@ == self.view_state().0,
    {
        self.instance_id.as_str()
    }

    /// Records the instance a health probe or a restart reported.
    pub fn observe(&mut self, instance_id: String) -> (r: Result<(), CliError>)
        ensures
            match observe_step(old(self).view_state(), instance_id@) {
                Some(next) => r is Ok && final(self).view_state() == next,
                None => r is Err && final(self).view_state() == old(self).view_state()
                    && r->Err_0 is Launch && r->Err_0.text() == REPLACED_AGAIN@,
            },
    {
        if instance_id == self.instance_id {
            return Ok(());
        }
        if self.recovered {
            return Err(launch_error(REPLACED_AGAIN));
        }
        self.instance_id = instance_id;
        self.recovered = true;
        Ok(())
    }

    /// A restart is allowed only while the single restart is unused.
    pub fn require_restart(&self) -> (r: Result<(), CliError>)
        ensures
            r is Ok <==> !self.view_state().1,
            r is Err ==> r->Err_0 is Launch && r->Err_0.text() == UNHEALTHY_AFTER_RESTART@,
    {
        if self.recovered {
            Err(launch_error(UNHEALTHY_AFTER_RESTART))
        } else {
            Ok(())
        }
    }
}

/// A lease follows at most one replacement of its gateway: whenever a run of
/// observations from a fresh state is accepted, the observed instance
/// changed at most once.
pub proof fn lemma_single_replacement(start: Seq<char>, ids: Seq<Seq<char>>)
    requires
        observe_all((start, false), ids) is Some,
    ensures
        instance_changes(start, ids) <= 1,
    decreases ids.len(),
{
    if ids.len() > 0 {
        if ids[0] == start {
            lemma_single_replacement(start, ids.drop_first());
        } else {
            lemma_no_change_after_recovery(ids[0], ids.drop_first());
        }
    }
}

/// After the restart is used, every accepted observation is of the same
/// instance.
pub proof fn lemma_no_change_after_recovery(current: Seq<char>, ids: Seq<Seq<char>>)
    requires
        observe_all((current, true), ids) is Some,
    ensures
        instance_changes(current, ids) == 0,
        observe_all((current, true), ids) == Some((current, true)),
    decreases ids.len(),
{
    if ids.len() > 0 {
        lemma_no_change_after_recovery(current, ids.drop_first());
    }
}

/// The state after observing `ids` in order, each through `observe`: an
/// accepted observation moves the state on, a refused one leaves it as it
/// was.
pub open spec fn after_observations(state: (Seq<char>, bool), ids: Seq<Seq<char>>) -> (Seq<char>, bool)
    decreases ids.len(),
{
    if ids.len() == 0 {
        state
    } else {
        let next = match observe_step(state, ids[0]) {
            Some(n) => n,
            None => state,
        };
        after_observations(next, ids.drop_first())
    }
}

proof fn lemma_restart_tracks_instance(start: Seq<char>, state: (Seq<char>, bool), ids: Seq<Seq<char>>)
    requires
        state.1 <==> state.0 != start,
    ensures
        after_observations(state, ids).1 <==> after_observations(state, ids).0 != start,
    decreases ids.len(),
{
    if ids.len() > 0 {
        let next = match observe_step(state, ids[0]) {
            Some(n) => n,
            None => state,
        };
        lemma_restart_tracks_instance(start, next, ids.drop_first());
    }
}

/// A lease created for instance `start` (`RecoveryState::new`) allows a
/// restart (`require_restart` is `Ok`) after any run of `observe` calls,
/// accepted or refused, exactly when it still follows `start`
/// (`instance_id`): no observation has replaced the instance.
pub proof fn lemma_restart_allowed_iff_same_instance(start: Seq<char>, ids: Seq<Seq<char>>)
    ensures
        !after_observations((start, false), ids).1 <==> after_observations((start, false), ids).0 == start,
{
    lemma_restart_tracks_instance(start, (start, false), ids);
}

/// What to do after one health probe of a heartbeat round.
pub enum ProbeNext {
    /// The gateway answered with this instance.
    Accept(String),
    /// Probe again after the confirmation interval.
    Retry,
    /// Unhealthy on every confirmation: restart the gateway.
    Restart,
}

/// The decision after the probe numbered `confirmation` (from 0) reported
/// `observed`.
pub fn after_probe(confirmation: u8, observed: Option<String>) -> (next: ProbeNext)
    requires
        confirmation < UNHEALTHY_CONFIRMATIONS,
    ensures
        match observed {
            Some(id) => next matches ProbeNext::Accept(a) && a@ == id@,
            None => if confirmation + 1 < UNHEALTHY_CONFIRMATIONS { next is Retry } else { next is Restart },
        },
{
    match observed {
        Some(id) => ProbeNext::Accept(id),
        None => if confirmation + 1 < UNHEALTHY_CONFIRMATIONS {
            ProbeNext::Retry
        } else {
            ProbeNext::Restart
        },
    }
}

pub const LEASE_SHUTTING_DOWN: &'static str = "gateway lease is shutting down";

pub const LEASE_CLOSED_DURING_RECOVERY: &'static str = "gateway lease closed during recovery";

/// Shutdown of a lease and the recoveries it is still waiting for.
pub struct LeaseShutdown {
    stopped: bool,
    recovery_count: usize,
}

impl LeaseShutdown {
    pub closed spec fn is_stopped(&self) -> bool {
        self.stopped
    }

    /// Recoveries started and not yet finished.
    pub closed spec fn in_flight(&self) -> nat {
        self.recovery_count as nat
    }

    pub fn new() -> (s: Self)
        ensures
            !s.is_stopped(),
            s.in_flight() == 0,
    {
        LeaseShutdown { stopped: false, recovery_count: 0 }
    }

    /// Begins a recovery, unless the lease is shutting down.
    pub fn start_recovery(&mut self) -> (r: Result<(), CliError>)
        requires
            old(self).in_flight() < usize::MAX,
        ensures
            final(self).is_stopped() == old(self).is_stopped(),
            old(self).is_stopped() ==> r is Err && final(self).in_flight() == old(self).in_flight()
                && r->Err_0 is Launch && r->Err_0.text() == LEASE_SHUTTING_DOWN@,
            !old(self).is_stopped() ==> r is Ok && final(self).in_flight() == old(self).in_flight() + 1,
    {
        if self.stopped {
            return Err(launch_error(LEASE_SHUTTING_DOWN));
        }
        self.recovery_count = self.recovery_count + 1;
        Ok(())
    }

    /// Marks the lease as shutting down; no recovery starts afterwards.
    pub fn stop(&mut self)
        ensures
            final(self).is_stopped(),
            final(self).in_flight() == old(self).in_flight(),
    {
        self.stopped = true;
    }

    /// Records that a recovery finished.
    pub fn finish_recovery(&mut self)
        ensures
            final(self).is_stopped() == old(self).is_stopped(),
            final(self).in_flight() == if old(self).in_flight() == 0 { 0 } else { (old(self).in_flight() - 1) as nat },
    {
        self.recovery_count = self.recovery_count.saturating_sub(1);
    }

    /// Whether a dropped lease may return: no recovery is in flight.
    pub fn recoveries_settled(&self) -> (settled: bool)
        ensures
            settled == (self.in_flight() == 0),
    {
        self.recovery_count == 0
    }
}

/// A recovered endpoint is adopted only if the lease was not closed while
/// the recovery ran.
pub fn accept_recovered<E>(endpoint: E, stopped: bool) -> (r: Result<E, CliError>)
    ensures
        stopped ==> r is Err && r->Err_0 is Launch && r->Err_0.text() == LEASE_CLOSED_DURING_RECOVERY@,
        !stopped ==> r == Ok::<E, CliError>(endpoint),
{
    if stopped {
        Err(launch_error(LEASE_CLOSED_DURING_RECOVERY))
    } else {
        Ok(endpoint)
    }
}

/// The message of a borrowed lease whose gateway changed instance.
pub open spec fn instance_changed_text(expected: Seq<char>, current: Seq<char>) -> Seq<char> {
    "transparent Relay gateway instance changed from "@ + expected + " to "@ + current
}

/// The message of a borrowed lease whose gateway is gone.
pub open spec fn gateway_gone_text(url: Seq<char>) -> Seq<char> {
    "transparent Relay gateway at "@ + url + " is no longer available"@
}

/// One heartbeat of a borrowed lease: the authenticated instance must still
/// be the one the lease was taken on.
pub fn check_borrowed_instance(expected: &str, current: Option<String>, gateway_url: &str) -> (r: Result<(), CliError>)
    ensures
        match current {
            Some(id) => if id@ == expected@ {
                r is Ok
            } else {
                r is Err && r->Err_0 is Launch && r->Err_0.text() == instance_changed_text(expected@, id@)
            },
            None => r is Err && r->Err_0 is Launch && r->Err_0.text() == gateway_gone_text(gateway_url@),
        },
{
    match current {
        Some(id) => {
            if str_is(id.as_str(), expected) {
                Ok(())
            } else {
                let mut m = "transparent Relay gateway instance changed from ".to_owned();
                m.append(expected);
                m.append(" to ");
                m.append(id.as_str());
                Err(CliError::Launch(m))
            }
        },
        None => {
            let mut m = "transparent Relay gateway at ".to_owned();
            m.append(gateway_url);
            m.append(" is no longer available");
            Err(CliError::Launch(m))
        },
    }
}

} // verus!
