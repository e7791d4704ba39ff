//! The per-user ownership record of a managed gateway and the decisions
//! that stop, replace or clean up an owned gateway safely.

use vstd::prelude::*;
use vstd::string::StringExecFns;
use crate::text::push_char;
use crate::decimal::{decimal_text, parse_u64, parsed_u64, push_decimal};
use crate::text::{is_white, is_whitespace, str_is, to_chars};
use crate::operation_lock::{LockAttempt, LockWait};

verus! {

pub const SERVICE_NAME: &'static str = "nemo-relay";

/// What a health probe of a gateway endpoint found.
#[derive(Clone, Copy, Debug, PartialEq, Eq, Structural)]
pub enum RelayHealth {
    /// A compatible Relay gateway answered.
    Compatible,
    /// A Relay gateway answered that this client cannot use.
    Incompatible,
    /// Something other than a Relay gateway answered.
    Foreign,
    /// Nothing answered.
    Unavailable,
}

/// The ownership record a managed gateway publishes for its endpoint.
pub struct OwnerRecord {
    pub service: String,
    pub version: String,
    pub bootstrap_protocol: u64,
    pub pid: u32,
    pub process_identity: Option<u64>,
    pub url: String,
    pub shutdown_token: String,
    pub bootstrap_fingerprint: Option<String>,
}

impl OwnerRecord {
    /// The record for the gateway process `pid` serving `url`, published by
    /// Relay `version` speaking bootstrap `protocol`.
    pub fn new(
        pid: u32,
        url: &str,
        shutdown_token: &str,
        fingerprint: Option<&str>,
        version: &str,
        protocol: u64,
        process_identity: Option<u64>,
    ) -> (r: Self)
        ensures
            r.service@ == SERVICE_NAME@,
            r.version@ == version@,
            r.bootstrap_protocol == protocol,
            r.pid == pid,
            r.process_identity == process_identity,
            r.url@ == url@,
            r.shutdown_token@ == shutdown_token@,
            match fingerprint {
                Some(f) => r.bootstrap_fingerprint matches Some(g) && g@ == f@,
                None => r.bootstrap_fingerprint is None,
            },
    {
        OwnerRecord {
            service: SERVICE_NAME.to_owned(),
            version: version.to_owned(),
            bootstrap_protocol: protocol,
            pid,
            process_identity,
            url: url.to_owned(),
            shutdown_token: shutdown_token.to_owned(),
            bootstrap_fingerprint: match fingerprint {
                Some(f) => Some(f.to_owned()),
                None => None,
            },
        }
    }

    /// A record is authoritative for `url` when it is Relay's, speaks the
    /// current bootstrap protocol, names this URL, and carries a shutdown
    /// token and a bootstrap fingerprint.
    pub open spec fn valid_for_spec(&self, url: Seq<char>, protocol: u64) -> bool {
        self.service@ == SERVICE_NAME@ && self.bootstrap_protocol == protocol && self.url@ == url
            && self.shutdown_token@.len() > 0
            && (self.bootstrap_fingerprint matches Some(f) && f@.len() > 0)
    }

    pub fn valid_for(&self, url: &str, protocol: u64) -> (valid: bool)
        ensures
            valid == self.valid_for_spec(url@, protocol),
    {
        str_is(self.service.as_str(), SERVICE_NAME) && self.bootstrap_protocol == protocol
            && str_is(self.url.as_str(), url) && self.shutdown_token.as_str().unicode_len() > 0
            && match &self.bootstrap_fingerprint {
                Some(f) => f.as_str().unicode_len() > 0,
                None => false,
            }
    }
}

/// An ownership record is authoritative for a URL exactly when it is the
/// `nemo-relay` service's, at the expected bootstrap protocol, for that
/// very URL, with a non-empty shutdown token and a non-empty bootstrap
/// fingerprint; a record lacking any of these is not trusted.
pub proof fn lemma_authoritative_owner_records(record: OwnerRecord, url: Seq<char>, protocol: u64)
    ensures
        record.valid_for_spec(url, protocol) <==> {
            &&& record.service@ == "nemo-relay"@
            &&& record.bootstrap_protocol == protocol
            &&& record.url@ == url
            &&& record.shutdown_token@.len() > 0
            &&& record.bootstrap_fingerprint is Some && record.bootstrap_fingerprint->0@.len() > 0
        },
{
}

/// The recorded process identity still names the running process: both
/// are known and equal.
pub fn identity_matches(recorded: Option<u64>, current: Option<u64>) -> (matches: bool)
    ensures
        matches == (recorded is Some && current is Some && recorded == current),
{
    match (recorded, current) {
        (Some(a), Some(b)) => a == b,
        _ => false,
    }
}

// ---------------------------------------------------------------------
// File names.

/// The host and port (or the scheme's known default port) of a URL, when
/// it parses and has both.
pub uninterp spec fn url_host_port(url: Seq<char>) -> Option<(Seq<char>, u16)>;

/// `reqwest::Url::parse`, then `host_str` and `port_or_known_default`.
#[verifier::external_body]
fn parse_host_port(url: &str) -> (r: Option<(String, u16)>)
    ensures
        match r {
            Some((host, port)) => url_host_port(url@) == Some((host@, port)),
            None => url_host_port(url@) is None,
        },
{
    let parsed = reqwest::Url::parse(url).ok()?;
    let host = parsed.host_str()?.to_owned();
    let port = parsed.port_or_known_default()?;
    Some((host, port))
}

/// A character kept in a file-name stem: ASCII alphanumerics and `.-_`.
pub open spec fn stem_char(c: char) -> bool {
    let u = c as u32;
    (48 <= u <= 57) || (65 <= u <= 90) || (97 <= u <= 122) || c == '.' || c == '-' || c == '_'
}

/// `raw` with every other character replaced by `_`.
pub open spec fn sanitized(raw: Seq<char>) -> Seq<char> {
    raw.map_values(|c: char| if stem_char(c) { c } else { '_' })
}

/// The file-name stem made from a URL and what parsing it gave: `host-port`
/// when it parsed with both, else the URL itself; sanitized, and `unknown`
/// when that is empty.
pub open spec fn stem_spec(url: Seq<char>, parsed: Option<(Seq<char>, u16)>) -> Seq<char> {
    let raw = match parsed {
        Some((host, port)) => host + "-"@ + decimal_text(port as nat),
        None => url,
    };
    if raw.len() == 0 { "unknown"@ } else { sanitized(raw) }
}

/// The endpoint's file-name stem.
pub open spec fn lock_name_spec(url: Seq<char>) -> Seq<char> {
    stem_spec(url, url_host_port(url))
}

/// The view of a parsed host and port.
pub open spec fn host_port_view(parsed: Option<(String, u16)>) -> Option<(Seq<char>, u16)> {
    match parsed {
        Some((host, port)) => Some((host@, port)),
        None => None,
    }
}

fn is_stem_char(c: char) -> (keep: bool)
    ensures
        keep == stem_char(c),
{
    let u = c as u32;
    (48 <= u && u <= 57) || (65 <= u && u <= 90) || (97 <= u && u <= 122) || c == '.' || c == '-' || c == '_'
}

/// The file-name stem of an endpoint's lock and records.
pub fn lock_name(url: &str) -> (name: String)
    ensures
        name@ == lock_name_spec(url@),
{
    let parsed = parse_host_port(url);
    stem_from_host_port(url, parsed)
}

/// The file-name stem for `url`, given the host and port that parsing it
/// gave (`None` when it did not parse, or lacked either).
pub fn stem_from_host_port(url: &str, parsed: Option<(String, u16)>) -> (name: String)
    ensures
        name@ == stem_spec(url@, host_port_view(parsed)),
{
    let raw = match parsed {
        Some((host, port)) => {
            let mut r = host;
            r.append("-");
            push_decimal(&mut r, port as u64);
            r
        },
        None => url.to_owned(),
    };
    let chars = to_chars(raw.as_str());
    if chars.len() == 0 {
        return "unknown".to_owned();
    }
    let mut out = String::new();
    let mut i: usize = 0;
    while i < chars.len()
        invariant
            i <= chars@.len(),
            out@ == sanitized(chars@.take(i as int)),
        decreases chars.len() - i,
    {
        let c = chars[i];
        push_char(&mut out, if is_stem_char(c) { c } else { '_' });
        assert(sanitized(chars@.take(i + 1)) =~= sanitized(chars@.take(i as int)).push(if stem_char(c) { c } else { '_' }));
        i = i + 1;
    }
    assert(chars@.take(chars@.len() as int) =~= chars@);
    out
}

/// `prefix`, the endpoint's stem, then `suffix`.
pub open spec fn record_name(prefix: Seq<char>, url: Seq<char>, suffix: Seq<char>) -> Seq<char> {
    prefix + lock_name_spec(url) + suffix
}

fn record_file(prefix: &str, url: &str, suffix: &str) -> (name: String)
    ensures
        name@ == record_name(prefix@, url@, suffix@),
{
    let mut n = prefix.to_owned();
    n.append(lock_name(url).as_str());
    n.append(suffix);
    n
}

/// The file name of the ownership record for `url`.
pub fn owner_file_name(url: &str) -> (name: String)
    ensures
        name@ == record_name("sidecar-"@, url@, ".owner.json"@),
{
    record_file("sidecar-", url, ".owner.json")
}

/// The file name of the startup lock for `url`.
pub fn lock_file_name(url: &str) -> (name: String)
    ensures
        name@ == record_name("gateway-"@, url@, ".lock"@),
{
    record_file("gateway-", url, ".lock")
}

/// The file name of the recovery record for `url`.
pub fn recovery_file_name(url: &str) -> (name: String)
    ensures
        name@ == record_name("gateway-"@, url@, ".recovery.json"@),
{
    record_file("gateway-", url, ".recovery.json")
}

// ---------------------------------------------------------------------
// Process identity from a Linux `stat` line.

/// `s` without leading white space.
pub open spec fn skip_white(s: Seq<char>) -> Seq<char>
    decreases s.len(),
{
    if s.len() > 0 && is_white(s[0]) { skip_white(s.drop_first()) } else { s }
}

/// The length of the leading run of non-white characters.
pub open spec fn word_len(s: Seq<char>) -> nat
    decreases s.len(),
{
    if s.len() > 0 && !is_white(s[0]) { 1 + word_len(s.drop_first()) } else { 0 }
}

pub proof fn lemma_skip_white(s: Seq<char>)
    ensures
        skip_white(s).len() <= s.len(),
        skip_white(s) == s.skip(s.len() - skip_white(s).len()),
        skip_white(s).len() > 0 ==> !is_white(skip_white(s)[0]),
    decreases s.len(),
{
    if s.len() > 0 && is_white(s[0]) {
        lemma_skip_white(s.drop_first());
        assert(s.drop_first().skip(s.drop_first().len() - skip_white(s.drop_first()).len())
            =~= s.skip(s.len() - skip_white(s).len()));
    } else {
        assert(s.skip(0) =~= s);
    }
}

pub proof fn lemma_word_len(s: Seq<char>)
    ensures
        word_len(s) <= s.len(),
        s.len() > 0 && !is_white(s[0]) ==> word_len(s) >= 1,
        forall|k: int| 0 <= k < word_len(s) ==> !is_white(#[trigger] s[k]),
        word_len(s) < s.len() ==> is_white(s[word_len(s) as int]),
    decreases s.len(),
{
    if s.len() > 0 && !is_white(s[0]) {
        lemma_word_len(s.drop_first());
        assert forall|k: int| 0 <= k < word_len(s) implies !is_white(#[trigger] s[k]) by {
            if k > 0 {
                assert(s[k] == s.drop_first()[k - 1]);
            }
        }
    }
}

/// The `n`th white-space-separated word of `s` (from 0).
pub open spec fn nth_word(s: Seq<char>, n: nat) -> Option<Seq<char>>
    decreases s.len(),
{
    let t = skip_white(s);
    proof {
        lemma_skip_white(s);
        lemma_word_len(t);
    }
    if t.len() == 0 {
        None
    } else if n == 0 {
        Some(t.take(word_len(t) as int))
    } else {
        nth_word(t.skip(word_len(t) as int), (n - 1) as nat)
    }
}

/// What follows the last `)` of `s`, if it has one.
pub open spec fn after_last_paren(s: Seq<char>) -> Option<Seq<char>> {
    if exists|i: int| 0 <= i < s.len() && s[i] == ')' {
        let i = choose|i: int| 0 <= i < s.len() && s[i] == ')' && forall|j: int| i < j < s.len() ==> s[j] != ')';
        Some(s.skip(i + 1))
    } else {
        None
    }
}

/// The process start time recorded in a Linux `/proc/<pid>/stat` line:
/// field 22, counted after the parenthesized command name.
pub open spec fn stat_start_time(stat: Seq<char>) -> Option<u64> {
    match after_last_paren(stat) {
        Some(rest) => match nth_word(rest, 19) {
            Some(w) => parsed_u64(w),
            None => None,
        },
        None => None,
    }
}

/// The start and end of the first word at or after `i`.
fn next_word(cs: &Vec<char>, i: usize) -> (r: (usize, usize))
    requires
        i <= cs@.len(),
    ensures
        i <= r.0 <= r.1 <= cs@.len(),
        skip_white(cs@.skip(i as int)) == cs@.skip(r.0 as int),
        word_len(cs@.skip(r.0 as int)) == r.1 - r.0,
{
    let mut a = i;
    proof { assert(cs@.skip(i as int) =~= cs@.skip(i as int)); }
    while a < cs.len() && is_whitespace(cs[a])
        invariant
            i <= a <= cs@.len(),
            skip_white(cs@.skip(i as int)) == skip_white(cs@.skip(a as int)),
        decreases cs.len() - a,
    {
        assert(cs@.skip(a as int).drop_first() =~= cs@.skip(a + 1));
        a = a + 1;
    }
    let mut b = a;
    while b < cs.len() && !is_whitespace(cs[b])
        invariant
            a <= b <= cs@.len(),
            word_len(cs@.skip(a as int)) == (b - a) + word_len(cs@.skip(b as int)),
        decreases cs.len() - b,
    {
        assert(cs@.skip(b as int).drop_first() =~= cs@.skip(b + 1));
        b = b + 1;
    }
    (a, b)
}

/// Reads the process start time from a Linux `stat` line.
pub fn process_start_time(stat: &str) -> (t: Option<u64>)
    ensures
        t == stat_start_time(stat@),
{
    let cs = to_chars(stat);
    let mut k: usize = cs.len();
    while k > 0 && cs[k - 1] != ')'
        invariant
            k <= cs@.len(),
            cs@ == stat@,
            forall|j: int| k <= j < cs@.len() ==> cs@[j] != ')',
        decreases k,
    {
        k = k - 1;
    }
    if k == 0 {
        assert(after_last_paren(stat@) is None);
        return None;
    }
    proof {
        let w = choose|i: int| 0 <= i < cs@.len() && cs@[i] == ')' && forall|j: int| i < j < cs@.len() ==> cs@[j] != ')';
        assert(0 <= k - 1 < cs@.len() && cs@[k - 1] == ')');
        if w < k - 1 {
            assert(cs@[k - 1] != ')');
        }
        assert(after_last_paren(stat@) == Some(cs@.skip(k as int)));
    }
    let mut i: usize = k;
    let mut n: usize = 0;
    while n < 19
        invariant
            k <= i <= cs@.len(),
            n <= 19,
            cs@ == stat@,
            after_last_paren(stat@) == Some(cs@.skip(k as int)),
            nth_word(cs@.skip(k as int), 19) == nth_word(cs@.skip(i as int), (19 - n) as nat),
        decreases 19 - n,
    {
        let (a, b) = next_word(&cs, i);
        proof {
            lemma_skip_white(cs@.skip(i as int));
            lemma_word_len(cs@.skip(a as int));
        }
        if a == cs.len() {
            assert(nth_word(cs@.skip(i as int), (19 - n) as nat) is None);
            assert(stat_start_time(stat@) is None);
            return None;
        }
        assert(cs@.skip(a as int).skip((b - a) as int) =~= cs@.skip(b as int));
        i = b;
        n = n + 1;
    }
    let (a, b) = next_word(&cs, i);
    proof {
        lemma_skip_white(cs@.skip(i as int));
        lemma_word_len(cs@.skip(a as int));
    }
    if a == cs.len() {
        assert(nth_word(cs@.skip(i as int), 0) is None);
        return None;
    }
    let word = stat.substring_char(a, b);
    assert(word@ =~= cs@.skip(a as int).take((b - a) as int));
    parse_u64(word)
}

// ---------------------------------------------------------------------
// Stopping an owned gateway.

/// Whether a version-mismatched owned gateway is stopped for replacement:
/// only for a valid record written by another Relay version.
pub fn stop_for_version_mismatch(owner: &OwnerRecord, url: &str, protocol: u64, running_version: &str) -> (stop: bool)
    ensures
        stop == (owner.valid_for_spec(url@, protocol) && owner.version@ != running_version@),
{
    owner.valid_for(url, protocol) && !str_is(owner.version.as_str(), running_version)
}

/// What to do about an owned gateway whose health endpoint failed.
#[derive(Clone, Copy, Debug, PartialEq, Eq, Structural)]
pub enum UnhealthyOwnerAction {
    /// Leave the record and the process alone.
    Keep,
    /// The record names another process: remove it, signal nothing.
    RemoveRecord,
    /// Terminate the recorded process, then remove the record.
    Terminate,
}

/// Only a valid record of a gateway that is not healthy is acted on, and
/// its process is signalled only while the recorded identity still names
/// it.
pub fn unhealthy_owner_action(valid: bool, health: RelayHealth, identity_still_matches: bool) -> (action: UnhealthyOwnerAction)
    ensures
        action == if !valid || health == RelayHealth::Compatible {
            UnhealthyOwnerAction::Keep
        } else if !identity_still_matches {
            UnhealthyOwnerAction::RemoveRecord
        } else {
            UnhealthyOwnerAction::Terminate
        },
{
    if !valid || health == RelayHealth::Compatible {
        UnhealthyOwnerAction::Keep
    } else if !identity_still_matches {
        UnhealthyOwnerAction::RemoveRecord
    } else {
        UnhealthyOwnerAction::Terminate
    }
}

/// The refusal to stop a gateway whose record at `path` is invalid.
pub fn invalid_record_error(path: &str) -> (m: String)
    ensures
        m@ == "refusing to stop gateway from invalid ownership record "@ + path@,
{
    let mut m = "refusing to stop gateway from invalid ownership record ".to_owned();
    m.append(path);
    m
}

/// The first step of stopping an owned gateway.
#[derive(Clone, Copy, Debug, PartialEq, Eq, Structural)]
pub enum StopStart {
    /// Nothing answers: only the stale record is removed.
    RemoveStaleRecord,
    /// The gateway is ours and healthy: ask it to shut down.
    RequestShutdown,
}

pub open spec fn unverified_text(url: Seq<char>) -> Seq<char> {
    "refusing to stop an unverified process at managed gateway URL "@ + url
}

pub fn stop_start(health: RelayHealth, url: &str) -> (r: Result<StopStart, String>)
    ensures
        match health {
            RelayHealth::Unavailable => r == Ok::<StopStart, String>(StopStart::RemoveStaleRecord),
            RelayHealth::Compatible => r == Ok::<StopStart, String>(StopStart::RequestShutdown),
            _ => r matches Err(m) && m@ == unverified_text(url@),
        },
{
    match health {
        RelayHealth::Unavailable => Ok(StopStart::RemoveStaleRecord),
        RelayHealth::Compatible => Ok(StopStart::RequestShutdown),
        _ => {
            let mut m = "refusing to stop an unverified process at managed gateway URL ".to_owned();
            m.append(url);
            Err(m)
        },
    }
}

pub open spec fn did_not_stop_text(url: Seq<char>) -> Seq<char> {
    "managed Relay gateway at "@ + url + " did not stop"@
}

pub open spec fn replaced_text(url: Seq<char>) -> Seq<char> {
    "a different process replaced the managed Relay gateway at "@ + url + " during shutdown"@
}

/// After a shutdown request, one probe of the endpoint: stopped once it no
/// longer answers; keep waiting while it still answers before the
/// deadline; fail when it outlives the deadline or something else answers.
pub fn shutdown_probe(health: RelayHealth, before_deadline: bool, url: &str) -> (r: Result<bool, String>)
    ensures
        match health {
            RelayHealth::Unavailable => r == Ok::<bool, String>(true),
            RelayHealth::Compatible => if before_deadline {
                r == Ok::<bool, String>(false)
            } else {
                r matches Err(m) && m@ == did_not_stop_text(url@)
            },
            _ => r matches Err(m) && m@ == replaced_text(url@),
        },
{
    match health {
        RelayHealth::Unavailable => Ok(true),
        RelayHealth::Compatible => {
            if before_deadline {
                Ok(false)
            } else {
                let mut m = "managed Relay gateway at ".to_owned();
                m.append(url);
                m.append(" did not stop");
                Err(m)
            }
        },
        _ => {
            let mut m = "a different process replaced the managed Relay gateway at ".to_owned();
            m.append(url);
            m.append(" during shutdown");
            Err(m)
        },
    }
}

/// A stage of terminating an unhealthy owned gateway.
#[derive(Clone, Copy, Debug, PartialEq, Eq, Structural)]
pub enum TerminationStage {
    /// Terminate was sent; waiting for the grace period.
    Graceful,
    /// Kill was sent; waiting for the process to go.
    Forced,
}

/// After waiting at a stage: done once the process exited; escalate from
/// a graceful to a forced termination; fail when even that did not end it.
pub fn after_termination_wait(stage: TerminationStage, exited: bool, pid: u32) -> (r: Result<Option<TerminationStage>, String>)
    ensures
        exited ==> r == Ok::<Option<TerminationStage>, String>(None),
        !exited && stage == TerminationStage::Graceful ==> r == Ok::<Option<TerminationStage>, String>(Some(TerminationStage::Forced)),
        !exited && stage == TerminationStage::Forced ==> (r matches Err(m)
            && m@ == "managed Relay gateway process "@ + decimal_text(pid as nat) + " did not terminate"@),
{
    if exited {
        return Ok(None);
    }
    match stage {
        TerminationStage::Graceful => Ok(Some(TerminationStage::Forced)),
        TerminationStage::Forced => {
            let mut m = "managed Relay gateway process ".to_owned();
            push_decimal(&mut m, pid as u64);
            m.append(" did not terminate");
            Err(m)
        },
    }
}

pub const BOOTSTRAP_STATE_DIR_ENV: &'static str = "NEMO_RELAY_BOOTSTRAP_STATE_DIR";
pub const BOOTSTRAP_SHUTDOWN_TOKEN_ENV: &'static str = "NEMO_RELAY_BOOTSTRAP_SHUTDOWN_TOKEN";

/// Whether a starting gateway publishes an ownership record: not when
/// neither a state directory nor a token was handed to it; otherwise only
/// with an absolute state directory, a non-empty token and a loopback
/// address.
pub open spec fn publication_spec(
    state_dir: Option<Seq<char>>,
    state_is_absolute: bool,
    token: Option<Seq<char>>,
    address_is_loopback: bool,
    address: Seq<char>,
) -> Result<bool, Seq<char>> {
    if state_dir is None && token is None {
        Ok(false)
    } else if state_dir is None {
        Err(BOOTSTRAP_STATE_DIR_ENV@ + " is required for managed bootstrap"@)
    } else if !state_is_absolute {
        Err(BOOTSTRAP_STATE_DIR_ENV@ + " must be an absolute path, got "@ + state_dir->0)
    } else if !(token matches Some(t) && t.len() > 0) {
        Err(BOOTSTRAP_SHUTDOWN_TOKEN_ENV@ + " is required for managed bootstrap"@)
    } else if !address_is_loopback {
        Err("managed bootstrap ownership requires a loopback address, got "@ + address)
    } else {
        Ok(true)
    }
}

pub open spec fn opt_str(o: Option<&str>) -> Option<Seq<char>> {
    match o {
        Some(s) => Some(s@),
        None => None,
    }
}

pub fn owner_publication(
    state_dir: Option<&str>,
    state_is_absolute: bool,
    token: Option<&str>,
    address_is_loopback: bool,
    address: &str,
) -> (r: Result<bool, String>)
    ensures
        match publication_spec(opt_str(state_dir), state_is_absolute, opt_str(token), address_is_loopback, address@) {
            Ok(b) => r == Ok::<bool, String>(b),
            Err(e) => r matches Err(m) && m@ == e,
        },
{
    if state_dir.is_none() && token.is_none() {
        return Ok(false);
    }
    let dir = match state_dir {
        Some(d) => d,
        None => {
            let mut m = BOOTSTRAP_STATE_DIR_ENV.to_owned();
            m.append(" is required for managed bootstrap");
            return Err(m);
        },
    };
    if !state_is_absolute {
        let mut m = BOOTSTRAP_STATE_DIR_ENV.to_owned();
        m.append(" must be an absolute path, got ");
        m.append(dir);
        return Err(m);
    }
    let token_ok = match token {
        Some(t) => t.unicode_len() > 0,
        None => false,
    };
    if !token_ok {
        let mut m = BOOTSTRAP_SHUTDOWN_TOKEN_ENV.to_owned();
        m.append(" is required for managed bootstrap");
        return Err(m);
    }
    if !address_is_loopback {
        let mut m = "managed bootstrap ownership requires a loopback address, got ".to_owned();
        m.append(address);
        return Err(m);
    }
    Ok(true)
}

pub open spec fn startup_lock_timeout_text(path: Seq<char>) -> Seq<char> {
    "timed out waiting for gateway startup lock "@ + path
}

pub open spec fn startup_lock_failure_text(path: Seq<char>, error: Seq<char>) -> Seq<char> {
    "failed to acquire gateway startup lock "@ + path + ": "@ + error
}

/// The step after one attempt on the endpoint's startup lock at `path`: a
/// contended lock is retried while the deadline is ahead.
pub fn startup_lock_step(attempt: Result<LockAttempt, String>, before_deadline: bool, path: &str) -> (w: LockWait)
    ensures
        match attempt {
            Ok(LockAttempt::Acquired) => w is Locked,
            Ok(LockAttempt::Contended) => if before_deadline {
                w is Retry
            } else {
                w matches LockWait::Failed(m) && m@ == startup_lock_timeout_text(path@)
            },
            Err(e) => w matches LockWait::Failed(m) && m@ == startup_lock_failure_text(path@, e@),
        },
{
    match attempt {
        Ok(LockAttempt::Acquired) => LockWait::Locked,
        Ok(LockAttempt::Contended) => {
            if before_deadline {
                LockWait::Retry
            } else {
                let mut m = "timed out waiting for gateway startup lock ".to_owned();
                m.append(path);
                LockWait::Failed(m)
            }
        },
        Err(e) => {
            let mut m = "failed to acquire gateway startup lock ".to_owned();
            m.append(path);
            m.append(": ");
            m.append(e.as_str());
            LockWait::Failed(m)
        },
    }
}

} // verus!
