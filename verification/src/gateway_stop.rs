//! `gateway stop`: which listening process is the gateway to stop, and the
//! checks around signalling it and waiting for its listener to close.

use vstd::prelude::*;
use vstd::string::StringExecFns;
use crate::decimal::{decimal_text, push_decimal};
use crate::errors::CliError;
use crate::text::{str_is, to_chars};

verus! {

/// The loopback check on the address a stop targets.
pub open spec fn stop_bind_check(is_loopback: bool, port: u16, bind: Seq<char>) -> Result<(), Seq<char>> {
    if !is_loopback {
        Err("gateway stop requires a loopback address, got "@ + bind)
    } else if port == 0 {
        Err("gateway stop requires a concrete nonzero port"@)
    } else {
        Ok(())
    }
}

/// Validates the address a stop targets (its loopback-ness, port and
/// text as the caller read them).
pub fn validate_stop_bind(is_loopback: bool, port: u16, bind: &str) -> (r: Result<(), CliError>)
    ensures
        match stop_bind_check(is_loopback, port, bind@) {
            Ok(()) => r is Ok,
            Err(e) => r matches Err(CliError::Config(m)) && m@ == e,
        },
{
    if !is_loopback {
        let mut m = "gateway stop requires a loopback address, got ".to_owned();
        m.append(bind);
        return Err(CliError::Config(m));
    }
    if port == 0 {
        return Err(CliError::Config("gateway stop requires a concrete nonzero port".to_owned()));
    }
    Ok(())
}

/// One listening socket and the process that owns it.
pub struct ListenerRecord {
    /// The socket address, as displayed.
    pub socket: String,
    pub is_tcp: bool,
    pub pid: u32,
    pub name: String,
    pub path: String,
}

/// Whether `c` separates path components (`\` too on Windows).
pub open spec fn is_separator(c: char, windows: bool) -> bool {
    c == '/' || (windows && c == '\\')
}

/// The components of a path: its non-empty separator-delimited segments,
/// without `.` segments.
pub open spec fn components(p: Seq<char>, windows: bool) -> Seq<Seq<char>>
    decreases p.len(),
{
    if p.len() == 0 {
        Seq::empty()
    } else {
        let i = segment_end(p, windows);
        let seg = p.take(i);
        let rest = if i < p.len() { p.skip(i + 1) } else { Seq::empty() };
        proof { lemma_segment_end(p, windows); }
        if seg.len() == 0 || seg == "."@ {
            components(rest, windows)
        } else {
            seq![seg] + components(rest, windows)
        }
    }
}

/// The index of the first separator in `p`, or its length.
pub open spec fn segment_end(p: Seq<char>, windows: bool) -> int
    decreases p.len(),
{
    if p.len() == 0 || is_separator(p[0], windows) { 0 } else { 1 + segment_end(p.drop_first(), windows) }
}

pub proof fn lemma_segment_end(p: Seq<char>, windows: bool)
    ensures
        0 <= segment_end(p, windows) <= p.len(),
        forall|k: int| 0 <= k < segment_end(p, windows) ==> !is_separator(#[trigger] p[k], windows),
        segment_end(p, windows) < p.len() ==> is_separator(p[segment_end(p, windows)], windows),
    decreases p.len(),
{
    if p.len() > 0 && !is_separator(p[0], windows) {
        lemma_segment_end(p.drop_first(), windows);
        assert forall|k: int| 0 <= k < segment_end(p, windows) implies !is_separator(#[trigger] p[k], windows) by {
            if k > 0 {
                assert(p[k] == p.drop_first()[k - 1]);
            }
        }
    }
}

/// `Path::file_name`: the last component, unless it is `..`.
pub open spec fn file_name(p: Seq<char>, windows: bool) -> Option<Seq<char>> {
    let cs = components(p, windows);
    if cs.len() == 0 || cs.last() == ".."@ { None } else { Some(cs.last()) }
}

/// The index of the last `.` in `s`, if any.
pub open spec fn last_dot(s: Seq<char>) -> Option<int> {
    if exists|i: int| 0 <= i < s.len() && s[i] == '.' {
        Some(choose|i: int| 0 <= i < s.len() && s[i] == '.' && forall|j: int| i < j < s.len() ==> s[j] != '.')
    } else {
        None
    }
}

/// `Path::file_stem`: the file name without its extension (a leading dot
/// does not start an extension).
pub open spec fn file_stem(p: Seq<char>, windows: bool) -> Option<Seq<char>> {
    match file_name(p, windows) {
        None => None,
        Some(n) => match last_dot(n) {
            Some(i) => if i == 0 { Some(n) } else { Some(n.take(i)) },
            None => Some(n),
        },
    }
}

/// The code of a character after ASCII case folding.
pub open spec fn ascii_lower(c: char) -> u32 {
    if 65 <= (c as u32) && (c as u32) <= 90 { ((c as u32) + 32) as u32 } else { c as u32 }
}

/// `eq_ignore_ascii_case`.
pub open spec fn eq_ignore_ascii_case(a: Seq<char>, b: Seq<char>) -> bool {
    a.len() == b.len() && forall|i: int| 0 <= i < a.len() ==> ascii_lower(#[trigger] a[i]) == ascii_lower(b[i])
}

/// A process is Relay when the stem of its name or of its executable path
/// is `nemo-relay`, ignoring ASCII case.
pub open spec fn relay_process(name: Seq<char>, path: Seq<char>, windows: bool) -> bool {
    (file_stem(name, windows) matches Some(s) && eq_ignore_ascii_case(s, "nemo-relay"@))
        || (file_stem(path, windows) matches Some(s) && eq_ignore_ascii_case(s, "nemo-relay"@))
}

fn lower(c: char) -> (l: u32)
    ensures
        l == ascii_lower(c),
{
    let u = c as u32;
    if 65 <= u && u <= 90 { u + 32 } else { u }
}

fn chars_eq_ignore_ascii_case(a: &[char], b: &str) -> (same: bool)
    ensures
        same == eq_ignore_ascii_case(a@, b@),
{
    let bs = to_chars(b);
    if a.len() != bs.len() {
        return false;
    }
    let mut i: usize = 0;
    while i < a.len()
        invariant
            i <= a@.len(),
            a@.len() == bs@.len(),
            bs@ == b@,
            forall|k: int| 0 <= k < i ==> ascii_lower(#[trigger] a@[k]) == ascii_lower(b@[k]),
        decreases a.len() - i,
    {
        if lower(a[i]) != lower(bs[i]) {
            return false;
        }
        i = i + 1;
    }
    true
}

fn separator(c: char, windows: bool) -> (s: bool)
    ensures
        s == is_separator(c, windows),
{
    c == '/' || (windows && c == '\\')
}

/// The last component of a path, as `Path::file_name` finds it.
pub fn path_file_name(p: &str, windows: bool) -> (name: Option<Vec<char>>)
    ensures
        match name {
            Some(n) => file_name(p@, windows) == Some(n@),
            None => file_name(p@, windows) is None,
        },
{
    let cs = to_chars(p);
    let mut last: Option<Vec<char>> = None;
    let mut i: usize = 0;
    let ghost mut seen: Seq<Seq<char>> = Seq::empty();
    proof { assert(cs@.skip(0) =~= p@); }
    while i < cs.len()
        invariant
            i <= cs@.len(),
            cs@ == p@,
            components(p@, windows) == seen + components(cs@.skip(i as int), windows),
            match last {
                Some(l) => seen.len() > 0 && seen.last() == l@,
                None => seen.len() == 0,
            },
        decreases cs.len() - i,
    {
        let ghost rest = cs@.skip(i as int);
        let mut j = i;
        while j < cs.len() && !separator(cs[j], windows)
            invariant
                i <= j <= cs@.len(),
                rest == cs@.skip(i as int),
                segment_end(rest, windows) == (j - i) + segment_end(cs@.skip(j as int), windows),
            decreases cs.len() - j,
        {
            assert(cs@.skip(j as int).drop_first() =~= cs@.skip(j + 1));
            j = j + 1;
        }
        proof {
            lemma_segment_end(rest, windows);
            assert(segment_end(cs@.skip(j as int), windows) == 0);
        }
        let seg = crate::wildcard::slice_range(cs.as_slice(), i, j);
        assert(seg@ =~= rest.take(j - i));
        let next = if j < cs.len() { j + 1 } else { j };
        assert(cs@.skip(next as int) =~= if j - i < rest.len() { rest.skip(j - i + 1) } else { Seq::<char>::empty() });
        let dot = seg.len() == 1 && seg[0] == '.';
        proof {
            reveal_strlit(".");
            if seg@.len() == 1 { assert(dot == (seg@ =~= "."@)); }
            if seg@.len() != 1 { assert(seg@ != "."@); }
        }
        if seg.len() > 0 && !dot {
            proof { seen = seen.push(seg@); }
            last = Some(seg);
            assert(components(p@, windows) =~= seen + components(cs@.skip(next as int), windows));
        }
        i = next;
        if i == j && j == cs.len() {
            assert(cs@.skip(i as int) =~= Seq::<char>::empty());
        }
    }
    proof {
        assert(cs@.skip(i as int) =~= Seq::<char>::empty());
        assert(seen + Seq::<Seq<char>>::empty() =~= seen);
    }
    match last {
        None => None,
        Some(l) => {
            let dotdot = l.len() == 2 && l[0] == '.' && l[1] == '.';
            proof {
                reveal_strlit("..");
                if l@.len() == 2 { assert(dotdot == (l@ =~= ".."@)); }
                if l@.len() != 2 { assert(l@ != ".."@); }
            }
            if dotdot { None } else { Some(l) }
        },
    }
}

/// The stem of a path, as `Path::file_stem` finds it.
pub fn path_file_stem(p: &str, windows: bool) -> (stem: Option<Vec<char>>)
    ensures
        match stem {
            Some(s) => file_stem(p@, windows) == Some(s@),
            None => file_stem(p@, windows) is None,
        },
{
    let name = match path_file_name(p, windows) {
        Some(n) => n,
        None => return None,
    };
    let mut k: usize = name.len();
    while k > 0 && name[k - 1] != '.'
        invariant
            k <= name@.len(),
            forall|j: int| k <= j < name@.len() ==> name@[j] != '.',
        decreases k,
    {
        k = k - 1;
    }
    if k == 0 {
        assert(last_dot(name@) is None);
        return Some(name);
    }
    proof {
        let w = choose|i: int| 0 <= i < name@.len() && name@[i] == '.' && forall|j: int| i < j < name@.len() ==> name@[j] != '.';
        assert(0 <= k - 1 < name@.len() && name@[k - 1] == '.');
        if w < k - 1 {
            assert(name@[k - 1] != '.');
        }
        assert(last_dot(name@) == Some(k - 1));
    }
    if k - 1 == 0 {
        return Some(name);
    }
    let stem = crate::wildcard::slice_range(name.as_slice(), 0, k - 1);
    assert(stem@ =~= name@.take(k - 1));
    Some(stem)
}

/// Whether a process is a Relay gateway, by the stem of its name or path.
pub fn is_relay_process(name: &str, path: &str, windows: bool) -> (relay: bool)
    ensures
        relay == relay_process(name@, path@, windows),
{
    let by_name = match path_file_stem(name, windows) {
        Some(s) => chars_eq_ignore_ascii_case(s.as_slice(), "nemo-relay"),
        None => false,
    };
    if by_name {
        return true;
    }
    match path_file_stem(path, windows) {
        Some(s) => chars_eq_ignore_ascii_case(s.as_slice(), "nemo-relay"),
        None => false,
    }
}

/// A listener at the stop address: a TCP socket whose address is `bind`.
pub open spec fn at_bind(l: ListenerRecord, bind: Seq<char>) -> bool {
    l.socket@ == bind && l.is_tcp
}

/// The first listener at `bind` among the first `n`, if any.
pub open spec fn first_at(ls: Seq<ListenerRecord>, bind: Seq<char>, n: int) -> Option<int>
    decreases n,
{
    if n <= 0 {
        None
    } else {
        match first_at(ls, bind, n - 1) {
            Some(i) => Some(i),
            None => if at_bind(ls[n - 1], bind) { Some(n - 1) } else { None },
        }
    }
}

/// The first listener at `bind` after index `after` whose process differs
/// from `pid`, among the first `n`.
pub open spec fn first_other(ls: Seq<ListenerRecord>, bind: Seq<char>, after: int, pid: u32, n: int) -> Option<int>
    decreases n,
{
    if n <= 0 || n <= after + 1 {
        None
    } else {
        match first_other(ls, bind, after, pid, n - 1) {
            Some(i) => Some(i),
            None => if at_bind(ls[n - 1], bind) && ls[n - 1].pid != pid { Some(n - 1) } else { None },
        }
    }
}

/// The listener a stop targets: none when nothing listens at `bind`; an
/// error when processes disagree about it or it is not Relay; else the
/// first one found.
pub open spec fn selection_spec(ls: Seq<ListenerRecord>, bind: Seq<char>, windows: bool) -> Result<Option<int>, Seq<char>> {
    match first_at(ls, bind, ls.len() as int) {
        None => Ok(None),
        Some(f) => match first_other(ls, bind, f, ls[f].pid, ls.len() as int) {
            Some(o) => Err("multiple processes listen at gateway address "@ + bind + ": PIDs "@
                + decimal_text(ls[f].pid as nat) + " and "@ + decimal_text(ls[o].pid as nat)),
            None => if !relay_process(ls[f].name@, ls[f].path@, windows) {
                Err("refusing to stop non-Relay process '"@ + ls[f].name@ + "' at "@ + bind)
            } else {
                Ok(Some(f))
            },
        },
    }
}

proof fn lemma_first_at(ls: Seq<ListenerRecord>, bind: Seq<char>, n: int)
    requires
        n <= ls.len(),
    ensures
        match first_at(ls, bind, n) {
            Some(i) => 0 <= i < n && at_bind(ls[i], bind) && forall|j: int| 0 <= j < i ==> !at_bind(#[trigger] ls[j], bind),
            None => forall|j: int| 0 <= j < n ==> !at_bind(#[trigger] ls[j], bind),
        },
    decreases n,
{
    if n > 0 {
        lemma_first_at(ls, bind, n - 1);
    }
}

proof fn lemma_first_other(ls: Seq<ListenerRecord>, bind: Seq<char>, after: int, pid: u32, n: int)
    requires
        0 <= after,
        n <= ls.len(),
    ensures
        match first_other(ls, bind, after, pid, n) {
            Some(o) => after < o < n && at_bind(ls[o], bind) && ls[o].pid != pid,
            None => forall|j: int| after < j < n && at_bind(#[trigger] ls[j], bind) ==> ls[j].pid == pid,
        },
    decreases n,
{
    if n > 0 && n > after + 1 {
        lemma_first_other(ls, bind, after, pid, n - 1);
    }
}

/// What a stop targets, by the listeners: nothing when no TCP listener is
/// at the address; otherwise the first one there, and only when every
/// listener there belongs to its process and that process is Relay. When
/// two processes listen there, or the one there is not Relay, the stop is
/// refused.
pub proof fn lemma_stop_target(ls: Seq<ListenerRecord>, bind: Seq<char>, windows: bool)
    ensures
        selection_spec(ls, bind, windows) == Ok::<Option<int>, Seq<char>>(None)
            <==> forall|j: int| 0 <= j < ls.len() ==> !at_bind(#[trigger] ls[j], bind),
        selection_spec(ls, bind, windows) matches Ok(Some(i)) ==> {
            &&& 0 <= i < ls.len() && at_bind(ls[i], bind)
            &&& relay_process(ls[i].name@, ls[i].path@, windows)
            &&& forall|j: int| 0 <= j < ls.len() && at_bind(#[trigger] ls[j], bind) ==> ls[j].pid == ls[i].pid
            &&& forall|j: int| 0 <= j < i ==> !at_bind(#[trigger] ls[j], bind)
        },
        (exists|j: int, k: int| 0 <= j < ls.len() && 0 <= k < ls.len() && at_bind(#[trigger] ls[j], bind)
            && at_bind(#[trigger] ls[k], bind) && ls[j].pid != ls[k].pid) ==> selection_spec(ls, bind, windows) is Err,
{
    lemma_first_at(ls, bind, ls.len() as int);
    match first_at(ls, bind, ls.len() as int) {
        Some(f) => {
            lemma_first_other(ls, bind, f, ls[f].pid, ls.len() as int);
            if first_other(ls, bind, f, ls[f].pid, ls.len() as int) is None {
                assert forall|j: int| 0 <= j < ls.len() && at_bind(#[trigger] ls[j], bind) implies ls[j].pid == ls[f].pid by {
                    if j < f {
                        assert(!at_bind(ls[j], bind));
                    }
                }
            }
        },
        None => {},
    }
}

fn listener_at(l: &ListenerRecord, bind: &str) -> (at: bool)
    ensures
        at == at_bind(*l, bind@),
{
    l.is_tcp && str_is(l.socket.as_str(), bind)
}

/// Chooses the listener a stop targets, by its index.
pub fn select_relay_listener(bind: &str, listeners: &Vec<ListenerRecord>, windows: bool) -> (r: Result<Option<usize>, CliError>)
    ensures
        match selection_spec(listeners@, bind@, windows) {
            Ok(Some(i)) => r == Ok::<Option<usize>, CliError>(Some(i as usize)),
            Ok(None) => r == Ok::<Option<usize>, CliError>(None),
            Err(e) => r matches Err(CliError::Launch(m)) && m@ == e,
        },
{
    let ghost ls = listeners@;
    let mut first: Option<usize> = None;
    let mut i: usize = 0;
    while i < listeners.len() && first.is_none()
        invariant
            i <= listeners@.len(),
            ls == listeners@,
            first_at(ls, bind@, i as int) == match first {
                Some(f) => Some(f as int),
                None => None::<int>,
            },
            first matches Some(f) ==> f < i,
        decreases listeners.len() - i,
    {
        if listener_at(&listeners[i], bind) {
            first = Some(i);
        }
        i = i + 1;
    }
    let f = match first {
        None => {
            proof {
                assert(i == listeners@.len());
            }
            return Ok(None);
        },
        Some(f) => f,
    };
    proof {
        lemma_first_at_stable(ls, bind@, i as int, ls.len() as int);
    }
    let pid = listeners[f].pid;
    let mut k: usize = f + 1;
    while k < listeners.len()
        invariant
            f < k <= listeners@.len(),
            ls == listeners@,
            pid == ls[f as int].pid,
            first_at(ls, bind@, ls.len() as int) == Some(f as int),
            first_other(ls, bind@, f as int, pid, k as int) is None,
        decreases listeners.len() - k,
    {
        if listener_at(&listeners[k], bind) && listeners[k].pid != pid {
            assert(first_other(ls, bind@, f as int, pid, k + 1) == Some(k as int));
            proof { lemma_first_other_stable(ls, bind@, f as int, pid, k + 1, ls.len() as int); }
            let mut m = "multiple processes listen at gateway address ".to_owned();
            m.append(bind);
            m.append(": PIDs ");
            push_decimal(&mut m, pid as u64);
            m.append(" and ");
            push_decimal(&mut m, listeners[k].pid as u64);
            return Err(CliError::Launch(m));
        }
        k = k + 1;
    }
    if !is_relay_process(listeners[f].name.as_str(), listeners[f].path.as_str(), windows) {
        let mut m = "refusing to stop non-Relay process '".to_owned();
        m.append(listeners[f].name.as_str());
        m.append("' at ");
        m.append(bind);
        return Err(CliError::Launch(m));
    }
    Ok(Some(f))
}

proof fn lemma_first_at_stable(ls: Seq<ListenerRecord>, bind: Seq<char>, i: int, n: int)
    requires
        0 <= i <= n,
        first_at(ls, bind, i) is Some,
    ensures
        first_at(ls, bind, n) == first_at(ls, bind, i),
    decreases n - i,
{
    if n > i {
        lemma_first_at_stable(ls, bind, i, n - 1);
    }
}

proof fn lemma_first_other_stable(ls: Seq<ListenerRecord>, bind: Seq<char>, after: int, pid: u32, i: int, n: int)
    requires
        i <= n,
        first_other(ls, bind, after, pid, i) is Some,
    ensures
        first_other(ls, bind, after, pid, n) == first_other(ls, bind, after, pid, i),
    decreases n - i,
{
    if n > i {
        lemma_first_other_stable(ls, bind, after, pid, i, n - 1);
    }
}

/// The listener found again just before signalling must be the same
/// process.
pub fn confirm_listener(bind: &str, target_pid: u32, current_pid: u32) -> (r: Result<(), CliError>)
    ensures
        target_pid == current_pid ==> r is Ok,
        target_pid != current_pid ==> (r matches Err(CliError::Launch(m))
            && m@ == "gateway listener at "@ + bind@ + " changed from PID "@ + decimal_text(target_pid as nat)
                + " to PID "@ + decimal_text(current_pid as nat) + " before shutdown"@),
{
    if target_pid == current_pid {
        return Ok(());
    }
    let mut m = "gateway listener at ".to_owned();
    m.append(bind);
    m.append(" changed from PID ");
    push_decimal(&mut m, target_pid as u64);
    m.append(" to PID ");
    push_decimal(&mut m, current_pid as u64);
    m.append(" before shutdown");
    Err(CliError::Launch(m))
}

/// The error of a failed signal to the gateway process.
pub fn signal_failure(pid: u32, bind: &str, error: &str) -> (e: CliError)
    ensures
        e matches CliError::Launch(m) && m@ == "failed to stop gateway process "@ + decimal_text(pid as nat)
            + " at "@ + bind@ + ": "@ + error@,
{
    let mut m = "failed to stop gateway process ".to_owned();
    push_decimal(&mut m, pid as u64);
    m.append(" at ");
    m.append(bind);
    m.append(": ");
    m.append(error);
    CliError::Launch(m)
}

/// One poll while waiting for the stopped gateway's listener to close:
/// done once nothing listens; keep waiting while the same process does
/// before the deadline; fail when another process took over or the
/// deadline passed.
pub fn listener_exit_step(current: Option<u32>, pid: u32, before_deadline: bool, bind: &str) -> (r: Result<bool, CliError>)
    ensures
        match current {
            None => r == Ok::<bool, CliError>(true),
            Some(p) => if p != pid {
                r matches Err(CliError::Launch(m)) && m@ == "a different process replaced gateway PID "@
                    + decimal_text(pid as nat) + " at "@ + bind@ + " during shutdown"@
            } else if before_deadline {
                r == Ok::<bool, CliError>(false)
            } else {
                r matches Err(CliError::Launch(m)) && m@ == "gateway process "@ + decimal_text(pid as nat)
                    + " at "@ + bind@ + " did not stop"@
            },
        },
{
    match current {
        None => Ok(true),
        Some(p) => {
            if p != pid {
                let mut m = "a different process replaced gateway PID ".to_owned();
                push_decimal(&mut m, pid as u64);
                m.append(" at ");
                m.append(bind);
                m.append(" during shutdown");
                Err(CliError::Launch(m))
            } else if before_deadline {
                Ok(false)
            } else {
                let mut m = "gateway process ".to_owned();
                push_decimal(&mut m, pid as u64);
                m.append(" at ");
                m.append(bind);
                m.append(" did not stop");
                Err(CliError::Launch(m))
            }
        },
    }
}

/// The signal a stop sends.
#[derive(Clone, Copy, Debug, PartialEq, Eq, Structural)]
pub enum StopSignal {
    Interrupt,
    Kill,
}

/// Kill when forced or on Windows; otherwise interrupt for a graceful
/// shutdown.
pub fn stop_signal(force: bool, windows: bool) -> (s: StopSignal)
    ensures
        s == if force || windows { StopSignal::Kill } else { StopSignal::Interrupt },
{
    if force || windows { StopSignal::Kill } else { StopSignal::Interrupt }
}

/// The outcome of signalling one process: `None` when the platform cannot
/// deliver the signal, else whether it was delivered.
pub fn signal_outcome(pid: u32, delivered: Option<bool>) -> (r: Result<(), String>)
    ensures
        match delivered {
            None => r matches Err(m) && m@ == "the platform cannot signal PID "@ + decimal_text(pid as nat),
            Some(true) => r is Ok,
            Some(false) => r matches Err(m) && m@ == "could not signal PID "@ + decimal_text(pid as nat),
        },
{
    match delivered {
        None => {
            let mut m = "the platform cannot signal PID ".to_owned();
            push_decimal(&mut m, pid as u64);
            Err(m)
        },
        Some(true) => Ok(()),
        Some(false) => {
            let mut m = "could not signal PID ".to_owned();
            push_decimal(&mut m, pid as u64);
            Err(m)
        },
    }
}

} // verus!
