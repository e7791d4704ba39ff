//! Child-process launch plans of agent integrations, and the names of the
//! temporary files that atomic replacement writes first.

use vstd::prelude::*;
use vstd::string::StringExecFns;
use crate::plugin_trust::joined;
use crate::text::str_is;

verus! {

/// A resolved child-process launch plan: the command line, the index of
/// the host program in it, the environment to set, temporary directories
/// to remove afterwards, notes for the user, and which environment
/// variables hold secrets.
pub struct PreparedAgentLaunch {
    pub argv: Vec<String>,
    pub host_index: usize,
    pub env: Vec<(String, String)>,
    pub temp_dirs: Vec<String>,
    pub notes: Vec<String>,
    pub secret_env_names: Vec<String>,
}

pub open spec fn env_view(env: Seq<(String, String)>) -> Seq<(Seq<char>, Seq<char>)> {
    env.map_values(|e: (String, String)| (e.0@, e.1@))
}

pub open spec fn names_view(v: Seq<String>) -> Seq<Seq<char>> {
    v.map_values(|s: String| s@)
}

/// `env` without the variables named `name`.
pub open spec fn without_name(env: Seq<(Seq<char>, Seq<char>)>, name: Seq<char>) -> Seq<(Seq<char>, Seq<char>)> {
    env.filter(|e: (Seq<char>, Seq<char>)| e.0 != name)
}

impl PreparedAgentLaunch {
    /// Sets the secret variable `name` to `value`, replacing any earlier
    /// setting of it, and records it as secret once.
    pub fn set_secret_env(&mut self, name: String, value: String)
        ensures
            env_view(final(self).env@) == without_name(env_view(old(self).env@), name@).push((name@, value@)),
            names_view(final(self).secret_env_names@) == if names_view(old(self).secret_env_names@).contains(name@) {
                names_view(old(self).secret_env_names@)
            } else {
                names_view(old(self).secret_env_names@).push(name@)
            },
            final(self).argv == old(self).argv,
            final(self).host_index == old(self).host_index,
            final(self).temp_dirs == old(self).temp_dirs,
            final(self).notes == old(self).notes,
    {
        let ghost old_env = env_view(self.env@);
        let mut kept: Vec<(String, String)> = Vec::new();
        let mut i: usize = 0;
        while i < self.env.len()
            invariant
                i <= self.env@.len(),
                old_env == env_view(self.env@),
                env_view(kept@) == without_name(old_env.take(i as int), name@),
            decreases self.env.len() - i,
        {
            let ghost before = kept@;
            proof {
                assert(old_env.take(i + 1) =~= old_env.take(i as int).push(old_env[i as int]));
                old_env.take(i as int).lemma_filter_push(old_env[i as int], |e: (Seq<char>, Seq<char>)| e.0 != name@);
            }
            if !str_is(self.env[i].0.as_str(), name.as_str()) {
                kept.push((self.env[i].0.clone(), self.env[i].1.clone()));
                assert(env_view(kept@) =~= env_view(before).push(old_env[i as int]));
            }
            i = i + 1;
        }
        assert(old_env.take(self.env@.len() as int) =~= old_env);
        let ghost nv = name@;
        let ghost vv = value@;
        let ghost kv = env_view(kept@);
        let mut recorded = false;
        let mut k: usize = 0;
        while k < self.secret_env_names.len()
            invariant
                k <= self.secret_env_names@.len(),
                recorded == exists|j: int| 0 <= j < k && names_view(self.secret_env_names@)[j] == name@,
            decreases self.secret_env_names.len() - k,
        {
            if str_is(self.secret_env_names[k].as_str(), name.as_str()) {
                assert(names_view(self.secret_env_names@)[k as int] == name@);
                recorded = true;
            }
            k = k + 1;
        }
        let ghost old_names = names_view(self.secret_env_names@);
        kept.push((name.clone(), value));
        assert(env_view(kept@) =~= kv.push((nv, vv)));
        self.env = kept;
        if !recorded {
            self.secret_env_names.push(name);
            assert(names_view(self.secret_env_names@) =~= old_names.push(nv));
        } else {
            proof {
                let j = choose|j: int| 0 <= j < k && names_view(self.secret_env_names@)[j] == nv;
                assert(old_names[j] == nv);
            }
        }
    }
}

/// Inserts `values` into the command line right after the host program.
pub fn insert_after_host(argv: &mut Vec<String>, host_index: usize, values: Vec<String>)
    requires
        host_index < old(argv)@.len(),
    ensures
        final(argv)@ == old(argv)@.take(host_index + 1) + values@ + old(argv)@.skip(host_index + 1),
{
    let mut out: Vec<String> = Vec::new();
    let n = argv.len();
    let mut i: usize = 0;
    while i <= host_index
        invariant
            n == argv@.len(),
            host_index < n,
            i <= host_index + 1,
            out@ == argv@.take(i as int),
        decreases host_index + 1 - i,
    {
        out.push(argv[i].clone());
        assert(out@ =~= argv@.take(i + 1));
        i = i + 1;
    }
    let mut j: usize = 0;
    while j < values.len()
        invariant
            j <= values@.len(),
            out@ == argv@.take(host_index + 1) + values@.take(j as int),
        decreases values.len() - j,
    {
        out.push(values[j].clone());
        assert(out@ =~= argv@.take(host_index + 1) + values@.take(j + 1));
        j = j + 1;
    }
    assert(values@.take(values@.len() as int) =~= values@);
    let mut k: usize = host_index + 1;
    while k < argv.len()
        invariant
            host_index + 1 <= k <= argv@.len(),
            out@ == argv@.take(host_index + 1) + values@ + argv@.subrange(host_index + 1, k as int),
        decreases argv.len() - k,
    {
        out.push(argv[k].clone());
        assert(out@ =~= argv@.take(host_index + 1) + values@ + argv@.subrange(host_index + 1, k + 1));
        k = k + 1;
    }
    assert(argv@.subrange(host_index + 1, argv@.len() as int) =~= argv@.skip(host_index + 1));
    *argv = out;
}

/// Byte `i` of the version 7 UUID built from a Unix time in milliseconds
/// and ten counter and random bytes `r`: the low 48 bits of the time, big
/// endian; then version 7 over the low nibble of `r[0]`, and `r[1]`; then
/// the RFC 4122 variant over the low six bits of `r[2]`, and `r[3..10]`.
pub open spec fn v7_byte(unix_millis: u64, r: Seq<u8>, i: int) -> u8 {
    if i < 6 {
        ((unix_millis >> ((40 - 8 * i) as u64)) & 0xffu64) as u8
    } else if i == 6 {
        0x70u8 | (r[0] & 0x0fu8)
    } else if i == 7 {
        r[1]
    } else if i == 8 {
        0x80u8 | (r[2] & 0x3fu8)
    } else {
        r[i - 6]
    }
}

/// The lowercase hexadecimal digit of a nibble.
pub open spec fn hex_digit(n: u8) -> char {
    if n < 10 { (48 + n) as char } else { (87 + n) as char }
}

/// Character `p` of the hyphenated text of 16 bytes: two lowercase hex
/// digits per byte, high nibble first, with `-` after bytes 4, 6, 8 and 10.
pub open spec fn hyphenated_char(bytes: Seq<u8>, p: int) -> char {
    if p == 8 || p == 13 || p == 18 || p == 23 {
        '-'
    } else {
        let q = if p < 8 { p } else if p < 13 { p - 1 } else if p < 18 { p - 2 } else if p < 23 { p - 3 } else { p - 4 };
        let b = bytes[q / 2];
        hex_digit(if q % 2 == 0 { b / 16 } else { b % 16 })
    }
}

/// The text `to_string` gives for the version 7 UUID that
/// `uuid::Builder::from_unix_timestamp_millis` builds from `unix_millis`
/// and the ten bytes `r`.
pub open spec fn uuid_v7_text(unix_millis: u64, r: Seq<u8>) -> Seq<char> {
    let bytes = Seq::new(16, |i: int| v7_byte(unix_millis, r, i));
    Seq::new(36, |p: int| hyphenated_char(bytes, p))
}

/// The text of every such UUID has the hyphenated version 7 form.
pub proof fn lemma_uuid_v7_text_form(unix_millis: u64, r: Seq<u8>)
    requires
        r.len() == 10,
    ensures
        v7_hyphenated(uuid_v7_text(unix_millis, r)),
{
    let bytes = Seq::new(16, |i: int| v7_byte(unix_millis, r, i));
    let t = uuid_v7_text(unix_millis, r);
    assert forall|n: u8| n < 16 implies lower_hex_digit(#[trigger] hex_digit(n)) by {}
    assert forall|b: u8| #[trigger] (b / 16) < 16 && b % 16 < 16 by {
        assert(b / 16 < 16) by (bit_vector);
    }
    let r0 = r[0];
    assert((0x70u8 | (r0 & 0x0fu8)) / 16 == 7) by (bit_vector);
    assert(t[14] == hex_digit(bytes[6] / 16));
}

/// A lowercase hexadecimal digit.
pub open spec fn lower_hex_digit(c: char) -> bool {
    ('0' <= c && c <= '9') || ('a' <= c && c <= 'f')
}

/// The hyphenated form of a version 7 UUID: 36 characters, lowercase hex
/// digits in groups of 8, 4, 4, 4 and 12 separated by `-`, with `7` as the
/// version digit.
pub open spec fn v7_hyphenated(t: Seq<char>) -> bool {
    &&& t.len() == 36
    &&& forall|i: int| 0 <= i < 36 ==> (if i == 8 || i == 13 || i == 18 || i == 23 {
        t[i] == '-'
    } else {
        lower_hex_digit(#[trigger] t[i])
    })
    &&& t[14] == '7'
}

/// `uuid::Builder::from_unix_timestamp_millis(..).into_uuid()`, written with
/// `to_string`: the hyphenated lowercase text of the version 7 UUID built
/// from the time and the bytes (`uuid_v7_text`).
#[verifier::external_body]
fn uuid_v7(unix_millis: u64, counter_random: [u8; 10]) -> (text: String)
    ensures
        text@ == uuid_v7_text(unix_millis, counter_random@),
{
    uuid::Builder::from_unix_timestamp_millis(unix_millis, &counter_random).into_uuid().to_string()
}

/// The temporary file name for a file `base` and a `unique` text.
pub open spec fn temp_name(base: Seq<char>, unique: Seq<char>) -> Seq<char> {
    seq!['.'] + base + seq!['.'] + unique + ".tmp"@
}

/// The file name atomic replacement keeps: the target's, or `nemo-relay`.
pub open spec fn temp_base(file_name: Option<&str>) -> Seq<char> {
    match file_name {
        Some(f) => f@,
        None => "nemo-relay"@,
    }
}

/// The name of the temporary file that atomic replacement of a file named
/// `file_name` writes first: hidden, with `unique` between the name and
/// `.tmp`; a file name that is missing or not Unicode counts as
/// `nemo-relay`.
pub fn atomic_temp_file_name(file_name: Option<&str>, unique: &str) -> (name: String)
    ensures
        name@ == temp_name(temp_base(file_name), unique@),
{
    let base = match file_name {
        Some(f) => f,
        None => "nemo-relay",
    };
    let mut name = String::new();
    name.append(".");
    name.append(base);
    name.append(".");
    name.append(unique);
    name.append(".tmp");
    proof { reveal_strlit("."); }
    assert(name@ =~= seq!['.'] + base@ + seq!['.'] + unique@ + ".tmp"@);
    name
}

/// A fresh temporary file name for atomically replacing a file named
/// `file_name` (see `atomic_temp_file_name`), made unique by the version 7
/// UUID of the current Unix time in milliseconds and ten counter and
/// random bytes.
pub fn fresh_atomic_temp_file_name(file_name: Option<&str>, unix_millis: u64, counter_random: [u8; 10]) -> (name: String)
    ensures
        name@ == temp_name(temp_base(file_name), uuid_v7_text(unix_millis, counter_random@)),
        v7_hyphenated(uuid_v7_text(unix_millis, counter_random@)),
{
    let unique = uuid_v7(unix_millis, counter_random);
    proof { lemma_uuid_v7_text_form(unix_millis, counter_random@); }
    atomic_temp_file_name(file_name, unique.as_str())
}

/// The failures among cleanup steps (`step: error`), in order.
pub open spec fn cleanup_failures(results: Seq<(String, Result<(), String>)>) -> Seq<Seq<char>>
    decreases results.len(),
{
    if results.len() == 0 {
        Seq::empty()
    } else {
        let before = cleanup_failures(results.drop_last());
        match results.last().1 {
            Ok(()) => before,
            Err(e) => before.push(results.last().0@ + ": "@ + e@),
        }
    }
}

/// The outcome of several cleanup steps that all ran: success when none
/// failed, else every failure joined with `; `.
pub fn combine_cleanup_results(results: Vec<(String, Result<(), String>)>) -> (r: Result<(), String>)
    ensures
        cleanup_failures(results@).len() == 0 ==> r is Ok,
        cleanup_failures(results@).len() > 0 ==> (r matches Err(m) && m@ == joined(cleanup_failures(results@), "; "@)),
{
    let ghost all = results@;
    let mut message = String::new();
    let mut count: usize = 0;
    let mut rest = results;
    let mut i: usize = 0;
    assert(all.len() == rest.len());
    assert(all.take(0) =~= Seq::<(String, Result<(), String>)>::empty());
    while rest.len() > 0
        invariant
            all.len() <= usize::MAX,
            i + rest@.len() == all.len(),
            rest@ == all.skip(i as int),
            count == cleanup_failures(all.take(i as int)).len(),
            count <= i,
            message@ == joined(cleanup_failures(all.take(i as int)), "; "@),
        decreases rest.len(),
    {
        let (step, result) = rest.remove(0);
        assert((step, result) == all[i as int]);
        assert(all.take(i + 1).drop_last() =~= all.take(i as int));
        match result {
            Ok(()) => {},
            Err(e) => {
                let ghost failures = cleanup_failures(all.take(i as int));
                let ghost entry = step@ + ": "@ + e@;
                if count > 0 {
                    message.append("; ");
                }
                message.append(step.as_str());
                message.append(": ");
                message.append(e.as_str());
                count = count + 1;
                proof {
                    let pushed = failures.push(entry);
                    assert(pushed.drop_last() =~= failures);
                    if failures.len() == 0 {
                        assert(message@ =~= entry);
                    } else {
                        assert(message@ =~= joined(failures, "; "@) + "; "@ + entry);
                    }
                }
            },
        }
        i = i + 1;
        assert(rest@ =~= all.skip(i as int));
    }
    assert(all.take(i as int) =~= all);
    if count == 0 {
        Ok(())
    } else {
        Err(message)
    }
}

pub open spec fn supervision_failure_text(error: Seq<char>, cleanup_error: Option<Seq<char>>) -> Seq<char> {
    "failed while supervising the coding-agent tree: "@ + error + match cleanup_error {
        Some(c) => "; additionally failed to terminate the coding-agent tree: "@ + c,
        None => Seq::empty(),
    }
}

/// The error of a failed wait on the supervised agent, with the failure to
/// terminate its tree afterwards when that failed too.
pub fn supervision_failure_message(error: &str, cleanup_error: Option<&str>) -> (m: String)
    ensures
        m@ == supervision_failure_text(error@, match cleanup_error { Some(c) => Some(c@), None => None }),
{
    let mut m = String::new();
    m.append("failed while supervising the coding-agent tree: ");
    m.append(error);
    match cleanup_error {
        Some(c) => {
            m.append("; additionally failed to terminate the coding-agent tree: ");
            m.append(c);
        },
        None => {},
    }
    m
}

} // verus!
