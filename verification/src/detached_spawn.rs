//! How a detached gateway is started on Windows: its command line in UTF-16
//! with each part quoted the way the C runtime splits it again, and the
//! process creation flags chosen by what the enclosing job allows.

use vstd::prelude::*;

verus! {

/// `\` in UTF-16.
pub const BACKSLASH: u16 = 92;
/// `"` in UTF-16.
pub const QUOTE: u16 = 34;
/// A space in UTF-16.
pub const SPACE: u16 = 32;

/// `n` backslashes.
pub open spec fn backslashes(n: nat) -> Seq<u16> {
    Seq::new(n, |i: int| BACKSLASH)
}

/// The inside of a quoted part, after `pending` backslashes not yet
/// written: a run of backslashes is written as it is unless a quote or the
/// closing quote follows it, in which case it is doubled; a quote is
/// escaped by one more backslash.
pub open spec fn quoted_body(v: Seq<u16>, pending: nat) -> Seq<u16>
    decreases v.len(),
{
    if v.len() == 0 {
        backslashes(2 * pending)
    } else if v[0] == BACKSLASH {
        quoted_body(v.drop_first(), pending + 1)
    } else if v[0] == QUOTE {
        backslashes(2 * pending + 1) + seq![QUOTE] + quoted_body(v.drop_first(), 0)
    } else {
        backslashes(pending) + seq![v[0]] + quoted_body(v.drop_first(), 0)
    }
}

/// One part of a command line, quoted.
pub open spec fn quoted(v: Seq<u16>) -> Seq<u16> {
    seq![QUOTE] + quoted_body(v, 0) + seq![QUOTE]
}

fn push_backslashes(out: &mut Vec<u16>, n: usize)
    ensures
        final(out)@ == old(out)@ + backslashes(n as nat),
{
    let mut k: usize = 0;
    while k < n
        invariant
            k <= n,
            out@ == old(out)@ + backslashes(k as nat),
        decreases n - k,
    {
        out.push(BACKSLASH);
        k = k + 1;
        assert(out@ =~= old(out)@ + backslashes(k as nat));
    }
}

proof fn lemma_double(a: Seq<u16>, n: nat)
    ensures
        a + backslashes(n) + backslashes(n) == a + backslashes(2 * n),
{
    assert(a + backslashes(n) + backslashes(n) =~= a + backslashes(2 * n));
}

/// Appends `value`, quoted, to a command line.
pub fn append_quoted(command_line: &mut Vec<u16>, value: &[u16])
    ensures
        final(command_line)@ == old(command_line)@ + quoted(value@),
{
    let ghost start = command_line@;
    command_line.push(QUOTE);
    let mut slashes: usize = 0;
    let mut i: usize = 0;
    assert(value@.skip(0) =~= value@);
    while i < value.len()
        invariant
            i <= value@.len(),
            slashes <= i,
            command_line@ + quoted_body(value@.skip(i as int), slashes as nat)
                == start + seq![QUOTE] + quoted_body(value@, 0),
        decreases value.len() - i,
    {
        let ghost before = command_line@;
        let ghost pending = slashes as nat;
        let ghost rest = value@.skip(i as int);
        assert(rest[0] == value@[i as int]);
        assert(rest.drop_first() =~= value@.skip(i + 1));
        let unit = value[i];
        if unit == BACKSLASH {
            slashes = slashes + 1;
        } else {
            if unit == QUOTE {
                push_backslashes(command_line, slashes);
                push_backslashes(command_line, slashes);
                command_line.push(BACKSLASH);
                proof {
                    lemma_double(before, slashes as nat);
                    assert(command_line@ =~= before + backslashes(2 * slashes as nat + 1));
                }
            } else {
                push_backslashes(command_line, slashes);
            }
            slashes = 0;
            command_line.push(unit);
            proof {
                assert(command_line@ + quoted_body(value@.skip(i + 1), 0)
                    =~= before + quoted_body(rest, pending));
            }
        }
        i = i + 1;
    }
    let ghost before = command_line@;
    push_backslashes(command_line, slashes);
    push_backslashes(command_line, slashes);
    command_line.push(QUOTE);
    proof {
        lemma_double(before, slashes as nat);
        assert(value@.skip(value@.len() as int) =~= Seq::<u16>::empty());
        assert(command_line@ =~= start + quoted(value@));
    }
}

/// The parts of a command line after the program, each after a space and
/// quoted.
pub open spec fn quoted_arguments(args: Seq<Seq<u16>>) -> Seq<u16>
    decreases args.len(),
{
    if args.len() == 0 {
        Seq::empty()
    } else {
        quoted_arguments(args.drop_last()) + seq![SPACE] + quoted(args.last())
    }
}

/// The command line of a detached gateway: the program and each argument
/// quoted, separated by spaces, ending in NUL.
pub fn windows_command_line(program: &[u16], args: &Vec<Vec<u16>>) -> (line: Vec<u16>)
    ensures
        line@ == quoted(program@) + quoted_arguments(args@.map_values(|a: Vec<u16>| a@)) + seq![0u16],
{
    let ghost all = args@.map_values(|a: Vec<u16>| a@);
    let mut line: Vec<u16> = Vec::new();
    append_quoted(&mut line, program);
    let mut k: usize = 0;
    assert(all.take(0) =~= Seq::<Seq<u16>>::empty());
    assert(line@ =~= quoted(program@) + quoted_arguments(all.take(0)));
    while k < args.len()
        invariant
            all == args@.map_values(|a: Vec<u16>| a@),
            k <= args@.len(),
            line@ == quoted(program@) + quoted_arguments(all.take(k as int)),
        decreases args.len() - k,
    {
        line.push(SPACE);
        append_quoted(&mut line, args[k].as_slice());
        assert(all.take(k + 1).drop_last() =~= all.take(k as int));
        assert(all.take(k + 1).last() == args@[k as int]@);
        k = k + 1;
        assert(line@ =~= quoted(program@) + quoted_arguments(all.take(k as int)));
    }
    line.push(0u16);
    assert(all.take(args@.len() as int) =~= all);
    line
}

/// `CREATE_NEW_PROCESS_GROUP`.
pub const CREATE_NEW_PROCESS_GROUP: u32 = 0x0000_0200;
/// `CREATE_BREAKAWAY_FROM_JOB`.
pub const CREATE_BREAKAWAY_FROM_JOB: u32 = 0x0100_0000;
/// `CREATE_NO_WINDOW`.
pub const CREATE_NO_WINDOW: u32 = 0x0800_0000;
/// `JOB_OBJECT_LIMIT_BREAKAWAY_OK`.
pub const JOB_OBJECT_LIMIT_BREAKAWAY_OK: u32 = 0x0000_0800;
/// `JOB_OBJECT_LIMIT_SILENT_BREAKAWAY_OK`.
pub const JOB_OBJECT_LIMIT_SILENT_BREAKAWAY_OK: u32 = 0x0000_1000;

/// The creation flags of a detached gateway, and whether its lifetime is
/// bound to the job of the current process: outside a job, a new process
/// group without a window; inside one, also breaking away when the job
/// allows it, silently away when it breaks away by itself, and otherwise
/// (or when its limits are unknown) living no longer than the job.
pub fn windows_creation_flags(in_job: bool, job_limit_flags: Option<u32>) -> (r: (u32, bool))
    ensures
        !in_job ==> r == (CREATE_NEW_PROCESS_GROUP | CREATE_NO_WINDOW, false),
        in_job ==> r == match job_limit_flags {
            Some(flags) => if flags & JOB_OBJECT_LIMIT_BREAKAWAY_OK != 0 {
                (CREATE_NEW_PROCESS_GROUP | CREATE_NO_WINDOW | CREATE_BREAKAWAY_FROM_JOB, false)
            } else if flags & JOB_OBJECT_LIMIT_SILENT_BREAKAWAY_OK != 0 {
                (CREATE_NEW_PROCESS_GROUP | CREATE_NO_WINDOW, false)
            } else {
                (CREATE_NEW_PROCESS_GROUP | CREATE_NO_WINDOW, true)
            },
            None => (CREATE_NEW_PROCESS_GROUP | CREATE_NO_WINDOW, true),
        },
{
    let base = CREATE_NEW_PROCESS_GROUP | CREATE_NO_WINDOW;
    if !in_job {
        return (base, false);
    }
    match job_limit_flags {
        Some(flags) => {
            if flags & JOB_OBJECT_LIMIT_BREAKAWAY_OK != 0 {
                (base | CREATE_BREAKAWAY_FROM_JOB, false)
            } else if flags & JOB_OBJECT_LIMIT_SILENT_BREAKAWAY_OK != 0 {
                (base, false)
            } else {
                (base, true)
            }
        },
        None => (base, true),
    }
}

/// How the C runtime reads the inside of a quoted argument, with `pending`
/// backslashes read and not yet interpreted: `2n` backslashes before a
/// quote give `n` backslashes and the quote closes the argument; `2n + 1`
/// give `n` backslashes and a literal quote; backslashes before anything
/// else are literal.
pub open spec fn c_runtime_unquote(s: Seq<u16>, pending: nat) -> Seq<u16>
    decreases s.len(),
{
    if s.len() == 0 {
        backslashes(pending)
    } else if s[0] == BACKSLASH {
        c_runtime_unquote(s.drop_first(), pending + 1)
    } else if s[0] == QUOTE {
        if pending % 2 == 0 {
            backslashes(pending / 2)
        } else {
            backslashes(pending / 2) + seq![QUOTE] + c_runtime_unquote(s.drop_first(), 0)
        }
    } else {
        backslashes(pending) + seq![s[0]] + c_runtime_unquote(s.drop_first(), 0)
    }
}

proof fn lemma_unquote_backslashes(k: nat, s: Seq<u16>, m: nat)
    ensures
        c_runtime_unquote(backslashes(k) + s, m) == c_runtime_unquote(s, m + k),
    decreases k,
{
    if k > 0 {
        let t = backslashes(k) + s;
        assert(t[0] == BACKSLASH);
        assert(t.drop_first() =~= backslashes((k - 1) as nat) + s);
        lemma_unquote_backslashes((k - 1) as nat, s, m + 1);
    } else {
        assert(backslashes(0) + s =~= s);
    }
}

proof fn lemma_unquote_body(v: Seq<u16>, p: nat)
    ensures
        c_runtime_unquote(quoted_body(v, p) + seq![QUOTE], 0) == backslashes(p) + v,
    decreases v.len(),
{
    if v.len() == 0 {
        lemma_unquote_backslashes(2 * p, seq![QUOTE], 0);
        let q: Seq<u16> = seq![QUOTE];
        assert(q[0] == QUOTE);
        assert(q.drop_first().len() == 0);
        assert((2 * p) % 2 == 0 && (2 * p) / 2 == p) by (nonlinear_arith);
        assert(backslashes(p) + v =~= backslashes(p));
    } else {
        let rest = v.drop_first();
        if v[0] == BACKSLASH {
            lemma_unquote_body(rest, p + 1);
            assert(backslashes(p + 1) + rest =~= backslashes(p) + v);
        } else if v[0] == QUOTE {
            lemma_unquote_body(rest, 0);
            let tail = quoted_body(rest, 0) + seq![QUOTE];
            let after = seq![QUOTE] + tail;
            assert(quoted_body(v, p) + seq![QUOTE] =~= backslashes(2 * p + 1) + after);
            lemma_unquote_backslashes(2 * p + 1, after, 0);
            assert(after[0] == QUOTE);
            assert(after.drop_first() =~= tail);
            assert((2 * p + 1) % 2 == 1 && (2 * p + 1) / 2 == p) by (nonlinear_arith);
            assert(backslashes(0) + rest =~= rest);
            assert(backslashes(p) + seq![QUOTE] + rest =~= backslashes(p) + v);
        } else {
            lemma_unquote_body(rest, 0);
            let tail = quoted_body(rest, 0) + seq![QUOTE];
            let after = seq![v[0]] + tail;
            assert(quoted_body(v, p) + seq![QUOTE] =~= backslashes(p) + after);
            lemma_unquote_backslashes(p, after, 0);
            assert(after[0] == v[0]);
            assert(after.drop_first() =~= tail);
            assert(backslashes(0) + rest =~= rest);
            assert(backslashes(p) + seq![v[0]] + rest =~= backslashes(p) + v);
        }
    }
}

/// A quoted part comes back unchanged when the C runtime reads it as an
/// argument: reading from after the opening quote up to the closing one
/// gives the part as it was.
pub proof fn lemma_quoted_part_reads_back(v: Seq<u16>)
    ensures
        quoted(v)[0] == QUOTE,
        c_runtime_unquote(quoted(v).drop_first(), 0) == v,
{
    lemma_unquote_body(v, 0);
    assert(quoted(v).drop_first() =~= quoted_body(v, 0) + seq![QUOTE]);
    assert(backslashes(0) + v =~= v);
}

} // verus!
