//! The environment block of a detached gateway on Windows: the current
//! process's variables with the command's changes applied, one variable per
//! name (names compared in upper case), ordered by the UTF-8 bytes of the
//! upper-cased name, each written as `NAME=value` and NUL, with a final NUL.

use vstd::prelude::*;
use vstd::string::StrSliceExecFns;
use vstd::utf8::{encode_utf8, encode_utf8_decode_utf8};
use crate::environment::{bytes_eq, bytes_le, bytes_le_exec, lemma_bytes_le_total, lemma_bytes_le_transitive};

verus! {

/// `str::to_uppercase`: the text with every character mapped to upper case.
pub uninterp spec fn uppercased(text: Seq<char>) -> Seq<char>;

/// Calls `str::to_uppercase`.
#[verifier::external_body]
fn uppercase(text: &str) -> (upper: String)
    ensures
        upper@ == uppercased(text@),
{
    text.to_uppercase()
}

/// A variable of the current process: its name as text (non-Unicode parts
/// replaced), and its name and value in UTF-16.
pub struct EnvVariable {
    pub name: String,
    pub wide_name: Vec<u16>,
    pub value: Vec<u16>,
}

/// A change the command makes: set the variable, or remove it (`None`).
pub struct EnvChange {
    pub name: String,
    pub wide_name: Vec<u16>,
    pub value: Option<Vec<u16>>,
}

/// One variable of the block, under its upper-cased name.
pub struct EnvEntry {
    pub key: String,
    pub name: Vec<u16>,
    pub value: Vec<u16>,
}

/// Name and value of a variable, in UTF-16.
pub type EnvValue = (Seq<u16>, Seq<u16>);

/// Key `a` sorts before key `b`: by their UTF-8 bytes, as `String` orders.
pub open spec fn key_before(a: Seq<char>, b: Seq<char>) -> bool {
    bytes_le(encode_utf8(a), encode_utf8(b)) && a != b
}

/// The entries are in strictly increasing key order.
pub open spec fn ordered(s: Seq<EnvEntry>) -> bool {
    forall|i: int, j: int| 0 <= i < j < s.len() ==> key_before(s[i].key@, s[j].key@)
}

/// The entries hold exactly the variables of `m`, in key order.
pub open spec fn holds(s: Seq<EnvEntry>, m: Map<Seq<char>, EnvValue>) -> bool {
    &&& ordered(s)
    &&& forall|i: int| 0 <= i < s.len() ==> m.contains_key(#[trigger] s[i].key@)
    &&& forall|i: int| 0 <= i < s.len() ==> m[#[trigger] s[i].key@] == (s[i].name@, s[i].value@)
    &&& forall|k: Seq<char>| #[trigger] m.contains_key(k) ==> exists|i: int| 0 <= i < s.len() && s[i].key@ == k
}

proof fn lemma_bytes_le_antisymmetric(a: Seq<u8>, b: Seq<u8>)
    requires
        bytes_le(a, b),
        bytes_le(b, a),
    ensures
        a == b,
    decreases a.len(),
{
    if a.len() > 0 && b.len() > 0 {
        lemma_bytes_le_antisymmetric(a.drop_first(), b.drop_first());
        assert(a =~= seq![a[0]] + a.drop_first());
        assert(b =~= seq![b[0]] + b.drop_first());
    }
}

/// Distinct keys have distinct bytes, so one sorts before the other.
proof fn lemma_key_order_total(a: Seq<char>, b: Seq<char>)
    requires
        a != b,
    ensures
        key_before(a, b) || key_before(b, a),
{
    lemma_bytes_le_total(encode_utf8(a), encode_utf8(b));
}

proof fn lemma_key_order_transitive(a: Seq<char>, b: Seq<char>, c: Seq<char>)
    requires
        key_before(a, b),
        key_before(b, c),
    ensures
        key_before(a, c),
{
    lemma_bytes_le_transitive(encode_utf8(a), encode_utf8(b), encode_utf8(c));
    if a == c {
        lemma_bytes_le_antisymmetric(encode_utf8(a), encode_utf8(b));
        encode_utf8_decode_utf8(a);
        encode_utf8_decode_utf8(b);
    }
}

/// Whether key `a` sorts before key `b`.
fn key_precedes(a: &String, b: &String) -> (before: bool)
    ensures
        before == key_before(a@, b@),
{
    let x = a.as_str().as_bytes_vec();
    let y = b.as_str().as_bytes_vec();
    let le = bytes_le_exec(&x, &y);
    let same = bytes_eq(&x, &y);
    proof {
        if same {
            encode_utf8_decode_utf8(a@);
            encode_utf8_decode_utf8(b@);
        }
    }
    le && !same
}

/// Whether keys `a` and `b` are the same.
fn same_key(a: &String, b: &String) -> (same: bool)
    ensures
        same == (a@ == b@),
{
    let x = a.as_str().as_bytes_vec();
    let y = b.as_str().as_bytes_vec();
    let same = bytes_eq(&x, &y);
    proof {
        if same {
            encode_utf8_decode_utf8(a@);
            encode_utf8_decode_utf8(b@);
        }
    }
    same
}

/// The position of the first entry whose key does not sort before `key`.
fn insertion_point(entries: &Vec<EnvEntry>, key: &String) -> (i: usize)
    requires
        ordered(entries@),
    ensures
        i <= entries@.len(),
        forall|j: int| 0 <= j < i ==> key_before(#[trigger] entries@[j].key@, key@),
        i < entries@.len() ==> !key_before(entries@[i as int].key@, key@),
{
    let mut i: usize = 0;
    while i < entries.len() && key_precedes(&entries[i].key, key)
        invariant
            i <= entries@.len(),
            forall|j: int| 0 <= j < i ==> key_before(#[trigger] entries@[j].key@, key@),
        decreases entries.len() - i,
    {
        i = i + 1;
    }
    i
}

fn set_entry_in(entries: &mut Vec<EnvEntry>, key: String, name: Vec<u16>, value: Vec<u16>, Ghost(m): Ghost<Map<Seq<char>, EnvValue>>)
    requires
        holds(old(entries)@, m),
    ensures
        holds(final(entries)@, m.insert(key@, (name@, value@))),
{
    let i = insertion_point(entries, &key);
    let ghost k = key@;
    let ghost v: EnvValue = (name@, value@);
    let ghost before = entries@;
    let found = i < entries.len() && same_key(&entries[i].key, &key);
    let entry = EnvEntry { key, name, value };
    if found {
        entries.set(i, entry);
        proof {
            let s = entries@;
            assert forall|a: int, b: int| 0 <= a < b < s.len() implies key_before(s[a].key@, s[b].key@) by {
                assert(key_before(before[a].key@, before[b].key@));
            }
            assert forall|q: Seq<char>| #[trigger] m.insert(k, v).contains_key(q) implies
                exists|j: int| 0 <= j < s.len() && s[j].key@ == q by {
                if q != k {
                    let j = choose|j: int| 0 <= j < before.len() && before[j].key@ == q;
                    assert(s[j].key@ == q);
                } else {
                    assert(s[i as int].key@ == q);
                }
            }
            assert forall|j: int| 0 <= j < s.len() implies m.insert(k, v)[#[trigger] s[j].key@] == (s[j].name@, s[j].value@) by {
                if j != i {
                    assert(s[j] == before[j]);
                    if before[j].key@ == k {
                        if j < i {
                            assert(key_before(before[j].key@, before[i as int].key@));
                        } else {
                            assert(key_before(before[i as int].key@, before[j].key@));
                        }
                    }
                }
            }
        }
    } else {
        entries.insert(i, entry);
        proof {
            let s = entries@;
            assert(s == before.insert(i as int, s[i as int]));
            if i < before.len() {
                lemma_key_order_total(before[i as int].key@, k);
            }
            assert forall|a: int, b: int| 0 <= a < b < s.len() implies key_before(s[a].key@, s[b].key@) by {
                if b < i {
                    assert(key_before(before[a].key@, before[b].key@));
                } else if b == i {
                    assert(key_before(before[a].key@, k));
                } else if a == i {
                    if b - 1 > i {
                        assert(key_before(before[i as int].key@, before[b - 1].key@));
                        lemma_key_order_transitive(k, before[i as int].key@, before[b - 1].key@);
                    }
                } else if a < i {
                    assert(key_before(before[a].key@, before[b - 1].key@));
                } else {
                    assert(key_before(before[a - 1].key@, before[b - 1].key@));
                }
            }
            assert forall|j: int| 0 <= j < before.len() implies #[trigger] before[j].key@ != k by {
                if j < i {
                    assert(key_before(before[j].key@, k));
                } else {
                    if j > i {
                        assert(key_before(before[i as int].key@, before[j].key@));
                        lemma_key_order_transitive(k, before[i as int].key@, before[j].key@);
                    }
                }
            }
            assert forall|q: Seq<char>| #[trigger] m.insert(k, v).contains_key(q) implies
                exists|j: int| 0 <= j < s.len() && s[j].key@ == q by {
                if q != k {
                    let j = choose|j: int| 0 <= j < before.len() && before[j].key@ == q;
                    if j < i {
                        assert(s[j].key@ == q);
                    } else {
                        assert(s[j + 1].key@ == q);
                    }
                } else {
                    assert(s[i as int].key@ == q);
                }
            }
            assert forall|j: int| 0 <= j < s.len() implies m.insert(k, v).contains_key(#[trigger] s[j].key@)
                && m.insert(k, v)[s[j].key@] == (s[j].name@, s[j].value@) by {
                if j < i {
                    assert(s[j] == before[j]);
                } else if j > i {
                    assert(s[j] == before[j - 1]);
                }
            }
        }
    }
}

fn remove_entry_in(entries: &mut Vec<EnvEntry>, key: &String, Ghost(m): Ghost<Map<Seq<char>, EnvValue>>)
    requires
        holds(old(entries)@, m),
    ensures
        holds(final(entries)@, m.remove(key@)),
{
    let i = insertion_point(entries, key);
    let ghost before = entries@;
    let ghost k = key@;
    if i < entries.len() && same_key(&entries[i].key, key) {
        let _removed = entries.remove(i);
        proof {
            let s = entries@;
            assert(s == before.remove(i as int));
            assert forall|a: int, b: int| 0 <= a < b < s.len() implies key_before(s[a].key@, s[b].key@) by {
                if b < i {
                    assert(key_before(before[a].key@, before[b].key@));
                } else if a < i {
                    assert(key_before(before[a].key@, before[b + 1].key@));
                } else {
                    assert(key_before(before[a + 1].key@, before[b + 1].key@));
                }
            }
            assert forall|j: int| 0 <= j < s.len() implies #[trigger] s[j].key@ != k by {
                if j < i {
                    assert(key_before(before[j].key@, before[i as int].key@));
                } else {
                    assert(key_before(before[i as int].key@, before[j + 1].key@));
                }
            }
            assert forall|q: Seq<char>| #[trigger] m.remove(k).contains_key(q) implies
                exists|j: int| 0 <= j < s.len() && s[j].key@ == q by {
                let j = choose|j: int| 0 <= j < before.len() && before[j].key@ == q;
                if j < i {
                    assert(s[j].key@ == q);
                } else {
                    assert(j != i);
                    assert(s[j - 1].key@ == q);
                }
            }
            assert forall|j: int| 0 <= j < s.len() implies m.remove(k).contains_key(#[trigger] s[j].key@)
                && m.remove(k)[s[j].key@] == (s[j].name@, s[j].value@) by {
                if j < i {
                    assert(s[j] == before[j]);
                } else {
                    assert(s[j] == before[j + 1]);
                }
            }
        }
    } else {
        proof {
            if i < before.len() {
                lemma_key_order_total(before[i as int].key@, k);
            }
            assert forall|j: int| 0 <= j < before.len() implies #[trigger] before[j].key@ != k by {
                if j < i {
                    assert(key_before(before[j].key@, k));
                } else if j > i {
                    assert(key_before(before[i as int].key@, before[j].key@));
                    lemma_key_order_transitive(k, before[i as int].key@, before[j].key@);
                }
            }
            assert forall|q: Seq<char>| #[trigger] m.remove(k).contains_key(q) implies
                exists|j: int| 0 <= j < before.len() && before[j].key@ == q by {
            }
        }
    }
}

/// The variables the entries hold, by key.
pub open spec fn entries_map(s: Seq<EnvEntry>) -> Map<Seq<char>, EnvValue> {
    Map::new(
        |k: Seq<char>| exists|i: int| 0 <= i < s.len() && s[i].key@ == k,
        |k: Seq<char>| {
            let i = choose|i: int| 0 <= i < s.len() && s[i].key@ == k;
            (s[i].name@, s[i].value@)
        },
    )
}

proof fn lemma_holds_own_map(s: Seq<EnvEntry>)
    requires
        ordered(s),
    ensures
        holds(s, entries_map(s)),
{
    let m = entries_map(s);
    assert forall|i: int| 0 <= i < s.len() implies m.contains_key(#[trigger] s[i].key@)
        && m[s[i].key@] == (s[i].name@, s[i].value@) by {
        let j = choose|j: int| 0 <= j < s.len() && s[j].key@ == s[i].key@;
        if j < i {
            assert(key_before(s[j].key@, s[i].key@));
        } else if j > i {
            assert(key_before(s[i].key@, s[j].key@));
        }
    }
}

proof fn lemma_holds_is_map(s: Seq<EnvEntry>, m: Map<Seq<char>, EnvValue>)
    requires
        holds(s, m),
    ensures
        entries_map(s) == m,
{
    lemma_holds_own_map(s);
    let e = entries_map(s);
    assert forall|k: Seq<char>| #[trigger] e.contains_key(k) <==> m.contains_key(k) by {
        if e.contains_key(k) {
            let i = choose|i: int| 0 <= i < s.len() && s[i].key@ == k;
            assert(m.contains_key(s[i].key@));
        }
    }
    assert forall|k: Seq<char>| #[trigger] e.contains_key(k) implies e[k] == m[k] by {
        let i = choose|i: int| 0 <= i < s.len() && s[i].key@ == k;
        assert(e[s[i].key@] == (s[i].name@, s[i].value@));
        assert(m[s[i].key@] == (s[i].name@, s[i].value@));
    }
    assert(e =~= m);
}

/// Sets variable `key` (an upper-cased name) to `name` and `value`,
/// keeping the entries in key order.
pub fn set_entry(entries: &mut Vec<EnvEntry>, key: String, name: Vec<u16>, value: Vec<u16>)
    requires
        ordered(old(entries)@),
    ensures
        ordered(final(entries)@),
        entries_map(final(entries)@) == entries_map(old(entries)@).insert(key@, (name@, value@)),
{
    let ghost m = entries_map(entries@);
    proof { lemma_holds_own_map(entries@); }
    let ghost k = key@;
    let ghost v: EnvValue = (name@, value@);
    set_entry_in(entries, key, name, value, Ghost(m));
    proof { lemma_holds_is_map(entries@, m.insert(k, v)); }
}

/// Removes variable `key` (an upper-cased name), if it is set.
pub fn remove_entry(entries: &mut Vec<EnvEntry>, key: &String)
    requires
        ordered(old(entries)@),
    ensures
        ordered(final(entries)@),
        entries_map(final(entries)@) == entries_map(old(entries)@).remove(key@),
{
    let ghost m = entries_map(entries@);
    proof { lemma_holds_own_map(entries@); }
    remove_entry_in(entries, key, Ghost(m));
    proof { lemma_holds_is_map(entries@, m.remove(key@)); }
}

/// The variables of the current process by upper-cased name: a later
/// variable with the same name replaces an earlier one.
pub open spec fn variables_map(vars: Seq<EnvVariable>) -> Map<Seq<char>, EnvValue>
    decreases vars.len(),
{
    if vars.len() == 0 {
        Map::empty()
    } else {
        variables_map(vars.drop_last()).insert(uppercased(vars.last().name@), (vars.last().wide_name@, vars.last().value@))
    }
}

/// `m` with the command's changes applied in order.
pub open spec fn changes_applied(m: Map<Seq<char>, EnvValue>, changes: Seq<EnvChange>) -> Map<Seq<char>, EnvValue>
    decreases changes.len(),
{
    if changes.len() == 0 {
        m
    } else {
        let before = changes_applied(m, changes.drop_last());
        let change = changes.last();
        match change.value {
            Some(v) => before.insert(uppercased(change.name@), (change.wide_name@, v@)),
            None => before.remove(uppercased(change.name@)),
        }
    }
}

/// The variables of the spawned gateway, in key order: the current
/// process's, with the command's changes applied.
pub fn environment_entries(vars: Vec<EnvVariable>, changes: Vec<EnvChange>) -> (entries: Vec<EnvEntry>)
    ensures
        ordered(entries@),
        entries_map(entries@) == changes_applied(variables_map(vars@), changes@),
{
    let ghost all_vars = vars@;
    let ghost all_changes = changes@;
    assert(all_vars.len() == vars.len() && all_changes.len() == changes.len());
    let mut entries: Vec<EnvEntry> = Vec::new();
    let mut rest = vars;
    let mut i: usize = 0;
    assert(entries_map(entries@) =~= variables_map(all_vars.take(0)));
    while rest.len() > 0
        invariant
            all_vars.len() <= usize::MAX,
            i + rest@.len() == all_vars.len(),
            rest@ == all_vars.skip(i as int),
            ordered(entries@),
            entries_map(entries@) == variables_map(all_vars.take(i as int)),
        decreases rest.len(),
    {
        let var = rest.remove(0);
        assert(var == all_vars[i as int]);
        assert(all_vars.take(i + 1).drop_last() =~= all_vars.take(i as int));
        let key = uppercase(var.name.as_str());
        set_entry(&mut entries, key, var.wide_name, var.value);
        i = i + 1;
        assert(rest@ =~= all_vars.skip(i as int));
    }
    assert(all_vars.take(i as int) =~= all_vars);
    let ghost base = variables_map(all_vars);
    let mut rest = changes;
    let mut j: usize = 0;
    assert(changes_applied(base, all_changes.take(0)) == base);
    while rest.len() > 0
        invariant
            all_changes.len() <= usize::MAX,
            j + rest@.len() == all_changes.len(),
            rest@ == all_changes.skip(j as int),
            ordered(entries@),
            entries_map(entries@) == changes_applied(base, all_changes.take(j as int)),
        decreases rest.len(),
    {
        let change = rest.remove(0);
        assert(change == all_changes[j as int]);
        assert(all_changes.take(j + 1).drop_last() =~= all_changes.take(j as int));
        let key = uppercase(change.name.as_str());
        match change.value {
            Some(value) => set_entry(&mut entries, key, change.wide_name, value),
            None => remove_entry(&mut entries, &key),
        }
        j = j + 1;
        assert(rest@ =~= all_changes.skip(j as int));
    }
    assert(all_changes.take(j as int) =~= all_changes);
    entries
}

/// `=` in UTF-16.
pub const EQUALS: u16 = 61;

/// The entries written one after another as name, `=`, value and NUL.
pub open spec fn entries_text(s: Seq<EnvEntry>) -> Seq<u16>
    decreases s.len(),
{
    if s.len() == 0 {
        Seq::empty()
    } else {
        entries_text(s.drop_last()) + s.last().name@ + seq![EQUALS] + s.last().value@ + seq![0u16]
    }
}

fn push_all(out: &mut Vec<u16>, units: &Vec<u16>)
    ensures
        final(out)@ == old(out)@ + units@,
{
    let mut k: usize = 0;
    while k < units.len()
        invariant
            k <= units@.len(),
            out@ == old(out)@ + units@.take(k as int),
        decreases units.len() - k,
    {
        out.push(units[k]);
        k = k + 1;
        assert(out@ =~= old(out)@ + units@.take(k as int));
    }
    assert(units@.take(units@.len() as int) =~= units@);
}

/// The environment block: every entry as name, `=`, value and NUL, in
/// order, and a final NUL.
pub fn environment_block(entries: &Vec<EnvEntry>) -> (block: Vec<u16>)
    ensures
        block@ == entries_text(entries@) + seq![0u16],
{
    let mut block: Vec<u16> = Vec::new();
    let mut i: usize = 0;
    assert(entries@.take(0) =~= Seq::<EnvEntry>::empty());
    while i < entries.len()
        invariant
            i <= entries@.len(),
            block@ == entries_text(entries@.take(i as int)),
        decreases entries.len() - i,
    {
        push_all(&mut block, &entries[i].name);
        block.push(EQUALS);
        push_all(&mut block, &entries[i].value);
        block.push(0u16);
        assert(entries@.take(i + 1).drop_last() =~= entries@.take(i as int));
        i = i + 1;
    }
    block.push(0u16);
    assert(entries@.take(i as int) =~= entries@);
    block
}

} // verus!
