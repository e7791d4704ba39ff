//! Why an unchanged edit restores what redaction for editing hid: the
//! tokens are fresh, each stands exactly once at a location its secret
//! pattern admits, and every other string of the document is left alone.

use vstd::prelude::*;
use crate::json::JsonV;
use crate::secrets::{
    admits_instance, edit_leaf, edit_token, edited_at, edited_items, edited_members, entry_views, edit_view,
    first_free, is_first_free, item_strings, lemma_taken_range, matches_instance_spec, member_strings, restored,
    restored_items, restored_members, segs, selects_index, selects_key, string_values, taken, token_index, EditV, InstV,
    SecretEditValues, SecretPattern, SegV,
};

verus! {

/// The edit values of a state, as the restoration reads them.
pub open spec fn entries_of(st: EditV) -> Seq<(Seq<char>, JsonV, Seq<SegV>)> {
    Seq::new(st.tokens.len(), |i: int| (st.tokens[i], st.values[i], st.patterns[i]))
}

/// The state's sequences have one entry per token.
pub open spec fn well_formed(st: EditV) -> bool {
    st.values.len() == st.tokens.len() && st.patterns.len() == st.tokens.len()
}

/// The tokens are distinct and none is an occupied text.
pub open spec fn fresh(st: EditV, occupied: Seq<Seq<char>>) -> bool {
    &&& forall|i: int, j: int| 0 <= i < j < st.tokens.len() ==> st.tokens[i] != st.tokens[j]
    &&& forall|i: int| 0 <= i < st.tokens.len() ==> !occupied.contains(#[trigger] st.tokens[i])
}

pub open spec fn is_prefix<A>(a: Seq<A>, b: Seq<A>) -> bool {
    a.len() <= b.len() && forall|i: int| 0 <= i < a.len() ==> a[i] == b[i]
}

/// `b` holds every entry of `a`, in the same places.
pub open spec fn extends(a: EditV, b: EditV) -> bool {
    is_prefix(a.tokens, b.tokens) && is_prefix(a.values, b.values) && is_prefix(a.patterns, b.patterns)
}

/// Every string of `v` is among the occupied texts.
pub open spec fn strings_occupied(v: JsonV, occupied: Seq<Seq<char>>) -> bool {
    forall|s: Seq<char>| string_values(v).contains(s) ==> occupied.contains(s)
}

/// Arrays of the document are no longer than a machine index.
pub open spec fn fits(v: JsonV) -> bool
    decreases v, 0int,
{
    match v {
        JsonV::Arr(items) => items.len() <= usize::MAX && items_fit(items, items.len() as int),
        JsonV::Obj(es) => members_fit(es, es.len() as int),
        _ => true,
    }
}

pub open spec fn items_fit(items: Seq<JsonV>, n: int) -> bool
    decreases items, n,
{
    if n <= 0 || n > items.len() { true } else { items_fit(items, n - 1) && fits(items[n - 1]) }
}

pub open spec fn members_fit(es: Seq<(Seq<char>, JsonV)>, n: int) -> bool
    decreases es, n,
{
    if n <= 0 || n > es.len() { true } else { members_fit(es, n - 1) && fits(es[n - 1].1) }
}

/// The first free counter from `start` on exists: the tokens in use are
/// finitely many.
pub proof fn lemma_first_free(prefix: Seq<char>, tokens: Seq<Seq<char>>, occupied: Seq<Seq<char>>, start: nat)
    ensures
        is_first_free(prefix, tokens, occupied, start, first_free(prefix, tokens, occupied, start)),
{
    let bound = start + tokens.len() + occupied.len();
    if forall|m: nat| start <= m <= bound ==> taken(tokens, occupied, #[trigger] edit_token(prefix, m)) {
        assert forall|m: nat| start <= m < bound + 1 implies taken(tokens, occupied, #[trigger] edit_token(prefix, m)) by {}
        lemma_taken_range(prefix, tokens, occupied, start, (bound + 1) as nat);
        assert(false);
    }
    let m = choose|m: nat| start <= m <= bound && !taken(tokens, occupied, #[trigger] edit_token(prefix, m));
    lemma_least_free(prefix, tokens, occupied, start, m);
}

proof fn lemma_least_free(prefix: Seq<char>, tokens: Seq<Seq<char>>, occupied: Seq<Seq<char>>, start: nat, m: nat)
    requires
        start <= m,
        !taken(tokens, occupied, edit_token(prefix, m)),
    ensures
        exists|n: nat| #[trigger] is_first_free(prefix, tokens, occupied, start, n),
    decreases m - start,
{
    if !taken(tokens, occupied, edit_token(prefix, start)) {
        assert(is_first_free(prefix, tokens, occupied, start, start));
    } else {
        lemma_least_free(prefix, tokens, occupied, start + 1, m);
        let n = choose|n: nat| #[trigger] is_first_free(prefix, tokens, occupied, start + 1, n);
        assert forall|k: nat| start <= k < n implies taken(tokens, occupied, #[trigger] edit_token(prefix, k)) by {
            if k > start {
                assert(start + 1 <= k < n);
            }
        }
        assert(is_first_free(prefix, tokens, occupied, start, n));
    }
}

proof fn lemma_item_strings_contain(items: Seq<JsonV>, n: int, i: int, s: Seq<char>)
    requires
        0 <= i < n <= items.len(),
        string_values(items[i]).contains(s),
    ensures
        item_strings(items, n).contains(s),
    decreases n,
{
    let whole = item_strings(items, n);
    let before = item_strings(items, n - 1);
    let last = string_values(items[n - 1]);
    assert(whole == before + last);
    if i == n - 1 {
        let k = choose|k: int| 0 <= k < last.len() && last[k] == s;
        assert(whole[before.len() + k] == s);
    } else {
        lemma_item_strings_contain(items, n - 1, i, s);
        let k = choose|k: int| 0 <= k < before.len() && before[k] == s;
        assert(whole[k] == s);
    }
}

proof fn lemma_member_strings_contain(es: Seq<(Seq<char>, JsonV)>, n: int, i: int, s: Seq<char>)
    requires
        0 <= i < n <= es.len(),
        string_values(es[i].1).contains(s),
    ensures
        member_strings(es, n).contains(s),
    decreases n,
{
    let whole = member_strings(es, n);
    let before = member_strings(es, n - 1);
    let last = string_values(es[n - 1].1);
    assert(whole == before + last);
    if i == n - 1 {
        let k = choose|k: int| 0 <= k < last.len() && last[k] == s;
        assert(whole[before.len() + k] == s);
    } else {
        lemma_member_strings_contain(es, n - 1, i, s);
        let k = choose|k: int| 0 <= k < before.len() && before[k] == s;
        assert(whole[k] == s);
    }
}

proof fn lemma_items_fit(items: Seq<JsonV>, n: int, i: int)
    requires
        0 <= i < n <= items.len(),
        items_fit(items, n),
    ensures
        fits(items[i]),
    decreases n,
{
    if i < n - 1 {
        lemma_items_fit(items, n - 1, i);
    }
}

proof fn lemma_members_fit(es: Seq<(Seq<char>, JsonV)>, n: int, i: int)
    requires
        0 <= i < n <= es.len(),
        members_fit(es, n),
    ensures
        fits(es[i].1),
    decreases n,
{
    if i < n - 1 {
        lemma_members_fit(es, n - 1, i);
    }
}

/// Not a token of `es`.
pub open spec fn no_token(es: Seq<(Seq<char>, JsonV, Seq<SegV>)>, s: Seq<char>) -> bool {
    forall|k: int| 0 <= k < es.len() ==> #[trigger] es[k].0 != s
}

/// A part of the document none of whose strings is a token comes back
/// from restoration as it was.
proof fn lemma_untouched(v: JsonV, es: Seq<(Seq<char>, JsonV, Seq<SegV>)>, path: Seq<InstV>, used: Set<Seq<char>>)
    requires
        forall|s: Seq<char>| string_values(v).contains(s) ==> no_token(es, s),
    ensures
        restored(v, es, path, used) == Ok::<(JsonV, Set<Seq<char>>), Seq<char>>((v, used)),
    decreases v, 1int,
{
    match v {
        JsonV::Str(t) => {
            assert(string_values(v)[0] == t);
            assert(string_values(v).contains(t));
            assert(no_token(es, t));
            if exists|k: int| 0 <= k < es.len() && es[k].0 == t {
                let k = choose|k: int| 0 <= k < es.len() && es[k].0 == t;
                assert(es[k].0 != t);
            }
        },
        JsonV::Arr(items) => {
            lemma_untouched_items(items, items.len() as int, es, path, used);
            assert(items.take(items.len() as int) =~= items);
        },
        JsonV::Obj(members) => {
            lemma_untouched_members(members, members.len() as int, es, path, used);
            assert(members.take(members.len() as int) =~= members);
        },
        _ => {},
    }
}

proof fn lemma_untouched_items(
    items: Seq<JsonV>,
    n: int,
    es: Seq<(Seq<char>, JsonV, Seq<SegV>)>,
    path: Seq<InstV>,
    used: Set<Seq<char>>,
)
    requires
        0 <= n <= items.len(),
        forall|s: Seq<char>| item_strings(items, items.len() as int).contains(s) ==> no_token(es, s),
    ensures
        restored_items(items, n, es, path, used) == Ok::<(Seq<JsonV>, Set<Seq<char>>), Seq<char>>((items.take(n), used)),
    decreases items, n,
{
    if n > 0 {
        lemma_untouched_items(items, n - 1, es, path, used);
        assert forall|s: Seq<char>| string_values(items[n - 1]).contains(s) implies no_token(es, s) by {
            lemma_item_strings_contain(items, items.len() as int, n - 1, s);
        }
        lemma_untouched(items[n - 1], es, path.push(InstV::Index((n - 1) as usize)), used);
        assert(items.take(n - 1).push(items[n - 1]) =~= items.take(n));
    } else {
        assert(items.take(0) =~= Seq::<JsonV>::empty());
    }
}

proof fn lemma_untouched_members(
    members: Seq<(Seq<char>, JsonV)>,
    n: int,
    es: Seq<(Seq<char>, JsonV, Seq<SegV>)>,
    path: Seq<InstV>,
    used: Set<Seq<char>>,
)
    requires
        0 <= n <= members.len(),
        forall|s: Seq<char>| member_strings(members, members.len() as int).contains(s) ==> no_token(es, s),
    ensures
        restored_members(members, n, es, path, used)
            == Ok::<(Seq<(Seq<char>, JsonV)>, Set<Seq<char>>), Seq<char>>((members.take(n), used)),
    decreases members, n,
{
    if n > 0 {
        lemma_untouched_members(members, n - 1, es, path, used);
        assert forall|s: Seq<char>| string_values(members[n - 1].1).contains(s) implies no_token(es, s) by {
            lemma_member_strings_contain(members, members.len() as int, n - 1, s);
        }
        lemma_untouched(members[n - 1].1, es, path.push(InstV::Property(members[n - 1].0)), used);
        assert(members.take(n - 1).push((members[n - 1].0, members[n - 1].1)) =~= members.take(n));
    } else {
        assert(members.take(0) =~= Seq::<(Seq<char>, JsonV)>::empty());
    }
}

proof fn lemma_extends_trans(a: EditV, b: EditV, c: EditV)
    requires
        extends(a, b),
        extends(b, c),
    ensures
        extends(a, c),
{
}

/// Redaction for editing keeps the edit values well formed and fresh, and
/// only appends to them.
proof fn lemma_edit_state(p: Seq<SegV>, off: int, v: JsonV, st: EditV, occupied: Seq<Seq<char>>, prefix: Seq<char>)
    requires
        well_formed(st),
        fresh(st, occupied),
    ensures
        well_formed(edited_at(p, off, v, st, occupied, prefix).1),
        fresh(edited_at(p, off, v, st, occupied, prefix).1, occupied),
        extends(st, edited_at(p, off, v, st, occupied, prefix).1),
    decreases v, 1int,
{
    if off >= p.len() {
        if !(v is Null || (v matches JsonV::Str(t) && st.tokens.contains(t))) {
            lemma_first_free(prefix, st.tokens, occupied, st.next);
            let n = first_free(prefix, st.tokens, occupied, st.next);
            let t = edit_token(prefix, n);
            let r = edit_leaf(p, v, st, occupied, prefix).1;
            assert(r.tokens == st.tokens.push(t));
            assert forall|i: int, j: int| 0 <= i < j < r.tokens.len() implies r.tokens[i] != r.tokens[j] by {
                if j == st.tokens.len() {
                    assert(st.tokens.contains(st.tokens[i]));
                }
            }
            assert forall|i: int| 0 <= i < r.tokens.len() implies !occupied.contains(#[trigger] r.tokens[i]) by {
                if i < st.tokens.len() {
                    assert(r.tokens[i] == st.tokens[i]);
                }
            }
        }
    } else {
        match v {
            JsonV::Arr(items) => lemma_edit_state_items(p, off, items, items.len() as int, st, occupied, prefix),
            JsonV::Obj(es) => lemma_edit_state_members(p, off, es, es.len() as int, st, occupied, prefix),
            _ => {},
        }
    }
}

proof fn lemma_edit_state_items(
    p: Seq<SegV>,
    off: int,
    items: Seq<JsonV>,
    n: int,
    st: EditV,
    occupied: Seq<Seq<char>>,
    prefix: Seq<char>,
)
    requires
        well_formed(st),
        fresh(st, occupied),
    ensures
        well_formed(edited_items(p, off, items, n, st, occupied, prefix).1),
        fresh(edited_items(p, off, items, n, st, occupied, prefix).1, occupied),
        extends(st, edited_items(p, off, items, n, st, occupied, prefix).1),
        0 <= n <= items.len() ==> edited_items(p, off, items, n, st, occupied, prefix).0.len() == n,
    decreases items, n,
{
    if n > 0 && n <= items.len() {
        lemma_edit_state_items(p, off, items, n - 1, st, occupied, prefix);
        let before = edited_items(p, off, items, n - 1, st, occupied, prefix);
        if 0 <= off < p.len() && selects_index(p[off], n - 1) {
            lemma_edit_state(p, off + 1, items[n - 1], before.1, occupied, prefix);
            lemma_extends_trans(st, before.1, edited_at(p, off + 1, items[n - 1], before.1, occupied, prefix).1);
        }
    }
}

proof fn lemma_edit_state_members(
    p: Seq<SegV>,
    off: int,
    es: Seq<(Seq<char>, JsonV)>,
    n: int,
    st: EditV,
    occupied: Seq<Seq<char>>,
    prefix: Seq<char>,
)
    requires
        well_formed(st),
        fresh(st, occupied),
    ensures
        well_formed(edited_members(p, off, es, n, st, occupied, prefix).1),
        fresh(edited_members(p, off, es, n, st, occupied, prefix).1, occupied),
        extends(st, edited_members(p, off, es, n, st, occupied, prefix).1),
        0 <= n <= es.len() ==> edited_members(p, off, es, n, st, occupied, prefix).0.len() == n,
    decreases es, n,
{
    if n > 0 && n <= es.len() {
        lemma_edit_state_members(p, off, es, n - 1, st, occupied, prefix);
        let before = edited_members(p, off, es, n - 1, st, occupied, prefix);
        if 0 <= off < p.len() && selects_key(p[off], es[n - 1].0) {
            lemma_edit_state(p, off + 1, es[n - 1].1, before.1, occupied, prefix);
            lemma_extends_trans(st, before.1, edited_at(p, off + 1, es[n - 1].1, before.1, occupied, prefix).1);
        }
    }
}

proof fn lemma_restored_items_prefix(
    a: Seq<JsonV>,
    b: Seq<JsonV>,
    n: int,
    es: Seq<(Seq<char>, JsonV, Seq<SegV>)>,
    path: Seq<InstV>,
    used: Set<Seq<char>>,
)
    requires
        0 <= n <= a.len(),
        n <= b.len(),
        forall|i: int| 0 <= i < n ==> a[i] == b[i],
    ensures
        restored_items(a, n, es, path, used) == restored_items(b, n, es, path, used),
    decreases n,
{
    if n > 0 {
        lemma_restored_items_prefix(a, b, n - 1, es, path, used);
    }
}

proof fn lemma_restored_members_prefix(
    a: Seq<(Seq<char>, JsonV)>,
    b: Seq<(Seq<char>, JsonV)>,
    n: int,
    es: Seq<(Seq<char>, JsonV, Seq<SegV>)>,
    path: Seq<InstV>,
    used: Set<Seq<char>>,
)
    requires
        0 <= n <= a.len(),
        n <= b.len(),
        forall|i: int| 0 <= i < n ==> a[i] == b[i],
    ensures
        restored_members(a, n, es, path, used) == restored_members(b, n, es, path, used),
    decreases n,
{
    if n > 0 {
        lemma_restored_members_prefix(a, b, n - 1, es, path, used);
    }
}

/// The path so far is admitted, step by step, by the pattern's first
/// segments.
pub open spec fn admitted_so_far(p: Seq<SegV>, q: Seq<InstV>) -> bool {
    &&& q.len() <= p.len()
    &&& forall|i: int| 0 <= i < q.len() ==> admits_instance(#[trigger] p[i], q[i])
}

/// What the final edit values must hold for the restoration of a part of
/// the document: they extend the state after that part, stay well formed
/// and fresh.
pub open spec fn final_state(after: EditV, fin: EditV, occupied: Seq<Seq<char>>) -> bool {
    extends(after, fin) && well_formed(fin) && fresh(fin, occupied)
}

/// A string of the document is no token of fresh edit values.
proof fn lemma_occupied_no_token(fin: EditV, occupied: Seq<Seq<char>>, s: Seq<char>)
    requires
        well_formed(fin),
        fresh(fin, occupied),
        occupied.contains(s),
    ensures
        no_token(entries_of(fin), s),
{
    assert forall|k: int| 0 <= k < entries_of(fin).len() implies #[trigger] entries_of(fin)[k].0 != s by {
        assert(entries_of(fin)[k].0 == fin.tokens[k]);
    }
}

/// Restoring what redaction for editing made of `v`, found at `q`, gives
/// `v` back, and marks as used exactly the tokens this redaction added.
proof fn lemma_edit_restore(
    p: Seq<SegV>,
    off: int,
    v: JsonV,
    st: EditV,
    occupied: Seq<Seq<char>>,
    prefix: Seq<char>,
    fin: EditV,
    q: Seq<InstV>,
)
    requires
        0 <= off <= p.len(),
        q.len() == off,
        admitted_so_far(p, q),
        well_formed(st),
        fresh(st, occupied),
        strings_occupied(v, occupied),
        fits(v),
        final_state(edited_at(p, off, v, st, occupied, prefix).1, fin, occupied),
    ensures
        restored(edited_at(p, off, v, st, occupied, prefix).0, entries_of(fin), q, st.tokens.to_set())
            == Ok::<(JsonV, Set<Seq<char>>), Seq<char>>((v, edited_at(p, off, v, st, occupied, prefix).1.tokens.to_set())),
    decreases v, 1int,
{
    let es = entries_of(fin);
    lemma_edit_state(p, off, v, st, occupied, prefix);
    if off >= p.len() {
        if let JsonV::Str(t) = v {
            assert(string_values(v)[0] == t);
            assert(string_values(v).contains(t));
            if st.tokens.contains(t) {
                let i = choose|i: int| 0 <= i < st.tokens.len() && st.tokens[i] == t;
                assert(!occupied.contains(st.tokens[i]));
            }
        }
        if !(v is Null) {
            lemma_first_free(prefix, st.tokens, occupied, st.next);
            let n = first_free(prefix, st.tokens, occupied, st.next);
            let t = edit_token(prefix, n);
            let r = edit_leaf(p, v, st, occupied, prefix);
            let k = st.tokens.len() as int;
            assert(r.1.tokens[k] == t);
            assert(fin.tokens[k] == t);
            assert(es[k] == (t, v, p));
            assert(exists|j: int| 0 <= j < es.len() && es[j].0 == t);
            let c = choose|j: int| 0 <= j < es.len() && es[j].0 == t && forall|i: int| 0 <= i < j ==> es[i].0 != t;
            if c != k {
                assert(es[c].0 == fin.tokens[c]);
                if c < k {
                    assert(fin.tokens[c] != fin.tokens[k]);
                } else {
                    assert(es[k].0 != t);
                }
            }
            assert(token_index(es, t) == Some(k));
            assert(matches_instance_spec(es[k].2, q));
            assert(!st.tokens.to_set().contains(t));
            assert(st.tokens.push(t).to_set() =~= st.tokens.to_set().insert(t));
        }
    } else {
        match v {
            JsonV::Arr(items) => {
                lemma_edit_state_items(p, off, items, items.len() as int, st, occupied, prefix);
                lemma_edit_restore_items(p, off, items, items.len() as int, st, occupied, prefix, fin, q);
                assert(items.take(items.len() as int) =~= items);
            },
            JsonV::Obj(members) => {
                lemma_edit_state_members(p, off, members, members.len() as int, st, occupied, prefix);
                lemma_edit_restore_members(p, off, members, members.len() as int, st, occupied, prefix, fin, q);
                assert(members.take(members.len() as int) =~= members);
            },
            JsonV::Str(t) => {
                assert(string_values(v)[0] == t);
                assert(string_values(v).contains(t));
                lemma_occupied_no_token(fin, occupied, t);
                lemma_untouched(v, es, q, st.tokens.to_set());
            },
            _ => {},
        }
    }
}

proof fn lemma_edit_restore_items(
    p: Seq<SegV>,
    off: int,
    items: Seq<JsonV>,
    n: int,
    st: EditV,
    occupied: Seq<Seq<char>>,
    prefix: Seq<char>,
    fin: EditV,
    q: Seq<InstV>,
)
    requires
        0 <= off < p.len(),
        q.len() == off,
        admitted_so_far(p, q),
        0 <= n <= items.len(),
        items.len() <= usize::MAX,
        items_fit(items, items.len() as int),
        well_formed(st),
        fresh(st, occupied),
        forall|s: Seq<char>| item_strings(items, items.len() as int).contains(s) ==> occupied.contains(s),
        final_state(edited_items(p, off, items, n, st, occupied, prefix).1, fin, occupied),
    ensures
        restored_items(edited_items(p, off, items, n, st, occupied, prefix).0, n, entries_of(fin), q, st.tokens.to_set())
            == Ok::<(Seq<JsonV>, Set<Seq<char>>), Seq<char>>(
                (items.take(n), edited_items(p, off, items, n, st, occupied, prefix).1.tokens.to_set()),
            ),
    decreases items, n,
{
    let es = entries_of(fin);
    if n == 0 {
        assert(items.take(0) =~= Seq::<JsonV>::empty());
    } else {
        let before = edited_items(p, off, items, n - 1, st, occupied, prefix);
        let whole = edited_items(p, off, items, n, st, occupied, prefix);
        lemma_edit_state_items(p, off, items, n - 1, st, occupied, prefix);
        lemma_edit_state_items(p, off, items, n, st, occupied, prefix);
        let step = InstV::Index((n - 1) as usize);
        if 0 <= off < p.len() && selects_index(p[off], n - 1) {
            let x = edited_at(p, off + 1, items[n - 1], before.1, occupied, prefix);
            lemma_edit_state(p, off + 1, items[n - 1], before.1, occupied, prefix);
            lemma_extends_trans(before.1, x.1, fin);
            lemma_edit_restore_items(p, off, items, n - 1, st, occupied, prefix, fin, q);
            assert forall|s: Seq<char>| string_values(items[n - 1]).contains(s) implies occupied.contains(s) by {
                lemma_item_strings_contain(items, items.len() as int, n - 1, s);
            }
            lemma_items_fit(items, items.len() as int, n - 1);
            assert(admits_instance(p[off], step));
            assert(admitted_so_far(p, q.push(step)));
            lemma_edit_restore(p, off + 1, items[n - 1], before.1, occupied, prefix, fin, q.push(step));
        } else {
            lemma_edit_restore_items(p, off, items, n - 1, st, occupied, prefix, fin, q);
            assert forall|s: Seq<char>| string_values(items[n - 1]).contains(s) implies no_token(es, s) by {
                lemma_item_strings_contain(items, items.len() as int, n - 1, s);
                lemma_occupied_no_token(fin, occupied, s);
            }
            lemma_untouched(items[n - 1], es, q.push(step), before.1.tokens.to_set());
        }
        assert(whole.0[n - 1] == if selects_index(p[off], n - 1) {
            edited_at(p, off + 1, items[n - 1], before.1, occupied, prefix).0
        } else {
            items[n - 1]
        });
        lemma_restored_items_prefix(whole.0, before.0, n - 1, es, q, st.tokens.to_set());
        assert(items.take(n - 1).push(items[n - 1]) =~= items.take(n));
    }
}

proof fn lemma_edit_restore_members(
    p: Seq<SegV>,
    off: int,
    members: Seq<(Seq<char>, JsonV)>,
    n: int,
    st: EditV,
    occupied: Seq<Seq<char>>,
    prefix: Seq<char>,
    fin: EditV,
    q: Seq<InstV>,
)
    requires
        0 <= off < p.len(),
        q.len() == off,
        admitted_so_far(p, q),
        0 <= n <= members.len(),
        members_fit(members, members.len() as int),
        well_formed(st),
        fresh(st, occupied),
        forall|s: Seq<char>| member_strings(members, members.len() as int).contains(s) ==> occupied.contains(s),
        final_state(edited_members(p, off, members, n, st, occupied, prefix).1, fin, occupied),
    ensures
        restored_members(edited_members(p, off, members, n, st, occupied, prefix).0, n, entries_of(fin), q, st.tokens.to_set())
            == Ok::<(Seq<(Seq<char>, JsonV)>, Set<Seq<char>>), Seq<char>>(
                (members.take(n), edited_members(p, off, members, n, st, occupied, prefix).1.tokens.to_set()),
            ),
    decreases members, n,
{
    let es = entries_of(fin);
    if n == 0 {
        assert(members.take(0) =~= Seq::<(Seq<char>, JsonV)>::empty());
    } else {
        let before = edited_members(p, off, members, n - 1, st, occupied, prefix);
        let whole = edited_members(p, off, members, n, st, occupied, prefix);
        lemma_edit_state_members(p, off, members, n - 1, st, occupied, prefix);
        lemma_edit_state_members(p, off, members, n, st, occupied, prefix);
        let key = members[n - 1].0;
        let step = InstV::Property(key);
        if 0 <= off < p.len() && selects_key(p[off], key) {
            let x = edited_at(p, off + 1, members[n - 1].1, before.1, occupied, prefix);
            lemma_edit_state(p, off + 1, members[n - 1].1, before.1, occupied, prefix);
            lemma_extends_trans(before.1, x.1, fin);
            lemma_edit_restore_members(p, off, members, n - 1, st, occupied, prefix, fin, q);
            assert forall|s: Seq<char>| string_values(members[n - 1].1).contains(s) implies occupied.contains(s) by {
                lemma_member_strings_contain(members, members.len() as int, n - 1, s);
            }
            lemma_members_fit(members, members.len() as int, n - 1);
            assert(admits_instance(p[off], step));
            assert(admitted_so_far(p, q.push(step)));
            lemma_edit_restore(p, off + 1, members[n - 1].1, before.1, occupied, prefix, fin, q.push(step));
        } else {
            lemma_edit_restore_members(p, off, members, n - 1, st, occupied, prefix, fin, q);
            assert forall|s: Seq<char>| string_values(members[n - 1].1).contains(s) implies no_token(es, s) by {
                lemma_member_strings_contain(members, members.len() as int, n - 1, s);
                lemma_occupied_no_token(fin, occupied, s);
            }
            lemma_untouched(members[n - 1].1, es, q.push(step), before.1.tokens.to_set());
        }
        lemma_restored_members_prefix(whole.0, before.0, n - 1, es, q, st.tokens.to_set());
        assert(members.take(n - 1).push(members[n - 1]) =~= members.take(n));
    }
}

/// The law of editing with tokens: redacting a document for editing at a
/// secret location (`SecretPattern::redact_for_edit` from offset 0), with no
/// edit values yet and every string of the document among the occupied
/// texts, and then restoring the unchanged redacted document with the edit
/// values this left (`restore_secret_tokens`), gives the document back.
pub proof fn lemma_unchanged_edit_restores(
    pattern: SecretPattern,
    v: JsonV,
    before: SecretEditValues,
    next: usize,
    occupied: Seq<Seq<char>>,
    prefix: Seq<char>,
    after: SecretEditValues,
    after_next: usize,
)
    requires
        before.entries@.len() == 0,
        strings_occupied(v, occupied),
        fits(v),
        edit_view(after, after_next)
            == edited_at(segs(pattern), 0, v, edit_view(before, next), occupied, prefix).1,
    ensures
        restored(
            edited_at(segs(pattern), 0, v, edit_view(before, next), occupied, prefix).0,
            entry_views(after),
            Seq::empty(),
            Set::empty(),
        ) matches Ok(x) && x.0 == v,
{
    let p = segs(pattern);
    let st = edit_view(before, next);
    let fin = edit_view(after, after_next);
    assert(st.tokens.to_set() =~= Set::<Seq<char>>::empty());
    lemma_edit_state(p, 0, v, st, occupied, prefix);
    lemma_edit_restore(p, 0, v, st, occupied, prefix, fin, Seq::empty());
    assert(entries_of(fin) =~= entry_views(after));
}

/// The law of untouched documents: restoring a document none of whose
/// strings is an edit token gives it back unchanged, with no token used.
pub proof fn lemma_token_free_document_unchanged(v: JsonV, secrets: SecretEditValues)
    requires
        forall|s: Seq<char>| string_values(v).contains(s) ==> !secrets.tokens().contains(s),
    ensures
        restored(v, entry_views(secrets), Seq::empty(), Set::empty())
            == Ok::<(JsonV, Set<Seq<char>>), Seq<char>>((v, Set::empty())),
{
    let es = entry_views(secrets);
    assert forall|s: Seq<char>| string_values(v).contains(s) implies no_token(es, s) by {
        assert forall|k: int| 0 <= k < es.len() implies #[trigger] es[k].0 != s by {
            assert(es[k].0 == secrets.tokens()[k]);
        }
    }
    lemma_untouched(v, es, Seq::empty(), Set::empty());
}

} // verus!
