//! Why member order never reaches a cache key: sorting the members of an
//! object with distinct keys gives one result for every order in which the
//! members come, and a value's canonical text depends only on the canonical
//! form of its parts.

use vstd::prelude::*;
use vstd::multiset::Multiset;
use crate::canonical::{canonical, insert_entry, key_le, sort_entries, sorted_items, sorted_members, sorted_value};
use crate::json::JsonV;
use crate::text::{lemma_seq_lt_transitive, lemma_seq_lt_trichotomy, seq_lt};

verus! {

/// A member of an object.
pub type Member = (Seq<char>, JsonV);

proof fn lemma_key_le_transitive(a: Seq<char>, b: Seq<char>, c: Seq<char>)
    requires
        key_le(a, b),
        key_le(b, c),
    ensures
        key_le(a, c),
{
    if seq_lt(a, b) && seq_lt(b, c) {
        lemma_seq_lt_transitive(a, b, c);
    }
}

proof fn lemma_key_le_antisymmetric(a: Seq<char>, b: Seq<char>)
    requires
        key_le(a, b),
        key_le(b, a),
    ensures
        a == b,
{
    lemma_seq_lt_trichotomy(a, b);
}

/// Members in key order.
pub open spec fn in_key_order(s: Seq<Member>) -> bool {
    forall|i: int, j: int| 0 <= i < j < s.len() ==> key_le(#[trigger] s[i].0, #[trigger] s[j].0)
}

/// No two members share a key.
pub open spec fn distinct_keys(s: Seq<Member>) -> bool {
    forall|i: int, j: int| 0 <= i < j < s.len() ==> #[trigger] s[i].0 != #[trigger] s[j].0
}

/// Members counted in `m` are equal when their keys are.
pub open spec fn keys_identify(m: Multiset<Member>) -> bool {
    forall|x: Member, y: Member| m.contains(x) && m.contains(y) && x.0 == y.0 ==> x == y
}

proof fn lemma_insert_entry_multiset(e: Member, s: Seq<Member>)
    ensures
        insert_entry(e, s).to_multiset() == s.to_multiset().insert(e),
    decreases s.len(),
{
    broadcast use vstd::seq_lib::group_to_multiset_ensures;
    if s.len() == 0 {
        assert(seq![e] =~= Seq::<Member>::empty().push(e));
    } else if key_le(e.0, s[0].0) {
        vstd::seq_lib::lemma_multiset_commutative(seq![e], s);
        assert(seq![e] =~= Seq::<Member>::empty().push(e));
    } else {
        lemma_insert_entry_multiset(e, s.drop_first());
        vstd::seq_lib::lemma_multiset_commutative(seq![s[0]], insert_entry(e, s.drop_first()));
        vstd::seq_lib::lemma_multiset_commutative(seq![s[0]], s.drop_first());
        assert(seq![s[0]] + s.drop_first() =~= s);
        assert(seq![s[0]] =~= Seq::<Member>::empty().push(s[0]));
        assert(s.to_multiset() =~= seq![s[0]].to_multiset().add(s.drop_first().to_multiset()));
        assert(insert_entry(e, s).to_multiset()
            =~= seq![s[0]].to_multiset().add(s.drop_first().to_multiset().insert(e)));
    }
}

/// A key no larger than every member's and than `e`'s is no larger than any
/// member's after `e` is inserted.
proof fn lemma_insert_entry_bound(b: Seq<char>, e: Member, s: Seq<Member>)
    requires
        key_le(b, e.0),
        forall|i: int| 0 <= i < s.len() ==> key_le(b, #[trigger] s[i].0),
    ensures
        forall|i: int| 0 <= i < insert_entry(e, s).len() ==> key_le(b, #[trigger] insert_entry(e, s)[i].0),
    decreases s.len(),
{
    if s.len() > 0 && !key_le(e.0, s[0].0) {
        let rest = s.drop_first();
        assert forall|i: int| 0 <= i < rest.len() implies key_le(b, #[trigger] rest[i].0) by {
            assert(rest[i] == s[i + 1]);
        }
        lemma_insert_entry_bound(b, e, rest);
        let r = insert_entry(e, s);
        assert forall|i: int| 0 <= i < r.len() implies key_le(b, #[trigger] r[i].0) by {
            if i > 0 {
                assert(r[i] == insert_entry(e, rest)[i - 1]);
            }
        }
    }
}

proof fn lemma_insert_entry_sorted(e: Member, s: Seq<Member>)
    requires
        in_key_order(s),
    ensures
        in_key_order(insert_entry(e, s)),
        insert_entry(e, s).len() == s.len() + 1,
    decreases s.len(),
{
    if s.len() == 0 {
    } else if key_le(e.0, s[0].0) {
        let r = seq![e] + s;
        assert forall|i: int, j: int| 0 <= i < j < r.len() implies key_le(#[trigger] r[i].0, #[trigger] r[j].0) by {
            if i == 0 {
                if j > 1 {
                    assert(key_le(s[0].0, s[j - 1].0));
                    lemma_key_le_transitive(e.0, s[0].0, s[j - 1].0);
                }
            } else {
                assert(key_le(s[i - 1].0, s[j - 1].0));
            }
        }
    } else {
        let rest = s.drop_first();
        assert(in_key_order(rest)) by {
            assert forall|i: int, j: int| 0 <= i < j < rest.len() implies key_le(#[trigger] rest[i].0, #[trigger] rest[j].0) by {
                assert(key_le(s[i + 1].0, s[j + 1].0));
            }
        }
        lemma_insert_entry_sorted(e, rest);
        lemma_seq_lt_trichotomy(e.0, s[0].0);
        assert(key_le(s[0].0, e.0));
        assert forall|i: int| 0 <= i < rest.len() implies key_le(s[0].0, #[trigger] rest[i].0) by {
            assert(key_le(s[0].0, s[i + 1].0));
        }
        lemma_insert_entry_bound(s[0].0, e, rest);
        let inner = insert_entry(e, rest);
        let r = seq![s[0]] + inner;
        assert forall|i: int, j: int| 0 <= i < j < r.len() implies key_le(#[trigger] r[i].0, #[trigger] r[j].0) by {
            if i == 0 {
                assert(r[j] == inner[j - 1]);
            } else {
                assert(r[i] == inner[i - 1] && r[j] == inner[j - 1]);
            }
        }
    }
}

proof fn lemma_sort_entries(es: Seq<Member>)
    ensures
        in_key_order(sort_entries(es)),
        sort_entries(es).to_multiset() == es.to_multiset(),
    decreases es.len(),
{
    broadcast use vstd::seq_lib::group_to_multiset_ensures;
    if es.len() > 0 {
        lemma_sort_entries(es.drop_last());
        lemma_insert_entry_sorted(es.last(), sort_entries(es.drop_last()));
        lemma_insert_entry_multiset(es.last(), sort_entries(es.drop_last()));
        assert(es.drop_last().push(es.last()) =~= es);
    }
}

/// Two member sequences in key order with the same members are the same,
/// when members with equal keys are equal.
proof fn lemma_ordered_unique(s1: Seq<Member>, s2: Seq<Member>)
    requires
        in_key_order(s1),
        in_key_order(s2),
        s1.to_multiset() == s2.to_multiset(),
        keys_identify(s1.to_multiset()),
    ensures
        s1 == s2,
    decreases s1.len(),
{
    broadcast use vstd::seq_lib::group_to_multiset_ensures;
    s1.to_multiset_ensures();
    s2.to_multiset_ensures();
    assert(s1.to_multiset().len() == s2.to_multiset().len());
    if s1.len() == 0 {
        assert(s2.len() == 0);
        assert(s1 =~= s2);
    } else {
        assert(s2.len() == s1.len());
        let a = s1[0];
        let b = s2[0];
        assert(s1.contains(a));
        assert(s2.to_multiset().count(a) > 0);
        let j = choose|j: int| 0 <= j < s2.len() && s2[j] == a;
        assert(key_le(b.0, a.0)) by {
            if j > 0 {
                assert(key_le(s2[0].0, s2[j].0));
            }
        }
        assert(s2.contains(b));
        assert(s1.to_multiset().count(b) > 0);
        let i = choose|i: int| 0 <= i < s1.len() && s1[i] == b;
        assert(key_le(a.0, b.0)) by {
            if i > 0 {
                assert(key_le(s1[0].0, s1[i].0));
            }
        }
        lemma_key_le_antisymmetric(a.0, b.0);
        assert(s1.to_multiset().contains(a) && s1.to_multiset().contains(b));
        assert(a == b);
        let r1 = s1.drop_first();
        let r2 = s2.drop_first();
        assert(s1.remove(0) =~= r1);
        assert(s2.remove(0) =~= r2);
        assert(r1.to_multiset() =~= r2.to_multiset());
        assert(in_key_order(r1)) by {
            assert forall|x: int, y: int| 0 <= x < y < r1.len() implies key_le(#[trigger] r1[x].0, #[trigger] r1[y].0) by {
                assert(key_le(s1[x + 1].0, s1[y + 1].0));
            }
        }
        assert(in_key_order(r2)) by {
            assert forall|x: int, y: int| 0 <= x < y < r2.len() implies key_le(#[trigger] r2[x].0, #[trigger] r2[y].0) by {
                assert(key_le(s2[x + 1].0, s2[y + 1].0));
            }
        }
        assert(keys_identify(r1.to_multiset())) by {
            assert forall|x: Member, y: Member| r1.to_multiset().contains(x) && r1.to_multiset().contains(y) && x.0 == y.0 implies x == y by {
                assert(s1.to_multiset().contains(x));
                assert(s1.to_multiset().contains(y));
            }
        }
        lemma_ordered_unique(r1, r2);
        assert(s1 =~= seq![a] + r1);
        assert(s2 =~= seq![b] + r2);
    }
}

proof fn lemma_distinct_keys_identify(s: Seq<Member>)
    requires
        distinct_keys(s),
    ensures
        keys_identify(s.to_multiset()),
{
    broadcast use vstd::seq_lib::group_to_multiset_ensures;
    assert forall|x: Member, y: Member| s.to_multiset().contains(x) && s.to_multiset().contains(y) && x.0 == y.0 implies x == y by {
        assert(s.contains(x));
        assert(s.contains(y));
        let i = choose|i: int| 0 <= i < s.len() && s[i] == x;
        let j = choose|j: int| 0 <= j < s.len() && s[j] == y;
        if i < j {
            assert(s[i].0 != s[j].0);
        } else if j < i {
            assert(s[j].0 != s[i].0);
        }
    }
}

/// Each member with its value in canonical form.
pub open spec fn normalized_member(m: Member) -> Member {
    (m.0, sorted_value(m.1))
}

proof fn lemma_sorted_members_map(es: Seq<Member>, n: int)
    requires
        0 <= n <= es.len(),
    ensures
        sorted_members(es, n) == es.take(n).map_values(|m: Member| normalized_member(m)),
    decreases n,
{
    if n > 0 {
        lemma_sorted_members_map(es, n - 1);
        assert(es.take(n).map_values(|m: Member| normalized_member(m))
            =~= es.take(n - 1).map_values(|m: Member| normalized_member(m)).push(normalized_member(es[n - 1])));
    } else {
        assert(es.take(0).map_values(|m: Member| normalized_member(m)) =~= Seq::<Member>::empty());
    }
}

proof fn lemma_map_multiset(s1: Seq<Member>, s2: Seq<Member>)
    requires
        s1.to_multiset() == s2.to_multiset(),
    ensures
        s1.map_values(|m: Member| normalized_member(m)).to_multiset()
            == s2.map_values(|m: Member| normalized_member(m)).to_multiset(),
    decreases s1.len(),
{
    broadcast use vstd::seq_lib::group_to_multiset_ensures;
    let f = |m: Member| normalized_member(m);
    s1.to_multiset_ensures();
    s2.to_multiset_ensures();
    assert(s1.to_multiset().len() == s2.to_multiset().len());
    if s1.len() == 0 {
        assert(s2.len() == 0);
        assert(s1.map_values(f) =~= s2.map_values(f));
    } else {
        let x = s1.last();
        assert(s1.contains(x));
        assert(s2.to_multiset().count(x) > 0);
        let k = choose|k: int| 0 <= k < s2.len() && s2[k] == x;
        let r1 = s1.drop_last();
        let r2 = s2.remove(k);
        assert(r1.push(x) =~= s1);
        assert(r1.to_multiset() =~= r2.to_multiset());
        lemma_map_multiset(r1, r2);
        assert(s1.map_values(f) =~= r1.map_values(f).push(f(x)));
        assert(s2.map_values(f) =~= r2.map_values(f).insert(k, f(x)));
        vstd::seq_lib::to_multiset_insert(r2.map_values(f), k, f(x));
    }
}

proof fn lemma_keys_multiset(s1: Seq<Member>, s2: Seq<Member>)
    requires
        s1.to_multiset() == s2.to_multiset(),
    ensures
        s1.map_values(|m: Member| m.0).to_multiset()
            == s2.map_values(|m: Member| m.0).to_multiset(),
    decreases s1.len(),
{
    broadcast use vstd::seq_lib::group_to_multiset_ensures;
    let f = |m: Member| m.0;
    s1.to_multiset_ensures();
    s2.to_multiset_ensures();
    assert(s1.to_multiset().len() == s2.to_multiset().len());
    if s1.len() == 0 {
        assert(s2.len() == 0);
        assert(s1.map_values(f) =~= s2.map_values(f));
    } else {
        let x = s1.last();
        assert(s1.contains(x));
        assert(s2.to_multiset().count(x) > 0);
        let k = choose|k: int| 0 <= k < s2.len() && s2[k] == x;
        let r1 = s1.drop_last();
        let r2 = s2.remove(k);
        assert(r1.push(x) =~= s1);
        assert(r1.to_multiset() =~= r2.to_multiset());
        lemma_keys_multiset(r1, r2);
        assert(s1.map_values(f) =~= r1.map_values(f).push(f(x)));
        assert(s2.map_values(f) =~= r2.map_values(f).insert(k, f(x)));
        vstd::seq_lib::to_multiset_insert(r2.map_values(f), k, f(x));
    }
}

/// The canonical form of an object lists its members by ascending key
/// (code-point order), and holds exactly its members, each key once per
/// member: none is lost or added.
pub proof fn lemma_canonical_members_ascend(es: Seq<Member>)
    ensures
        sorted_value(JsonV::Obj(es)) is Obj,
        ({
            let out = sorted_value(JsonV::Obj(es))->Obj_0;
            &&& out.len() == es.len()
            &&& forall|i: int, j: int| 0 <= i < j < out.len() ==>
                (seq_lt(#[trigger] out[i].0, #[trigger] out[j].0) || out[i].0 == out[j].0)
            &&& out.map_values(|m: Member| m.0).to_multiset() == es.map_values(|m: Member| m.0).to_multiset()
        }),
{
    broadcast use vstd::seq_lib::group_to_multiset_ensures;
    let f = |m: Member| normalized_member(m);
    lemma_sorted_members_map(es, es.len() as int);
    assert(es.take(es.len() as int) =~= es);
    let n = sorted_members(es, es.len() as int);
    lemma_sort_entries(n);
    let out = sort_entries(n);
    assert(out.len() == n.len()) by {
        assert(out.to_multiset().len() == n.to_multiset().len());
    }
    let k = |m: Member| m.0;
    assert(n.map_values(k) =~= es.map_values(k)) by {
        assert forall|i: int| 0 <= i < n.len() implies n[i].0 == es[i].0 by {}
    }
    lemma_keys_multiset(out, n);
}

/// The law of member order: an object whose members are those of another
/// (keys distinct), in any order, has the same canonical form, and so the
/// same canonical text.
pub proof fn lemma_member_order_irrelevant(es1: Seq<Member>, es2: Seq<Member>)
    requires
        distinct_keys(es1),
        es1.to_multiset() == es2.to_multiset(),
    ensures
        sorted_value(JsonV::Obj(es1)) == sorted_value(JsonV::Obj(es2)),
        canonical(JsonV::Obj(es1)) == canonical(JsonV::Obj(es2)),
{
    let f = |m: Member| normalized_member(m);
    lemma_sorted_members_map(es1, es1.len() as int);
    lemma_sorted_members_map(es2, es2.len() as int);
    assert(es1.take(es1.len() as int) =~= es1);
    assert(es2.take(es2.len() as int) =~= es2);
    let n1 = sorted_members(es1, es1.len() as int);
    let n2 = sorted_members(es2, es2.len() as int);
    lemma_map_multiset(es1, es2);
    assert(distinct_keys(n1)) by {
        assert forall|i: int, j: int| 0 <= i < j < n1.len() implies #[trigger] n1[i].0 != #[trigger] n1[j].0 by {
            assert(n1[i].0 == es1[i].0 && n1[j].0 == es1[j].0);
        }
    }
    lemma_distinct_keys_identify(n1);
    lemma_sort_entries(n1);
    lemma_sort_entries(n2);
    lemma_ordered_unique(sort_entries(n1), sort_entries(n2));
}

/// The law of canonical parts: replacing a member's value by one with the
/// same canonical form keeps the object's canonical form.
pub proof fn lemma_member_value_congruence(es: Seq<Member>, i: int, v: JsonV)
    requires
        0 <= i < es.len(),
        sorted_value(v) == sorted_value(es[i].1),
    ensures
        sorted_value(JsonV::Obj(es.update(i, (es[i].0, v)))) == sorted_value(JsonV::Obj(es)),
        canonical(JsonV::Obj(es.update(i, (es[i].0, v)))) == canonical(JsonV::Obj(es)),
{
    let fs = es.update(i, (es[i].0, v));
    lemma_sorted_members_map(es, es.len() as int);
    lemma_sorted_members_map(fs, fs.len() as int);
    assert(es.take(es.len() as int) =~= es);
    assert(fs.take(fs.len() as int) =~= fs);
    assert(fs.map_values(|m: Member| normalized_member(m)) =~= es.map_values(|m: Member| normalized_member(m)));
}

/// The same for an array item.
pub proof fn lemma_item_congruence(items: Seq<JsonV>, i: int, v: JsonV)
    requires
        0 <= i < items.len(),
        sorted_value(v) == sorted_value(items[i]),
    ensures
        sorted_value(JsonV::Arr(items.update(i, v))) == sorted_value(JsonV::Arr(items)),
        canonical(JsonV::Arr(items.update(i, v))) == canonical(JsonV::Arr(items)),
{
    lemma_sorted_items_pointwise(items, items.update(i, v), items.len() as int);
}

proof fn lemma_sorted_items_pointwise(a: Seq<JsonV>, b: Seq<JsonV>, n: int)
    requires
        0 <= n <= a.len(),
        a.len() == b.len(),
        forall|k: int| 0 <= k < a.len() ==> sorted_value(#[trigger] a[k]) == sorted_value(b[k]),
    ensures
        sorted_items(a, n) == sorted_items(b, n),
    decreases n,
{
    if n > 0 {
        lemma_sorted_items_pointwise(a, b, n - 1);
        assert(sorted_value(a[n - 1]) == sorted_value(b[n - 1]));
    }
}

} // verus!
