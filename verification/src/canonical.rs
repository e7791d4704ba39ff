//! Canonical JSON text for cache keys: object members sorted by key (code
//! point order), no insignificant white space, minimal string escapes, and
//! integers only within the range a double represents exactly. Documents
//! holding an integer outside that range have no canonical text.

use vstd::prelude::*;
use vstd::string::StringExecFns;
use crate::text::push_char;
use crate::crypto::{hex_text, push_hex, sha256_bytes, sha256_of};
use crate::decimal::{decimal_text, push_decimal};
use crate::json::{arr_view, lemma_arr_view, lemma_obj_view, obj_view, Json, JsonNumber, JsonV};
use crate::text::{chars_lt, seq_lt, to_chars};

verus! {

/// The largest integer magnitude a double holds exactly in sequence.
pub const MAX_SAFE_INTEGER: u64 = 9007199254740991;

/// Key order: code-point lexicographic, equal keys together.
pub open spec fn key_le(a: Seq<char>, b: Seq<char>) -> bool {
    seq_lt(a, b) || a == b
}

/// `sorted` with `e` inserted before the first member whose key is not
/// smaller than its own.
pub open spec fn insert_entry(e: (Seq<char>, JsonV), sorted: Seq<(Seq<char>, JsonV)>) -> Seq<(Seq<char>, JsonV)>
    decreases sorted.len(),
{
    if sorted.len() == 0 {
        seq![e]
    } else if key_le(e.0, sorted[0].0) {
        seq![e] + sorted
    } else {
        seq![sorted[0]] + insert_entry(e, sorted.drop_first())
    }
}

/// Members sorted by key (stable for equal keys in reverse arrival).
pub open spec fn sort_entries(es: Seq<(Seq<char>, JsonV)>) -> Seq<(Seq<char>, JsonV)>
    decreases es.len(),
{
    if es.len() == 0 { Seq::empty() } else { insert_entry(es.last(), sort_entries(es.drop_last())) }
}

/// A document with every object's members sorted, at every depth.
pub open spec fn sorted_value(v: JsonV) -> JsonV
    decreases v, 0int,
{
    match v {
        JsonV::Arr(items) => JsonV::Arr(sorted_items(items, items.len() as int)),
        JsonV::Obj(es) => JsonV::Obj(sort_entries(sorted_members(es, es.len() as int))),
        _ => v,
    }
}

/// The first `n` items, each sorted deeply.
pub open spec fn sorted_items(items: Seq<JsonV>, n: int) -> Seq<JsonV>
    decreases items, n,
{
    if n <= 0 || n > items.len() {
        Seq::empty()
    } else {
        sorted_items(items, n - 1).push(sorted_value(items[n - 1]))
    }
}

/// The first `n` members, each value sorted deeply.
pub open spec fn sorted_members(es: Seq<(Seq<char>, JsonV)>, n: int) -> Seq<(Seq<char>, JsonV)>
    decreases es, n,
{
    if n <= 0 || n > es.len() {
        Seq::empty()
    } else {
        sorted_members(es, n - 1).push((es[n - 1].0, sorted_value(es[n - 1].1)))
    }
}

/// The escape of one character inside a JSON string.
pub open spec fn escape_char(c: char) -> Seq<char> {
    let u = c as u32;
    if c == '"' {
        seq!['\\', '"']
    } else if c == '\\' {
        seq!['\\', '\\']
    } else if u == 8 {
        seq!['\\', 'b']
    } else if u == 9 {
        seq!['\\', 't']
    } else if u == 10 {
        seq!['\\', 'n']
    } else if u == 12 {
        seq!['\\', 'f']
    } else if u == 13 {
        seq!['\\', 'r']
    } else if u < 32 {
        seq!['\\', 'u', '0', '0'] + hex_text(seq![u as u8])
    } else {
        seq![c]
    }
}

/// The escaped characters of a string.
pub open spec fn escaped(s: Seq<char>) -> Seq<char>
    decreases s.len(),
{
    if s.len() == 0 { Seq::empty() } else { escaped(s.drop_last()) + escape_char(s.last()) }
}

/// A string literal.
pub open spec fn quoted(s: Seq<char>) -> Seq<char> {
    seq!['"'] + escaped(s) + seq!['"']
}

/// The text of a number; `None` for an integer beyond the safe range.
/// A floating-point number is written as `0x` and its bit pattern.
pub open spec fn number_text(n: JsonNumber) -> Option<Seq<char>> {
    match n {
        JsonNumber::PosInt(x) => if x <= MAX_SAFE_INTEGER { Some(decimal_text(x as nat)) } else { None },
        JsonNumber::NegInt(x) => if x >= 0 {
            if x <= MAX_SAFE_INTEGER { Some(decimal_text(x as nat)) } else { None }
        } else if -x <= MAX_SAFE_INTEGER {
            Some(seq!['-'] + decimal_text((-x) as nat))
        } else {
            None
        },
        JsonNumber::Float(bits) => Some("0x"@ + hex_text(be_bytes(bits))),
    }
}

/// The eight bytes of a 64-bit value, most significant first.
pub open spec fn be_bytes(x: u64) -> Seq<u8> {
    Seq::new(8, |i: int| (((x as nat) / pow256(7 - i)) % 256) as u8)
}

pub open spec fn pow256(k: int) -> nat
    decreases k,
{
    if k <= 0 { 1 } else { 256 * pow256(k - 1) }
}

/// The text of a document, its objects taken in the order given.
pub open spec fn render(v: JsonV) -> Option<Seq<char>>
    decreases v, 0int,
{
    match v {
        JsonV::Null => Some("null"@),
        JsonV::Bool(b) => Some(if b { "true"@ } else { "false"@ }),
        JsonV::Num(n) => number_text(n),
        JsonV::Str(s) => Some(quoted(s)),
        JsonV::Arr(items) => match render_items(items, items.len() as int) {
            Some(t) => Some(seq!['['] + t + seq![']']),
            None => None,
        },
        JsonV::Obj(es) => match render_members(es, es.len() as int) {
            Some(t) => Some(seq!['{'] + t + seq!['}']),
            None => None,
        },
    }
}

/// The first `n` items, comma-separated.
pub open spec fn render_items(items: Seq<JsonV>, n: int) -> Option<Seq<char>>
    decreases items, n,
{
    if n <= 0 || n > items.len() {
        Some(Seq::empty())
    } else {
        match (render_items(items, n - 1), render(items[n - 1])) {
            (Some(a), Some(b)) => Some(if n == 1 { b } else { a + seq![','] + b }),
            _ => None,
        }
    }
}

/// The first `n` members as `"key":value`, comma-separated.
pub open spec fn render_members(es: Seq<(Seq<char>, JsonV)>, n: int) -> Option<Seq<char>>
    decreases es, n,
{
    if n <= 0 || n > es.len() {
        Some(Seq::empty())
    } else {
        match (render_members(es, n - 1), render(es[n - 1].1)) {
            (Some(a), Some(b)) => {
                let m = quoted(es[n - 1].0) + seq![':'] + b;
                Some(if n == 1 { m } else { a + seq![','] + m })
            },
            _ => None,
        }
    }
}

/// The canonical text of a document.
pub open spec fn canonical(v: JsonV) -> Option<Seq<char>> {
    render(sorted_value(v))
}

/// Integers have canonical text exactly within the range a double holds
/// exactly (magnitude at most 2^53 - 1); floats always have one.
pub proof fn lemma_integer_text_range(x: u64, y: i64, bits: u64)
    ensures
        canonical(JsonV::Num(JsonNumber::PosInt(x))) is Some <==> x <= 9007199254740991,
        canonical(JsonV::Num(JsonNumber::NegInt(y))) is Some <==> (-9007199254740991 <= y <= 9007199254740991),
        canonical(JsonV::Num(JsonNumber::Float(bits))) is Some,
{
}

// ---------------------------------------------------------------------
// Sorting.

proof fn lemma_insert_at(e: (Seq<char>, JsonV), s: Seq<(Seq<char>, JsonV)>, p: int)
    requires
        0 <= p <= s.len(),
        forall|j: int| 0 <= j < p ==> !key_le(e.0, #[trigger] s[j].0),
        p < s.len() ==> key_le(e.0, s[p].0),
    ensures
        insert_entry(e, s) == s.insert(p, e),
    decreases p,
{
    if p == 0 {
        if s.len() > 0 {
            assert(seq![e] + s =~= s.insert(0, e));
        } else {
            assert(seq![e] =~= s.insert(0, e));
        }
    } else {
        lemma_insert_at(e, s.drop_first(), p - 1);
        assert(seq![s[0]] + s.drop_first().insert(p - 1, e) =~= s.insert(p, e));
    }
}

fn key_le_exec(a: &Vec<char>, b: &Vec<char>) -> (le: bool)
    ensures
        le == key_le(a@, b@),
{
    if chars_lt(a.as_slice(), b.as_slice()) {
        return true;
    }
    crate::text::chars_eq(a.as_slice(), b.as_slice())
}

fn key_le_at(sorted: &Vec<(String, Json)>, p: usize, k: &Vec<char>) -> (le: bool)
    requires
        p < sorted@.len(),
    ensures
        le == key_le(k@, sorted@[p as int].0@),
{
    let other = to_chars(sorted[p].0.as_str());
    key_le_exec(k, &other)
}

/// Inserts a member into members sorted by key.
fn insert_sorted(sorted: &mut Vec<(String, Json)>, key: String, value: Json)
    ensures
        obj_view(*final(sorted), final(sorted)@.len() as int)
            == insert_entry((key@, value@), obj_view(*old(sorted), old(sorted)@.len() as int)),
{
    proof { lemma_obj_view(*sorted, sorted@.len() as int); }
    let ghost s = obj_view(*sorted, sorted@.len() as int);
    let ghost prev = *sorted;
    let k = to_chars(key.as_str());
    let mut p: usize = 0;
    while p < sorted.len() && !key_le_at(sorted, p, &k)
        invariant
            p <= sorted@.len(),
            k@ == key@,
            *sorted == prev,
            s == obj_view(prev, prev@.len() as int),
            s.len() == prev@.len(),
            forall|t: int| 0 <= t < prev@.len() ==> #[trigger] s[t] == (prev@[t].0@, crate::hooks::json_view_of(prev@[t].1)),
            forall|j: int| 0 <= j < p ==> !key_le(key@, #[trigger] s[j].0),
        decreases sorted.len() - p,
    {
        p = p + 1;
    }
    proof { lemma_insert_at((key@, value@), s, p as int); }
    let ghost ev = value@;
    sorted.insert(p, (key, value));
    proof {
        lemma_obj_view(*sorted, sorted@.len() as int);
        assert(obj_view(*sorted, sorted@.len() as int) =~= s.insert(p as int, (key@, ev)));
    }
}

/// A copy of `j` with every object's members sorted, at every depth.
pub fn sort_value(j: &Json) -> (out: Json)
    ensures
        out@ == sorted_value(j@),
    decreases j,
{
    match j {
        Json::Array(v) => {
            let mut out: Vec<Json> = Vec::new();
            let mut i: usize = 0;
            proof { lemma_arr_view(*v, v@.len() as int); }
            let ghost items = arr_view(*v, v@.len() as int);
            while i < v.len()
                invariant
                    i <= v@.len(),
                    out@.len() == i,
                    items == arr_view(*v, v@.len() as int),
                    items.len() == v@.len(),
                    forall|t: int| 0 <= t < v@.len() ==> #[trigger] items[t] == crate::hooks::json_view_of(v@[t]),
                    arr_view(out, i as int) == sorted_items(items, i as int),
                    forall|t: int| 0 <= t < v@.len() ==> decreases_to!(*j => v@[t]),
                decreases v.len() - i,
            {
                proof { vstd::std_specs::vec::axiom_vec_index_decreases(*v, i as int); }
                let c = sort_value(&v[i]);
                let ghost before = out;
                out.push(c);
                proof {
                    lemma_arr_view(out, i + 1);
                    lemma_arr_view(before, i as int);
                    assert(arr_view(out, i + 1) =~= sorted_items(items, i + 1)) by {
                        assert forall|t: int| 0 <= t < i implies #[trigger] arr_view(out, i + 1)[t] == sorted_items(items, i + 1)[t] by {
                            assert(out@[t] == before@[t]);
                        }
                    }
                }
                i = i + 1;
            }
            Json::Array(out)
        },
        Json::Object(v) => {
            let mut members: Vec<(String, Json)> = Vec::new();
            let mut sorted: Vec<(String, Json)> = Vec::new();
            proof { lemma_obj_view(*v, v@.len() as int); lemma_obj_view(sorted, 0); }
            let ghost es = obj_view(*v, v@.len() as int);
            let mut i: usize = 0;
            while i < v.len()
                invariant
                    i <= v@.len(),
                    es == obj_view(*v, v@.len() as int),
                    es.len() == v@.len(),
                    forall|t: int| 0 <= t < v@.len() ==> #[trigger] es[t] == (v@[t].0@, crate::hooks::json_view_of(v@[t].1)),
                    obj_view(sorted, sorted@.len() as int) == sort_entries(sorted_members(es, i as int)),
                    forall|t: int| 0 <= t < v@.len() ==> decreases_to!(*j => v@[t].1),
                decreases v.len() - i,
            {
                let c = sort_value(&v[i].1);
                let ghost cv = c@;
                insert_sorted(&mut sorted, v[i].0.clone(), c);
                proof {
                    let sm = sorted_members(es, i + 1);
                    assert(sm.drop_last() =~= sorted_members(es, i as int));
                    assert(sm.last() == (v@[i as int].0@, cv));
                }
                i = i + 1;
            }
            Json::Object(sorted)
        },
        Json::Null => Json::Null,
        Json::Bool(b) => Json::Bool(*b),
        Json::Number(n) => Json::Number(*n),
        Json::String(s) => Json::String(s.clone()),
    }
}

// ---------------------------------------------------------------------
// Rendering.

fn push_escaped_char(out: &mut String, c: char)
    ensures
        final(out)@ == old(out)@ + escape_char(c),
{
    let u = c as u32;
    if c == '"' {
        push_char(out, '\\');
        push_char(out, '"');
    } else if c == '\\' {
        push_char(out, '\\');
        push_char(out, '\\');
    } else if u == 8 {
        push_char(out, '\\');
        push_char(out, 'b');
    } else if u == 9 {
        push_char(out, '\\');
        push_char(out, 't');
    } else if u == 10 {
        push_char(out, '\\');
        push_char(out, 'n');
    } else if u == 12 {
        push_char(out, '\\');
        push_char(out, 'f');
    } else if u == 13 {
        push_char(out, '\\');
        push_char(out, 'r');
    } else if u < 32 {
        push_char(out, '\\');
        push_char(out, 'u');
        push_char(out, '0');
        push_char(out, '0');
        let b = [u as u8];
        push_hex(out, &b);
        assert(b@ =~= seq![u as u8]);
    } else {
        push_char(out, c);
    }
    assert(out@ =~= old(out)@ + escape_char(c));
}

/// Appends a string literal.
pub fn push_quoted(out: &mut String, s: &str)
    ensures
        final(out)@ == old(out)@ + quoted(s@),
{
    let cs = to_chars(s);
    push_char(out, '"');
    let ghost start = out@;
    let mut i: usize = 0;
    while i < cs.len()
        invariant
            i <= cs@.len(),
            cs@ == s@,
            out@ == start + escaped(cs@.take(i as int)),
        decreases cs.len() - i,
    {
        push_escaped_char(out, cs[i]);
        assert(cs@.take(i + 1).drop_last() =~= cs@.take(i as int));
        assert(out@ =~= start + escaped(cs@.take(i + 1)));
        i = i + 1;
    }
    assert(cs@.take(cs@.len() as int) =~= cs@);
    push_char(out, '"');
    assert(out@ =~= old(out)@ + quoted(s@));
}

proof fn lemma_pow256_positive(k: int)
    ensures
        pow256(k) >= 1,
    decreases k,
{
    if k > 0 {
        lemma_pow256_positive(k - 1);
    }
}

fn push_be_hex(out: &mut String, x: u64)
    ensures
        final(out)@ == old(out)@ + hex_text(be_bytes(x)),
{
    let mut bytes: Vec<u8> = Vec::new();
    let mut k: usize = 0;
    let mut div: u64 = 0x100_0000_0000_0000u64;
    assert(pow256(7) == 0x100_0000_0000_0000) by {
        reveal_with_fuel(pow256, 8);
    }
    while k < 8
        invariant
            k <= 8,
            bytes@ =~= be_bytes(x).take(k as int),
            k < 8 ==> div == pow256(7 - k),
            div >= 1,
        decreases 8 - k,
    {
        let b = ((x / div) % 256) as u8;
        bytes.push(b);
        assert(bytes@ =~= be_bytes(x).take(k + 1));
        proof {
            if k + 1 < 8 {
                assert(pow256(7 - k) == 256 * pow256(7 - k - 1));
                lemma_pow256_positive(7 - k - 1);
            }
        }
        if k + 1 < 8 {
            div = div / 256;
        }
        k = k + 1;
    }
    assert(be_bytes(x).take(8) =~= be_bytes(x));
    push_hex(out, bytes.as_slice());
}

/// Appends the text of a number; false, appending nothing, for an
/// integer beyond the safe range.
fn push_number(out: &mut String, n: JsonNumber) -> (ok: bool)
    ensures
        ok == (number_text(n) is Some),
        ok ==> final(out)@ == old(out)@ + number_text(n)->0,
        !ok ==> final(out)@ == old(out)@,
{
    match n {
        JsonNumber::PosInt(x) => {
            if x > MAX_SAFE_INTEGER {
                return false;
            }
            push_decimal(out, x);
            true
        },
        JsonNumber::NegInt(x) => {
            if x >= 0 {
                if x as u64 > MAX_SAFE_INTEGER {
                    return false;
                }
                push_decimal(out, x as u64);
                true
            } else {
                if x < -(MAX_SAFE_INTEGER as i64) {
                    return false;
                }
                push_char(out, '-');
                push_decimal(out, (-x) as u64);
                assert(out@ =~= old(out)@ + number_text(n)->0);
                true
            }
        },
        JsonNumber::Float(bits) => {
            out.append("0x");
            push_be_hex(out, bits);
            assert(out@ =~= old(out)@ + number_text(n)->0);
            true
        },
    }
}

/// Appends the text of a document (objects in the order given); false
/// when the document has no text.
pub fn push_render(out: &mut String, j: &Json) -> (ok: bool)
    ensures
        ok == (render(j@) is Some),
        ok ==> final(out)@ == old(out)@ + render(j@)->0,
    decreases j,
{
    match j {
        Json::Null => {
            out.append("null");
            true
        },
        Json::Bool(b) => {
            if *b { out.append("true"); } else { out.append("false"); }
            true
        },
        Json::Number(n) => push_number(out, *n),
        Json::String(s) => {
            push_quoted(out, s.as_str());
            true
        },
        Json::Array(v) => {
            proof { lemma_arr_view(*v, v@.len() as int); }
            let ghost items = arr_view(*v, v@.len() as int);
            push_char(out, '[');
            let ghost start = out@;
            let mut i: usize = 0;
            assert(render_items(items, 0) == Some(Seq::<char>::empty()));
            while i < v.len()
                invariant
                    i <= v@.len(),
                    j@ == JsonV::Arr(items),
                    items == arr_view(*v, v@.len() as int),
                    items.len() == v@.len(),
                    forall|t: int| 0 <= t < v@.len() ==> #[trigger] items[t] == crate::hooks::json_view_of(v@[t]),
                    render_items(items, i as int) is Some,
                    out@ == start + render_items(items, i as int)->0,
                    forall|t: int| 0 <= t < v@.len() ==> decreases_to!(*j => v@[t]),
                decreases v.len() - i,
            {
                proof { vstd::std_specs::vec::axiom_vec_index_decreases(*v, i as int); }
                if i > 0 {
                    push_char(out, ',');
                }
                if !push_render(out, &v[i]) {
                    assert(render_items(items, i + 1) is None);
                    assert(render_items(items, items.len() as int) is None) by {
                        lemma_render_items_none(items, i + 1, items.len() as int);
                    }
                    return false;
                }
                assert(out@ =~= start + render_items(items, i + 1)->0);
                i = i + 1;
            }
            push_char(out, ']');
            assert(out@ =~= old(out)@ + render(j@)->0);
            true
        },
        Json::Object(v) => {
            proof { lemma_obj_view(*v, v@.len() as int); }
            let ghost es = obj_view(*v, v@.len() as int);
            push_char(out, '{');
            let ghost start = out@;
            let mut i: usize = 0;
            assert(render_members(es, 0) == Some(Seq::<char>::empty()));
            while i < v.len()
                invariant
                    i <= v@.len(),
                    j@ == JsonV::Obj(es),
                    es == obj_view(*v, v@.len() as int),
                    es.len() == v@.len(),
                    forall|t: int| 0 <= t < v@.len() ==> #[trigger] es[t] == (v@[t].0@, crate::hooks::json_view_of(v@[t].1)),
                    render_members(es, i as int) is Some,
                    out@ == start + render_members(es, i as int)->0,
                    forall|t: int| 0 <= t < v@.len() ==> decreases_to!(*j => v@[t].1),
                decreases v.len() - i,
            {
                if i > 0 {
                    push_char(out, ',');
                }
                push_quoted(out, v[i].0.as_str());
                push_char(out, ':');
                if !push_render(out, &v[i].1) {
                    assert(render_members(es, i + 1) is None);
                    assert(render_members(es, es.len() as int) is None) by {
                        lemma_render_members_none(es, i + 1, es.len() as int);
                    }
                    return false;
                }
                assert(out@ =~= start + render_members(es, i + 1)->0);
                i = i + 1;
            }
            push_char(out, '}');
            assert(out@ =~= old(out)@ + render(j@)->0);
            true
        },
    }
}

proof fn lemma_render_items_none(items: Seq<JsonV>, i: int, n: int)
    requires
        0 < i <= n <= items.len(),
        render_items(items, i) is None,
    ensures
        render_items(items, n) is None,
    decreases n - i,
{
    if n > i {
        lemma_render_items_none(items, i, n - 1);
    }
}

proof fn lemma_render_members_none(es: Seq<(Seq<char>, JsonV)>, i: int, n: int)
    requires
        0 < i <= n <= es.len(),
        render_members(es, i) is None,
    ensures
        render_members(es, n) is None,
    decreases n - i,
{
    if n > i {
        lemma_render_members_none(es, i, n - 1);
    }
}

/// The canonical text of a document, `None` when it holds an integer
/// beyond the safe range.
pub fn canonicalize_value(j: &Json) -> (text: Option<String>)
    ensures
        match text {
            Some(t) => canonical(j@) == Some(t@),
            None => canonical(j@) is None,
        },
{
    let sorted = sort_value(j);
    let mut out = String::new();
    if push_render(&mut out, &sorted) {
        assert(Seq::<char>::empty() + render(sorted@)->0 =~= render(sorted@)->0);
        Some(out)
    } else {
        None
    }
}

/// The lowercase hex SHA-256 digest of a text's UTF-8 bytes.
pub fn sha256_hex(text: &str) -> (hex: String)
    ensures
        hex@ == hex_text(sha256_of(vstd::utf8::encode_utf8(text@))),
{
    let digest = sha256_bytes(text.as_bytes());
    crate::crypto::hex_string(digest.as_slice())
}

/// The fingerprint of a document: the digest of its canonical text.
pub fn fingerprint(j: &Json) -> (f: Option<String>)
    ensures
        match f {
            Some(h) => canonical(j@) matches Some(t) && h@ == hex_text(sha256_of(vstd::utf8::encode_utf8(t))),
            None => canonical(j@) is None,
        },
{
    match canonicalize_value(j) {
        Some(t) => Some(sha256_hex(t.as_str())),
        None => None,
    }
}

} // verus!
