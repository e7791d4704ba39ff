//! Write-only secrets of plugin configuration: the instance locations a
//! schema marks secret (as patterns of path segments), their redaction for
//! display and for editing, the edit tokens that stand for hidden values,
//! and the restoration of those tokens after an edit.

use vstd::prelude::*;
use vstd::string::StringExecFns;
use crate::decimal::{decimal_text, digit_char, push_decimal, parse_usize, parsed_usize};
use crate::json::{arr_view, json_view, lemma_arr_view, lemma_obj_view, obj_view, Json, JsonV};
use crate::text::{push_char, str_is, to_chars};

verus! {

/// `regex::Regex::new`'s verdict on a pattern: whether it compiles.
pub uninterp spec fn regex_compiles(pattern: Seq<char>) -> bool;

/// `regex::Regex::is_match`: whether the compiled pattern matches
/// somewhere in the text.
pub uninterp spec fn regex_finds(pattern: Seq<char>, text: Seq<char>) -> bool;

/// Compiles `pattern` with `regex::Regex::new` and, when it compiles,
/// searches `text` with `Regex::is_match`. The compile error's text is not
/// stated.
#[verifier::external_body]
fn regex_search(pattern: &str, text: &str) -> (r: Result<bool, String>)
    ensures
        r is Ok <==> regex_compiles(pattern@),
        r matches Ok(found) ==> found == regex_finds(pattern@, text@),
{
    regex::Regex::new(pattern).map(|matcher| matcher.is_match(text)).map_err(|error| error.to_string())
}

/// A `patternProperties` expression: property names it finds a match in.
pub open spec fn pattern_finds(pattern: Seq<char>, property: Seq<char>) -> bool {
    regex_compiles(pattern) && regex_finds(pattern, property)
}

/// A property-name pattern of a schema, kept by its source text.
#[derive(Clone, Debug, PartialEq, Eq, PartialOrd, Ord)]
pub struct SecretPropertyPattern {
    pub source: String,
}

impl SecretPropertyPattern {
    /// The pattern of `source`, or the regular expression error.
    pub fn new(source: String) -> (r: Result<SecretPropertyPattern, String>)
        ensures
            r is Ok <==> regex_compiles(source@),
            r matches Ok(p) ==> p.source == source,
    {
        match regex_search(source.as_str(), "") {
            Ok(_) => Ok(SecretPropertyPattern { source }),
            Err(error) => Err(error),
        }
    }
}

/// Whether `pattern` matches the property name.
pub fn pattern_matches(pattern: &SecretPropertyPattern, property: &str) -> (found: bool)
    ensures
        found == pattern_finds(pattern.source@, property@),
{
    match regex_search(pattern.source.as_str(), property) {
        Ok(found) => found,
        Err(_) => false,
    }
}

/// The properties an `additionalProperties` schema governs: those that are
/// neither named under `properties` nor matched by a `patternProperties`
/// expression.
#[derive(Clone, Debug, PartialEq, Eq, PartialOrd, Ord)]
pub struct SecretUnmatchedProperties {
    pub properties: Vec<String>,
    pub patterns: Vec<SecretPropertyPattern>,
}

pub open spec fn texts(v: Seq<String>) -> Seq<Seq<char>> {
    v.map_values(|s: String| s@)
}

pub open spec fn sources(v: Seq<SecretPropertyPattern>) -> Seq<Seq<char>> {
    v.map_values(|p: SecretPropertyPattern| p.source@)
}

/// A property that is neither listed nor found by one of the patterns.
pub open spec fn unmatched(properties: Seq<Seq<char>>, patterns: Seq<Seq<char>>, property: Seq<char>) -> bool {
    &&& !properties.contains(property)
    &&& forall|i: int| 0 <= i < patterns.len() ==> !pattern_finds(#[trigger] patterns[i], property)
}

impl SecretUnmatchedProperties {
    /// Whether `property` is governed by `additionalProperties`.
    pub fn matches(&self, property: &str) -> (m: bool)
        ensures
            m == unmatched(texts(self.properties@), sources(self.patterns@), property@),
    {
        let ghost ps = texts(self.properties@);
        let mut i: usize = 0;
        while i < self.properties.len()
            invariant
                ps == texts(self.properties@),
                i <= self.properties@.len(),
                forall|j: int| 0 <= j < i ==> ps[j] != property@,
            decreases self.properties.len() - i,
        {
            if str_is(self.properties[i].as_str(), property) {
                assert(ps[i as int] == property@);
                return false;
            }
            i = i + 1;
        }
        assert(!ps.contains(property@));
        let ghost qs = sources(self.patterns@);
        let mut k: usize = 0;
        while k < self.patterns.len()
            invariant
                qs == sources(self.patterns@),
                k <= self.patterns@.len(),
                forall|j: int| 0 <= j < k ==> !pattern_finds(#[trigger] qs[j], property@),
            decreases self.patterns.len() - k,
        {
            if pattern_matches(&self.patterns[k], property) {
                assert(qs[k as int] == self.patterns@[k as int].source@);
                return false;
            }
            k = k + 1;
        }
        true
    }
}

/// One segment of a secret location.
#[derive(Clone, Debug, PartialEq, Eq, PartialOrd, Ord)]
pub enum SecretSegment {
    /// The named property.
    Property(String),
    /// Every property or item.
    Any,
    /// Every property whose name the pattern matches.
    Pattern(SecretPropertyPattern),
    /// Every property governed by `additionalProperties`.
    UnmatchedProperties(SecretUnmatchedProperties),
    /// The item at this index.
    Index(usize),
    /// Every item from this index on.
    Tail(usize),
}

/// A secret segment as a value.
pub enum SegV {
    Property(Seq<char>),
    Any,
    Pattern(Seq<char>),
    Unmatched(Seq<Seq<char>>, Seq<Seq<char>>),
    Index(usize),
    Tail(usize),
}

pub open spec fn seg_view(s: SecretSegment) -> SegV {
    match s {
        SecretSegment::Property(p) => SegV::Property(p@),
        SecretSegment::Any => SegV::Any,
        SecretSegment::Pattern(p) => SegV::Pattern(p.source@),
        SecretSegment::UnmatchedProperties(u) => SegV::Unmatched(texts(u.properties@), sources(u.patterns@)),
        SecretSegment::Index(i) => SegV::Index(i),
        SecretSegment::Tail(i) => SegV::Tail(i),
    }
}

/// A schema-declared secret location: a path of segments from the root
/// of a configuration document.
#[derive(Clone, Debug, PartialEq, Eq, PartialOrd, Ord)]
pub struct SecretPattern(pub Vec<SecretSegment>);

pub open spec fn seg_views(v: Seq<SecretSegment>) -> Seq<SegV> {
    v.map_values(|s: SecretSegment| seg_view(s))
}

pub open spec fn segs(p: SecretPattern) -> Seq<SegV> {
    seg_views(p.0@)
}

/// One step of a concrete location in a document.
#[derive(Clone, Debug, PartialEq, Eq)]
pub enum SecretInstanceSegment {
    Property(String),
    Index(usize),
}

pub enum InstV {
    Property(Seq<char>),
    Index(usize),
}

pub open spec fn inst_view(s: SecretInstanceSegment) -> InstV {
    match s {
        SecretInstanceSegment::Property(p) => InstV::Property(p@),
        SecretInstanceSegment::Index(i) => InstV::Index(i),
    }
}

pub open spec fn insts(v: Seq<SecretInstanceSegment>) -> Seq<InstV> {
    v.map_values(|s: SecretInstanceSegment| inst_view(s))
}

/// Whether a segment admits the property name (as text) at its position
/// of a schema path: an index segment admits the decimal text of its
/// index, a tail segment that of any index from its start on.
pub open spec fn admits_property(seg: SegV, property: Seq<char>) -> bool {
    match seg {
        SegV::Property(expected) => expected == property,
        SegV::Any => true,
        SegV::Pattern(p) => pattern_finds(p, property),
        SegV::Unmatched(props, pats) => unmatched(props, pats, property),
        SegV::Index(i) => parsed_usize(property) == Some(i),
        SegV::Tail(start) => parsed_usize(property) matches Some(n) && n >= start,
    }
}

/// Whether a segment admits one step of a concrete location.
pub open spec fn admits_instance(seg: SegV, step: InstV) -> bool {
    match (seg, step) {
        (SegV::Property(expected), InstV::Property(actual)) => expected == actual,
        (SegV::Any, _) => true,
        (SegV::Pattern(p), InstV::Property(actual)) => pattern_finds(p, actual),
        (SegV::Unmatched(props, pats), InstV::Property(actual)) => unmatched(props, pats, actual),
        (SegV::Index(expected), InstV::Index(actual)) => expected == actual,
        (SegV::Tail(start), InstV::Index(actual)) => actual >= start,
        _ => false,
    }
}

/// The pattern reaches at least as deep as `path` and admits each of its
/// properties.
pub open spec fn applies_below_spec(pattern: Seq<SegV>, path: Seq<Seq<char>>) -> bool {
    &&& pattern.len() >= path.len()
    &&& forall|i: int| 0 <= i < path.len() ==> admits_property(#[trigger] pattern[i], path[i])
}

/// The pattern is exactly as deep as `path` and admits each of its steps.
pub open spec fn matches_instance_spec(pattern: Seq<SegV>, path: Seq<InstV>) -> bool {
    &&& pattern.len() == path.len()
    &&& forall|i: int| 0 <= i < path.len() ==> admits_instance(#[trigger] pattern[i], path[i])
}

/// Which concrete steps each kind of secret segment admits: any segment
/// admits every step; a named property only that property, and an index
/// only that index; a tail every index from its start on; property-name
/// segments never admit an array index, and index segments never a
/// property.
pub proof fn lemma_segment_admission(seg: SegV, step: InstV)
    ensures
        seg is Any ==> admits_instance(seg, step),
        step is Index && !(seg is Any) && !(seg is Index) && !(seg is Tail) ==> !admits_instance(seg, step),
        step is Property && (seg is Index || seg is Tail) ==> !admits_instance(seg, step),
        seg is Property && step is Property ==> (admits_instance(seg, step) <==> seg->Property_0 == step->Property_0),
        seg is Index && step is Index ==> (admits_instance(seg, step) <==> seg->Index_0 == step->Index_0),
        seg is Tail && step is Index ==> (admits_instance(seg, step) <==> step->Index_0 >= seg->Tail_0),
        seg is Pattern && step is Property ==> (admits_instance(seg, step) <==> (regex_compiles(seg->Pattern_0)
            && regex_finds(seg->Pattern_0, step->Property_0))),
        seg is Unmatched && step is Property ==> (admits_instance(seg, step) <==> (
            !seg->Unmatched_0.contains(step->Property_0)
            && forall|i: int| 0 <= i < seg->Unmatched_1.len() ==> !(regex_compiles(#[trigger] seg->Unmatched_1[i])
                && regex_finds(seg->Unmatched_1[i], step->Property_0)))),
{
}

/// A secret location matches a concrete path only when the path has as
/// many steps as the location has segments, each admitted by its segment.
pub proof fn lemma_instance_match_is_stepwise(pattern: Seq<SegV>, path: Seq<InstV>, i: int)
    ensures
        matches_instance_spec(pattern, path) ==> pattern.len() == path.len(),
        matches_instance_spec(pattern, path) && 0 <= i < path.len() ==> admits_instance(pattern[i], path[i]),
        pattern.len() == path.len() && (forall|k: int| 0 <= k < path.len() ==> admits_instance(#[trigger] pattern[k], path[k]))
            ==> matches_instance_spec(pattern, path),
{
}

fn segment_admits_property(seg: &SecretSegment, property: &str) -> (ok: bool)
    ensures
        ok == admits_property(seg_view(*seg), property@),
{
    match seg {
        SecretSegment::Property(expected) => str_is(expected.as_str(), property),
        SecretSegment::Any => true,
        SecretSegment::Pattern(p) => pattern_matches(p, property),
        SecretSegment::UnmatchedProperties(selector) => selector.matches(property),
        SecretSegment::Index(index) => match parse_usize(property) {
            Some(n) => n == *index,
            None => false,
        },
        SecretSegment::Tail(start) => match parse_usize(property) {
            Some(n) => n >= *start,
            None => false,
        },
    }
}

fn segment_admits_instance(seg: &SecretSegment, step: &SecretInstanceSegment) -> (ok: bool)
    ensures
        ok == admits_instance(seg_view(*seg), inst_view(*step)),
{
    match (seg, step) {
        (SecretSegment::Property(expected), SecretInstanceSegment::Property(actual)) => str_is(expected.as_str(), actual.as_str()),
        (SecretSegment::Any, _) => true,
        (SecretSegment::Pattern(p), SecretInstanceSegment::Property(actual)) => pattern_matches(p, actual.as_str()),
        (SecretSegment::UnmatchedProperties(selector), SecretInstanceSegment::Property(actual)) => selector.matches(actual.as_str()),
        (SecretSegment::Index(expected), SecretInstanceSegment::Index(actual)) => *expected == *actual,
        (SecretSegment::Tail(start), SecretInstanceSegment::Index(actual)) => *actual >= *start,
        _ => false,
    }
}

impl SecretPattern {
    /// Whether the secret location lies at or below the schema path
    /// `path`, each of whose properties the pattern admits.
    pub fn applies_below(&self, path: &Vec<String>) -> (below: bool)
        ensures
            below == applies_below_spec(segs(*self), texts(path@)),
    {
        let ghost p = segs(*self);
        let ghost q = texts(path@);
        if self.0.len() < path.len() {
            return false;
        }
        let mut i: usize = 0;
        while i < path.len()
            invariant
                p == segs(*self),
                q == texts(path@),
                p.len() >= q.len(),
                i <= q.len(),
                forall|j: int| 0 <= j < i ==> admits_property(#[trigger] p[j], q[j]),
            decreases path.len() - i,
        {
            if !segment_admits_property(&self.0[i], path[i].as_str()) {
                assert(!admits_property(p[i as int], q[i as int]));
                return false;
            }
            i = i + 1;
        }
        true
    }

    /// Whether a concrete location of a document is this secret location.
    pub fn matches_instance_path(&self, path: &Vec<SecretInstanceSegment>) -> (m: bool)
        ensures
            m == matches_instance_spec(segs(*self), insts(path@)),
    {
        let ghost p = segs(*self);
        let ghost q = insts(path@);
        if self.0.len() != path.len() {
            return false;
        }
        let mut i: usize = 0;
        while i < path.len()
            invariant
                p == segs(*self),
                q == insts(path@),
                p.len() == q.len(),
                i <= q.len(),
                forall|j: int| 0 <= j < i ==> admits_instance(#[trigger] p[j], q[j]),
            decreases path.len() - i,
        {
            if !segment_admits_instance(&self.0[i], &path[i]) {
                assert(!admits_instance(p[i as int], q[i as int]));
                return false;
            }
            i = i + 1;
        }
        true
    }
}

/// A JSON Pointer reference token: `~` written `~0` and `/` written `~1`.
pub open spec fn pointer_escaped(s: Seq<char>) -> Seq<char>
    decreases s.len(),
{
    if s.len() == 0 {
        Seq::empty()
    } else {
        pointer_escaped(s.drop_last()) + (if s.last() == '~' {
            seq!['~', '0']
        } else if s.last() == '/' {
            seq!['~', '1']
        } else {
            seq![s.last()]
        })
    }
}

/// The JSON Pointer reference token of `segment`.
pub fn escape_pointer(segment: &str) -> (escaped: String)
    ensures
        escaped@ == pointer_escaped(segment@),
{
    let cs = to_chars(segment);
    let mut out = String::new();
    let mut i: usize = 0;
    while i < cs.len()
        invariant
            cs@ == segment@,
            i <= cs@.len(),
            out@ == pointer_escaped(cs@.take(i as int)),
        decreases cs.len() - i,
    {
        let c = cs[i];
        assert(cs@.take(i + 1).drop_last() =~= cs@.take(i as int));
        if c == '~' {
            push_char(&mut out, '~');
            push_char(&mut out, '0');
        } else if c == '/' {
            push_char(&mut out, '~');
            push_char(&mut out, '1');
        } else {
            push_char(&mut out, c);
        }
        assert(out@ =~= pointer_escaped(cs@.take(i + 1)));
        i = i + 1;
    }
    assert(cs@.take(cs@.len() as int) =~= cs@);
    out
}

/// `pointer` extended by the reference token of `segment`.
pub fn push_pointer(pointer: &str, segment: &str) -> (extended: String)
    ensures
        extended@ == pointer@ + seq!['/'] + pointer_escaped(segment@),
{
    let mut out = String::new();
    out.append(pointer);
    push_char(&mut out, '/');
    let escaped = escape_pointer(segment);
    out.append(escaped.as_str());
    assert(out@ =~= pointer@ + seq!['/'] + pointer_escaped(segment@));
    out
}

/// The string values of a document, at every depth, in document order
/// (object keys are not values).
pub open spec fn string_values(v: JsonV) -> Seq<Seq<char>>
    decreases v, 0int,
{
    match v {
        JsonV::Str(s) => seq![s],
        JsonV::Arr(items) => item_strings(items, items.len() as int),
        JsonV::Obj(es) => member_strings(es, es.len() as int),
        _ => Seq::empty(),
    }
}

pub open spec fn item_strings(items: Seq<JsonV>, n: int) -> Seq<Seq<char>>
    decreases items, n,
{
    if n <= 0 || n > items.len() {
        Seq::empty()
    } else {
        item_strings(items, n - 1) + string_values(items[n - 1])
    }
}

pub open spec fn member_strings(es: Seq<(Seq<char>, JsonV)>, n: int) -> Seq<Seq<char>>
    decreases es, n,
{
    if n <= 0 || n > es.len() {
        Seq::empty()
    } else {
        member_strings(es, n - 1) + string_values(es[n - 1].1)
    }
}

/// Adds every string value of `value`, at any depth, to `output`.
pub fn collect_string_values(value: &Json, output: &mut Vec<String>)
    ensures
        texts(final(output)@) == texts(old(output)@) + string_values(value@),
    decreases value,
{
    match value {
        Json::String(s) => {
            output.push(s.clone());
            assert(texts(output@) =~= texts(old(output)@) + string_values(value@));
        },
        Json::Array(v) => {
            proof { lemma_arr_view(*v, v@.len() as int); }
            let ghost items = arr_view(*v, v@.len() as int);
            let mut i: usize = 0;
            while i < v.len()
                invariant
                    i <= v@.len(),
                    items == arr_view(*v, v@.len() as int),
                    items.len() == v@.len(),
                    forall|t: int| 0 <= t < v@.len() ==> #[trigger] items[t] == json_view(v@[t]),
                    texts(output@) == texts(old(output)@) + item_strings(items, i as int),
                    forall|t: int| 0 <= t < v@.len() ==> decreases_to!(*value => v@[t]),
                decreases v.len() - i,
            {
                proof { vstd::std_specs::vec::axiom_vec_index_decreases(*v, i as int); }
                collect_string_values(&v[i], output);
                assert(texts(output@) =~= texts(old(output)@) + item_strings(items, i + 1));
                i = i + 1;
            }
        },
        Json::Object(v) => {
            proof { lemma_obj_view(*v, v@.len() as int); }
            let ghost es = obj_view(*v, v@.len() as int);
            let mut i: usize = 0;
            while i < v.len()
                invariant
                    i <= v@.len(),
                    es == obj_view(*v, v@.len() as int),
                    es.len() == v@.len(),
                    forall|t: int| 0 <= t < v@.len() ==> #[trigger] es[t] == (v@[t].0@, json_view(v@[t].1)),
                    texts(output@) == texts(old(output)@) + member_strings(es, i as int),
                    forall|t: int| 0 <= t < v@.len() ==> decreases_to!(*value => v@[t].1),
                decreases v.len() - i,
            {
                collect_string_values(&v[i].1, output);
                assert(texts(output@) =~= texts(old(output)@) + member_strings(es, i + 1));
                i = i + 1;
            }
        },
        _ => {
            assert(texts(output@) =~= texts(old(output)@) + string_values(value@));
        },
    }
}

/// Whether a segment selects an object member by its key.
pub open spec fn selects_key(seg: SegV, key: Seq<char>) -> bool {
    match seg {
        SegV::Property(expected) => expected == key,
        SegV::Any => true,
        SegV::Pattern(p) => pattern_finds(p, key),
        SegV::Unmatched(props, pats) => unmatched(props, pats, key),
        _ => false,
    }
}

/// Whether a segment selects an array item by its index.
pub open spec fn selects_index(seg: SegV, i: int) -> bool {
    match seg {
        SegV::Any => true,
        SegV::Index(n) => i == n,
        SegV::Tail(start) => i >= start,
        _ => false,
    }
}

/// A value redacted for display: anything but `null` becomes the
/// redaction marker, whatever its type.
pub open spec fn redact_leaf(v: JsonV, redacted: Seq<char>) -> JsonV {
    if v is Null { v } else { JsonV::Str(redacted) }
}

/// `v` with every value at the locations `p[off..]` selects redacted.
pub open spec fn redacted_at(p: Seq<SegV>, off: int, v: JsonV, redacted: Seq<char>) -> JsonV
    decreases v, 0int,
{
    if off >= p.len() {
        redact_leaf(v, redacted)
    } else {
        match v {
            JsonV::Arr(items) => JsonV::Arr(redacted_items(p, off, items, items.len() as int, redacted)),
            JsonV::Obj(es) => JsonV::Obj(redacted_members(p, off, es, es.len() as int, redacted)),
            _ => v,
        }
    }
}

pub open spec fn redacted_items(p: Seq<SegV>, off: int, items: Seq<JsonV>, n: int, redacted: Seq<char>) -> Seq<JsonV>
    decreases items, n,
{
    if n <= 0 || n > items.len() {
        Seq::empty()
    } else {
        redacted_items(p, off, items, n - 1, redacted).push(
            if 0 <= off < p.len() && selects_index(p[off], n - 1) {
                redacted_at(p, off + 1, items[n - 1], redacted)
            } else {
                items[n - 1]
            },
        )
    }
}

pub open spec fn redacted_members(
    p: Seq<SegV>,
    off: int,
    es: Seq<(Seq<char>, JsonV)>,
    n: int,
    redacted: Seq<char>,
) -> Seq<(Seq<char>, JsonV)>
    decreases es, n,
{
    if n <= 0 || n > es.len() {
        Seq::empty()
    } else {
        redacted_members(p, off, es, n - 1, redacted).push(
            if 0 <= off < p.len() && selects_key(p[off], es[n - 1].0) {
                (es[n - 1].0, redacted_at(p, off + 1, es[n - 1].1, redacted))
            } else {
                es[n - 1]
            },
        )
    }
}

fn segment_selects_key(seg: &SecretSegment, key: &str) -> (s: bool)
    ensures
        s == selects_key(seg_view(*seg), key@),
{
    match seg {
        SecretSegment::Property(expected) => str_is(expected.as_str(), key),
        SecretSegment::Any => true,
        SecretSegment::Pattern(p) => pattern_matches(p, key),
        SecretSegment::UnmatchedProperties(selector) => selector.matches(key),
        _ => false,
    }
}

fn segment_selects_index(seg: &SecretSegment, i: usize) -> (s: bool)
    ensures
        s == selects_index(seg_view(*seg), i as int),
{
    match seg {
        SecretSegment::Any => true,
        SecretSegment::Index(n) => i == *n,
        SecretSegment::Tail(start) => i >= *start,
        _ => false,
    }
}

fn redacted_copy(pattern: &SecretPattern, off: usize, value: &Json, redacted: &str) -> (out: Json)
    requires
        off <= pattern.0@.len(),
    ensures
        out@ == redacted_at(segs(*pattern), off as int, value@, redacted@),
    decreases value,
{
    let ghost p = segs(*pattern);
    let depth = pattern.0.len();
    if off == depth {
        if value.is_null() {
            return Json::Null;
        }
        return Json::String(redacted.to_string());
    }
    let seg = &pattern.0[off];
    assert(p[off as int] == seg_view(*seg));
    match value {
        Json::Array(v) => {
    let mut out: Vec<Json> = Vec::new();
            proof { lemma_arr_view(*v, v@.len() as int); }
            let ghost items = arr_view(*v, v@.len() as int);
            let mut i: usize = 0;
            while i < v.len()
                invariant
                    p == segs(*pattern),
                    off < p.len(),
                    off < depth,
                    depth == pattern.0@.len(),
                    p[off as int] == seg_view(*seg),
                    i <= v@.len(),
                    out@.len() == i,
                    items == arr_view(*v, v@.len() as int),
                    items.len() == v@.len(),
                    forall|t: int| 0 <= t < v@.len() ==> #[trigger] items[t] == json_view(v@[t]),
                    arr_view(out, i as int) == redacted_items(p, off as int, items, i as int, redacted@),
                    forall|t: int| 0 <= t < v@.len() ==> decreases_to!(*value => v@[t]),
                decreases v.len() - i,
            {
                proof { vstd::std_specs::vec::axiom_vec_index_decreases(*v, i as int); }
                let c = if segment_selects_index(seg, i) {
                    redacted_copy(pattern, off + 1, &v[i], redacted)
                } else {
                    crate::json::json_clone(&v[i])
                };
                let ghost before = out;
                out.push(c);
                proof {
                    lemma_arr_view(out, i + 1);
                    lemma_arr_view(before, i as int);
                    assert(arr_view(out, i + 1) =~= redacted_items(p, off as int, items, i + 1, redacted@)) by {
                        assert forall|t: int| 0 <= t < i implies #[trigger] arr_view(out, i + 1)[t]
                            == redacted_items(p, off as int, items, i + 1, redacted@)[t] by {
                            assert(out@[t] == before@[t]);
                        }
                    }
                }
                i = i + 1;
            }
            Json::Array(out)
        },
        Json::Object(v) => {
    let mut out: Vec<(String, Json)> = Vec::new();
            proof { lemma_obj_view(*v, v@.len() as int); }
            let ghost es = obj_view(*v, v@.len() as int);
            let mut i: usize = 0;
            while i < v.len()
                invariant
                    p == segs(*pattern),
                    off < p.len(),
                    off < depth,
                    depth == pattern.0@.len(),
                    p[off as int] == seg_view(*seg),
                    i <= v@.len(),
                    out@.len() == i,
                    es == obj_view(*v, v@.len() as int),
                    es.len() == v@.len(),
                    forall|t: int| 0 <= t < v@.len() ==> #[trigger] es[t] == (v@[t].0@, json_view(v@[t].1)),
                    obj_view(out, i as int) == redacted_members(p, off as int, es, i as int, redacted@),
                    forall|t: int| 0 <= t < v@.len() ==> decreases_to!(*value => v@[t].1),
                decreases v.len() - i,
            {
                let c = if segment_selects_key(seg, v[i].0.as_str()) {
                    redacted_copy(pattern, off + 1, &v[i].1, redacted)
                } else {
                    crate::json::json_clone(&v[i].1)
                };
                let ghost before = out;
                out.push((v[i].0.clone(), c));
                proof {
                    lemma_obj_view(out, i + 1);
                    lemma_obj_view(before, i as int);
                    assert(obj_view(out, i + 1) =~= redacted_members(p, off as int, es, i + 1, redacted@)) by {
                        assert forall|t: int| 0 <= t < i implies #[trigger] obj_view(out, i + 1)[t]
                            == redacted_members(p, off as int, es, i + 1, redacted@)[t] by {
                            assert(out@[t] == before@[t]);
                        }
                    }
                }
                i = i + 1;
            }
            Json::Object(out)
        },
        _ => crate::json::json_clone(value),
    }
}

impl SecretPattern {
    /// Redacts, for display, every value of `value` at this secret location
    /// (read from segment `offset` on): each becomes `redacted`, except
    /// `null`, which carries no payload and stays visible.
    pub fn redact(&self, value: &mut Json, offset: usize, redacted: &str)
        requires
            offset <= self.0@.len(),
        ensures
            final(value)@ == redacted_at(segs(*self), offset as int, old(value)@, redacted@),
    {
        let out = redacted_copy(self, offset, value, redacted);
        *value = out;
    }
}

// ---------------------------------------------------------------------
// Edit tokens.

/// The edit token with counter `n`: the prefix, the counter in decimal,
/// and a closing `>`.
pub open spec fn edit_token(prefix: Seq<char>, n: nat) -> Seq<char> {
    prefix + decimal_text(n) + seq!['>']
}

proof fn lemma_decimal_len(n: nat)
    ensures
        decimal_text(n).len() >= 1,
        n < 10 ==> decimal_text(n).len() == 1,
        n >= 10 ==> decimal_text(n).len() >= 2,
    decreases n,
{
    if n >= 10 {
        lemma_decimal_len(n / 10);
    }
}

proof fn lemma_digit_char_injective(a: nat, b: nat)
    requires
        a < 10,
        b < 10,
        digit_char(a) == digit_char(b),
    ensures
        a == b,
{
    assert(digit_char(a) as u32 == a + 48);
    assert(digit_char(b) as u32 == b + 48);
}

/// Distinct counters have distinct decimal texts.
proof fn lemma_decimal_injective(a: nat, b: nat)
    requires
        decimal_text(a) == decimal_text(b),
    ensures
        a == b,
    decreases a,
{
    lemma_decimal_len(a);
    lemma_decimal_len(b);
    if a < 10 && b < 10 {
        assert(decimal_text(a)[0] == digit_char(a));
        assert(decimal_text(b)[0] == digit_char(b));
        lemma_digit_char_injective(a, b);
    } else if a >= 10 && b >= 10 {
        let da = decimal_text(a);
        let db = decimal_text(b);
        assert(da.last() == digit_char(a % 10));
        assert(db.last() == digit_char(b % 10));
        lemma_digit_char_injective(a % 10, b % 10);
        assert(da.drop_last() =~= decimal_text(a / 10));
        assert(db.drop_last() =~= decimal_text(b / 10));
        lemma_decimal_injective(a / 10, b / 10);
    }
}

/// Distinct counters give distinct tokens.
proof fn lemma_token_injective(prefix: Seq<char>, a: nat, b: nat)
    requires
        edit_token(prefix, a) == edit_token(prefix, b),
    ensures
        a == b,
{
    let ta = edit_token(prefix, a);
    let tb = edit_token(prefix, b);
    assert(ta.subrange(prefix.len() as int, ta.len() - 1) =~= decimal_text(a));
    assert(tb.subrange(prefix.len() as int, tb.len() - 1) =~= decimal_text(b));
    lemma_decimal_injective(a, b);
}

/// The tokens with counters from `base` up to (not including) `n`.
pub open spec fn token_range(prefix: Seq<char>, base: nat, n: nat) -> Set<Seq<char>>
    decreases n,
{
    if n <= base {
        Set::empty()
    } else {
        token_range(prefix, base, (n - 1) as nat).insert(edit_token(prefix, (n - 1) as nat))
    }
}

proof fn lemma_token_range(prefix: Seq<char>, base: nat, n: nat)
    requires
        base <= n,
    ensures
        token_range(prefix, base, n).finite(),
        token_range(prefix, base, n).len() == n - base,
        forall|m: nat| base <= m < n ==> token_range(prefix, base, n).contains(#[trigger] edit_token(prefix, m)),
        forall|t: Seq<char>| #[trigger] token_range(prefix, base, n).contains(t) ==>
            exists|m: nat| base <= m < n && t == edit_token(prefix, m),
    decreases n,
{
    if n > base {
        let k = (n - 1) as nat;
        lemma_token_range(prefix, base, k);
        let r = token_range(prefix, base, k);
        if r.contains(edit_token(prefix, k)) {
            let m = choose|m: nat| base <= m < k && edit_token(prefix, k) == edit_token(prefix, m);
            lemma_token_injective(prefix, k, m);
        }
        assert forall|t: Seq<char>| #[trigger] token_range(prefix, base, n).contains(t) implies
            exists|m: nat| base <= m < n && t == edit_token(prefix, m) by {
            if t != edit_token(prefix, k) {
                assert(r.contains(t));
            }
        }
    } else {
        assert(token_range(prefix, base, n) =~= Set::<Seq<char>>::empty());
    }
}

/// Tokens already in use: the edit values' tokens and the occupied texts.
pub open spec fn taken(tokens: Seq<Seq<char>>, occupied: Seq<Seq<char>>, t: Seq<char>) -> bool {
    tokens.contains(t) || occupied.contains(t)
}

/// When every counter from `base` to `n` gives a token in use, there are
/// no more such counters than tokens in use.
pub(crate) proof fn lemma_taken_range(prefix: Seq<char>, tokens: Seq<Seq<char>>, occupied: Seq<Seq<char>>, base: nat, n: nat)
    requires
        base <= n,
        forall|m: nat| base <= m < n ==> taken(tokens, occupied, #[trigger] edit_token(prefix, m)),
    ensures
        n - base <= tokens.len() + occupied.len(),
{
    lemma_token_range(prefix, base, n);
    let all = tokens.to_set().union(occupied.to_set());
    vstd::seq_lib::seq_to_set_is_finite(tokens);
    vstd::seq_lib::seq_to_set_is_finite(occupied);
    tokens.lemma_cardinality_of_set();
    occupied.lemma_cardinality_of_set();
    vstd::set_lib::lemma_len_union(tokens.to_set(), occupied.to_set());
    assert(token_range(prefix, base, n).subset_of(all)) by {
        assert forall|t: Seq<char>| #[trigger] token_range(prefix, base, n).contains(t) implies all.contains(t) by {
            let m = choose|m: nat| base <= m < n && t == edit_token(prefix, m);
            assert(taken(tokens, occupied, edit_token(prefix, m)));
        }
    }
    vstd::set_lib::lemma_len_subset(token_range(prefix, base, n), all);
}

/// Counter `n` is the first from `start` on whose token is not in use.
pub open spec fn is_first_free(prefix: Seq<char>, tokens: Seq<Seq<char>>, occupied: Seq<Seq<char>>, start: nat, n: nat) -> bool {
    &&& start <= n
    &&& !taken(tokens, occupied, edit_token(prefix, n))
    &&& forall|m: nat| start <= m < n ==> taken(tokens, occupied, #[trigger] edit_token(prefix, m))
}

/// The first counter from `start` on whose token is not in use.
pub open spec fn first_free(prefix: Seq<char>, tokens: Seq<Seq<char>>, occupied: Seq<Seq<char>>, start: nat) -> nat {
    choose|n: nat| is_first_free(prefix, tokens, occupied, start, n)
}

proof fn lemma_first_free_unique(prefix: Seq<char>, tokens: Seq<Seq<char>>, occupied: Seq<Seq<char>>, start: nat, n: nat)
    requires
        is_first_free(prefix, tokens, occupied, start, n),
    ensures
        first_free(prefix, tokens, occupied, start) == n,
{
    let c = first_free(prefix, tokens, occupied, start);
    assert(is_first_free(prefix, tokens, occupied, start, c));
    if c < n {
        assert(taken(tokens, occupied, edit_token(prefix, c)));
    }
    if c > n {
        assert(taken(tokens, occupied, edit_token(prefix, n)));
    }
}

/// A hidden value and the secret location it was taken from.
pub struct SecretEditValue {
    pub value: Json,
    pub pattern: SecretPattern,
}

/// The values hidden behind edit tokens, by token.
pub struct SecretEditValues {
    pub entries: Vec<(String, SecretEditValue)>,
}

impl SecretEditValues {
    pub open spec fn tokens(&self) -> Seq<Seq<char>> {
        self.entries@.map_values(|e: (String, SecretEditValue)| e.0@)
    }

    /// The index of the entry for `token`, if any.
    pub fn position(&self, token: &str) -> (at: Option<usize>)
        ensures
            match at {
                Some(i) => i < self.entries@.len() && self.tokens()[i as int] == token@
                    && forall|j: int| 0 <= j < i ==> self.tokens()[j] != token@,
                None => !self.tokens().contains(token@),
            },
    {
        let mut i: usize = 0;
        while i < self.entries.len()
            invariant
                i <= self.entries@.len(),
                forall|j: int| 0 <= j < i ==> self.tokens()[j] != token@,
            decreases self.entries.len() - i,
        {
            if str_is(self.entries[i].0.as_str(), token) {
                return Some(i);
            }
            i = i + 1;
        }
        assert forall|j: int| 0 <= j < self.tokens().len() implies self.tokens()[j] != token@ by {}
        None
    }
}

fn texts_contain(v: &Vec<String>, t: &str) -> (found: bool)
    ensures
        found == texts(v@).contains(t@),
{
    let mut i: usize = 0;
    while i < v.len()
        invariant
            i <= v@.len(),
            forall|j: int| 0 <= j < i ==> texts(v@)[j] != t@,
        decreases v.len() - i,
    {
        if str_is(v[i].as_str(), t) {
            assert(texts(v@)[i as int] == t@);
            return true;
        }
        i = i + 1;
    }
    false
}

fn make_token(prefix: &str, n: usize) -> (t: String)
    ensures
        t@ == edit_token(prefix@, n as nat),
{
    let mut t = String::new();
    t.append(prefix);
    push_decimal(&mut t, n as u64);
    push_char(&mut t, '>');
    assert(t@ =~= edit_token(prefix@, n as nat));
    t
}

/// Every counter from `base` up to `next` gives a token in use.
pub open spec fn counters_used(prefix: Seq<char>, tokens: Seq<Seq<char>>, occupied: Seq<Seq<char>>, base: nat, next: nat) -> bool {
    &&& base <= next
    &&& forall|m: nat| base <= m < next ==> taken(tokens, occupied, #[trigger] edit_token(prefix, m))
}

fn next_token_from(
    secrets: &SecretEditValues,
    occupied: &Vec<String>,
    next_token: &mut usize,
    prefix: &str,
    Ghost(base): Ghost<nat>,
) -> (token: String)
    requires
        counters_used(prefix@, secrets.tokens(), texts(occupied@), base, *old(next_token) as nat),
        base + secrets.entries@.len() + occupied@.len() < usize::MAX,
    ensures
        *final(next_token) >= 1,
        is_first_free(prefix@, secrets.tokens(), texts(occupied@), *old(next_token) as nat, (*final(next_token) - 1) as nat),
        token@ == edit_token(prefix@, (*final(next_token) - 1) as nat),
        counters_used(prefix@, secrets.tokens(), texts(occupied@), base, (*final(next_token) - 1) as nat),
        *final(next_token) - 1 - base <= secrets.entries@.len() + occupied@.len(),
{
    let ghost ks = secrets.tokens();
    let ghost os = texts(occupied@);
    let ghost start = *next_token as nat;
    proof {
        lemma_taken_range(prefix@, ks, os, base, start);
    }
    loop
        invariant
            ks == secrets.tokens(),
            os == texts(occupied@),
            base + ks.len() + os.len() < usize::MAX,
            start == *old(next_token) as nat,
            start <= *next_token,
            counters_used(prefix@, ks, os, base, *next_token as nat),
            forall|m: nat| start <= m < *next_token ==> taken(ks, os, #[trigger] edit_token(prefix@, m)),
            *next_token - base <= ks.len() + os.len(),
        decreases base + ks.len() + os.len() + 1 - *next_token,
    {
        let n = *next_token;
        let token = make_token(prefix, n);
        *next_token = n + 1;
        let in_secrets = match secrets.position(token.as_str()) {
            Some(_) => true,
            None => false,
        };
        if !in_secrets && !texts_contain(occupied, token.as_str()) {
            return token;
        }
        proof {
            lemma_taken_range(prefix@, ks, os, base, (n + 1) as nat);
        }
    }
}

/// The next unused edit token: the first counter from `next_token` on
/// whose token is neither a key of `secrets` nor an `occupied` text;
/// `next_token` moves past it.
pub fn next_secret_token(secrets: &SecretEditValues, occupied: &Vec<String>, next_token: &mut usize, prefix: &str) -> (token: String)
    requires
        *old(next_token) + secrets.entries@.len() + occupied@.len() < usize::MAX,
    ensures
        *final(next_token) >= 1,
        (*final(next_token) - 1) as nat == first_free(prefix@, secrets.tokens(), texts(occupied@), *old(next_token) as nat),
        token@ == edit_token(prefix@, (*final(next_token) - 1) as nat),
{
    let t = next_token_from(secrets, occupied, next_token, prefix, Ghost(*next_token as nat));
    proof {
        lemma_first_free_unique(prefix@, secrets.tokens(), texts(occupied@), *old(next_token) as nat, (*next_token - 1) as nat);
    }
    t
}

// ---------------------------------------------------------------------
// Redaction for editing.

fn copy_texts(v: &Vec<String>) -> (c: Vec<String>)
    ensures
        texts(c@) == texts(v@),
{
    let mut c: Vec<String> = Vec::new();
    let mut i: usize = 0;
    while i < v.len()
        invariant
            i <= v@.len(),
            c@.len() == i,
            texts(c@) == texts(v@).take(i as int),
        decreases v.len() - i,
    {
        let ghost prev = c@;
        c.push(v[i].clone());
        assert forall|k: int| 0 <= k < i + 1 implies #[trigger] texts(c@)[k] == texts(v@).take(i + 1)[k] by {
            if k < i {
                assert(c@[k] == prev[k]);
                assert(texts(prev)[k] == texts(v@).take(i as int)[k]);
            }
        }
        assert(texts(c@) =~= texts(v@).take(i + 1));
        i = i + 1;
    }
    assert(texts(v@).take(v@.len() as int) =~= texts(v@));
    c
}

fn copy_patterns(v: &Vec<SecretPropertyPattern>) -> (c: Vec<SecretPropertyPattern>)
    ensures
        sources(c@) == sources(v@),
{
    let mut c: Vec<SecretPropertyPattern> = Vec::new();
    let mut i: usize = 0;
    while i < v.len()
        invariant
            i <= v@.len(),
            c@.len() == i,
            sources(c@) == sources(v@).take(i as int),
        decreases v.len() - i,
    {
        let ghost prev = c@;
        c.push(SecretPropertyPattern { source: v[i].source.clone() });
        assert forall|k: int| 0 <= k < i + 1 implies #[trigger] sources(c@)[k] == sources(v@).take(i + 1)[k] by {
            if k < i {
                assert(c@[k] == prev[k]);
                assert(sources(prev)[k] == sources(v@).take(i as int)[k]);
            }
        }
        assert(sources(c@) =~= sources(v@).take(i + 1));
        i = i + 1;
    }
    assert(sources(v@).take(v@.len() as int) =~= sources(v@));
    c
}

fn copy_segment(s: &SecretSegment) -> (c: SecretSegment)
    ensures
        seg_view(c) == seg_view(*s),
{
    match s {
        SecretSegment::Property(p) => SecretSegment::Property(p.clone()),
        SecretSegment::Any => SecretSegment::Any,
        SecretSegment::Pattern(p) => SecretSegment::Pattern(SecretPropertyPattern { source: p.source.clone() }),
        SecretSegment::UnmatchedProperties(u) => SecretSegment::UnmatchedProperties(SecretUnmatchedProperties {
            properties: copy_texts(&u.properties),
            patterns: copy_patterns(&u.patterns),
        }),
        SecretSegment::Index(i) => SecretSegment::Index(*i),
        SecretSegment::Tail(i) => SecretSegment::Tail(*i),
    }
}

/// A copy of a secret location.
pub fn copy_pattern(p: &SecretPattern) -> (c: SecretPattern)
    ensures
        segs(c) == segs(*p),
{
    let mut v: Vec<SecretSegment> = Vec::new();
    let mut i: usize = 0;
    while i < p.0.len()
        invariant
            i <= p.0@.len(),
            v@.len() == i,
            seg_views(v@) == segs(*p).take(i as int),
        decreases p.0.len() - i,
    {
        let ghost prev = v@;
        v.push(copy_segment(&p.0[i]));
        assert forall|k: int| 0 <= k < i + 1 implies #[trigger] seg_views(v@)[k] == segs(*p).take(i + 1)[k] by {
            if k < i {
                assert(v@[k] == prev[k]);
                assert(seg_views(prev)[k] == segs(*p).take(i as int)[k]);
            }
        }
        assert(seg_views(v@) =~= segs(*p).take(i + 1));
        i = i + 1;
    }
    assert(segs(*p).take(p.0@.len() as int) =~= segs(*p));
    SecretPattern(v)
}

/// The edit values as values: tokens, hidden values and their secret
/// locations, in insertion order, and the token counter.
pub struct EditV {
    pub tokens: Seq<Seq<char>>,
    pub values: Seq<JsonV>,
    pub patterns: Seq<Seq<SegV>>,
    pub next: nat,
}

pub open spec fn edit_view(secrets: SecretEditValues, next: usize) -> EditV {
    EditV {
        tokens: secrets.tokens(),
        values: secrets.entries@.map_values(|e: (String, SecretEditValue)| e.1.value@),
        patterns: secrets.entries@.map_values(|e: (String, SecretEditValue)| segs(e.1.pattern)),
        next: next as nat,
    }
}

/// A value at a secret location, redacted for editing: `null` and a text
/// that already is an edit token stay; anything else is hidden behind the
/// next unused token and recorded with `p`.
pub open spec fn edit_leaf(p: Seq<SegV>, v: JsonV, st: EditV, occupied: Seq<Seq<char>>, prefix: Seq<char>) -> (JsonV, EditV) {
    if v is Null || (v matches JsonV::Str(t) && st.tokens.contains(t)) {
        (v, st)
    } else {
        let n = first_free(prefix, st.tokens, occupied, st.next);
        let t = edit_token(prefix, n);
        (JsonV::Str(t), EditV {
            tokens: st.tokens.push(t),
            values: st.values.push(v),
            patterns: st.patterns.push(p),
            next: n + 1,
        })
    }
}

/// `v` redacted for editing at the locations `p[off..]` selects, in
/// document order, with the edit values it leaves.
pub open spec fn edited_at(p: Seq<SegV>, off: int, v: JsonV, st: EditV, occupied: Seq<Seq<char>>, prefix: Seq<char>) -> (JsonV, EditV)
    decreases v, 0int,
{
    if off >= p.len() {
        edit_leaf(p, v, st, occupied, prefix)
    } else {
        match v {
            JsonV::Arr(items) => {
                let r = edited_items(p, off, items, items.len() as int, st, occupied, prefix);
                (JsonV::Arr(r.0), r.1)
            },
            JsonV::Obj(es) => {
                let r = edited_members(p, off, es, es.len() as int, st, occupied, prefix);
                (JsonV::Obj(r.0), r.1)
            },
            _ => (v, st),
        }
    }
}

pub open spec fn edited_items(
    p: Seq<SegV>,
    off: int,
    items: Seq<JsonV>,
    n: int,
    st: EditV,
    occupied: Seq<Seq<char>>,
    prefix: Seq<char>,
) -> (Seq<JsonV>, EditV)
    decreases items, n,
{
    if n <= 0 || n > items.len() {
        (Seq::empty(), st)
    } else {
        let before = edited_items(p, off, items, n - 1, st, occupied, prefix);
        if 0 <= off < p.len() && selects_index(p[off], n - 1) {
            let x = edited_at(p, off + 1, items[n - 1], before.1, occupied, prefix);
            (before.0.push(x.0), x.1)
        } else {
            (before.0.push(items[n - 1]), before.1)
        }
    }
}

pub open spec fn edited_members(
    p: Seq<SegV>,
    off: int,
    es: Seq<(Seq<char>, JsonV)>,
    n: int,
    st: EditV,
    occupied: Seq<Seq<char>>,
    prefix: Seq<char>,
) -> (Seq<(Seq<char>, JsonV)>, EditV)
    decreases es, n,
{
    if n <= 0 || n > es.len() {
        (Seq::empty(), st)
    } else {
        let before = edited_members(p, off, es, n - 1, st, occupied, prefix);
        if 0 <= off < p.len() && selects_key(p[off], es[n - 1].0) {
            let x = edited_at(p, off + 1, es[n - 1].1, before.1, occupied, prefix);
            (before.0.push((es[n - 1].0, x.0)), x.1)
        } else {
            (before.0.push(es[n - 1]), before.1)
        }
    }
}

/// The number of values in a document, itself included.
pub open spec fn node_count(v: JsonV) -> nat
    decreases v, 0int,
{
    match v {
        JsonV::Arr(items) => 1 + item_nodes(items, items.len() as int),
        JsonV::Obj(es) => 1 + member_nodes(es, es.len() as int),
        _ => 1,
    }
}

pub open spec fn item_nodes(items: Seq<JsonV>, n: int) -> nat
    decreases items, n,
{
    if n <= 0 || n > items.len() { 0 } else { item_nodes(items, n - 1) + node_count(items[n - 1]) }
}

pub open spec fn member_nodes(es: Seq<(Seq<char>, JsonV)>, n: int) -> nat
    decreases es, n,
{
    if n <= 0 || n > es.len() { 0 } else { member_nodes(es, n - 1) + node_count(es[n - 1].1) }
}

fn edited_copy(
    pattern: &SecretPattern,
    off: usize,
    value: &Json,
    secrets: &mut SecretEditValues,
    occupied: &Vec<String>,
    next_token: &mut usize,
    prefix: &str,
    Ghost(base): Ghost<nat>,
) -> (out: Json)
    requires
        off <= pattern.0@.len(),
        counters_used(prefix@, old(secrets).tokens(), texts(occupied@), base, *old(next_token) as nat),
        base + old(secrets).entries@.len() + occupied@.len() + node_count(value@) < usize::MAX,
    ensures
        ({
            let r = edited_at(segs(*pattern), off as int, value@, edit_view(*old(secrets), *old(next_token)), texts(occupied@), prefix@);
            out@ == r.0 && edit_view(*final(secrets), *final(next_token)) == r.1
        }),
        counters_used(prefix@, final(secrets).tokens(), texts(occupied@), base, *final(next_token) as nat),
        final(secrets).entries@.len() <= old(secrets).entries@.len() + node_count(value@),
    decreases value,
{
    let ghost p = segs(*pattern);
    let ghost os = texts(occupied@);
    let depth = pattern.0.len();
    if off == depth {
        let keep = match value {
            Json::Null => true,
            Json::String(t) => match secrets.position(t.as_str()) {
                Some(_) => true,
                None => false,
            },
            _ => false,
        };
        if keep {
            return crate::json::json_clone(value);
        }
        let ghost st = edit_view(*secrets, *next_token);
        let token = next_token_from(secrets, occupied, next_token, prefix, Ghost(base));
        proof {
            lemma_first_free_unique(prefix@, st.tokens, os, st.next, (*next_token - 1) as nat);
        }
        let entry = SecretEditValue { value: crate::json::json_clone(value), pattern: copy_pattern(pattern) };
        let ghost ts = token@;
        secrets.entries.push((token.clone(), entry));
        proof {
            let n = (*next_token - 1) as nat;
            let st2 = edit_view(*secrets, *next_token);
            assert(st2.tokens =~= st.tokens.push(ts));
            assert(st2.values =~= st.values.push(value@));
            assert(st2.patterns =~= st.patterns.push(p));
            assert forall|m: nat| base <= m < *next_token implies
                taken(secrets.tokens(), os, #[trigger] edit_token(prefix@, m)) by {
                if m < n {
                    assert(taken(st.tokens, os, edit_token(prefix@, m)));
                    if st.tokens.contains(edit_token(prefix@, m)) {
                        let k = choose|k: int| 0 <= k < st.tokens.len() && st.tokens[k] == edit_token(prefix@, m);
                        assert(secrets.tokens()[k] == st.tokens[k]);
                    }
                } else {
                    assert(secrets.tokens()[st.tokens.len() as int] == ts);
                }
            }
        }
        return Json::String(token);
    }
    let seg = &pattern.0[off];
    assert(p[off as int] == seg_view(*seg));
    match value {
        Json::Array(v) => {
    let mut out: Vec<Json> = Vec::new();
            proof { lemma_arr_view(*v, v@.len() as int); }
            let ghost items = arr_view(*v, v@.len() as int);
            let ghost st0 = edit_view(*secrets, *next_token);
            let ghost k0 = secrets.entries@.len();
            let mut i: usize = 0;
            while i < v.len()
                invariant
                    p == segs(*pattern),
                    os == texts(occupied@),
                    off < depth,
                    depth == pattern.0@.len(),
                    p[off as int] == seg_view(*seg),
                    i <= v@.len(),
                    out@.len() == i,
                    items == arr_view(*v, v@.len() as int),
                    items.len() == v@.len(),
                    forall|t: int| 0 <= t < v@.len() ==> #[trigger] items[t] == json_view(v@[t]),
                    value@ == JsonV::Arr(items),
                    st0 == edit_view(*old(secrets), *old(next_token)),
                    k0 == old(secrets).entries@.len(),
                    ({
                        let r = edited_items(p, off as int, items, i as int, st0, os, prefix@);
                        arr_view(out, i as int) == r.0 && edit_view(*secrets, *next_token) == r.1
                    }),
                    counters_used(prefix@, secrets.tokens(), os, base, *next_token as nat),
                    secrets.entries@.len() <= k0 + item_nodes(items, i as int),
                    item_nodes(items, v@.len() as int) < node_count(value@),
                    base + k0 + os.len() + node_count(value@) < usize::MAX,
                    forall|t: int| 0 <= t < v@.len() ==> decreases_to!(*value => v@[t]),
                decreases v.len() - i,
            {
                proof {
                    vstd::std_specs::vec::axiom_vec_index_decreases(*v, i as int);
                    lemma_item_nodes_prefix(items, i + 1, v@.len() as int);
                }
                let c = if segment_selects_index(seg, i) {
                    edited_copy(pattern, off + 1, &v[i], secrets, occupied, next_token, prefix, Ghost(base))
                } else {
                    crate::json::json_clone(&v[i])
                };
                let ghost before = out;
                out.push(c);
                proof {
                    lemma_arr_view(out, i + 1);
                    lemma_arr_view(before, i as int);
                    let r = edited_items(p, off as int, items, i + 1, st0, os, prefix@);
                    assert(arr_view(out, i + 1) =~= r.0) by {
                        assert forall|t: int| 0 <= t < i implies #[trigger] arr_view(out, i + 1)[t] == r.0[t] by {
                            assert(out@[t] == before@[t]);
                        }
                    }
                }
                i = i + 1;
            }
            Json::Array(out)
        },
        Json::Object(v) => {
    let mut out: Vec<(String, Json)> = Vec::new();
            proof { lemma_obj_view(*v, v@.len() as int); }
            let ghost es = obj_view(*v, v@.len() as int);
            let ghost st0 = edit_view(*secrets, *next_token);
            let ghost k0 = secrets.entries@.len();
            let mut i: usize = 0;
            while i < v.len()
                invariant
                    p == segs(*pattern),
                    os == texts(occupied@),
                    off < depth,
                    depth == pattern.0@.len(),
                    p[off as int] == seg_view(*seg),
                    i <= v@.len(),
                    out@.len() == i,
                    es == obj_view(*v, v@.len() as int),
                    es.len() == v@.len(),
                    forall|t: int| 0 <= t < v@.len() ==> #[trigger] es[t] == (v@[t].0@, json_view(v@[t].1)),
                    value@ == JsonV::Obj(es),
                    st0 == edit_view(*old(secrets), *old(next_token)),
                    k0 == old(secrets).entries@.len(),
                    ({
                        let r = edited_members(p, off as int, es, i as int, st0, os, prefix@);
                        obj_view(out, i as int) == r.0 && edit_view(*secrets, *next_token) == r.1
                    }),
                    counters_used(prefix@, secrets.tokens(), os, base, *next_token as nat),
                    secrets.entries@.len() <= k0 + member_nodes(es, i as int),
                    member_nodes(es, v@.len() as int) < node_count(value@),
                    base + k0 + os.len() + node_count(value@) < usize::MAX,
                    forall|t: int| 0 <= t < v@.len() ==> decreases_to!(*value => v@[t].1),
                decreases v.len() - i,
            {
                proof {
                    lemma_member_nodes_prefix(es, i + 1, v@.len() as int);
                }
                let c = if segment_selects_key(seg, v[i].0.as_str()) {
                    edited_copy(pattern, off + 1, &v[i].1, secrets, occupied, next_token, prefix, Ghost(base))
                } else {
                    crate::json::json_clone(&v[i].1)
                };
                let ghost before = out;
                out.push((v[i].0.clone(), c));
                proof {
                    lemma_obj_view(out, i + 1);
                    lemma_obj_view(before, i as int);
                    let r = edited_members(p, off as int, es, i + 1, st0, os, prefix@);
                    assert(obj_view(out, i + 1) =~= r.0) by {
                        assert forall|t: int| 0 <= t < i implies #[trigger] obj_view(out, i + 1)[t] == r.0[t] by {
                            assert(out@[t] == before@[t]);
                        }
                    }
                }
                i = i + 1;
            }
            Json::Object(out)
        },
        _ => crate::json::json_clone(value),
    }
}

proof fn lemma_item_nodes_prefix(items: Seq<JsonV>, i: int, n: int)
    requires
        0 <= i <= n <= items.len(),
    ensures
        item_nodes(items, i) <= item_nodes(items, n),
        i > 0 ==> item_nodes(items, i) == item_nodes(items, i - 1) + node_count(items[i - 1]),
    decreases n - i,
{
    if i < n {
        lemma_item_nodes_prefix(items, i, n - 1);
    }
}

proof fn lemma_member_nodes_prefix(es: Seq<(Seq<char>, JsonV)>, i: int, n: int)
    requires
        0 <= i <= n <= es.len(),
    ensures
        member_nodes(es, i) <= member_nodes(es, n),
        i > 0 ==> member_nodes(es, i) == member_nodes(es, i - 1) + node_count(es[i - 1].1),
    decreases n - i,
{
    if i < n {
        lemma_member_nodes_prefix(es, i, n - 1);
    }
}

impl SecretPattern {
    /// Redacts, for editing, every value of `value` at this secret location
    /// (read from segment `offset` on), in document order: each value that
    /// is neither `null` nor already an edit token is recorded in `secrets`
    /// with this location and replaced by the next unused token (see
    /// `next_secret_token`). Invalid values are tokenized too, so that an
    /// unchanged edit restores them as they were.
    pub fn redact_for_edit(
        &self,
        value: &mut Json,
        offset: usize,
        secrets: &mut SecretEditValues,
        occupied: &Vec<String>,
        next_token: &mut usize,
        prefix: &str,
    )
        requires
            offset <= self.0@.len(),
            *old(next_token) + old(secrets).entries@.len() + occupied@.len() + node_count(old(value)@) < usize::MAX,
        ensures
            ({
                let r = edited_at(segs(*self), offset as int, old(value)@,
                    edit_view(*old(secrets), *old(next_token)), texts(occupied@), prefix@);
                final(value)@ == r.0 && edit_view(*final(secrets), *final(next_token)) == r.1
            }),
    {
        let out = edited_copy(self, offset, value, secrets, occupied, next_token, prefix, Ghost(*next_token as nat));
        *value = out;
    }
}

// ---------------------------------------------------------------------
// Restoration of edit tokens.

/// The edit values as values: token, hidden value, secret location.
pub open spec fn entry_views(secrets: SecretEditValues) -> Seq<(Seq<char>, JsonV, Seq<SegV>)> {
    secrets.entries@.map_values(|e: (String, SecretEditValue)| (e.0@, e.1.value@, segs(e.1.pattern)))
}

/// The first entry for token `t`, if any.
pub open spec fn token_index(es: Seq<(Seq<char>, JsonV, Seq<SegV>)>, t: Seq<char>) -> Option<int> {
    if exists|k: int| 0 <= k < es.len() && es[k].0 == t {
        Some(choose|k: int| 0 <= k < es.len() && es[k].0 == t && forall|j: int| 0 <= j < k ==> es[j].0 != t)
    } else {
        None
    }
}

pub open spec fn misplaced_token_message(t: Seq<char>) -> Seq<char> {
    "token '"@ + t + "' may only appear at its original schema-declared secret location"@
}

pub open spec fn reused_token_message(t: Seq<char>) -> Seq<char> {
    "token '"@ + t + "' may only appear once"@
}

/// `v`, found at `path`, with each edit token put back to the value it
/// hides, in document order: a token may stand only at a location its
/// secret location admits, and only once (`used` holds the tokens already
/// put back).
pub open spec fn restored(
    v: JsonV,
    es: Seq<(Seq<char>, JsonV, Seq<SegV>)>,
    path: Seq<InstV>,
    used: Set<Seq<char>>,
) -> Result<(JsonV, Set<Seq<char>>), Seq<char>>
    decreases v, 0int,
{
    match v {
        JsonV::Str(t) => match token_index(es, t) {
            None => Ok((v, used)),
            Some(k) => if !matches_instance_spec(es[k].2, path) {
                Err(misplaced_token_message(t))
            } else if used.contains(t) {
                Err(reused_token_message(t))
            } else {
                Ok((es[k].1, used.insert(t)))
            },
        },
        JsonV::Arr(items) => match restored_items(items, items.len() as int, es, path, used) {
            Ok(r) => Ok((JsonV::Arr(r.0), r.1)),
            Err(e) => Err(e),
        },
        JsonV::Obj(members) => match restored_members(members, members.len() as int, es, path, used) {
            Ok(r) => Ok((JsonV::Obj(r.0), r.1)),
            Err(e) => Err(e),
        },
        _ => Ok((v, used)),
    }
}

pub open spec fn restored_items(
    items: Seq<JsonV>,
    n: int,
    es: Seq<(Seq<char>, JsonV, Seq<SegV>)>,
    path: Seq<InstV>,
    used: Set<Seq<char>>,
) -> Result<(Seq<JsonV>, Set<Seq<char>>), Seq<char>>
    decreases items, n,
{
    if n <= 0 || n > items.len() {
        Ok((Seq::empty(), used))
    } else {
        match restored_items(items, n - 1, es, path, used) {
            Err(e) => Err(e),
            Ok(before) => match restored(items[n - 1], es, path.push(InstV::Index((n - 1) as usize)), before.1) {
                Err(e) => Err(e),
                Ok(x) => Ok((before.0.push(x.0), x.1)),
            },
        }
    }
}

pub open spec fn restored_members(
    members: Seq<(Seq<char>, JsonV)>,
    n: int,
    es: Seq<(Seq<char>, JsonV, Seq<SegV>)>,
    path: Seq<InstV>,
    used: Set<Seq<char>>,
) -> Result<(Seq<(Seq<char>, JsonV)>, Set<Seq<char>>), Seq<char>>
    decreases members, n,
{
    if n <= 0 || n > members.len() {
        Ok((Seq::empty(), used))
    } else {
        match restored_members(members, n - 1, es, path, used) {
            Err(e) => Err(e),
            Ok(before) => match restored(members[n - 1].1, es, path.push(InstV::Property(members[n - 1].0)), before.1) {
                Err(e) => Err(e),
                Ok(x) => Ok((before.0.push((members[n - 1].0, x.0)), x.1)),
            },
        }
    }
}

proof fn lemma_restored_items_err(
    items: Seq<JsonV>,
    k: int,
    n: int,
    es: Seq<(Seq<char>, JsonV, Seq<SegV>)>,
    path: Seq<InstV>,
    used: Set<Seq<char>>,
)
    requires
        0 < k <= n <= items.len(),
        restored_items(items, k, es, path, used) is Err,
    ensures
        restored_items(items, n, es, path, used) == restored_items(items, k, es, path, used),
    decreases n - k,
{
    if n > k {
        lemma_restored_items_err(items, k, n - 1, es, path, used);
    }
}

proof fn lemma_restored_members_err(
    members: Seq<(Seq<char>, JsonV)>,
    k: int,
    n: int,
    es: Seq<(Seq<char>, JsonV, Seq<SegV>)>,
    path: Seq<InstV>,
    used: Set<Seq<char>>,
)
    requires
        0 < k <= n <= members.len(),
        restored_members(members, k, es, path, used) is Err,
    ensures
        restored_members(members, n, es, path, used) == restored_members(members, k, es, path, used),
    decreases n - k,
{
    if n > k {
        lemma_restored_members_err(members, k, n - 1, es, path, used);
    }
}

fn token_message(t: &str, tail: &str) -> (m: String)
    ensures
        m@ == "token '"@ + t@ + tail@,
{
    let mut m = String::new();
    m.append("token '");
    m.append(t);
    m.append(tail);
    assert(m@ =~= "token '"@ + t@ + tail@);
    m
}

#[verifier::rlimit(80)]
fn restore_text(
    t: &String,
    secrets: &SecretEditValues,
    path: &mut Vec<SecretInstanceSegment>,
    used: &mut Vec<String>,
) -> (r: Result<Json, String>)
    ensures
        match restored(JsonV::Str(t@), entry_views(*secrets), insts(old(path)@), texts(old(used)@).to_set()) {
            Ok(x) => r matches Ok(j) && j@ == x.0 && texts(final(used)@).to_set() == x.1
                && final(path)@ == old(path)@,
            Err(e) => r matches Err(m) && m@ == e,
        },
{
    let ghost es = entry_views(*secrets);
    let at = secrets.position(t.as_str());
    match at {
        None => {
            proof {
                if exists|k: int| 0 <= k < es.len() && es[k].0 == t@ {
                    let k = choose|k: int| 0 <= k < es.len() && es[k].0 == t@;
                    assert(secrets.tokens()[k] == es[k].0);
                }
            }
            Ok(Json::String(t.clone()))
        },
        Some(k) => {
            proof {
                assert(es[k as int].0 == secrets.tokens()[k as int]);
                assert forall|j: int| 0 <= j < k implies es[j].0 != t@ by {
                    assert(secrets.tokens()[j] == es[j].0);
                }
                assert(0 <= k < es.len() && es[k as int].0 == t@ && forall|j: int| 0 <= j < k ==> es[j].0 != t@);
                let c = token_index(es, t@)->0;
                assert(token_index(es, t@) is Some);
                if c < k {
                    assert(es[c].0 != t@);
                }
                if c > k {
                    assert(es[k as int].0 != t@);
                }
                assert(c == k);
            }
            let entry = &secrets.entries[k].1;
            if !entry.pattern.matches_instance_path(path) {
                return Err(token_message(t.as_str(), "' may only appear at its original schema-declared secret location"));
            }
            if texts_contain(used, t.as_str()) {
                return Err(token_message(t.as_str(), "' may only appear once"));
            }
            let ghost before = used@;
            used.push(t.clone());
            assert(texts(used@).to_set() =~= texts(before).to_set().insert(t@)) by {
                assert(texts(used@) =~= texts(before) + seq![t@]);
                Seq::lemma_to_set_insert_commutes(texts(before), t@);
            }
            Ok(crate::json::json_clone(&entry.value))
        },
    }

}

fn restore(
    value: &Json,
    secrets: &SecretEditValues,
    path: &mut Vec<SecretInstanceSegment>,
    used: &mut Vec<String>,
) -> (r: Result<Json, String>)
    ensures
        match restored(value@, entry_views(*secrets), insts(old(path)@), texts(old(used)@).to_set()) {
            Ok(x) => r matches Ok(j) && j@ == x.0 && texts(final(used)@).to_set() == x.1
                && final(path)@ == old(path)@,
            Err(e) => r matches Err(m) && m@ == e,
        },
    decreases value, 1int,
{
    let ghost es = entry_views(*secrets);
    match value {
        Json::String(t) => restore_text(t, secrets, path, used),
        Json::Array(_) => restore_array(value, secrets, path, used),
        Json::Object(_) => restore_object(value, secrets, path, used),
        _ => Ok(crate::json::json_clone(value)),
    }
}

fn restore_array(
    value: &Json,
    secrets: &SecretEditValues,
    path: &mut Vec<SecretInstanceSegment>,
    used: &mut Vec<String>,
) -> (r: Result<Json, String>)
    requires
        value is Array,
    ensures
        match restored(value@, entry_views(*secrets), insts(old(path)@), texts(old(used)@).to_set()) {
            Ok(x) => r matches Ok(j) && j@ == x.0 && texts(final(used)@).to_set() == x.1
                && final(path)@ == old(path)@,
            Err(e) => r matches Err(m) && m@ == e,
        },
    decreases value, 0int,
{
    let ghost es = entry_views(*secrets);
    let v = match value {
        Json::Array(v) => v,
        _ => return Ok(Json::Null),
    };
    let mut out: Vec<Json> = Vec::new();
    proof { lemma_arr_view(*v, v@.len() as int); }
    let ghost items = arr_view(*v, v@.len() as int);
    let ghost p0 = insts(path@);
    let ghost u0 = texts(used@).to_set();
    let mut i: usize = 0;
    while i < v.len()
        invariant
            es == entry_views(*secrets),
            i <= v@.len(),
            out@.len() == i,
            items == arr_view(*v, v@.len() as int),
            items.len() == v@.len(),
            forall|t: int| 0 <= t < v@.len() ==> #[trigger] items[t] == json_view(v@[t]),
            value@ == JsonV::Arr(items),
            path@ == old(path)@,
            p0 == insts(old(path)@),
            u0 == texts(old(used)@).to_set(),
            restored_items(items, i as int, es, p0, u0) matches Ok(x)
                && arr_view(out, i as int) == x.0 && texts(used@).to_set() == x.1,
            forall|t: int| 0 <= t < v@.len() ==> decreases_to!(*value => v@[t]),
        decreases v.len() - i,
    {
        proof { vstd::std_specs::vec::axiom_vec_index_decreases(*v, i as int); }
        let ghost before_path = path@;
        path.push(SecretInstanceSegment::Index(i));
        assert(insts(path@) =~= p0.push(InstV::Index(i)));
        let c = restore(&v[i], secrets, path, used);
        let c = match c {
            Err(e) => {
                proof {
                    assert(restored_items(items, i + 1, es, p0, u0) is Err);
                    lemma_restored_items_err(items, i + 1, v@.len() as int, es, p0, u0);
                }
                return Err(e);
            },
            Ok(c) => c,
        };
        path.pop();
        assert(path@ =~= before_path);
        let ghost before = out;
        out.push(c);
        proof {
            lemma_arr_view(out, i + 1);
            lemma_arr_view(before, i as int);
            let x = restored_items(items, i + 1, es, p0, u0)->Ok_0;
            assert(arr_view(out, i + 1) =~= x.0) by {
                assert forall|t: int| 0 <= t < i implies #[trigger] arr_view(out, i + 1)[t] == x.0[t] by {
                    assert(out@[t] == before@[t]);
                }
            }
        }
        i = i + 1;
    }
    Ok(Json::Array(out))
        
}

fn restore_object(
    value: &Json,
    secrets: &SecretEditValues,
    path: &mut Vec<SecretInstanceSegment>,
    used: &mut Vec<String>,
) -> (r: Result<Json, String>)
    requires
        value is Object,
    ensures
        match restored(value@, entry_views(*secrets), insts(old(path)@), texts(old(used)@).to_set()) {
            Ok(x) => r matches Ok(j) && j@ == x.0 && texts(final(used)@).to_set() == x.1
                && final(path)@ == old(path)@,
            Err(e) => r matches Err(m) && m@ == e,
        },
    decreases value, 0int,
{
    let ghost es = entry_views(*secrets);
    let v = match value {
        Json::Object(v) => v,
        _ => return Ok(Json::Null),
    };
    let mut out: Vec<(String, Json)> = Vec::new();
    proof { lemma_obj_view(*v, v@.len() as int); }
    let ghost members = obj_view(*v, v@.len() as int);
    let ghost p0 = insts(path@);
    let ghost u0 = texts(used@).to_set();
    let mut i: usize = 0;
    while i < v.len()
        invariant
            es == entry_views(*secrets),
            i <= v@.len(),
            out@.len() == i,
            members == obj_view(*v, v@.len() as int),
            members.len() == v@.len(),
            forall|t: int| 0 <= t < v@.len() ==> #[trigger] members[t] == (v@[t].0@, json_view(v@[t].1)),
            value@ == JsonV::Obj(members),
            path@ == old(path)@,
            p0 == insts(old(path)@),
            u0 == texts(old(used)@).to_set(),
            restored_members(members, i as int, es, p0, u0) matches Ok(x)
                && obj_view(out, i as int) == x.0 && texts(used@).to_set() == x.1,
            forall|t: int| 0 <= t < v@.len() ==> decreases_to!(*value => v@[t].1),
        decreases v.len() - i,
    {
        let ghost before_path = path@;
        path.push(SecretInstanceSegment::Property(v[i].0.clone()));
        assert(insts(path@) =~= p0.push(InstV::Property(v@[i as int].0@)));
        let c = restore(&v[i].1, secrets, path, used);
        let c = match c {
            Err(e) => {
                proof {
                    assert(restored_members(members, i + 1, es, p0, u0) is Err);
                    lemma_restored_members_err(members, i + 1, v@.len() as int, es, p0, u0);
                }
                return Err(e);
            },
            Ok(c) => c,
        };
        path.pop();
        assert(path@ =~= before_path);
        let ghost before = out;
        out.push((v[i].0.clone(), c));
        proof {
            lemma_obj_view(out, i + 1);
            lemma_obj_view(before, i as int);
            let x = restored_members(members, i + 1, es, p0, u0)->Ok_0;
            assert(obj_view(out, i + 1) =~= x.0) by {
                assert forall|t: int| 0 <= t < i implies #[trigger] obj_view(out, i + 1)[t] == x.0[t] by {
                    assert(out@[t] == before@[t]);
                }
            }
        }
        i = i + 1;
    }
    Ok(Json::Object(out))
        
}

/// `value` after an edit with each edit token put back to the value it
/// hides (see `restored`); an error names the first token, in document
/// order, found away from its secret location or found twice.
pub fn restore_secret_tokens(value: &Json, secrets: &SecretEditValues) -> (r: Result<Json, String>)
    ensures
        match restored(value@, entry_views(*secrets), Seq::empty(), Set::empty()) {
            Ok(x) => r matches Ok(j) && j@ == x.0,
            Err(e) => r matches Err(m) && m@ == e,
        },
{
    let mut path: Vec<SecretInstanceSegment> = Vec::new();
    let mut used: Vec<String> = Vec::new();
    assert(insts(path@) =~= Seq::<InstV>::empty());
    assert(texts(used@).to_set() =~= Set::<Seq<char>>::empty());
    restore(value, secrets, &mut path, &mut used)
}

} // verus!
