//! Tool-name wildcard patterns: `prefix*`, `*suffix`, `*contains*` and `*`.

use vstd::prelude::*;
use crate::text::{
    chars_eq, chars_lt, contains_char, contains_seq, count_char, count_char_exec, ends_with,
    has_infix, has_prefix, has_suffix, occurs_at, lemma_seq_lt_irreflexive, lemma_seq_lt_transitive, lemma_seq_lt_trichotomy,
    seq_lt, starts_with, to_chars,
};

verus! {

/// The shape of a supported wildcard pattern.
#[derive(Clone, Copy, Debug, PartialEq, Eq, Structural)]
pub enum WildcardKind {
    Prefix,
    Suffix,
    Contains,
}

/// A parsed wildcard pattern: its shape and its literal part.
pub struct WildcardPattern {
    pub kind: WildcardKind,
    pub literal: Vec<char>,
}

/// How a pattern text parses: `None` when it is not a supported wildcard.
pub open spec fn parse_spec(p: Seq<char>) -> Option<(WildcardKind, Seq<char>)> {
    if p == seq!['*'] {
        Some((WildcardKind::Contains, Seq::<char>::empty()))
    } else if p.len() >= 2 && p[0] == '*' && p.last() == '*' {
        let inner = p.subrange(1, p.len() - 1);
        if inner.len() > 0 && !inner.contains('*') {
            Some((WildcardKind::Contains, inner))
        } else {
            None
        }
    } else if p.len() >= 1 && p[0] == '*' {
        let suffix = p.subrange(1, p.len() as int);
        if suffix.len() > 0 && !suffix.contains('*') {
            Some((WildcardKind::Suffix, suffix))
        } else {
            None
        }
    } else if p.len() >= 1 && p.last() == '*' {
        let prefix = p.subrange(0, p.len() - 1);
        if prefix.len() > 0 && !prefix.contains('*') {
            Some((WildcardKind::Prefix, prefix))
        } else {
            None
        }
    } else {
        None
    }
}

/// Whether `pattern` matches the tool `name`: a supported wildcard by its
/// shape, any other text only when it has no `*` and equals the name.
pub open spec fn matches_spec(pattern: Seq<char>, name: Seq<char>) -> bool {
    match parse_spec(pattern) {
        Some((WildcardKind::Prefix, lit)) => has_prefix(name, lit),
        Some((WildcardKind::Suffix, lit)) => has_suffix(name, lit),
        Some((WildcardKind::Contains, lit)) => has_infix(name, lit),
        None => !pattern.contains('*') && pattern == name,
    }
}

/// Whether two patterns can both match one tool name, as decided by shape:
/// two prefixes when one extends the other, two suffixes likewise, and any
/// other pair of supported patterns.
pub open spec fn overlap_spec(left: Seq<char>, right: Seq<char>) -> bool {
    match (parse_spec(left), parse_spec(right)) {
        (Some((WildcardKind::Prefix, l)), Some((WildcardKind::Prefix, r))) =>
            has_prefix(l, r) || has_prefix(r, l),
        (Some((WildcardKind::Suffix, l)), Some((WildcardKind::Suffix, r))) =>
            has_suffix(l, r) || has_suffix(r, l),
        (Some(_), Some(_)) => true,
        _ => false,
    }
}

/// Specificity of a pattern: literal characters, then `*` count, then text.
pub struct WildcardRank(pub usize, pub usize, pub Vec<char>);

/// The rank of a pattern as plain values.
pub open spec fn rank_spec(p: Seq<char>) -> (int, int, Seq<char>) {
    (p.len() - count_char(p, '*'), count_char(p, '*') as int, p)
}

/// `a` is strictly more specific than `b`: more literal characters, else
/// fewer stars, else the lexicographically smaller text.
pub open spec fn rank_gt(a: (int, int, Seq<char>), b: (int, int, Seq<char>)) -> bool {
    a.0 > b.0 || (a.0 == b.0 && (a.1 < b.1 || (a.1 == b.1 && seq_lt(a.2, b.2))))
}

/// A pattern competes for a wildcard match: it holds a `*` and matches.
pub open spec fn competes(p: Seq<char>, name: Seq<char>) -> bool {
    p.contains('*') && matches_spec(p, name)
}

/// `i` is the winning pattern among `ps` for `name`: it competes, nothing
/// competing ranks above it, and no earlier pattern ranks the same.
pub open spec fn is_best(ps: Seq<Seq<char>>, name: Seq<char>, i: int) -> bool {
    &&& 0 <= i < ps.len()
    &&& competes(ps[i], name)
    &&& forall|j: int| 0 <= j < ps.len() && competes(ps[j], name) ==>
            !rank_gt(rank_spec(ps[j]), rank_spec(ps[i]))
    &&& forall|j: int| 0 <= j < i && competes(ps[j], name) ==>
            rank_spec(ps[j]) != rank_spec(ps[i])
}

/// The result of choosing among `ps`: the best index, or none competes.
pub open spec fn best_spec(ps: Seq<Seq<char>>, name: Seq<char>, r: Option<usize>) -> bool {
    match r {
        Some(i) => is_best(ps, name, i as int),
        None => forall|j: int| 0 <= j < ps.len() ==> !competes(ps[j], name),
    }
}

/// Ranks are totally ordered and the order is transitive.
pub proof fn lemma_rank_order(a: (int, int, Seq<char>), b: (int, int, Seq<char>), c: (int, int, Seq<char>))
    ensures
        !rank_gt(a, a),
        rank_gt(a, b) || rank_gt(b, a) || a == b,
        !(rank_gt(a, b) && rank_gt(b, a)),
        rank_gt(a, b) && rank_gt(b, c) ==> rank_gt(a, c),
{
    lemma_seq_lt_irreflexive(a.2);
    lemma_seq_lt_trichotomy(a.2, b.2);
    if rank_gt(a, b) && rank_gt(b, c) && a.0 == b.0 && b.0 == c.0 && a.1 == b.1 && b.1 == c.1 {
        lemma_seq_lt_transitive(a.2, b.2, c.2);
    }
}

/// Parses a supported wildcard pattern.
pub fn parse_wildcard_pattern(pattern: &[char]) -> (parsed: Option<WildcardPattern>)
    ensures
        match parsed {
            Some(p) => parse_spec(pattern@) == Some((p.kind, p.literal@)),
            None => parse_spec(pattern@) is None,
        },
{
    let n = pattern.len();
    if n == 1 && pattern[0] == '*' {
        assert(pattern@ =~= seq!['*']);
        return Some(WildcardPattern { kind: WildcardKind::Contains, literal: Vec::new() });
    }
    if n >= 1 && pattern[0] == '*' && !(n == 1) {
        assert(pattern@ != seq!['*']);
    }
    let starts = n >= 1 && pattern[0] == '*';
    let ends = n >= 1 && pattern[n - 1] == '*';
    if n >= 2 && starts && ends {
        let inner = slice_range(pattern, 1, n - 1);
        if inner.len() > 0 && !contains_char(inner.as_slice(), '*') {
            return Some(WildcardPattern { kind: WildcardKind::Contains, literal: inner });
        }
        return None;
    }
    if starts {
        let suffix = slice_range(pattern, 1, n);
        if suffix.len() > 0 && !contains_char(suffix.as_slice(), '*') {
            return Some(WildcardPattern { kind: WildcardKind::Suffix, literal: suffix });
        }
        return None;
    }
    if ends {
        let prefix = slice_range(pattern, 0, n - 1);
        if prefix.len() > 0 && !contains_char(prefix.as_slice(), '*') {
            return Some(WildcardPattern { kind: WildcardKind::Prefix, literal: prefix });
        }
        return None;
    }
    None
}

/// The characters of `s` from `from` up to `to`.
pub fn slice_range(s: &[char], from: usize, to: usize) -> (out: Vec<char>)
    requires
        from <= to <= s@.len(),
    ensures
        out@ == s@.subrange(from as int, to as int),
{
    let mut out: Vec<char> = Vec::new();
    let mut i = from;
    while i < to
        invariant
            from <= i <= to,
            to <= s@.len(),
            out@ == s@.subrange(from as int, i as int),
        decreases to - i,
    {
        out.push(s[i]);
        i = i + 1;
    }
    out
}

/// Whether a configured tool pattern is supported: an exact name without
/// `*`, or one of the wildcard shapes.
pub fn is_supported_tool_pattern(pattern: &str) -> (supported: bool)
    ensures
        supported == (!pattern@.contains('*') || parse_spec(pattern@) is Some),
{
    let chars = to_chars(pattern);
    !contains_char(chars.as_slice(), '*') || parse_wildcard_pattern(chars.as_slice()).is_some()
}

/// The specificity rank of a pattern.
pub fn wildcard_rank(pattern: &str) -> (rank: WildcardRank)
    ensures
        (rank.0 as int, rank.1 as int, rank.2@) == rank_spec(pattern@),
{
    let chars = to_chars(pattern);
    rank_of(chars)
}

pub fn rank_of(chars: Vec<char>) -> (rank: WildcardRank)
    ensures
        (rank.0 as int, rank.1 as int, rank.2@) == rank_spec(chars@),
{
    let stars = count_char_exec(chars.as_slice(), '*');
    proof {
        lemma_count_char_bound(chars@, '*');
    }
    WildcardRank(chars.len() - stars, stars, chars)
}

pub proof fn lemma_count_char_bound(s: Seq<char>, c: char)
    ensures
        count_char(s, c) <= s.len(),
    decreases s.len(),
{
    if s.len() > 0 {
        lemma_count_char_bound(s.drop_last(), c);
    }
}

/// Whether `left` is strictly more specific than `right`.
pub fn rank_greater(left: &WildcardRank, right: &WildcardRank) -> (greater: bool)
    ensures
        greater == rank_gt(
            (left.0 as int, left.1 as int, left.2@),
            (right.0 as int, right.1 as int, right.2@),
        ),
{
    left.0 > right.0 || (left.0 == right.0 && (left.1 < right.1 || (left.1 == right.1
        && chars_lt(left.2.as_slice(), right.2.as_slice()))))
}

/// Whether two supported wildcard patterns can match a common tool name.
pub fn wildcard_patterns_overlap(left: &str, right: &str) -> (overlap: bool)
    ensures
        overlap == overlap_spec(left@, right@),
{
    let l = to_chars(left);
    let r = to_chars(right);
    match (parse_wildcard_pattern(l.as_slice()), parse_wildcard_pattern(r.as_slice())) {
        (Some(lp), Some(rp)) => {
            match (lp.kind, rp.kind) {
                (WildcardKind::Prefix, WildcardKind::Prefix) => {
                    starts_with(lp.literal.as_slice(), rp.literal.as_slice())
                        || starts_with(rp.literal.as_slice(), lp.literal.as_slice())
                },
                (WildcardKind::Suffix, WildcardKind::Suffix) => {
                    ends_with(lp.literal.as_slice(), rp.literal.as_slice())
                        || ends_with(rp.literal.as_slice(), lp.literal.as_slice())
                },
                _ => true,
            }
        },
        _ => false,
    }
}

proof fn lemma_concat_parts(a: Seq<char>, b: Seq<char>)
    ensures
        has_prefix(a + b, a),
        has_suffix(a + b, b),
        has_infix(a + b, a),
        has_infix(a + b, b),
{
    assert((a + b).subrange(0, a.len() as int) =~= a);
    assert((a + b).subrange(a.len() as int, (a + b).len() as int) =~= b);
    assert(occurs_at(a + b, a, 0));
    assert(occurs_at(a + b, b, a.len() as int));
}

/// A name both supported patterns of different shapes (or two contains
/// patterns) match: the literals put side by side.
spec fn common_name(kl: WildcardKind, l: Seq<char>, kr: WildcardKind, r: Seq<char>) -> Seq<char> {
    if kl == WildcardKind::Prefix || kr == WildcardKind::Suffix { l + r } else { r + l }
}

/// Two patterns that each hold a `*` overlap (`wildcard_patterns_overlap`)
/// exactly when some tool name matches both (`wildcard_match`); so overlap
/// does not depend on the order of the two patterns.
pub proof fn lemma_overlap_is_common_match(left: Seq<char>, right: Seq<char>)
    requires
        left.contains('*'),
        right.contains('*'),
    ensures
        overlap_spec(left, right) <==> exists|name: Seq<char>| matches_spec(left, name) && matches_spec(right, name),
        overlap_spec(left, right) == overlap_spec(right, left),
{
    match (parse_spec(left), parse_spec(right)) {
        (Some((kl, l)), Some((kr, r))) => {
            if kl == WildcardKind::Prefix && kr == WildcardKind::Prefix {
                if has_prefix(l, r) {
                    assert(l.subrange(0, l.len() as int) =~= l);
                    assert(matches_spec(left, l) && matches_spec(right, l));
                } else if has_prefix(r, l) {
                    assert(r.subrange(0, r.len() as int) =~= r);
                    assert(matches_spec(left, r) && matches_spec(right, r));
                } else {
                    assert forall|name: Seq<char>| !(matches_spec(left, name) && matches_spec(right, name)) by {
                        if has_prefix(name, l) && has_prefix(name, r) {
                            if r.len() <= l.len() {
                                assert(l.subrange(0, r.len() as int) =~= name.subrange(0, r.len() as int));
                            } else {
                                assert(r.subrange(0, l.len() as int) =~= name.subrange(0, l.len() as int));
                            }
                        }
                    }
                }
            } else if kl == WildcardKind::Suffix && kr == WildcardKind::Suffix {
                if has_suffix(l, r) {
                    assert(l.subrange(0, l.len() as int) =~= l);
                    assert(matches_spec(left, l) && matches_spec(right, l));
                } else if has_suffix(r, l) {
                    assert(r.subrange(0, r.len() as int) =~= r);
                    assert(matches_spec(left, r) && matches_spec(right, r));
                } else {
                    assert forall|name: Seq<char>| !(matches_spec(left, name) && matches_spec(right, name)) by {
                        if has_suffix(name, l) && has_suffix(name, r) {
                            let n = name.len();
                            if r.len() <= l.len() {
                                assert(l.subrange(l.len() - r.len(), l.len() as int)
                                    =~= name.subrange(n - r.len(), n as int));
                            } else {
                                assert(r.subrange(r.len() - l.len(), r.len() as int)
                                    =~= name.subrange(n - l.len(), n as int));
                            }
                        }
                    }
                }
            } else {
                let name = common_name(kl, l, kr, r);
                lemma_concat_parts(l, r);
                lemma_concat_parts(r, l);
                assert(matches_spec(left, name) && matches_spec(right, name));
            }
        },
        _ => {
            assert forall|name: Seq<char>| !(matches_spec(left, name) && matches_spec(right, name)) by {}
        },
    }
}

/// The pattern forms `wildcard_match` accepts, for a literal `x` that is
/// non-empty and free of `*`: `*x*` matches names containing `x`, `*x`
/// names ending with it, `x*` names starting with it, and `x` itself only
/// the name `x`; `*` matches every name. Matching is by exact characters.
pub proof fn lemma_wildcard_forms(x: Seq<char>, name: Seq<char>)
    requires
        x.len() > 0,
        !x.contains('*'),
    ensures
        matches_spec(seq!['*'] + x + seq!['*'], name) == has_infix(name, x),
        matches_spec(seq!['*'] + x, name) == has_suffix(name, x),
        matches_spec(x + seq!['*'], name) == has_prefix(name, x),
        matches_spec(x, name) == (x == name),
        matches_spec(seq!['*'], name),
{
    let star = seq!['*'];
    let c = star + x + star;
    assert(c.subrange(1, c.len() - 1) =~= x);
    assert(c[0] == '*' && c.last() == '*');
    assert(c != star) by { assert(c.len() != star.len()); }
    let s = star + x;
    assert(s.subrange(1, s.len() as int) =~= x);
    assert(s.last() == x.last());
    assert(x.contains(x.last())) by { assert(x[x.len() - 1] == x.last()); }
    assert(s != star) by { assert(s.len() != star.len()); }
    let p = x + star;
    assert(p.subrange(0, p.len() - 1) =~= x);
    assert(p[0] == x[0]);
    assert(x.contains(x[0]));
    assert(x.len() >= 1 && x[0] != '*' && x.last() != '*');
    assert(x != star) by {
        if x == star {
            assert(x.contains(x[0]));
        }
    }
    assert(occurs_at(name, Seq::<char>::empty(), 0)) by {
        assert(name.subrange(0, 0) =~= Seq::<char>::empty());
    }
}

/// Whether `pattern` matches the tool `name`.
pub fn wildcard_match(pattern: &str, name: &str) -> (matched: bool)
    ensures
        matched == matches_spec(pattern@, name@),
{
    let p = to_chars(pattern);
    let n = to_chars(name);
    pattern_matches_chars(p.as_slice(), n.as_slice())
}

pub fn pattern_matches_chars(p: &[char], n: &[char]) -> (matched: bool)
    ensures
        matched == matches_spec(p@, n@),
{
    match parse_wildcard_pattern(p) {
        Some(parsed) => match parsed.kind {
            WildcardKind::Prefix => starts_with(n, parsed.literal.as_slice()),
            WildcardKind::Suffix => ends_with(n, parsed.literal.as_slice()),
            WildcardKind::Contains => contains_seq(n, parsed.literal.as_slice()),
        },
        None => !contains_char(p, '*') && chars_eq(p, n),
    }
}

/// The winning wildcard, against any other pattern that has a `*` and
/// matches the name: it has at least as many literal (non-`*`) characters;
/// with as many, no more `*`s; with as many of both, it is the same text or
/// the lexicographically smaller one; and a pattern of the same text that
/// comes earlier would have won instead. No pattern wins when none has a
/// `*` and matches.
pub proof fn lemma_best_is_most_specific(ps: Seq<Seq<char>>, name: Seq<char>, r: Option<usize>, j: int)
    requires
        best_spec(ps, name, r),
    ensures
        r is None ==> forall|k: int| 0 <= k < ps.len() ==> !(ps[k].contains('*') && matches_spec(ps[k], name)),
        r is Some && 0 <= j < ps.len() && ps[j].contains('*') && matches_spec(ps[j], name) ==> {
            let b = ps[r->0 as int];
            let lb = b.len() - count_char(b, '*');
            let lj = ps[j].len() - count_char(ps[j], '*');
            &&& b.contains('*') && matches_spec(b, name)
            &&& lb >= lj
            &&& lb == lj ==> count_char(b, '*') <= count_char(ps[j], '*')
            &&& lb == lj && count_char(b, '*') == count_char(ps[j], '*') ==> (b == ps[j] || seq_lt(b, ps[j]))
            &&& j < r->0 ==> b != ps[j]
        },
{
    if r is Some && 0 <= j < ps.len() && ps[j].contains('*') && matches_spec(ps[j], name) {
        let b = ps[r->0 as int];
        assert(competes(ps[j], name));
        lemma_seq_lt_trichotomy(b, ps[j]);
    }
    if r is None {
        assert forall|k: int| 0 <= k < ps.len() implies !(ps[k].contains('*') && matches_spec(ps[k], name)) by {
            assert(!competes(ps[k], name));
        }
    }
}

/// Chooses the most specific wildcard among `patterns` that matches `name`;
/// patterns without `*` never compete. Returns the winner's index.
pub fn best_wildcard_match(patterns: &Vec<Vec<char>>, name: &[char]) -> (best: Option<usize>)
    ensures
        best_spec(patterns@.map_values(|p: Vec<char>| p@), name@, best),
{
    let ghost ps = patterns@.map_values(|p: Vec<char>| p@);
    let mut best: Option<usize> = None;
    let mut best_rank: WildcardRank = WildcardRank(0, 0, Vec::new());
    let mut i: usize = 0;
    while i < patterns.len()
        invariant
            ps == patterns@.map_values(|p: Vec<char>| p@),
            i <= patterns@.len(),
            match best {
                Some(b) => {
                    &&& b < i
                    &&& (best_rank.0 as int, best_rank.1 as int, best_rank.2@) == rank_spec(ps[b as int])
                    &&& competes(ps[b as int], name@)
                    &&& forall|j: int| 0 <= j < i && competes(ps[j], name@) ==>
                            !rank_gt(rank_spec(ps[j]), rank_spec(ps[b as int]))
                    &&& forall|j: int| 0 <= j < b && competes(ps[j], name@) ==>
                            rank_spec(ps[j]) != rank_spec(ps[b as int])
                },
                None => forall|j: int| 0 <= j < i ==> !competes(ps[j], name@),
            },
        decreases patterns.len() - i,
    {
        let p = &patterns[i];
        assert(ps[i as int] == p@);
        if contains_char(p.as_slice(), '*') && pattern_matches_chars(p.as_slice(), name) {
            let rank = rank_of(p.clone());
            assert((rank.0 as int, rank.1 as int, rank.2@) == rank_spec(ps[i as int]));
            let take = match best {
                None => true,
                Some(_) => rank_greater(&rank, &best_rank),
            };
            if take {
                proof {
                    if let Some(b) = best {
                        assert forall|j: int| 0 <= j <= i && competes(ps[j], name@) implies
                            !rank_gt(rank_spec(ps[j]), rank_spec(ps[i as int])) by {
                            lemma_rank_order(rank_spec(ps[j]), rank_spec(ps[i as int]), rank_spec(ps[b as int]));
                        }
                        assert forall|j: int| 0 <= j < i && competes(ps[j], name@) implies
                            rank_spec(ps[j]) != rank_spec(ps[i as int]) by {
                            lemma_rank_order(rank_spec(ps[j]), rank_spec(ps[b as int]), rank_spec(ps[i as int]));
                        }
                    } else {
                        lemma_rank_order(rank_spec(ps[i as int]), rank_spec(ps[i as int]), rank_spec(ps[i as int]));
                    }
                }
                best = Some(i);
                best_rank = rank;
            } else {
                proof {
                    let b = best.unwrap();
                    lemma_rank_order(rank_spec(ps[i as int]), rank_spec(ps[b as int]), rank_spec(ps[i as int]));
                }
            }
        }
        i = i + 1;
    }
    best
}

} // verus!
