//! Managed Python environments of dynamic worker plugins: the checks on
//! a manifest's entrypoint declaration, the framing and budgets of the
//! environment tree digest, the attestation fields, and the order of the
//! provisioning steps.
//!
//! The filesystem walks, process runs and path resolution happen at the
//! caller, which hands the observations to the functions here.

use vstd::prelude::*;
use vstd::string::StringExecFns;
use crate::crypto::{hasher_input, hex_text, sha256_finalize, sha256_new, sha256_of, sha256_update, hex_string, Sha256Hasher};
use crate::bounded::MAX_BOUNDED_FILE_BYTES;
use crate::decimal::{decimal_text, push_decimal};
use crate::gateway_stop::last_dot;
use crate::text::{push_char, str_is, to_chars, trim, trim_spec};
use vstd::bytes::{spec_u64_to_le_bytes, u64_to_le_bytes};

verus! {

/// The `source` table of a plugin manifest.
pub struct PythonSource {
    pub manifest_root: Option<String>,
    pub artifact: Option<String>,
}

/// What Python worker provisioning reads of a plugin manifest.
pub struct PythonWorkerManifest {
    pub plugin_id: String,
    /// The manifest loads a worker whose runtime is Python.
    pub python_worker: bool,
    pub source: Option<PythonSource>,
    pub entrypoint: Option<String>,
    pub integrity_sha256: Option<String>,
}

/// A declared field: its trimmed text, when that is not empty.
pub open spec fn declared(o: Option<String>) -> Option<Seq<char>> {
    match o {
        Some(s) => if trim_spec(s@).len() > 0 { Some(trim_spec(s@)) } else { None },
        None => None,
    }
}

/// The index of the first `:` in `s`, if any.
pub open spec fn first_colon(s: Seq<char>) -> Option<int> {
    if exists|i: int| 0 <= i < s.len() && s[i] == ':' {
        Some(choose|i: int| 0 <= i < s.len() && s[i] == ':' && forall|j: int| 0 <= j < i ==> s[j] != ':')
    } else {
        None
    }
}

/// A dotted module path: not empty, no empty segment, and no `/`, `\`
/// or `:` in any segment.
pub open spec fn module_path_ok(m: Seq<char>) -> bool {
    &&& m.len() > 0
    &&& m[0] != '.'
    &&& m.last() != '.'
    &&& forall|i: int| 0 <= i < m.len() ==> m[i] != '/' && m[i] != '\\' && m[i] != ':'
    &&& forall|i: int| 0 <= i < m.len() - 1 ==> !(#[trigger] m[i] == '.' && m[i + 1] == '.')
}

/// The unambiguous `module:function` form: one colon, a function name
/// after it and a dotted module path before it.
pub open spec fn entrypoint_form_ok(e: Seq<char>) -> bool {
    match first_colon(e) {
        None => false,
        Some(i) => {
            let callable = e.subrange(i + 1, e.len() as int);
            &&& callable.len() > 0
            &&& forall|j: int| 0 <= j < callable.len() ==> callable[j] != ':'
            &&& module_path_ok(e.take(i))
        },
    }
}

/// `parts` joined with `separator`.
pub open spec fn joined_with(parts: Seq<Seq<char>>, separator: char) -> Seq<char>
    decreases parts.len(),
{
    if parts.len() == 0 {
        Seq::empty()
    } else if parts.len() == 1 {
        parts[0]
    } else {
        joined_with(parts.drop_last(), separator) + seq![separator] + parts.last()
    }
}

pub open spec fn source_missing_message() -> Seq<char> {
    "Python worker plugins must declare source.manifest_root and source.artifact"@
}

pub open spec fn manifest_root_missing_message() -> Seq<char> {
    "Python worker plugins added through the CLI must declare source.manifest_root"@
}

pub open spec fn artifact_missing_message() -> Seq<char> {
    "Python worker plugins must declare source.artifact"@
}

pub open spec fn entrypoint_missing_message() -> Seq<char> {
    "Python worker plugins must declare load.entrypoint"@
}

pub open spec fn entrypoint_form_message(e: Seq<char>) -> Seq<char> {
    "Python worker load.entrypoint '"@ + e + "' must use the unambiguous module:function form"@
}

/// The first failing check of a Python worker's declaration, in the order
/// the manifest is checked.
pub open spec fn declaration_error(m: PythonWorkerManifest) -> Option<Seq<char>> {
    if m.source is None {
        Some(source_missing_message())
    } else if declared(m.source->0.manifest_root) is None {
        Some(manifest_root_missing_message())
    } else if declared(m.source->0.artifact) is None {
        Some(artifact_missing_message())
    } else if declared(m.entrypoint) is None {
        Some(entrypoint_missing_message())
    } else if !entrypoint_form_ok(declared(m.entrypoint)->0) {
        Some(entrypoint_form_message(declared(m.entrypoint)->0))
    } else {
        None
    }
}

/// A well-formed entrypoint declaration, its fields trimmed.
pub struct EntrypointDeclaration {
    pub manifest_root: String,
    pub artifact: String,
    pub entrypoint: String,
    /// The segments of the module path, in order.
    pub module_segments: Vec<String>,
    pub callable: String,
}

fn declared_text(o: &Option<String>) -> (t: Option<String>)
    ensures
        match t {
            Some(s) => declared(*o) == Some(s@),
            None => declared(*o) is None,
        },
{
    match o {
        Some(s) => {
            let t = trim(s.as_str());
            if t.unicode_len() > 0 {
                Some(t.to_string())
            } else {
                None
            }
        },
        None => None,
    }
}

/// The index of the first `c` in `s`, if any.
fn find_char(s: &Vec<char>, c: char) -> (at: Option<usize>)
    ensures
        match at {
            Some(i) => i < s@.len() && s@[i as int] == c && forall|j: int| 0 <= j < i ==> s@[j] != c,
            None => forall|j: int| 0 <= j < s@.len() ==> s@[j] != c,
        },
{
    let mut i: usize = 0;
    while i < s.len()
        invariant
            i <= s@.len(),
            forall|j: int| 0 <= j < i ==> s@[j] != c,
        decreases s.len() - i,
    {
        if s[i] == c {
            return Some(i);
        }
        i = i + 1;
    }
    None
}

fn module_path_check(m: &Vec<char>, lo: usize, hi: usize) -> (ok: bool)
    requires
        lo <= hi <= m@.len(),
    ensures
        ok == module_path_ok(m@.subrange(lo as int, hi as int)),
{
    let ghost s = m@.subrange(lo as int, hi as int);
    if lo == hi || m[lo] == '.' || m[hi - 1] == '.' {
        return false;
    }
    let mut i: usize = lo;
    while i < hi
        invariant
            lo <= i <= hi <= m@.len(),
            s == m@.subrange(lo as int, hi as int),
            forall|j: int| 0 <= j < i - lo ==> s[j] != '/' && s[j] != '\\' && s[j] != ':',
            forall|j: int| 0 <= j < i - lo && j < s.len() - 1 ==> !(#[trigger] s[j] == '.' && s[j + 1] == '.'),
        decreases hi - i,
    {
        let c = m[i];
        if c == '/' || c == '\\' || c == ':' {
            assert(s[i - lo] == c);
            return false;
        }
        if c == '.' && i + 1 < hi && m[i + 1] == '.' {
            assert(s[i - lo] == '.' && s[i - lo + 1] == '.');
            return false;
        }
        i = i + 1;
    }
    true
}

/// The text of `cs[lo..hi]`.
fn text_of(cs: &Vec<char>, lo: usize, hi: usize) -> (s: String)
    requires
        lo <= hi <= cs@.len(),
    ensures
        s@ == cs@.subrange(lo as int, hi as int),
{
    let mut s = String::new();
    let mut i: usize = lo;
    while i < hi
        invariant
            lo <= i <= hi <= cs@.len(),
            s@ == cs@.subrange(lo as int, i as int),
        decreases hi - i,
    {
        push_char(&mut s, cs[i]);
        assert(s@ =~= cs@.subrange(lo as int, i + 1));
        i = i + 1;
    }
    s
}

/// The segments of the dotted text `cs[lo..hi]`.
fn dotted_segments(cs: &Vec<char>, lo: usize, hi: usize) -> (parts: Vec<String>)
    requires
        lo <= hi <= cs@.len(),
    ensures
        parts@.len() >= 1,
        joined_with(parts@.map_values(|p: String| p@), '.') == cs@.subrange(lo as int, hi as int),
        forall|k: int| 0 <= k < parts@.len() ==> !(#[trigger] parts@[k]@).contains('.'),
{
    let mut parts: Vec<String> = Vec::new();
    let mut start: usize = lo;
    let mut i: usize = lo;
    while i < hi
        invariant
            lo <= start <= i <= hi <= cs@.len(),
            forall|j: int| start <= j < i ==> cs@[j] != '.',
            parts@.len() == 0 ==> start == lo,
            parts@.len() > 0 ==> start > lo && cs@[start - 1] == '.'
                && joined_with(parts@.map_values(|p: String| p@), '.') == cs@.subrange(lo as int, start - 1),
            forall|k: int| 0 <= k < parts@.len() ==> !(#[trigger] parts@[k]@).contains('.'),
        decreases hi - i,
    {
        if cs[i] == '.' {
            let part = text_of(cs, start, i);
            let ghost before = parts@.map_values(|p: String| p@);
            let ghost prev = parts@;
            parts.push(part);
            proof {
                let after = parts@.map_values(|p: String| p@);
                assert(after.drop_last() =~= before);
                assert(after.last() == cs@.subrange(start as int, i as int));
                if before.len() == 0 {
                    assert(after.len() == 1);
                    assert(joined_with(after, '.') == after[0]);
                } else {
                    assert(joined_with(after, '.') == joined_with(before, '.') + seq!['.'] + after.last());
                    assert(cs@.subrange(lo as int, i as int) =~= cs@.subrange(lo as int, start - 1)
                        + seq!['.'] + cs@.subrange(start as int, i as int));
                }
                assert(!part@.contains('.')) by {
                    assert forall|j: int| 0 <= j < part@.len() implies part@[j] != '.' by {
                        assert(part@[j] == cs@[start + j]);
                    }
                }
                assert forall|k: int| 0 <= k < parts@.len() implies !(#[trigger] parts@[k]@).contains('.') by {
                    if k < prev.len() {
                        assert(parts@[k] == prev[k]);
                    }
                }
            }
            start = i + 1;
        }
        i = i + 1;
    }
    let part = text_of(cs, start, hi);
    let ghost before = parts@.map_values(|p: String| p@);
    let ghost prev = parts@;
    parts.push(part);
    proof {
        let after = parts@.map_values(|p: String| p@);
        assert(after.drop_last() =~= before);
        if before.len() == 0 {
            assert(joined_with(after, '.') == after[0]);
        } else {
            assert(cs@.subrange(lo as int, hi as int) =~= cs@.subrange(lo as int, start - 1)
                + seq!['.'] + cs@.subrange(start as int, hi as int));
        }
        assert(!part@.contains('.')) by {
            assert forall|j: int| 0 <= j < part@.len() implies part@[j] != '.' by {
                assert(part@[j] == cs@[start + j]);
            }
        }
        assert forall|k: int| 0 <= k < parts@.len() implies !(#[trigger] parts@[k]@).contains('.') by {
            if k < prev.len() {
                assert(parts@[k] == prev[k]);
            }
        }
    }
    parts
}

/// What a well-formed declaration holds of the manifest's fields.
pub open spec fn declaration_of(m: PythonWorkerManifest, d: EntrypointDeclaration) -> bool {
    let e = declared(m.entrypoint)->0;
    let i = first_colon(e)->0;
    &&& d.manifest_root@ == declared(m.source->0.manifest_root)->0
    &&& d.artifact@ == declared(m.source->0.artifact)->0
    &&& d.entrypoint@ == e
    &&& joined_with(d.module_segments@.map_values(|p: String| p@), '.') == e.take(i)
    &&& forall|k: int| 0 <= k < d.module_segments@.len() ==> !(#[trigger] d.module_segments@[k]@).contains('.')
    &&& d.callable@ == e.subrange(i + 1, e.len() as int)
}

fn literal(text: &str) -> (s: String)
    ensures
        s@ == text@,
{
    text.to_string()
}

fn entrypoint_form_error(e: &str) -> (s: String)
    ensures
        s@ == entrypoint_form_message(e@),
{
    let mut s = String::new();
    s.append("Python worker load.entrypoint '");
    s.append(e);
    s.append("' must use the unambiguous module:function form");
    assert(s@ =~= entrypoint_form_message(e@));
    s
}

/// The checks `validate_python_entrypoint_artifact` makes on the manifest
/// alone: for a Python worker, the declared manifest root, artifact and
/// entrypoint, the entrypoint in `module:function` form; for any other
/// plugin, nothing to check.
pub fn check_entrypoint_declaration(m: &PythonWorkerManifest) -> (r: Result<Option<EntrypointDeclaration>, String>)
    ensures
        !m.python_worker ==> r matches Ok(None),
        m.python_worker ==> match declaration_error(*m) {
            Some(msg) => r matches Err(e) && e@ == msg,
            None => r matches Ok(Some(d)) && declaration_of(*m, d),
        },
{
    if !m.python_worker {
        return Ok(None);
    }
    let source = match &m.source {
        None => return Err(literal("Python worker plugins must declare source.manifest_root and source.artifact")),
        Some(source) => source,
    };
    let manifest_root = match declared_text(&source.manifest_root) {
        None => return Err(literal("Python worker plugins added through the CLI must declare source.manifest_root")),
        Some(t) => t,
    };
    let artifact = match declared_text(&source.artifact) {
        None => return Err(literal("Python worker plugins must declare source.artifact")),
        Some(t) => t,
    };
    let entrypoint = match declared_text(&m.entrypoint) {
        None => return Err(literal("Python worker plugins must declare load.entrypoint")),
        Some(t) => t,
    };
    let cs = to_chars(entrypoint.as_str());
    let ghost e = entrypoint@;
    let colon = match find_char(&cs, ':') {
        None => {
            assert(first_colon(e) is None);
            return Err(entrypoint_form_error(entrypoint.as_str()));
        },
        Some(i) => i,
    };
    proof {
        let c = first_colon(e)->0;
        assert(e[colon as int] == ':');
        assert(first_colon(e) is Some);
        if c < colon {
            assert(e[c] == ':');
        }
        if c > colon {
            assert(e[colon as int] != ':');
        }
        assert(c == colon);
    }
    let n = cs.len();
    let mut callable_ok = colon + 1 < n;
    let mut j: usize = colon + 1;
    while j < n
        invariant
            n == cs@.len(),
            colon < n,
            colon + 1 <= j <= n,
            callable_ok == (colon + 1 < n && forall|k: int| colon + 1 <= k < j ==> cs@[k] != ':'),
        decreases n - j,
    {
        if cs[j] == ':' {
            callable_ok = false;
        }
        j = j + 1;
    }
    proof {
        let callable = e.subrange(colon + 1, e.len() as int);
        if callable_ok {
            assert forall|k: int| 0 <= k < callable.len() implies callable[k] != ':' by {
                assert(callable[k] == cs@[colon + 1 + k]);
            }
        } else if colon + 1 < n {
            let k = choose|k: int| colon + 1 <= k < n && cs@[k] == ':';
            assert(callable[k - colon - 1] == ':');
        }
        assert(e.take(colon as int) =~= cs@.subrange(0, colon as int));
    }
    if !callable_ok || !module_path_check(&cs, 0, colon) {
        return Err(entrypoint_form_error(entrypoint.as_str()));
    }
    let module_segments = dotted_segments(&cs, 0, colon);
    let callable = text_of(&cs, colon + 1, n);
    Ok(Some(EntrypointDeclaration { manifest_root, artifact, entrypoint, module_segments, callable }))
}

/// All of `c` is one path: at least one, and each equal to the first.
pub open spec fn single_path(c: Seq<Seq<char>>) -> bool {
    c.len() > 0 && forall|k: int| 0 <= k < c.len() ==> #[trigger] c[k] == c[0]
}

pub open spec fn ambiguous_module_message(e: Seq<char>, module_file: Seq<char>, package_file: Seq<char>) -> Seq<char> {
    "Python worker load.entrypoint '"@ + e
        + "' must resolve to exactly one source module under source.manifest_root; expected "@
        + module_file + " or "@ + package_file
}

pub open spec fn foreign_module_message(e: Seq<char>, resolved: Seq<char>, artifact: Seq<char>) -> Seq<char> {
    "Python worker load.entrypoint '"@ + e + "' resolves to "@ + resolved
        + ", but integrity-checked source.artifact resolves to "@ + artifact
        + "; the executed entrypoint module must be the integrity-checked artifact"@
}

/// The last check of `validate_python_entrypoint_artifact`: the resolved
/// module files that exist (`candidates`, as displayed) must name exactly
/// one file, and that file must be the integrity-checked artifact.
pub fn select_entrypoint_module(
    candidates: &Vec<String>,
    artifact: &str,
    entrypoint: &str,
    module_file: &str,
    package_file: &str,
) -> (r: Result<(), String>)
    ensures
        ({
            let c = candidates@.map_values(|p: String| p@);
            if !single_path(c) {
                r matches Err(m) && m@ == ambiguous_module_message(entrypoint@, module_file@, package_file@)
            } else if c[0] != artifact@ {
                r matches Err(m) && m@ == foreign_module_message(entrypoint@, c[0], artifact@)
            } else {
                r is Ok
            }
        }),
{
    let ghost c = candidates@.map_values(|p: String| p@);
    let mut single = candidates.len() > 0;
    let mut k: usize = 1;
    while k < candidates.len()
        invariant
            c == candidates@.map_values(|p: String| p@),
            1 <= k,
            single == (candidates@.len() > 0 && forall|j: int| 0 <= j < k && j < c.len() ==> #[trigger] c[j] == c[0]),
        decreases candidates.len() - k,
    {
        assert(c[k as int] == candidates@[k as int]@ && c[0] == candidates@[0]@);
        if !crate::text::str_is(candidates[k].as_str(), candidates[0].as_str()) {
            single = false;
        }
        k = k + 1;
    }
    if !single {
        proof {
            if c.len() > 0 {
                assert(!single_path(c));
            }
        }
        let mut m = String::new();
        m.append("Python worker load.entrypoint '");
        m.append(entrypoint);
        m.append("' must resolve to exactly one source module under source.manifest_root; expected ");
        m.append(module_file);
        m.append(" or ");
        m.append(package_file);
        assert(m@ =~= ambiguous_module_message(entrypoint@, module_file@, package_file@));
        return Err(m);
    }
    assert(single_path(c));
    if !crate::text::str_is(candidates[0].as_str(), artifact) {
        let mut m = String::new();
        m.append("Python worker load.entrypoint '");
        m.append(entrypoint);
        m.append("' resolves to ");
        m.append(candidates[0].as_str());
        m.append(", but integrity-checked source.artifact resolves to ");
        m.append(artifact);
        m.append("; the executed entrypoint module must be the integrity-checked artifact");
        assert(m@ =~= foreign_module_message(entrypoint@, c[0], artifact@));
        return Err(m);
    }
    Ok(())
}

/// The deepest directory nesting the environment digest walks.
pub const MAX_ENVIRONMENT_DEPTH: usize = 128;

/// The bytes one entry adds to the environment digest: its type byte, the
/// little-endian length of its relative path, the path, the little-endian
/// length of its contents, and the contents.
pub open spec fn tree_record(kind: u8, path: Seq<u8>, payload: Seq<u8>) -> Seq<u8> {
    seq![kind] + spec_u64_to_le_bytes(path.len() as u64) + path
        + spec_u64_to_le_bytes(payload.len() as u64) + payload
}

/// What an environment digest has absorbed and counted.
pub struct DigestV {
    pub input: Seq<u8>,
    pub total: nat,
    pub entries: nat,
    pub max_entries: nat,
    pub ancestors: Seq<Seq<u8>>,
}

/// The running digest of a managed environment tree, with the budgets that
/// bound the walk and the canonical directories being walked.
pub struct EnvironmentDigest {
    hasher: Sha256Hasher,
    total: u64,
    entries: usize,
    max_entries: usize,
    ancestors: Vec<Vec<u8>>,
}

impl View for EnvironmentDigest {
    type V = DigestV;

    closed spec fn view(&self) -> DigestV {
        DigestV {
            input: hasher_input(self.hasher),
            total: self.total as nat,
            entries: self.entries as nat,
            max_entries: self.max_entries as nat,
            ancestors: self.ancestors@.map_values(|a: Vec<u8>| a@),
        }
    }
}

pub open spec fn depth_message(display: Seq<char>) -> Seq<char> {
    "managed Python environment exceeds the 128-directory traversal depth at "@ + display
}

pub open spec fn cycle_message(display: Seq<char>) -> Seq<char> {
    "managed Python environment contains a directory symlink cycle at "@ + display
}

pub open spec fn entry_budget_message(max_entries: nat, display: Seq<char>) -> Seq<char> {
    "managed Python environment exceeds the "@ + decimal_text(max_entries) + "-entry attestation budget at "@ + display
}

pub open spec fn byte_budget_message() -> Seq<char> {
    "managed Python environment exceeds the 536870912-byte attestation budget"@
}

pub(crate) fn bytes_eq(a: &Vec<u8>, b: &Vec<u8>) -> (same: bool)
    ensures
        same == (a@ == b@),
{
    if a.len() != b.len() {
        return false;
    }
    let mut i: usize = 0;
    while i < a.len()
        invariant
            a@.len() == b@.len(),
            i <= a@.len(),
            forall|j: int| 0 <= j < i ==> a@[j] == b@[j],
        decreases a.len() - i,
    {
        if a[i] != b[i] {
            return false;
        }
        i = i + 1;
    }
    assert(a@ =~= b@);
    true
}

impl EnvironmentDigest {
    /// A digest that has absorbed nothing, allowing `max_entries` entries.
    pub fn new(max_entries: usize) -> (d: Self)
        ensures
            d@ == (DigestV {
                input: Seq::empty(),
                total: 0,
                entries: 0,
                max_entries: max_entries as nat,
                ancestors: Seq::empty(),
            }),
    {
        let d = EnvironmentDigest { hasher: sha256_new(), total: 0, entries: 0, max_entries, ancestors: Vec::new() };
        assert(d@.ancestors =~= Seq::<Seq<u8>>::empty());
        d
    }

    /// Whether a directory may still be entered at the current depth: refused
    /// at the depth limit, before its path is resolved.
    pub fn check_depth(&self, display: &str) -> (r: Result<(), String>)
        ensures
            self@.ancestors.len() >= MAX_ENVIRONMENT_DEPTH ==> (r matches Err(m) && m@ == depth_message(display@)),
            self@.ancestors.len() < MAX_ENVIRONMENT_DEPTH ==> r is Ok,
    {
        if self.ancestors.len() >= MAX_ENVIRONMENT_DEPTH {
            let mut m = String::new();
            m.append("managed Python environment exceeds the 128-directory traversal depth at ");
            m.append(display);
            assert(m@ =~= depth_message(display@));
            return Err(m);
        }
        Ok(())
    }

    /// Starts the walk of a directory whose canonical path is `canonical`:
    /// refused beyond the depth limit or when the directory is already
    /// being walked (a symlink cycle).
    pub fn enter_directory(&mut self, canonical: Vec<u8>, display: &str) -> (r: Result<(), String>)
        ensures
            old(self)@.ancestors.len() >= MAX_ENVIRONMENT_DEPTH ==> (r matches Err(m) && m@ == depth_message(display@)
                && final(self)@ == old(self)@),
            old(self)@.ancestors.len() < MAX_ENVIRONMENT_DEPTH && old(self)@.ancestors.contains(canonical@) ==>
                (r matches Err(m) && m@ == cycle_message(display@) && final(self)@ == old(self)@),
            old(self)@.ancestors.len() < MAX_ENVIRONMENT_DEPTH && !old(self)@.ancestors.contains(canonical@) ==>
                r is Ok && final(self)@ == (DigestV { ancestors: old(self)@.ancestors.push(canonical@), ..old(self)@ }),
    {
        let ghost a = self.ancestors@.map_values(|v: Vec<u8>| v@);
        assert(a.len() == self.ancestors@.len());
        if self.ancestors.len() >= MAX_ENVIRONMENT_DEPTH {
            let mut m = String::new();
            m.append("managed Python environment exceeds the 128-directory traversal depth at ");
            m.append(display);
            assert(m@ =~= depth_message(display@));
            return Err(m);
        }
        let mut i: usize = 0;
        while i < self.ancestors.len()
            invariant
                a == self.ancestors@.map_values(|v: Vec<u8>| v@),
                a.len() == self.ancestors@.len(),
                self.ancestors@.len() < MAX_ENVIRONMENT_DEPTH,
                *self == *old(self),
                i <= self.ancestors@.len(),
                forall|j: int| 0 <= j < i ==> a[j] != canonical@,
            decreases self.ancestors.len() - i,
        {
            if bytes_eq(&self.ancestors[i], &canonical) {
                assert(a[i as int] == canonical@);
                let mut m = String::new();
                m.append("managed Python environment contains a directory symlink cycle at ");
                m.append(display);
                assert(m@ =~= cycle_message(display@));
                return Err(m);
            }
            i = i + 1;
        }
        let ghost bytes = canonical@;
        self.ancestors.push(canonical);
        assert(self@.ancestors =~= a.push(bytes));
        Ok(())
    }

    /// Ends the walk of the innermost directory.
    pub fn leave_directory(&mut self)
        ensures
            final(self)@ == (DigestV {
                ancestors: if old(self)@.ancestors.len() > 0 { old(self)@.ancestors.drop_last() } else { old(self)@.ancestors },
                ..old(self)@
            }),
    {
        let ghost a = self.ancestors@.map_values(|v: Vec<u8>| v@);
        if self.ancestors.len() > 0 {
            self.ancestors.pop();
            assert(self@.ancestors =~= a.drop_last());
        }
    }

    /// Counts one more directory entry (saturating); past the budget the
    /// walk is refused.
    pub fn count_entry(&mut self, display: &str) -> (r: Result<(), String>)
        ensures
            final(self)@ == (DigestV {
                entries: if old(self)@.entries < usize::MAX { old(self)@.entries + 1 } else { old(self)@.entries },
                ..old(self)@
            }),
            final(self)@.entries > old(self)@.max_entries ==> (r matches Err(m)
                && m@ == entry_budget_message(old(self)@.max_entries, display@)),
            final(self)@.entries <= old(self)@.max_entries ==> r is Ok,
    {
        self.entries = self.entries.saturating_add(1);
        if self.entries > self.max_entries {
            let mut m = String::new();
            m.append("managed Python environment exceeds the ");
            push_decimal(&mut m, self.max_entries as u64);
            m.append("-entry attestation budget at ");
            m.append(display);
            assert(m@ =~= entry_budget_message(self.max_entries as nat, display@));
            return Err(m);
        }
        Ok(())
    }

    fn absorb(&mut self, kind: u8, path: &[u8], payload: &[u8])
        ensures
            final(self)@ == (DigestV { input: old(self)@.input + tree_record(kind, path@, payload@), ..old(self)@ }),
    {
        let k = [kind];
        sha256_update(&mut self.hasher, &k);
        let path_len = u64_to_le_bytes(path.len() as u64);
        sha256_update(&mut self.hasher, path_len.as_slice());
        sha256_update(&mut self.hasher, path);
        let payload_len = u64_to_le_bytes(payload.len() as u64);
        sha256_update(&mut self.hasher, payload_len.as_slice());
        sha256_update(&mut self.hasher, payload);
        assert(k@ =~= seq![kind]);
        assert(self@.input =~= old(self)@.input + tree_record(kind, path@, payload@));
    }

    /// Absorbs a directory entry at `relative`.
    pub fn record_directory(&mut self, relative: &[u8])
        ensures
            final(self)@ == (DigestV { input: old(self)@.input + tree_record(100u8, relative@, Seq::empty()), ..old(self)@ }),
    {
        let empty: [u8; 0] = [];
        assert(empty@ =~= Seq::<u8>::empty());
        self.absorb(100u8, relative, &empty);
    }

    /// Absorbs a regular file at `relative` with its contents, unless the
    /// file bytes read in all (saturating) pass the byte budget.
    pub fn record_file(&mut self, relative: &[u8], contents: &[u8]) -> (r: Result<(), String>)
        ensures
            ({
                let total = if old(self)@.total + contents@.len() <= u64::MAX {
                    old(self)@.total + contents@.len()
                } else {
                    u64::MAX as nat
                };
                if total > MAX_BOUNDED_FILE_BYTES {
                    r matches Err(m) && m@ == byte_budget_message()
                        && final(self)@ == (DigestV { total, ..old(self)@ })
                } else {
                    r is Ok && final(self)@ == (DigestV {
                        total,
                        input: old(self)@.input + tree_record(102u8, relative@, contents@),
                        ..old(self)@
                    })
                }
            }),
    {
        self.total = self.total.saturating_add(contents.len() as u64);
        if self.total > MAX_BOUNDED_FILE_BYTES {
            return Err("managed Python environment exceeds the 536870912-byte attestation budget".to_string());
        }
        self.absorb(102u8, relative, contents);
        Ok(())
    }

    /// The lowercase hex digest of everything absorbed.
    pub fn finish(self) -> (hex: String)
        ensures
            hex@ == hex_text(sha256_of(self@.input)),
    {
        let digest = sha256_finalize(self.hasher);
        hex_string(digest.as_slice())
    }
}

/// Byte-wise lexicographic order: `a` sorts no later than `b`.
pub open spec fn bytes_le(a: Seq<u8>, b: Seq<u8>) -> bool
    decreases a.len(),
{
    if a.len() == 0 {
        true
    } else if b.len() == 0 {
        false
    } else if a[0] != b[0] {
        a[0] < b[0]
    } else {
        bytes_le(a.drop_first(), b.drop_first())
    }
}

pub(crate) proof fn lemma_bytes_le_total(a: Seq<u8>, b: Seq<u8>)
    ensures
        bytes_le(a, b) || bytes_le(b, a),
    decreases a.len(),
{
    if a.len() > 0 && b.len() > 0 && a[0] == b[0] {
        lemma_bytes_le_total(a.drop_first(), b.drop_first());
    }
}

pub(crate) proof fn lemma_bytes_le_transitive(a: Seq<u8>, b: Seq<u8>, c: Seq<u8>)
    requires
        bytes_le(a, b),
        bytes_le(b, c),
    ensures
        bytes_le(a, c),
    decreases a.len(),
{
    if a.len() > 0 && b.len() > 0 && c.len() > 0 && a[0] == b[0] && b[0] == c[0] {
        lemma_bytes_le_transitive(a.drop_first(), b.drop_first(), c.drop_first());
    }
}

pub(crate) fn bytes_le_exec(a: &Vec<u8>, b: &Vec<u8>) -> (le: bool)
    ensures
        le == bytes_le(a@, b@),
{
    let mut i: usize = 0;
    assert(a@.skip(0) =~= a@ && b@.skip(0) =~= b@);
    while i < a.len() && i < b.len() && a[i] == b[i]
        invariant
            i <= a@.len(),
            i <= b@.len(),
            bytes_le(a@, b@) == bytes_le(a@.skip(i as int), b@.skip(i as int)),
        decreases a.len() - i,
    {
        assert(a@.skip(i as int).drop_first() =~= a@.skip(i + 1));
        assert(b@.skip(i as int).drop_first() =~= b@.skip(i + 1));
        i = i + 1;
    }
    if i == a.len() {
        assert(a@.skip(i as int).len() == 0);
        true
    } else if i == b.len() {
        false
    } else {
        assert(a@.skip(i as int)[0] == a@[i as int] && b@.skip(i as int)[0] == b@[i as int]);
        a[i] < b[i]
    }
}

/// `order` lists each index of `names` once, in byte-wise name order.
pub open spec fn sorts_names(order: Seq<usize>, names: Seq<Seq<u8>>) -> bool {
    &&& order.len() == names.len()
    &&& forall|i: int| 0 <= i < order.len() ==> (#[trigger] order[i]) < names.len()
    &&& forall|i: int, j: int| 0 <= i < j < order.len() ==> order[i] != order[j]
    &&& forall|i: int, j: int| 0 <= i < j < order.len() ==> bytes_le(names[order[i] as int], names[order[j] as int])
}

/// The order in which the entries of a directory are digested: by file
/// name, byte-wise (`names` are the entries' file names).
pub fn name_order(names: &Vec<Vec<u8>>) -> (order: Vec<usize>)
    ensures
        sorts_names(order@, names@.map_values(|n: Vec<u8>| n@)),
{
    let ghost ns = names@.map_values(|n: Vec<u8>| n@);
    let mut order: Vec<usize> = Vec::new();
    let mut k: usize = 0;
    while k < names.len()
        invariant
            ns == names@.map_values(|n: Vec<u8>| n@),
            ns.len() == names@.len(),
            k <= names@.len(),
            order@.len() == k,
            forall|i: int| 0 <= i < order@.len() ==> (#[trigger] order@[i]) < k,
            forall|i: int, j: int| 0 <= i < j < order@.len() ==> order@[i] != order@[j],
            forall|i: int, j: int| 0 <= i < j < order@.len() ==> bytes_le(ns[order@[i] as int], ns[order@[j] as int]),
        decreases names.len() - k,
    {
        let mut p: usize = 0;
        while p < order.len() && bytes_le_exec(&names[order[p]], &names[k])
            invariant
                ns == names@.map_values(|n: Vec<u8>| n@),
                ns.len() == names@.len(),
                k < names@.len(),
                order@.len() == k,
                p <= order@.len(),
                forall|i: int| 0 <= i < order@.len() ==> (#[trigger] order@[i]) < k,
                forall|i: int| 0 <= i < p ==> bytes_le(ns[order@[i] as int], ns[k as int]),
            decreases order.len() - p,
        {
            assert(ns[order@[p as int] as int] == names@[order@[p as int] as int]@);
            p = p + 1;
        }
        let ghost before = order@;
        proof {
            assert(ns[k as int] == names@[k as int]@);
            if p < order@.len() {
                assert(ns[order@[p as int] as int] == names@[order@[p as int] as int]@);
                assert(!bytes_le(ns[order@[p as int] as int], ns[k as int]));
                lemma_bytes_le_total(ns[order@[p as int] as int], ns[k as int]);
            }
        }
        order.insert(p, k);
        proof {
            assert(order@ == before.insert(p as int, k));
            assert forall|i: int| 0 <= i < order@.len() implies (#[trigger] order@[i]) < k + 1 by {
                if i < p {
                    assert(order@[i] == before[i]);
                } else if i > p {
                    assert(order@[i] == before[i - 1]);
                }
            }
            assert forall|i: int, j: int| 0 <= i < j < order@.len() implies order@[i] != order@[j] by {
                if i < p && j < p {
                    assert(order@[i] == before[i] && order@[j] == before[j]);
                } else if i < p && j == p {
                    assert(order@[i] == before[i]);
                } else if i < p {
                    assert(order@[i] == before[i] && order@[j] == before[j - 1]);
                } else if i == p {
                    assert(order@[j] == before[j - 1]);
                } else {
                    assert(order@[i] == before[i - 1] && order@[j] == before[j - 1]);
                }
            }
            assert forall|i: int, j: int| 0 <= i < j < order@.len() implies
                bytes_le(ns[order@[i] as int], ns[order@[j] as int]) by {
                if i < p && j < p {
                    assert(order@[i] == before[i] && order@[j] == before[j]);
                } else if i < p && j == p {
                    assert(order@[i] == before[i]);
                } else if i < p {
                    assert(order@[i] == before[i] && order@[j] == before[j - 1]);
                    assert(bytes_le(ns[before[i] as int], ns[k as int]));
                    lemma_bytes_le_transitive(ns[before[i] as int], ns[k as int], ns[before[p as int] as int]);
                    if j - 1 > p {
                        lemma_bytes_le_transitive(ns[before[i] as int], ns[before[p as int] as int], ns[before[j - 1] as int]);
                    }
                } else if i == p {
                    assert(order@[j] == before[j - 1]);
                    if j - 1 > p {
                        lemma_bytes_le_transitive(ns[k as int], ns[before[p as int] as int], ns[before[j - 1] as int]);
                    }
                } else {
                    assert(order@[i] == before[i - 1] && order@[j] == before[j - 1]);
                }
            }
        }
        k = k + 1;
    }
    order
}

/// `Path::extension` of a file name: what follows its last dot, unless
/// there is none or the only dot leads the name.
pub open spec fn extension_of(name: Seq<char>) -> Option<Seq<char>> {
    match last_dot(name) {
        Some(i) => if i == 0 { None } else { Some(name.subrange(i + 1, name.len() as int)) },
        None => None,
    }
}

/// The environment entries the digest skips: the attestation file at the
/// top of the environment, `__pycache__` directories and compiled `.pyc`
/// files. `name` is the entry's file name when it is valid Unicode.
pub open spec fn entry_ignored(top_level: bool, name: Option<Seq<char>>) -> bool {
    match name {
        None => false,
        Some(n) => (top_level && n == ".nemo-relay-environment.sha256"@) || n == "__pycache__"@
            || extension_of(n) == Some("pyc"@),
    }
}

/// Whether the digest skips an entry (see `entry_ignored`).
/// The digest skips `__pycache__` at any depth, the attestation file only
/// at the top of the environment, and every compiled `name.pyc` file (with
/// a non-empty name before the dot); an entry whose name is not Unicode is
/// never skipped.
pub proof fn lemma_ignored_entries(top_level: bool, stem: Seq<char>)
    ensures
        entry_ignored(top_level, Some("__pycache__"@)),
        entry_ignored(true, Some(".nemo-relay-environment.sha256"@)),
        !entry_ignored(false, Some(".nemo-relay-environment.sha256"@)),
        !entry_ignored(top_level, None),
        stem.len() > 0 ==> entry_ignored(top_level, Some(stem + ".pyc"@)),
{
    reveal_strlit(".pyc");
    reveal_strlit("pyc");
    reveal_strlit("__pycache__");
    reveal_strlit(".nemo-relay-environment.sha256");
    let a = ".nemo-relay-environment.sha256"@;
    assert(a.len() == 30);
    if extension_of(a) == Some("pyc"@) {
        let i = last_dot(a)->0;
        assert(a[i] == '.');
        assert(a.subrange(i + 1, 30).len() == 3);
        assert(i == 26);
        assert(a[26] == 'a');
    }
    assert(!("__pycache__"@ == a)) by { assert("__pycache__"@[0] != a[0]); }
    if stem.len() > 0 {
        let n = stem + ".pyc"@;
        let d = stem.len() as int;
        assert(n[d] == '.');
        assert(forall|j: int| d < j < n.len() ==> n[j] != '.');
        let i = last_dot(n)->0;
        assert(n[i] == '.' && forall|j: int| i < j < n.len() ==> n[j] != '.');
        if i < d {
            assert(n[d] != '.');
        }
        assert(i == d);
        assert(n.subrange(i + 1, n.len() as int) =~= "pyc"@);
    }
}

pub fn environment_entry_is_ignored(top_level: bool, name: Option<&str>) -> (ignored: bool)
    ensures
        ignored == entry_ignored(top_level, match name { Some(n) => Some(n@), None => None }),
{
    let n = match name {
        None => return false,
        Some(n) => n,
    };
    if (top_level && str_is(n, ".nemo-relay-environment.sha256")) || str_is(n, "__pycache__") {
        return true;
    }
    let cs = to_chars(n);
    let mut i: usize = cs.len();
    while i > 0 && cs[i - 1] != '.'
        invariant
            i <= cs@.len(),
            cs@ == n@,
            forall|j: int| i <= j < cs@.len() ==> cs@[j] != '.',
        decreases i,
    {
        i = i - 1;
    }
    proof {
        if i > 0 {
            let d = last_dot(n@)->0;
            assert(n@[i - 1] == '.');
            assert(last_dot(n@) is Some);
            if d < i - 1 {
                assert(n@[i - 1] != '.');
            }
            if d > i - 1 {
                assert(n@[d] != '.');
            }
            assert(d == i - 1);
        } else {
            assert(last_dot(n@) is None);
        }
    }
    if i <= 1 {
        return false;
    }
    let ext = text_of(&cs, i, cs.len());
    str_is(ext.as_str(), "pyc")
}

/// The directory name of a plugin's managed environment: the lowercase hex
/// SHA-256 digest of its trimmed id.
pub fn managed_environment_dir_name(plugin_id: &str) -> (name: String)
    ensures
        name@ == hex_text(sha256_of(vstd::utf8::encode_utf8(trim_spec(plugin_id@)))),
{
    crate::canonical::sha256_hex(trim(plugin_id))
}

/// An ASCII hex digit.
pub open spec fn ascii_hex(c: char) -> bool {
    ('0' <= c && c <= '9') || ('a' <= c && c <= 'f') || ('A' <= c && c <= 'F')
}

/// The fields of a stored attestation that must hold before its
/// authentication is checked: version 1, the expected source artifact
/// digest, and a 64-digit hex environment digest.
pub open spec fn attestation_fields_ok(version: u8, source: Seq<char>, environment: Seq<char>, expected: Seq<char>) -> bool {
    &&& version == 1
    &&& source == trim_spec(expected)
    &&& environment.len() == 64
    &&& forall|i: int| 0 <= i < environment.len() ==> ascii_hex(#[trigger] environment[i])
}

/// An attestation is accepted only at version 1, for the trusted source
/// artifact digest (compared after trimming it), with an environment digest
/// of 64 hexadecimal digits; any other version, source or digest shape is
/// refused.
pub proof fn lemma_accepted_attestations(version: u8, source: Seq<char>, environment: Seq<char>, expected: Seq<char>)
    ensures
        attestation_fields_ok(version, source, environment, expected) ==> {
            &&& version == 1
            &&& source == trim_spec(expected)
            &&& environment.len() == 64
            &&& forall|i: int| 0 <= i < 64 ==> {
                let c = #[trigger] environment[i];
                ('0' <= c && c <= '9') || ('a' <= c && c <= 'f') || ('A' <= c && c <= 'F')
            }
        },
        version == 1 && source == trim_spec(expected) && environment.len() == 64
            && (forall|i: int| 0 <= i < 64 ==> {
                let c = #[trigger] environment[i];
                ('0' <= c && c <= '9') || ('a' <= c && c <= 'f') || ('A' <= c && c <= 'F')
            }) ==> attestation_fields_ok(version, source, environment, expected),
{
}

pub open spec fn attestation_mismatch_message(path: Seq<char>) -> Seq<char> {
    "managed Python environment attestation "@ + path + " does not match the trusted source artifact"@
}

/// The field check on a stored attestation read from `path`.
pub fn check_attestation_fields(
    version: u8,
    source_artifact_sha256: &str,
    environment_sha256: &str,
    expected_source_artifact_sha256: &str,
    path: &str,
) -> (r: Result<(), String>)
    ensures
        attestation_fields_ok(version, source_artifact_sha256@, environment_sha256@, expected_source_artifact_sha256@) ==> r is Ok,
        !attestation_fields_ok(version, source_artifact_sha256@, environment_sha256@, expected_source_artifact_sha256@) ==>
            (r matches Err(m) && m@ == attestation_mismatch_message(path@)),
{
    let cs = to_chars(environment_sha256);
    let mut hex = cs.len() == 64;
    let mut i: usize = 0;
    while i < cs.len()
        invariant
            cs@ == environment_sha256@,
            i <= cs@.len(),
            hex == (cs@.len() == 64 && forall|j: int| 0 <= j < i ==> ascii_hex(#[trigger] cs@[j])),
        decreases cs.len() - i,
    {
        let c = cs[i];
        if !(('0' <= c && c <= '9') || ('a' <= c && c <= 'f') || ('A' <= c && c <= 'F')) {
            hex = false;
        }
        i = i + 1;
    }
    if version == 1 && str_is(source_artifact_sha256, trim(expected_source_artifact_sha256)) && hex {
        Ok(())
    } else {
        let mut m = String::new();
        m.append("managed Python environment attestation ");
        m.append(path);
        m.append(" does not match the trusted source artifact");
        assert(m@ =~= attestation_mismatch_message(path@));
        Err(m)
    }
}

/// What the path of a managed environment holds.
pub enum EntryKind {
    Missing,
    Directory,
    Other,
}

pub open spec fn inspect_failure_message(path: Seq<char>, operation: Seq<char>, error: Seq<char>) -> Seq<char> {
    "could not inspect managed Python environment "@ + path + " before "@ + operation + ": "@ + error
}

pub open spec fn not_directory_message(path: Seq<char>, operation: Seq<char>) -> Seq<char> {
    "refusing to "@ + operation + " managed Python environment "@ + path + " because it is not a directory"@
}

/// Whether a managed environment at `path` is to be removed for
/// `operation`, given what the path holds (or why it could not be
/// inspected): nothing to remove when it is missing, refused when it is
/// not a directory.
pub fn removal_decision(kind: Result<EntryKind, String>, path: &str, operation: &str) -> (r: Result<bool, String>)
    ensures
        match kind {
            Ok(EntryKind::Missing) => r == Ok::<bool, String>(false),
            Ok(EntryKind::Directory) => r == Ok::<bool, String>(true),
            Ok(EntryKind::Other) => r matches Err(m) && m@ == not_directory_message(path@, operation@),
            Err(e) => r matches Err(m) && m@ == inspect_failure_message(path@, operation@, e@),
        },
{
    match kind {
        Ok(EntryKind::Missing) => Ok(false),
        Ok(EntryKind::Directory) => Ok(true),
        Ok(EntryKind::Other) => {
            let mut m = String::new();
            m.append("refusing to ");
            m.append(operation);
            m.append(" managed Python environment ");
            m.append(path);
            m.append(" because it is not a directory");
            assert(m@ =~= not_directory_message(path@, operation@));
            Err(m)
        },
        Err(e) => {
            let mut m = String::new();
            m.append("could not inspect managed Python environment ");
            m.append(path);
            m.append(" before ");
            m.append(operation);
            m.append(": ");
            m.append(e.as_str());
            assert(m@ =~= inspect_failure_message(path@, operation@, e@));
            Err(m)
        },
    }
}

/// The steps of provisioning a Python worker's managed environment, in
/// order.
pub enum ProvisionStep {
    /// Check that the resolved manifest root is a directory.
    CheckManifestRoot,
    /// Remove any earlier environment and create its parent directory.
    ResetEnvironment,
    /// Run the base interpreter to create the virtual environment.
    CreateEnvironment,
    /// Check that the environment's interpreter exists.
    CheckInterpreter,
    /// Run the environment's interpreter to install the plugin.
    InstallPlugin,
}

/// What provisioning does after a step.
pub enum ProvisionDecision {
    Next(ProvisionStep),
    /// Write the environment attestation bound to this source digest, and
    /// finish with the environment.
    Attest(String),
    /// Stop with `message`, first removing the environment when `clean_up`.
    Abort { clean_up: bool, message: String },
}

/// The paths (as displayed) and digest provisioning works with.
pub struct ProvisionPlan {
    pub environment: String,
    pub interpreter: String,
    pub manifest_root: String,
    pub integrity_sha256: Option<String>,
}

pub open spec fn root_not_directory_message(root: Seq<char>) -> Seq<char> {
    "Python plugin source.manifest_root "@ + root + " is not a directory"@
}

pub open spec fn create_failed_message(environment: Seq<char>, error: Seq<char>) -> Seq<char> {
    "failed to create managed Python environment "@ + environment + ": "@ + error
}

pub open spec fn missing_interpreter_message(environment: Seq<char>, interpreter: Seq<char>) -> Seq<char> {
    "managed Python environment "@ + environment + " did not create interpreter "@ + interpreter
}

pub open spec fn install_failed_message(root: Seq<char>, environment: Seq<char>, error: Seq<char>) -> Seq<char> {
    "failed to install Python plugin from "@ + root + " into "@ + environment + ": "@ + error
}

pub open spec fn missing_integrity_message() -> Seq<char> {
    "Python worker plugins require integrity.sha256 to bind the installed environment to the trusted source artifact"@
}

/// The decision after `step` ends with `outcome`. Every failure from the
/// creation of the environment on removes it again; a missing integrity
/// digest stops provisioning without removing it.
pub fn provision_next(step: ProvisionStep, outcome: Result<(), String>, plan: &ProvisionPlan) -> (d: ProvisionDecision)
    ensures
        match (step, outcome) {
            (ProvisionStep::CheckManifestRoot, Ok(())) => d == ProvisionDecision::Next(ProvisionStep::ResetEnvironment),
            (ProvisionStep::CheckManifestRoot, Err(_)) => d matches ProvisionDecision::Abort { clean_up, message }
                && !clean_up && message@ == root_not_directory_message(plan.manifest_root@),
            (ProvisionStep::ResetEnvironment, Ok(())) => d == ProvisionDecision::Next(ProvisionStep::CreateEnvironment),
            (ProvisionStep::ResetEnvironment, Err(e)) => d matches ProvisionDecision::Abort { clean_up, message }
                && !clean_up && message == e,
            (ProvisionStep::CreateEnvironment, Ok(())) => d == ProvisionDecision::Next(ProvisionStep::CheckInterpreter),
            (ProvisionStep::CreateEnvironment, Err(e)) => d matches ProvisionDecision::Abort { clean_up, message }
                && clean_up && message@ == create_failed_message(plan.environment@, e@),
            (ProvisionStep::CheckInterpreter, Ok(())) => d == ProvisionDecision::Next(ProvisionStep::InstallPlugin),
            (ProvisionStep::CheckInterpreter, Err(_)) => d matches ProvisionDecision::Abort { clean_up, message }
                && clean_up && message@ == missing_interpreter_message(plan.environment@, plan.interpreter@),
            (ProvisionStep::InstallPlugin, Ok(())) => match declared(plan.integrity_sha256) {
                Some(digest) => d matches ProvisionDecision::Attest(a) && a@ == digest,
                None => d matches ProvisionDecision::Abort { clean_up, message }
                    && !clean_up && message@ == missing_integrity_message(),
            },
            (ProvisionStep::InstallPlugin, Err(e)) => d matches ProvisionDecision::Abort { clean_up, message }
                && clean_up && message@ == install_failed_message(plan.manifest_root@, plan.environment@, e@),
        },
{
    match (step, outcome) {
        (ProvisionStep::CheckManifestRoot, Ok(())) => ProvisionDecision::Next(ProvisionStep::ResetEnvironment),
        (ProvisionStep::CheckManifestRoot, Err(_)) => {
            let mut m = String::new();
            m.append("Python plugin source.manifest_root ");
            m.append(plan.manifest_root.as_str());
            m.append(" is not a directory");
            assert(m@ =~= root_not_directory_message(plan.manifest_root@));
            ProvisionDecision::Abort { clean_up: false, message: m }
        },
        (ProvisionStep::ResetEnvironment, Ok(())) => ProvisionDecision::Next(ProvisionStep::CreateEnvironment),
        (ProvisionStep::ResetEnvironment, Err(e)) => ProvisionDecision::Abort { clean_up: false, message: e },
        (ProvisionStep::CreateEnvironment, Ok(())) => ProvisionDecision::Next(ProvisionStep::CheckInterpreter),
        (ProvisionStep::CreateEnvironment, Err(e)) => {
            let mut m = String::new();
            m.append("failed to create managed Python environment ");
            m.append(plan.environment.as_str());
            m.append(": ");
            m.append(e.as_str());
            assert(m@ =~= create_failed_message(plan.environment@, e@));
            ProvisionDecision::Abort { clean_up: true, message: m }
        },
        (ProvisionStep::CheckInterpreter, Ok(())) => ProvisionDecision::Next(ProvisionStep::InstallPlugin),
        (ProvisionStep::CheckInterpreter, Err(_)) => {
            let mut m = String::new();
            m.append("managed Python environment ");
            m.append(plan.environment.as_str());
            m.append(" did not create interpreter ");
            m.append(plan.interpreter.as_str());
            assert(m@ =~= missing_interpreter_message(plan.environment@, plan.interpreter@));
            ProvisionDecision::Abort { clean_up: true, message: m }
        },
        (ProvisionStep::InstallPlugin, Ok(())) => match declared_text(&plan.integrity_sha256) {
            Some(digest) => ProvisionDecision::Attest(digest),
            None => ProvisionDecision::Abort {
                clean_up: false,
                message: literal("Python worker plugins require integrity.sha256 to bind the installed environment to the trusted source artifact"),
            },
        },
        (ProvisionStep::InstallPlugin, Err(e)) => {
            let mut m = String::new();
            m.append("failed to install Python plugin from ");
            m.append(plan.manifest_root.as_str());
            m.append(" into ");
            m.append(plan.environment.as_str());
            m.append(": ");
            m.append(e.as_str());
            assert(m@ =~= install_failed_message(plan.manifest_root@, plan.environment@, e@));
            ProvisionDecision::Abort { clean_up: true, message: m }
        },
    }
}

/// The interpreter arguments that create the environment.
pub fn venv_arguments(environment: &str) -> (args: Vec<String>)
    ensures
        args@.map_values(|a: String| a@) == seq!["-m"@, "venv"@, environment@],
{
    let args = vec![literal("-m"), literal("venv"), environment.to_string()];
    assert(args@.map_values(|a: String| a@) =~= seq!["-m"@, "venv"@, environment@]);
    args
}

/// The interpreter arguments that install the plugin from its root.
pub fn pip_install_arguments(manifest_root: &str) -> (args: Vec<String>)
    ensures
        args@.map_values(|a: String| a@) == seq!["-m"@, "pip"@, "install"@, manifest_root@],
{
    let args = vec![literal("-m"), literal("pip"), literal("install"), manifest_root.to_string()];
    assert(args@.map_values(|a: String| a@) =~= seq!["-m"@, "pip"@, "install"@, manifest_root@]);
    args
}

/// The base interpreter: the configured one, else `python` on Windows and
/// `python3` elsewhere.
pub fn python_executable(configured: Option<String>, windows: bool) -> (program: String)
    ensures
        match configured {
            Some(c) => program == c,
            None => program@ == (if windows { "python"@ } else { "python3"@ }),
        },
{
    match configured {
        Some(c) => c,
        None => if windows { literal("python") } else { literal("python3") },
    }
}

} // verus!
