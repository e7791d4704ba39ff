//! Rendering of plugin lifecycle results: the lifecycle errors and their
//! exit codes, the aligned plugin list, and the validation summary.

use vstd::prelude::*;
use vstd::string::StringExecFns;
use vstd::utf8::encode_utf8;
use crate::errors::{CliError, PluginLifecycleFailureKind};
use crate::json::{lemma_obj_view, obj_view, Json, JsonV};
use crate::plugin_policy::DynamicPluginCheckState;
use crate::plugin_trust::{refusal_code_of, EvaluatedDynamicPluginTrust};

verus! {

/// The exit code of a failed plugin lifecycle command.
pub open spec fn exit_code_of(kind: PluginLifecycleFailureKind) -> u8 {
    match kind {
        PluginLifecycleFailureKind::Failed => 1,
        PluginLifecycleFailureKind::NotFound => 2,
        PluginLifecycleFailureKind::Refused => 3,
    }
}

pub fn plugin_exit_code(kind: PluginLifecycleFailureKind) -> (code: u8)
    ensures
        code == exit_code_of(kind),
{
    match kind {
        PluginLifecycleFailureKind::Failed => 1,
        PluginLifecycleFailureKind::NotFound => 2,
        PluginLifecycleFailureKind::Refused => 3,
    }
}

/// The lifecycle error of a command whose target does not exist.
pub fn plugin_not_found(command: &str, target: Option<String>, message: String) -> (e: CliError)
    ensures
        e matches CliError::PluginLifecycle { command: c, target: t, kind, code, message: m }
            && c@ == command@ && t == target && kind == PluginLifecycleFailureKind::NotFound
            && code is None && m == message,
{
    CliError::PluginLifecycle {
        command: command.to_owned(),
        target,
        kind: PluginLifecycleFailureKind::NotFound,
        code: None,
        message,
    }
}

/// The lifecycle error of a refused command, with the code `refused`.
pub fn plugin_refused(command: &str, target: Option<String>, message: String) -> (e: CliError)
    ensures
        e matches CliError::PluginLifecycle { command: c, target: t, kind, code, message: m }
            && c@ == command@ && t == target && kind == PluginLifecycleFailureKind::Refused
            && (code matches Some(x) && x@ == "refused"@) && m == message,
{
    plugin_refused_with_code(command, target, "refused", message)
}

/// The lifecycle error of a command refused with `code`.
pub fn plugin_refused_with_code(command: &str, target: Option<String>, code: &str, message: String) -> (e: CliError)
    ensures
        e matches CliError::PluginLifecycle { command: c, target: t, kind, code: k, message: m }
            && c@ == command@ && t == target && kind == PluginLifecycleFailureKind::Refused
            && (k matches Some(x) && x@ == code@) && m == message,
{
    CliError::PluginLifecycle {
        command: command.to_owned(),
        target,
        kind: PluginLifecycleFailureKind::Refused,
        code: Some(code.to_owned()),
        message,
    }
}

/// The lifecycle error of a command that failed with `code`.
pub fn plugin_failed_with_code(command: &str, target: Option<String>, code: &str, message: String) -> (e: CliError)
    ensures
        e matches CliError::PluginLifecycle { command: c, target: t, kind, code: k, message: m }
            && c@ == command@ && t == target && kind == PluginLifecycleFailureKind::Failed
            && (k matches Some(x) && x@ == code@) && m == message,
{
    CliError::PluginLifecycle {
        command: command.to_owned(),
        target,
        kind: PluginLifecycleFailureKind::Failed,
        code: Some(code.to_owned()),
        message,
    }
}

/// The refusal code reported for a plugin refused on trust grounds:
/// that of the recorded trust failure, or `refused` without one.
pub fn trust_refusal_code(trust: &EvaluatedDynamicPluginTrust) -> (code: &'static str)
    ensures
        code@ == match trust.failure {
            Some(f) => refusal_code_of(f),
            None => "refused"@,
        },
{
    match trust.refusal_code() {
        Some(code) => code,
        None => "refused",
    }
}

/// The validation checks recorded for a plugin.
#[derive(Clone, Copy, Debug, PartialEq, Eq, Structural)]
pub struct PluginValidation {
    pub manifest: DynamicPluginCheckState,
    pub compatibility: DynamicPluginCheckState,
    pub integrity: DynamicPluginCheckState,
    pub environment: DynamicPluginCheckState,
    pub authenticity: DynamicPluginCheckState,
    pub policy_satisfied: DynamicPluginCheckState,
}

/// The single validation state a plugin list shows: invalid when any check
/// failed, unknown while the manifest or compatibility is unchecked, else
/// valid.
pub open spec fn validation_state_of(v: PluginValidation) -> DynamicPluginCheckState {
    if v.manifest == DynamicPluginCheckState::Invalid || v.compatibility == DynamicPluginCheckState::Invalid
        || v.integrity == DynamicPluginCheckState::Invalid || v.environment == DynamicPluginCheckState::Invalid
        || v.authenticity == DynamicPluginCheckState::Invalid || v.policy_satisfied == DynamicPluginCheckState::Invalid {
        DynamicPluginCheckState::Invalid
    } else if v.manifest == DynamicPluginCheckState::Unknown || v.compatibility == DynamicPluginCheckState::Unknown {
        DynamicPluginCheckState::Unknown
    } else {
        DynamicPluginCheckState::Valid
    }
}

pub fn list_validation_state(v: &PluginValidation) -> (s: DynamicPluginCheckState)
    ensures
        s == validation_state_of(*v),
{
    let invalid = DynamicPluginCheckState::Invalid;
    let unknown = DynamicPluginCheckState::Unknown;
    if v.manifest == invalid || v.compatibility == invalid || v.integrity == invalid
        || v.environment == invalid || v.authenticity == invalid || v.policy_satisfied == invalid {
        DynamicPluginCheckState::Invalid
    } else if v.manifest == unknown || v.compatibility == unknown {
        DynamicPluginCheckState::Unknown
    } else {
        DynamicPluginCheckState::Valid
    }
}

/// The lifecycle state a list shows: `tombstoned` for a tombstoned record,
/// else the runtime state's label.
pub fn lifecycle_state_label(tombstoned: bool, runtime_state: &'static str) -> (label: &'static str)
    ensures
        label@ == if tombstoned { "tombstoned"@ } else { runtime_state@ },
{
    if tombstoned { "tombstoned" } else { runtime_state }
}

/// The host-config column: the resolved config's status, or `absent`.
pub fn host_config_label(status: Option<&'static str>) -> (label: &'static str)
    ensures
        label@ == match status {
            Some(s) => s@,
            None => "absent"@,
        },
{
    match status {
        Some(s) => s,
        None => "absent",
    }
}

/// A host config as inspection shows it: null when nothing was configured,
/// else each configured key mapped to `"<redacted>"`.
pub open spec fn redacted_spec(keys: Seq<Seq<char>>, has_explicit_config: bool) -> JsonV {
    if keys.len() == 0 && !has_explicit_config {
        JsonV::Null
    } else {
        JsonV::Obj(keys.map_values(|k: Seq<char>| (k, JsonV::Str("<redacted>"@))))
    }
}

pub open spec fn key_texts(keys: Seq<String>) -> Seq<Seq<char>> {
    keys.map_values(|k: String| k@)
}

pub fn redacted_host_config_json(keys: &Vec<String>, has_explicit_config: bool) -> (j: Json)
    ensures
        j@ == redacted_spec(key_texts(keys@), has_explicit_config),
{
    if keys.len() == 0 && !has_explicit_config {
        return Json::Null;
    }
    let mut entries: Vec<(String, Json)> = Vec::new();
    let mut i: usize = 0;
    while i < keys.len()
        invariant
            i <= keys@.len(),
            entries@.len() == i,
            forall|t: int| 0 <= t < i ==> #[trigger] entries@[t].0@ == keys@[t]@
                && entries@[t].1@ == JsonV::Str("<redacted>"@),
        decreases keys.len() - i,
    {
        entries.push((keys[i].clone(), Json::String("<redacted>".to_owned())));
        i = i + 1;
    }
    proof {
        lemma_obj_view(entries, entries@.len() as int);
        assert(obj_view(entries, entries@.len() as int)
            =~= key_texts(keys@).map_values(|k: Seq<char>| (k, JsonV::Str("<redacted>"@))));
    }
    Json::Object(entries)
}

/// The byte length of a text in UTF-8, as a machine-sized count.
pub open spec fn byte_len(s: Seq<char>) -> nat {
    (encode_utf8(s).len() as usize) as nat
}

/// The widest of a header and some values, by UTF-8 byte length.
pub open spec fn widest(header: Seq<char>, values: Seq<Seq<char>>) -> nat
    decreases values.len(),
{
    if values.len() == 0 {
        byte_len(header)
    } else {
        let rest = widest(header, values.drop_last());
        if byte_len(values.last()) > rest { byte_len(values.last()) } else { rest }
    }
}

/// The width of a list column: its widest value or header, in bytes.
pub fn column_width(header: &str, values: &Vec<&str>) -> (w: usize)
    ensures
        w == widest(header@, values@.map_values(|v: &str| v@)),
{
    let ghost vs = values@.map_values(|v: &str| v@);
    let mut w = header.len();
    assert(vs.take(0) =~= Seq::<Seq<char>>::empty());
    let mut i: usize = 0;
    while i < values.len()
        invariant
            i <= values@.len(),
            vs == values@.map_values(|v: &str| v@),
            w == widest(header@, vs.take(i as int)),
        decreases values.len() - i,
    {
        assert(vs.take(i + 1).drop_last() =~= vs.take(i as int));
        assert(vs.take(i + 1).last() == values@[i as int]@);
        let n = values[i].len();
        assert(n == byte_len(vs.take(i + 1).last()));
        if n > w {
            w = n;
        }
        i = i + 1;
    }
    assert(vs.take(values@.len() as int) =~= vs);
    w
}

/// `n` spaces.
pub open spec fn spaces(n: nat) -> Seq<char> {
    Seq::new(n, |i: int| ' ')
}

/// `s` left-aligned in a field of `width` characters.
pub open spec fn padded(s: Seq<char>, width: nat) -> Seq<char> {
    if s.len() < width { s + spaces((width - s.len()) as nat) } else { s }
}

/// Appends `s` left-aligned in a field of `width` characters.
pub fn push_padded(out: &mut String, s: &str, width: usize)
    ensures
        final(out)@ == old(out)@ + padded(s@, width as nat),
{
    out.append(s);
    let ghost with_text = out@;
    let n = s.unicode_len();
    if n < width {
        let mut k: usize = n;
        while k < width
            invariant
                n == s@.len(),
                n <= k <= width,
                out@ == with_text + spaces((k - n) as nat),
            decreases width - k,
        {
            out.append(" ");
            proof { reveal_strlit(" "); }
            assert(spaces((k + 1 - n) as nat) =~= spaces((k - n) as nat).push(' '));
            k = k + 1;
        }
    } else {
        assert(with_text =~= old(out)@ + padded(s@, width as nat));
    }
}

/// One row of the plugin list, its cells as displayed.
pub struct PluginListRow {
    pub id: String,
    pub scope: String,
    pub enabled: bool,
    pub state: String,
    pub validation: String,
    pub policy: String,
    pub host_config: String,
}

pub open spec fn bool_text(b: bool) -> Seq<char> {
    if b { "true"@ } else { "false"@ }
}

/// The column widths of a plugin list.
pub struct PluginListWidths {
    pub id: usize,
    pub scope: usize,
    pub enabled: usize,
    pub state: usize,
    pub validation: usize,
    pub policy: usize,
}

pub open spec fn column_of(rows: Seq<PluginListRow>, column: int) -> Seq<Seq<char>> {
    rows.map_values(|r: PluginListRow|
        if column == 0 { r.id@ } else if column == 1 { r.scope@ } else if column == 2 { bool_text(r.enabled) }
        else if column == 3 { r.state@ } else if column == 4 { r.validation@ } else { r.policy@ })
}

fn bool_str(b: bool) -> (s: &'static str)
    ensures
        s@ == bool_text(b),
{
    if b { "true" } else { "false" }
}

impl PluginListWidths {
    /// The widths that fit every row and header.
    pub fn from_rows(rows: &Vec<PluginListRow>) -> (w: Self)
        ensures
            w.id == widest("ID"@, column_of(rows@, 0)),
            w.scope == widest("SCOPE"@, column_of(rows@, 1)),
            w.enabled == widest("ENABLED"@, column_of(rows@, 2)),
            w.state == widest("STATE"@, column_of(rows@, 3)),
            w.validation == widest("VALIDATION"@, column_of(rows@, 4)),
            w.policy == widest("POLICY"@, column_of(rows@, 5)),
    {
        let mut ids: Vec<&str> = Vec::new();
        let mut scopes: Vec<&str> = Vec::new();
        let mut enabled: Vec<&str> = Vec::new();
        let mut states: Vec<&str> = Vec::new();
        let mut validations: Vec<&str> = Vec::new();
        let mut policies: Vec<&str> = Vec::new();
        let mut i: usize = 0;
        while i < rows.len()
            invariant
                i <= rows@.len(),
                ids@.map_values(|v: &str| v@) == column_of(rows@, 0).take(i as int),
                scopes@.map_values(|v: &str| v@) == column_of(rows@, 1).take(i as int),
                enabled@.map_values(|v: &str| v@) == column_of(rows@, 2).take(i as int),
                states@.map_values(|v: &str| v@) == column_of(rows@, 3).take(i as int),
                validations@.map_values(|v: &str| v@) == column_of(rows@, 4).take(i as int),
                policies@.map_values(|v: &str| v@) == column_of(rows@, 5).take(i as int),
            decreases rows.len() - i,
        {
            let r = &rows[i];
            proof {
                let k = i as int;
                assert(column_of(rows@, 0).take(k + 1) =~= column_of(rows@, 0).take(k).push(r.id@));
                assert(column_of(rows@, 1).take(k + 1) =~= column_of(rows@, 1).take(k).push(r.scope@));
                assert(column_of(rows@, 2).take(k + 1) =~= column_of(rows@, 2).take(k).push(bool_text(r.enabled)));
                assert(column_of(rows@, 3).take(k + 1) =~= column_of(rows@, 3).take(k).push(r.state@));
                assert(column_of(rows@, 4).take(k + 1) =~= column_of(rows@, 4).take(k).push(r.validation@));
                assert(column_of(rows@, 5).take(k + 1) =~= column_of(rows@, 5).take(k).push(r.policy@));
            }
            ids.push(r.id.as_str());
            scopes.push(r.scope.as_str());
            enabled.push(bool_str(r.enabled));
            states.push(r.state.as_str());
            validations.push(r.validation.as_str());
            policies.push(r.policy.as_str());
            assert(ids@.map_values(|v: &str| v@) =~= column_of(rows@, 0).take(i + 1));
            assert(scopes@.map_values(|v: &str| v@) =~= column_of(rows@, 1).take(i + 1));
            assert(enabled@.map_values(|v: &str| v@) =~= column_of(rows@, 2).take(i + 1));
            assert(states@.map_values(|v: &str| v@) =~= column_of(rows@, 3).take(i + 1));
            assert(validations@.map_values(|v: &str| v@) =~= column_of(rows@, 4).take(i + 1));
            assert(policies@.map_values(|v: &str| v@) =~= column_of(rows@, 5).take(i + 1));
            i = i + 1;
        }
        assert(column_of(rows@, 0).take(rows@.len() as int) =~= column_of(rows@, 0));
        assert(column_of(rows@, 1).take(rows@.len() as int) =~= column_of(rows@, 1));
        assert(column_of(rows@, 2).take(rows@.len() as int) =~= column_of(rows@, 2));
        assert(column_of(rows@, 3).take(rows@.len() as int) =~= column_of(rows@, 3));
        assert(column_of(rows@, 4).take(rows@.len() as int) =~= column_of(rows@, 4));
        assert(column_of(rows@, 5).take(rows@.len() as int) =~= column_of(rows@, 5));
        PluginListWidths {
            id: column_width("ID", &ids),
            scope: column_width("SCOPE", &scopes),
            enabled: column_width("ENABLED", &enabled),
            state: column_width("STATE", &states),
            validation: column_width("VALIDATION", &validations),
            policy: column_width("POLICY", &policies),
        }
    }
}

/// The six aligned cells and the trailing text of one list line.
pub open spec fn list_line(cells: Seq<Seq<char>>, last: Seq<char>, w: PluginListWidths) -> Seq<char> {
    padded(cells[0], w.id as nat) + " "@ + padded(cells[1], w.scope as nat) + " "@
        + padded(cells[2], w.enabled as nat) + " "@ + padded(cells[3], w.state as nat) + " "@
        + padded(cells[4], w.validation as nat) + " "@ + padded(cells[5], w.policy as nat) + " "@ + last
}

pub open spec fn row_line(r: PluginListRow, w: PluginListWidths) -> Seq<char> {
    list_line(seq![r.id@, r.scope@, bool_text(r.enabled), r.state@, r.validation@, r.policy@], r.host_config@, w)
}

/// The lines of the first `n` rows, each after a newline.
pub open spec fn rows_text(rows: Seq<PluginListRow>, w: PluginListWidths, n: int) -> Seq<char>
    decreases n,
{
    if n <= 0 { Seq::empty() } else { rows_text(rows, w, n - 1) + "\n"@ + row_line(rows[n - 1], w) }
}

/// The plugin list: a header and one aligned line per row.
pub open spec fn plugin_list_text(rows: Seq<PluginListRow>, w: PluginListWidths) -> Seq<char> {
    list_line(seq!["ID"@, "SCOPE"@, "ENABLED"@, "STATE"@, "VALIDATION"@, "POLICY"@], "HOST CONFIG"@, w)
        + rows_text(rows, w, rows.len() as int)
}

fn push_cell_sep(out: &mut String, cell: &str, width: usize)
    ensures
        final(out)@ == old(out)@ + padded(cell@, width as nat) + " "@,
{
    push_padded(out, cell, width);
    out.append(" ");
    assert(out@ =~= old(out)@ + padded(cell@, width as nat) + " "@);
}

#[verifier::rlimit(60)]
fn push_line(out: &mut String, cells: [&str; 6], last: &str, w: &PluginListWidths)
    ensures
        final(out)@ == old(out)@ + list_line(seq![cells[0]@, cells[1]@, cells[2]@, cells[3]@, cells[4]@, cells[5]@], last@, *w),
{
    let ghost s0 = out@;
    push_cell_sep(out, cells[0], w.id);
    let ghost s1 = out@;
    push_cell_sep(out, cells[1], w.scope);
    let ghost s2 = out@;
    push_cell_sep(out, cells[2], w.enabled);
    let ghost s3 = out@;
    push_cell_sep(out, cells[3], w.state);
    let ghost s4 = out@;
    push_cell_sep(out, cells[4], w.validation);
    let ghost s5 = out@;
    push_cell_sep(out, cells[5], w.policy);
    out.append(last);
    proof {
        let cs = seq![cells[0]@, cells[1]@, cells[2]@, cells[3]@, cells[4]@, cells[5]@];
        assert(out@ =~= s0 + list_line(cs, last@, *w));
    }
}

/// Renders the plugin list with columns fitted to its rows.
pub fn render_plugin_list(rows: &Vec<PluginListRow>) -> (text: String)
    ensures
        exists|w: PluginListWidths| w.id == widest("ID"@, column_of(rows@, 0))
            && w.scope == widest("SCOPE"@, column_of(rows@, 1))
            && w.enabled == widest("ENABLED"@, column_of(rows@, 2))
            && w.state == widest("STATE"@, column_of(rows@, 3))
            && w.validation == widest("VALIDATION"@, column_of(rows@, 4))
            && w.policy == widest("POLICY"@, column_of(rows@, 5))
            && text@ == #[trigger] plugin_list_text(rows@, w),
{
    let w = PluginListWidths::from_rows(rows);
    let mut text = String::new();
    push_line(&mut text, ["ID", "SCOPE", "ENABLED", "STATE", "VALIDATION", "POLICY"], "HOST CONFIG", &w);
    let ghost header = text@;
    let mut i: usize = 0;
    while i < rows.len()
        invariant
            i <= rows@.len(),
            text@ == header + rows_text(rows@, w, i as int),
        decreases rows.len() - i,
    {
        let r = &rows[i];
        text.append("\n");
        push_line(&mut text, [r.id.as_str(), r.scope.as_str(), bool_str(r.enabled), r.state.as_str(), r.validation.as_str(), r.policy.as_str()], r.host_config.as_str(), &w);
        assert(text@ =~= header + rows_text(rows@, w, i + 1));
        i = i + 1;
    }
    proof {
        assert(Seq::<char>::empty() + list_line(seq!["ID"@, "SCOPE"@, "ENABLED"@, "STATE"@, "VALIDATION"@, "POLICY"@], "HOST CONFIG"@, w) == header);
        assert(text@ =~= plugin_list_text(rows@, w));
    }
    text
}

/// What the validation summary of one plugin shows; labels as displayed.
pub struct ValidationSummary {
    pub plugin_id: String,
    pub kind: String,
    pub manifest_ref: String,
    pub policy_satisfied: bool,
    pub trust_satisfied: bool,
    pub environment: DynamicPluginCheckState,
    pub policy_state: String,
    pub integrity_state: String,
    pub environment_state: String,
    pub authenticity_state: String,
    pub startup_class: String,
    pub attestation_mode: String,
    pub policy_error: Option<String>,
    pub trust_error: Option<String>,
    /// For a recorded plugin: scope, lifecycle state path, desired
    /// enablement and host-config label.
    pub entry: Option<(String, String, bool, String)>,
}

/// The summary's headline.
pub open spec fn headline(s: ValidationSummary) -> Seq<char> {
    let id = s.plugin_id@;
    if s.policy_satisfied && s.trust_satisfied && s.environment != DynamicPluginCheckState::Invalid {
        "Dynamic plugin '"@ + id + "' is valid.\n"@
    } else if s.policy_satisfied && s.trust_satisfied {
        "Dynamic plugin '"@ + id + "' manifest is valid, but its runtime environment is unavailable.\n"@
    } else if s.policy_satisfied {
        "Dynamic plugin '"@ + id + "' manifest is valid, but trust verification blocks it.\n"@
    } else {
        "Dynamic plugin '"@ + id + "' manifest is valid, but host policy blocks it.\n"@
    }
}

pub open spec fn optional_line(label: Seq<char>, value: Option<String>) -> Seq<char> {
    match value {
        Some(v) => label + v@ + "\n"@,
        None => Seq::empty(),
    }
}

/// The summary's state lines.
pub open spec fn states_text(s: ValidationSummary) -> Seq<char> {
    "kind: "@ + s.kind@ + "\n"@
        + "policy_state: "@ + s.policy_state@ + "\n"@
        + "integrity_state: "@ + s.integrity_state@ + "\n"@
        + "environment_state: "@ + s.environment_state@ + "\n"@
        + "authenticity_state: "@ + s.authenticity_state@ + "\n"@
        + "startup_class: "@ + s.startup_class@ + "\n"@
        + "attestation_mode: "@ + s.attestation_mode@ + "\n"@
}

/// The summary's closing lines: the manifest, and for a recorded plugin
/// its record.
pub open spec fn entry_text(s: ValidationSummary) -> Seq<char> {
    match s.entry {
            Some((scope, path, enabled, host)) =>
                "manifest: "@ + s.manifest_ref@ + "\n"@ + "scope: "@ + scope@ + "\n"@
                    + "lifecycle_state_path: "@ + path@ + "\n"@ + "desired.enabled: "@ + bool_text(enabled) + "\n"@
                    + "host_config: "@ + host@,
            None => "manifest: "@ + s.manifest_ref@,
    }
}

/// The validation summary text.
pub open spec fn summary_text(s: ValidationSummary) -> Seq<char> {
    headline(s) + states_text(s) + optional_line("policy_error: "@, s.policy_error)
        + optional_line("trust_error: "@, s.trust_error) + entry_text(s)
}

fn push_field(out: &mut String, label: &str, value: &str)
    ensures
        final(out)@ == old(out)@ + label@ + value@ + "\n"@,
{
    out.append(label);
    out.append(value);
    out.append("\n");
}

fn push_headline(t: &mut String, s: &ValidationSummary)
    ensures
        final(t)@ == old(t)@ + headline(*s),
{
    t.append("Dynamic plugin '");
    t.append(s.plugin_id.as_str());
    let invalid_environment = s.environment == DynamicPluginCheckState::Invalid;
    if s.policy_satisfied && s.trust_satisfied && !invalid_environment {
        t.append("' is valid.\n");
    } else if s.policy_satisfied && s.trust_satisfied {
        t.append("' manifest is valid, but its runtime environment is unavailable.\n");
    } else if s.policy_satisfied {
        t.append("' manifest is valid, but trust verification blocks it.\n");
    } else {
        t.append("' manifest is valid, but host policy blocks it.\n");
    }
    assert(t@ =~= old(t)@ + headline(*s));
}

fn push_states(t: &mut String, s: &ValidationSummary)
    ensures
        final(t)@ == old(t)@ + states_text(*s),
{
    push_field(t, "kind: ", s.kind.as_str());
    push_field(t, "policy_state: ", s.policy_state.as_str());
    push_field(t, "integrity_state: ", s.integrity_state.as_str());
    push_field(t, "environment_state: ", s.environment_state.as_str());
    push_field(t, "authenticity_state: ", s.authenticity_state.as_str());
    push_field(t, "startup_class: ", s.startup_class.as_str());
    push_field(t, "attestation_mode: ", s.attestation_mode.as_str());
    assert(t@ =~= old(t)@ + states_text(*s));
}

fn push_optional(t: &mut String, label: &str, value: &Option<String>)
    ensures
        final(t)@ == old(t)@ + optional_line(label@, *value),
{
    if let Some(v) = value {
        push_field(t, label, v.as_str());
    } else {
        assert(t@ =~= old(t)@ + optional_line(label@, *value));
    }
}

fn push_entry(t: &mut String, s: &ValidationSummary)
    ensures
        final(t)@ == old(t)@ + entry_text(*s),
{
    match &s.entry {
        Some((scope, path, enabled, host)) => {
            push_field(t, "manifest: ", s.manifest_ref.as_str());
            push_field(t, "scope: ", scope.as_str());
            push_field(t, "lifecycle_state_path: ", path.as_str());
            push_field(t, "desired.enabled: ", bool_str(*enabled));
            t.append("host_config: ");
            t.append(host.as_str());
        },
        None => {
            t.append("manifest: ");
            t.append(s.manifest_ref.as_str());
        },
    }
    assert(t@ =~= old(t)@ + entry_text(*s));
}

/// Renders a plugin's validation summary.
pub fn render_validation_summary(s: &ValidationSummary) -> (text: String)
    ensures
        text@ == summary_text(*s),
{
    let mut t = String::new();
    push_headline(&mut t, s);
    push_states(&mut t, s);
    push_optional(&mut t, "policy_error: ", &s.policy_error);
    push_optional(&mut t, "trust_error: ", &s.trust_error);
    push_entry(&mut t, s);
    assert(t@ =~= summary_text(*s));
    t
}

} // verus!
