//! Classification of changes between two project configurations.
use vstd::prelude::*;

use super::types::{
    sort_config_field_changes_deterministic, ChangeClassification, ConfigFieldChange,
};
use crate::order::{dedup_sorted, key_covered, sorted_by_key, strictly_sorted_by_key, KeyOrdered};
use crate::paths::strings_contain;
use crate::spec::config::{
    DenyDeepImportEntry, JestMockMode, ReleaseChannel, SpecConfig, StaleBaselinePolicy,
    StrictOwnershipLevel, UnresolvedEdgePolicy,
};
use crate::spec::Severity;
use crate::strset::{set_insert, strictly_sorted};
use crate::jsontext::{json_quote, json_quoted};
use crate::text::{
    decimal, decimal_string, join_text, join_text_exec, lemma_seq_order_antisymmetric, owned, push_str, str_eq, trim,
    trim_str, views,
};

verus! {

/// A config change as plain values: field path, classification, before, after.
pub type ChangeModel = (Seq<char>, ChangeClassification, Seq<char>, Seq<char>);

pub open spec fn change_model(c: ConfigFieldChange) -> ChangeModel {
    (c.field_path@, c.classification, c.before@, c.after@)
}

pub open spec fn change_models(cs: Seq<ConfigFieldChange>) -> Seq<ChangeModel> {
    cs.map_values(|c: ConfigFieldChange| change_model(c))
}

/// The rendering of a value that is absent on one side.
pub open spec fn absent() -> Seq<char> {
    "<absent>"@
}

/// `true`/`false`.
pub open spec fn bool_text(b: bool) -> Seq<char> {
    if b { "true"@ } else { "false"@ }
}

pub open spec fn bool_rank(b: bool) -> int {
    if b { 1 } else { 0 }
}

/// The JSON array of JSON strings that `serde_json::to_string` writes for a
/// list of strings: each quoted, joined by commas, in brackets.
#[verifier::opaque]
pub open spec fn json_string_array(items: Seq<Seq<char>>) -> Seq<char> {
    "["@ + join_text(items.map_values(|x: Seq<char>| json_quoted(x)), ","@) + "]"@
}

/// The compact JSON object of a deep-import entry, members in key order as a
/// `serde_json::Map` keeps them: `{"max_depth":..,"pattern":..,"severity":..}`.
#[verifier::opaque]
pub open spec fn json_deep_import_entry(pattern: Seq<char>, max_depth: nat, severity: Seq<char>) -> Seq<char> {
    "{\"max_depth\":"@ + decimal(max_depth) + ",\"pattern\":"@ + json_quoted(pattern) + ",\"severity\":"@
        + json_quoted(severity) + "}"@
}

/// Renders a list of strings as a JSON array (see `json_string_array`).
fn render_string_list(values: &Vec<String>) -> (r: String)
    ensures
        r@ == json_string_array(views(values@)),
{
    let mut quoted: Vec<String> = Vec::new();
    let mut i: usize = 0;
    while i < values.len()
        invariant
            i <= values@.len(),
            views(quoted@) == views(values@).take(i as int).map_values(|x: Seq<char>| json_quoted(x)),
        decreases values@.len() - i,
    {
        let q = json_quote(values[i].as_str());
        let ghost before = views(quoted@);
        quoted.push(q);
        assert(views(quoted@) =~= before.push(q@));
        assert(views(values@).take(i + 1).map_values(|x: Seq<char>| json_quoted(x)) =~= views(values@).take(
            i as int,
        ).map_values(|x: Seq<char>| json_quoted(x)).push(json_quoted(values@[i as int]@)));
        i = i + 1;
    }
    assert(views(values@).take(values@.len() as int) =~= views(values@));
    let mut out = owned("[");
    let inner = join_text_exec(&quoted, ",");
    push_str(&mut out, inner.as_str());
    push_str(&mut out, "]");
    proof {
        reveal(json_string_array);
    }
    out
}

/// Renders a deep-import entry as a compact JSON object (see
/// `json_deep_import_entry`).
fn render_deep_import_json(pattern: &str, max_depth: usize, severity: &str) -> (r: String)
    ensures
        r@ == json_deep_import_entry(pattern@, max_depth as nat, severity@),
{
    let mut out = owned("{\"max_depth\":");
    let depth = decimal_string(max_depth as u64);
    push_str(&mut out, depth.as_str());
    push_str(&mut out, ",\"pattern\":");
    let p = json_quote(pattern);
    push_str(&mut out, p.as_str());
    push_str(&mut out, ",\"severity\":");
    let q = json_quote(severity);
    push_str(&mut out, q.as_str());
    push_str(&mut out, "}");
    proof {
        reveal(json_deep_import_entry);
    }
    out
}

/// Changes of a set-valued field: values only in `head` carry `added`,
/// values only in `base` carry `removed`.
pub open spec fn string_set_changes(
    field: Seq<char>,
    base: Set<Seq<char>>,
    head: Set<Seq<char>>,
    added: ChangeClassification,
    removed: ChangeClassification,
) -> Set<ChangeModel> {
    Set::new(
        |m: ChangeModel|
            (head.contains(m.3) && !base.contains(m.3) && m == (field, added, absent(), m.3)) || (
            base.contains(m.2) && !head.contains(m.2) && m == (field, removed, m.2, absent())),
    )
}

/// `none` or the decimal limit.
pub open spec fn limit_text(v: Option<usize>) -> Seq<char> {
    match v {
        Some(n) => decimal(n as nat),
        None => "none"@,
    }
}

/// A change of an optional limit: raising or removing it widens, lowering or
/// introducing it narrows.
pub open spec fn limit_changes(field: Seq<char>, base: Option<usize>, head: Option<usize>) -> Set<ChangeModel> {
    match (base, head) {
        (Some(b), Some(h)) => if h > b {
            set![(field, ChangeClassification::Widening, limit_text(base), limit_text(head))]
        } else if h < b {
            set![(field, ChangeClassification::Narrowing, limit_text(base), limit_text(head))]
        } else {
            Set::empty()
        },
        (Some(_), None) => set![(field, ChangeClassification::Widening, limit_text(base), limit_text(head))],
        (None, Some(_)) => set![(field, ChangeClassification::Narrowing, limit_text(base), limit_text(head))],
        (None, None) => Set::empty(),
    }
}

/// A change between ranked settings: a lower rank at head widens, a higher narrows.
pub open spec fn ranked_changes(field: Seq<char>, base_rank: int, head_rank: int, before: Seq<char>, after: Seq<char>) -> Set<ChangeModel> {
    if base_rank == head_rank {
        Set::empty()
    } else if head_rank < base_rank {
        set![(field, ChangeClassification::Widening, before, after)]
    } else {
        set![(field, ChangeClassification::Narrowing, before, after)]
    }
}

/// A change of a setting with no policy direction.
pub open spec fn structural_changes(field: Seq<char>, same: bool, before: Seq<char>, after: Seq<char>) -> Set<ChangeModel> {
    if same {
        Set::empty()
    } else {
        set![(field, ChangeClassification::StructuralChange, before, after)]
    }
}

pub open spec fn jest_rank(m: JestMockMode) -> int {
    match m {
        JestMockMode::Warn => 0,
        JestMockMode::Enforce => 1,
    }
}

pub open spec fn jest_text(m: JestMockMode) -> Seq<char> {
    match m {
        JestMockMode::Warn => "warn"@,
        JestMockMode::Enforce => "enforce"@,
    }
}

pub open spec fn stale_rank(p: StaleBaselinePolicy) -> int {
    match p {
        StaleBaselinePolicy::Warn => 0,
        StaleBaselinePolicy::Fail => 1,
    }
}

pub open spec fn stale_text(p: StaleBaselinePolicy) -> Seq<char> {
    match p {
        StaleBaselinePolicy::Warn => "warn"@,
        StaleBaselinePolicy::Fail => "fail"@,
    }
}

pub open spec fn unresolved_rank(p: UnresolvedEdgePolicy) -> int {
    match p {
        UnresolvedEdgePolicy::Ignore => 0,
        UnresolvedEdgePolicy::Warn => 1,
        UnresolvedEdgePolicy::Error => 2,
    }
}

pub open spec fn unresolved_text(p: UnresolvedEdgePolicy) -> Seq<char> {
    match p {
        UnresolvedEdgePolicy::Warn => "warn"@,
        UnresolvedEdgePolicy::Error => "error"@,
        UnresolvedEdgePolicy::Ignore => "ignore"@,
    }
}

pub open spec fn ownership_rank(l: StrictOwnershipLevel) -> int {
    match l {
        StrictOwnershipLevel::Errors => 0,
        StrictOwnershipLevel::Warnings => 1,
    }
}

pub open spec fn ownership_text(l: StrictOwnershipLevel) -> Seq<char> {
    match l {
        StrictOwnershipLevel::Errors => "errors"@,
        StrictOwnershipLevel::Warnings => "warnings"@,
    }
}

pub open spec fn channel_text(c: ReleaseChannel) -> Seq<char> {
    match c {
        ReleaseChannel::Stable => "stable"@,
        ReleaseChannel::Beta => "beta"@,
    }
}

pub open spec fn severity_rank(s: Severity) -> int {
    match s {
        Severity::Error => 0,
        Severity::Warning => 1,
    }
}

pub open spec fn severity_text(s: Severity) -> Seq<char> {
    match s {
        Severity::Error => "error"@,
        Severity::Warning => "warning"@,
    }
}

pub open spec fn effective_severity(e: DenyDeepImportEntry) -> Severity {
    match e.severity {
        Some(s) => s,
        None => Severity::Warning,
    }
}

/// The depth and effective severity of the last entry whose trimmed pattern is `p`.
pub open spec fn last_entry(entries: Seq<DenyDeepImportEntry>, p: Seq<char>) -> Option<(nat, Severity)>
    decreases entries.len(),
{
    if entries.len() == 0 {
        None
    } else if trim(entries.last().pattern@) == p {
        Some((entries.last().max_depth as nat, effective_severity(entries.last())))
    } else {
        last_entry(entries.drop_last(), p)
    }
}

/// The JSON rendering of a normalized deep-import entry.
pub open spec fn entry_text(p: Seq<char>, e: (nat, Severity)) -> Seq<char> {
    json_deep_import_entry(p, e.0, severity_text(e.1))
}

/// Direction of a change to an entry present on both sides: depth and
/// severity each give a direction (more depth or a laxer severity widens);
/// one direction, or two that agree, decide; otherwise it is structural.
pub open spec fn deep_entry_direction(before: (nat, Severity), after: (nat, Severity)) -> ChangeClassification {
    let depth = if after.0 < before.0 {
        Some(ChangeClassification::Narrowing)
    } else if after.0 > before.0 {
        Some(ChangeClassification::Widening)
    } else {
        None
    };
    let sev = if severity_rank(after.1) < severity_rank(before.1) {
        Some(ChangeClassification::Narrowing)
    } else if severity_rank(after.1) > severity_rank(before.1) {
        Some(ChangeClassification::Widening)
    } else {
        None
    };
    match (depth, sev) {
        (Some(d), None) => d,
        (None, Some(s)) => s,
        (Some(d), Some(s)) => if d == s { d } else { ChangeClassification::StructuralChange },
        (None, None) => ChangeClassification::StructuralChange,
    }
}

/// The change, if any, of the entry for pattern `p`.
pub open spec fn deep_pattern_change(
    field: Seq<char>,
    p: Seq<char>,
    base: Seq<DenyDeepImportEntry>,
    head: Seq<DenyDeepImportEntry>,
) -> Option<ChangeModel> {
    match (last_entry(base, p), last_entry(head, p)) {
        (Some(b), None) => Some((field, ChangeClassification::Widening, entry_text(p, b), absent())),
        (None, Some(h)) => Some((field, ChangeClassification::Narrowing, absent(), entry_text(p, h))),
        (Some(b), Some(h)) => if b != h {
            Some((field, deep_entry_direction(b, h), entry_text(p, b), entry_text(p, h)))
        } else {
            None
        },
        (None, None) => None,
    }
}

/// Changes of the deny-deep-imports list, keyed by trimmed pattern: a pattern
/// dropped at head widens, one added narrows, one changed is classified by
/// `deep_entry_direction`.
pub open spec fn deep_import_changes(
    field: Seq<char>,
    base: Seq<DenyDeepImportEntry>,
    head: Seq<DenyDeepImportEntry>,
) -> Set<ChangeModel> {
    Set::new(|m: ChangeModel| exists|p: Seq<char>| deep_pattern_change(field, p, base, head) == Some(m))
}

/// Every classified difference between two configurations.
pub open spec fn config_changes(base: SpecConfig, head: SpecConfig) -> Set<ChangeModel> {
    string_set_changes(
        "exclude"@,
        views(base.exclude@).to_set(),
        views(head.exclude@).to_set(),
        ChangeClassification::Widening,
        ChangeClassification::Narrowing,
    ) + string_set_changes(
        "spec_dirs"@,
        views(base.spec_dirs@).to_set(),
        views(head.spec_dirs@).to_set(),
        ChangeClassification::Narrowing,
        ChangeClassification::Widening,
    ) + limit_changes(
        "escape_hatches.max_new_per_diff"@,
        base.escape_hatches.max_new_per_diff,
        head.escape_hatches.max_new_per_diff,
    ) + ranked_changes(
        "escape_hatches.require_expiry"@,
        bool_rank(base.escape_hatches.require_expiry),
        bool_rank(head.escape_hatches.require_expiry),
        bool_text(base.escape_hatches.require_expiry),
        bool_text(head.escape_hatches.require_expiry),
    ) + ranked_changes(
        "jest_mock_mode"@,
        jest_rank(base.jest_mock_mode),
        jest_rank(head.jest_mock_mode),
        jest_text(base.jest_mock_mode),
        jest_text(head.jest_mock_mode),
    ) + ranked_changes(
        "stale_baseline"@,
        stale_rank(base.stale_baseline),
        stale_rank(head.stale_baseline),
        stale_text(base.stale_baseline),
        stale_text(head.stale_baseline),
    ) + ranked_changes(
        "enforce_type_only_imports"@,
        bool_rank(base.enforce_type_only_imports),
        bool_rank(head.enforce_type_only_imports),
        bool_text(base.enforce_type_only_imports),
        bool_text(head.enforce_type_only_imports),
    ) + ranked_changes(
        "unresolved_edge_policy"@,
        unresolved_rank(base.unresolved_edge_policy),
        unresolved_rank(head.unresolved_edge_policy),
        unresolved_text(base.unresolved_edge_policy),
        unresolved_text(head.unresolved_edge_policy),
    ) + ranked_changes(
        "strict_ownership"@,
        bool_rank(base.strict_ownership),
        bool_rank(head.strict_ownership),
        bool_text(base.strict_ownership),
        bool_text(head.strict_ownership),
    ) + deep_import_changes(
        "import_hygiene.deny_deep_imports"@,
        base.import_hygiene.deny_deep_imports@,
        head.import_hygiene.deny_deep_imports@,
    ) + ranked_changes(
        "envelope.enabled"@,
        bool_rank(base.envelope.enabled),
        bool_rank(head.envelope.enabled),
        bool_text(base.envelope.enabled),
        bool_text(head.envelope.enabled),
    ) + ranked_changes(
        "strict_ownership_level"@,
        ownership_rank(base.strict_ownership_level),
        ownership_rank(head.strict_ownership_level),
        ownership_text(base.strict_ownership_level),
        ownership_text(head.strict_ownership_level),
    ) + structural_changes(
        "telemetry"@,
        base.telemetry == head.telemetry,
        bool_text(base.telemetry),
        bool_text(head.telemetry),
    ) + structural_changes(
        "release_channel"@,
        base.release_channel == head.release_channel,
        channel_text(base.release_channel),
        channel_text(head.release_channel),
    ) + structural_changes(
        "tsconfig_filename"@,
        base.tsconfig_filename@ == head.tsconfig_filename@,
        base.tsconfig_filename@,
        head.tsconfig_filename@,
    ) + structural_changes(
        "test_patterns"@,
        views(base.test_patterns@) == views(head.test_patterns@),
        json_string_array(views(base.test_patterns@)),
        json_string_array(views(head.test_patterns@)),
    ) + structural_changes(
        "include_dirs"@,
        views(base.include_dirs@) == views(head.include_dirs@),
        json_string_array(views(base.include_dirs@)),
        json_string_array(views(head.include_dirs@)),
    )
}

/// Moving `stale_baseline` from warn to fail tightens the policy (narrowing)
/// and back from fail to warn loosens it (widening), whatever else changes.
pub proof fn law_stale_baseline_direction(base: SpecConfig, head: SpecConfig)
    ensures
        base.stale_baseline == StaleBaselinePolicy::Warn && head.stale_baseline == StaleBaselinePolicy::Fail
            ==> config_changes(base, head).contains(
            ("stale_baseline"@, ChangeClassification::Narrowing, "warn"@, "fail"@),
        ),
        base.stale_baseline == StaleBaselinePolicy::Fail && head.stale_baseline == StaleBaselinePolicy::Warn
            ==> config_changes(base, head).contains(
            ("stale_baseline"@, ChangeClassification::Widening, "fail"@, "warn"@),
        ),
{
}

/// Moving `jest_mock_mode` from warn to enforce narrows, back widens.
pub proof fn law_jest_mock_mode_direction(base: SpecConfig, head: SpecConfig)
    ensures
        base.jest_mock_mode == JestMockMode::Warn && head.jest_mock_mode == JestMockMode::Enforce
            ==> config_changes(base, head).contains(
            ("jest_mock_mode"@, ChangeClassification::Narrowing, "warn"@, "enforce"@),
        ),
        base.jest_mock_mode == JestMockMode::Enforce && head.jest_mock_mode == JestMockMode::Warn
            ==> config_changes(base, head).contains(
            ("jest_mock_mode"@, ChangeClassification::Widening, "enforce"@, "warn"@),
        ),
{
}

/// `b` treats unresolved edges more strictly than `a`: ignoring them is the
/// loosest, warning in between, failing the strictest.
pub open spec fn unresolved_stricter(a: UnresolvedEdgePolicy, b: UnresolvedEdgePolicy) -> bool {
    (a == UnresolvedEdgePolicy::Ignore && b != UnresolvedEdgePolicy::Ignore) || (a == UnresolvedEdgePolicy::Warn
        && b == UnresolvedEdgePolicy::Error)
}

/// A change of `unresolved_edge_policy` narrows when it becomes stricter
/// (ignore, then warn, then error) and widens otherwise.
pub proof fn law_unresolved_edge_policy_direction(base: SpecConfig, head: SpecConfig)
    ensures
        base.unresolved_edge_policy != head.unresolved_edge_policy ==> config_changes(base, head).contains(
            (
                "unresolved_edge_policy"@,
                if unresolved_stricter(base.unresolved_edge_policy, head.unresolved_edge_policy) {
                    ChangeClassification::Narrowing
                } else {
                    ChangeClassification::Widening
                },
                unresolved_text(base.unresolved_edge_policy),
                unresolved_text(head.unresolved_edge_policy),
            ),
        ),
{
}

/// Moving `strict_ownership_level` from errors to warnings is reported as
/// narrowing and back as widening (the ranking the tool uses: errors 0,
/// warnings 1).
pub proof fn law_strict_ownership_level_direction(base: SpecConfig, head: SpecConfig)
    ensures
        base.strict_ownership_level == StrictOwnershipLevel::Errors && head.strict_ownership_level
            == StrictOwnershipLevel::Warnings ==> config_changes(base, head).contains(
            ("strict_ownership_level"@, ChangeClassification::Narrowing, "errors"@, "warnings"@),
        ),
        base.strict_ownership_level == StrictOwnershipLevel::Warnings && head.strict_ownership_level
            == StrictOwnershipLevel::Errors ==> config_changes(base, head).contains(
            ("strict_ownership_level"@, ChangeClassification::Widening, "warnings"@, "errors"@),
        ),
{
}

/// Turning `escape_hatches.require_expiry` on narrows the policy; turning it off widens it.
pub proof fn law_require_expiry_switch_direction(base: SpecConfig, head: SpecConfig)
    ensures
        base.escape_hatches.require_expiry != head.escape_hatches.require_expiry ==> config_changes(base, head).contains(
            (
                "escape_hatches.require_expiry"@,
                if head.escape_hatches.require_expiry {
                    ChangeClassification::Narrowing
                } else {
                    ChangeClassification::Widening
                },
                if base.escape_hatches.require_expiry { "true"@ } else { "false"@ },
                if head.escape_hatches.require_expiry { "true"@ } else { "false"@ },
            ),
        ),
{
}

/// Turning `enforce_type_only_imports` on narrows the policy; turning it off widens it.
pub proof fn law_type_only_imports_switch_direction(base: SpecConfig, head: SpecConfig)
    ensures
        base.enforce_type_only_imports != head.enforce_type_only_imports ==> config_changes(base, head).contains(
            (
                "enforce_type_only_imports"@,
                if head.enforce_type_only_imports {
                    ChangeClassification::Narrowing
                } else {
                    ChangeClassification::Widening
                },
                if base.enforce_type_only_imports { "true"@ } else { "false"@ },
                if head.enforce_type_only_imports { "true"@ } else { "false"@ },
            ),
        ),
{
}

/// Turning `strict_ownership` on narrows the policy; turning it off widens it.
pub proof fn law_strict_ownership_switch_direction(base: SpecConfig, head: SpecConfig)
    ensures
        base.strict_ownership != head.strict_ownership ==> config_changes(base, head).contains(
            (
                "strict_ownership"@,
                if head.strict_ownership {
                    ChangeClassification::Narrowing
                } else {
                    ChangeClassification::Widening
                },
                if base.strict_ownership { "true"@ } else { "false"@ },
                if head.strict_ownership { "true"@ } else { "false"@ },
            ),
        ),
{
}

/// Turning `envelope.enabled` on narrows the policy; turning it off widens it.
pub proof fn law_envelope_switch_direction(base: SpecConfig, head: SpecConfig)
    ensures
        base.envelope.enabled != head.envelope.enabled ==> config_changes(base, head).contains(
            (
                "envelope.enabled"@,
                if head.envelope.enabled {
                    ChangeClassification::Narrowing
                } else {
                    ChangeClassification::Widening
                },
                if base.envelope.enabled { "true"@ } else { "false"@ },
                if head.envelope.enabled { "true"@ } else { "false"@ },
            ),
        ),
{
}

/// Raising or removing the escape-hatch limit widens; lowering or
/// introducing it narrows.
pub proof fn law_escape_hatch_limit_direction(base: SpecConfig, head: SpecConfig)
    ensures
        base.escape_hatches.max_new_per_diff matches Some(b) ==> (head.escape_hatches.max_new_per_diff matches Some(
            h,
        ) ==> (h > b ==> config_changes(base, head).contains(
            (
                "escape_hatches.max_new_per_diff"@,
                ChangeClassification::Widening,
                limit_text(base.escape_hatches.max_new_per_diff),
                limit_text(head.escape_hatches.max_new_per_diff),
            ),
        )) && (h < b ==> config_changes(base, head).contains(
            (
                "escape_hatches.max_new_per_diff"@,
                ChangeClassification::Narrowing,
                limit_text(base.escape_hatches.max_new_per_diff),
                limit_text(head.escape_hatches.max_new_per_diff),
            ),
        ))),
        base.escape_hatches.max_new_per_diff is Some && head.escape_hatches.max_new_per_diff is None
            ==> config_changes(base, head).contains(
            (
                "escape_hatches.max_new_per_diff"@,
                ChangeClassification::Widening,
                limit_text(base.escape_hatches.max_new_per_diff),
                "none"@,
            ),
        ),
        base.escape_hatches.max_new_per_diff is None && head.escape_hatches.max_new_per_diff is Some
            ==> config_changes(base, head).contains(
            (
                "escape_hatches.max_new_per_diff"@,
                ChangeClassification::Narrowing,
                "none"@,
                limit_text(head.escape_hatches.max_new_per_diff),
            ),
        ),
{
}

/// The opposite direction: widening and narrowing swap.
pub open spec fn flipped(c: ChangeClassification) -> ChangeClassification {
    match c {
        ChangeClassification::Widening => ChangeClassification::Narrowing,
        ChangeClassification::Narrowing => ChangeClassification::Widening,
        ChangeClassification::StructuralChange => ChangeClassification::StructuralChange,
    }
}

/// A change seen from the other side: the direction flips and the values
/// before and after swap.
pub open spec fn reversed_change(m: ChangeModel) -> ChangeModel {
    (m.0, flipped(m.1), m.3, m.2)
}

/// The changes seen from the other side.
#[verifier::opaque]
pub open spec fn reversed(s: Set<ChangeModel>) -> Set<ChangeModel> {
    Set::new(|m: ChangeModel| s.contains(reversed_change(m)))
}

/// A configuration classified against itself gives an empty list: any list
/// whose changes are those of `classify_config_changes(c, c)` is empty.
pub proof fn law_identical_configs_report_nothing(c: SpecConfig, r: Seq<ConfigFieldChange>)
    requires
        change_models(r).to_set() == config_changes(c, c),
    ensures
        r.len() == 0,
{
    law_identical_configs_have_no_changes(c);
    if r.len() > 0 {
        assert(change_models(r).to_set().contains(change_models(r)[0]));
    }
}

/// Comparing a configuration with itself finds no change.
pub proof fn law_identical_configs_have_no_changes(c: SpecConfig)
    ensures
        config_changes(c, c) == Set::<ChangeModel>::empty(),
{
    let e = c.import_hygiene.deny_deep_imports@;
    assert(deep_import_changes("import_hygiene.deny_deep_imports"@, e, e) =~= Set::<ChangeModel>::empty());
    assert(string_set_changes(
        "exclude"@,
        views(c.exclude@).to_set(),
        views(c.exclude@).to_set(),
        ChangeClassification::Widening,
        ChangeClassification::Narrowing,
    ) =~= Set::<ChangeModel>::empty());
    assert(string_set_changes(
        "spec_dirs"@,
        views(c.spec_dirs@).to_set(),
        views(c.spec_dirs@).to_set(),
        ChangeClassification::Narrowing,
        ChangeClassification::Widening,
    ) =~= Set::<ChangeModel>::empty());
    assert(config_changes(c, c) =~= Set::<ChangeModel>::empty());
}

proof fn lemma_set_changes_reverse(
    field: Seq<char>,
    base: Set<Seq<char>>,
    head: Set<Seq<char>>,
    added: ChangeClassification,
    removed: ChangeClassification,
)
    requires
        flipped(added) == removed,
    ensures
        string_set_changes(field, head, base, added, removed) == reversed(
            string_set_changes(field, base, head, added, removed),
        ),
{
    reveal(reversed);
    assert(flipped(removed) == added);
    assert(string_set_changes(field, head, base, added, removed) =~= reversed(
        string_set_changes(field, base, head, added, removed),
    ));
}

proof fn lemma_deep_changes_reverse(field: Seq<char>, base: Seq<DenyDeepImportEntry>, head: Seq<DenyDeepImportEntry>)
    ensures
        deep_import_changes(field, head, base) == reversed(deep_import_changes(field, base, head)),
{
    reveal(reversed);
    assert forall|m: ChangeModel| #[trigger] deep_import_changes(field, head, base).contains(m) <==> reversed(
        deep_import_changes(field, base, head),
    ).contains(m) by {
        if deep_import_changes(field, head, base).contains(m) {
            let p = choose|p: Seq<char>| deep_pattern_change(field, p, head, base) == Some(m);
            assert(deep_pattern_change(field, p, base, head) == Some(reversed_change(m)));
        }
        if reversed(deep_import_changes(field, base, head)).contains(m) {
            let p = choose|p: Seq<char>| deep_pattern_change(field, p, base, head) == Some(reversed_change(m));
            assert(deep_pattern_change(field, p, head, base) == Some(m));
        }
    }
    assert(deep_import_changes(field, head, base) =~= reversed(deep_import_changes(field, base, head)));
}

proof fn lemma_reversed_union(a: Set<ChangeModel>, b: Set<ChangeModel>)
    ensures
        reversed(a + b) == reversed(a) + reversed(b),
{
    reveal(reversed);
    assert(reversed(a + b) =~= reversed(a) + reversed(b));
}

proof fn lemma_ranked_reverse(field: Seq<char>, br: int, hr: int, before: Seq<char>, after: Seq<char>)
    ensures
        ranked_changes(field, hr, br, after, before) == reversed(ranked_changes(field, br, hr, before, after)),
{
    reveal(reversed);
    assert(ranked_changes(field, hr, br, after, before) =~= reversed(ranked_changes(field, br, hr, before, after)));
}

proof fn lemma_limit_reverse(field: Seq<char>, b: Option<usize>, h: Option<usize>)
    ensures
        limit_changes(field, h, b) == reversed(limit_changes(field, b, h)),
{
    reveal(reversed);
    assert(limit_changes(field, h, b) =~= reversed(limit_changes(field, b, h)));
}

proof fn lemma_structural_reverse(field: Seq<char>, same: bool, before: Seq<char>, after: Seq<char>)
    ensures
        structural_changes(field, same, after, before) == reversed(structural_changes(field, same, before, after)),
{
    reveal(reversed);
    assert(structural_changes(field, same, after, before) =~= reversed(structural_changes(field, same, before, after)));
}

proof fn lemma_config_changes_unfold(base: SpecConfig, head: SpecConfig)
    ensures
        config_changes(base, head) === (string_set_changes(
        "exclude"@,
        views(base.exclude@).to_set(),
        views(head.exclude@).to_set(),
        ChangeClassification::Widening,
        ChangeClassification::Narrowing,
    ) + string_set_changes(
        "spec_dirs"@,
        views(base.spec_dirs@).to_set(),
        views(head.spec_dirs@).to_set(),
        ChangeClassification::Narrowing,
        ChangeClassification::Widening,
    ) + limit_changes(
        "escape_hatches.max_new_per_diff"@,
        base.escape_hatches.max_new_per_diff,
        head.escape_hatches.max_new_per_diff,
    ) + ranked_changes(
        "escape_hatches.require_expiry"@,
        bool_rank(base.escape_hatches.require_expiry),
        bool_rank(head.escape_hatches.require_expiry),
        bool_text(base.escape_hatches.require_expiry),
        bool_text(head.escape_hatches.require_expiry),
    ) + ranked_changes(
        "jest_mock_mode"@,
        jest_rank(base.jest_mock_mode),
        jest_rank(head.jest_mock_mode),
        jest_text(base.jest_mock_mode),
        jest_text(head.jest_mock_mode),
    ) + ranked_changes(
        "stale_baseline"@,
        stale_rank(base.stale_baseline),
        stale_rank(head.stale_baseline),
        stale_text(base.stale_baseline),
        stale_text(head.stale_baseline),
    ) + ranked_changes(
        "enforce_type_only_imports"@,
        bool_rank(base.enforce_type_only_imports),
        bool_rank(head.enforce_type_only_imports),
        bool_text(base.enforce_type_only_imports),
        bool_text(head.enforce_type_only_imports),
    ) + ranked_changes(
        "unresolved_edge_policy"@,
        unresolved_rank(base.unresolved_edge_policy),
        unresolved_rank(head.unresolved_edge_policy),
        unresolved_text(base.unresolved_edge_policy),
        unresolved_text(head.unresolved_edge_policy),
    ) + ranked_changes(
        "strict_ownership"@,
        bool_rank(base.strict_ownership),
        bool_rank(head.strict_ownership),
        bool_text(base.strict_ownership),
        bool_text(head.strict_ownership),
    ) + deep_import_changes(
        "import_hygiene.deny_deep_imports"@,
        base.import_hygiene.deny_deep_imports@,
        head.import_hygiene.deny_deep_imports@,
    ) + ranked_changes(
        "envelope.enabled"@,
        bool_rank(base.envelope.enabled),
        bool_rank(head.envelope.enabled),
        bool_text(base.envelope.enabled),
        bool_text(head.envelope.enabled),
    ) + ranked_changes(
        "strict_ownership_level"@,
        ownership_rank(base.strict_ownership_level),
        ownership_rank(head.strict_ownership_level),
        ownership_text(base.strict_ownership_level),
        ownership_text(head.strict_ownership_level),
    ) + structural_changes(
        "telemetry"@,
        base.telemetry == head.telemetry,
        bool_text(base.telemetry),
        bool_text(head.telemetry),
    ) + structural_changes(
        "release_channel"@,
        base.release_channel == head.release_channel,
        channel_text(base.release_channel),
        channel_text(head.release_channel),
    ) + structural_changes(
        "tsconfig_filename"@,
        base.tsconfig_filename@ == head.tsconfig_filename@,
        base.tsconfig_filename@,
        head.tsconfig_filename@,
    ) + structural_changes(
        "test_patterns"@,
        views(base.test_patterns@) == views(head.test_patterns@),
        json_string_array(views(base.test_patterns@)),
        json_string_array(views(head.test_patterns@)),
    ) + structural_changes(
        "include_dirs"@,
        views(base.include_dirs@) == views(head.include_dirs@),
        json_string_array(views(base.include_dirs@)),
        json_string_array(views(head.include_dirs@)),
    )),
{
}

/// Comparing the other way round finds the same changes with the direction
/// flipped (widening for narrowing) and before and after swapped.
#[verifier::spinoff_prover]
#[verifier::rlimit(100)]
pub proof fn law_reversed_comparison_flips_changes(base: SpecConfig, head: SpecConfig)
    ensures
        config_changes(head, base) == reversed(config_changes(base, head)),
{
    let a0 = string_set_changes(
        "exclude"@,
        views(base.exclude@).to_set(),
        views(head.exclude@).to_set(),
        ChangeClassification::Widening,
        ChangeClassification::Narrowing,
    );
    let r0 = string_set_changes(
        "exclude"@,
        views(head.exclude@).to_set(),
        views(base.exclude@).to_set(),
        ChangeClassification::Widening,
        ChangeClassification::Narrowing,
    );
    let a1 = string_set_changes(
        "spec_dirs"@,
        views(base.spec_dirs@).to_set(),
        views(head.spec_dirs@).to_set(),
        ChangeClassification::Narrowing,
        ChangeClassification::Widening,
    );
    let r1 = string_set_changes(
        "spec_dirs"@,
        views(head.spec_dirs@).to_set(),
        views(base.spec_dirs@).to_set(),
        ChangeClassification::Narrowing,
        ChangeClassification::Widening,
    );
    let a2 = limit_changes(
        "escape_hatches.max_new_per_diff"@,
        base.escape_hatches.max_new_per_diff,
        head.escape_hatches.max_new_per_diff,
    );
    let r2 = limit_changes(
        "escape_hatches.max_new_per_diff"@,
        head.escape_hatches.max_new_per_diff,
        base.escape_hatches.max_new_per_diff,
    );
    let a3 = ranked_changes(
        "escape_hatches.require_expiry"@,
        bool_rank(base.escape_hatches.require_expiry),
        bool_rank(head.escape_hatches.require_expiry),
        bool_text(base.escape_hatches.require_expiry),
        bool_text(head.escape_hatches.require_expiry),
    );
    let r3 = ranked_changes(
        "escape_hatches.require_expiry"@,
        bool_rank(head.escape_hatches.require_expiry),
        bool_rank(base.escape_hatches.require_expiry),
        bool_text(head.escape_hatches.require_expiry),
        bool_text(base.escape_hatches.require_expiry),
    );
    let a4 = ranked_changes(
        "jest_mock_mode"@,
        jest_rank(base.jest_mock_mode),
        jest_rank(head.jest_mock_mode),
        jest_text(base.jest_mock_mode),
        jest_text(head.jest_mock_mode),
    );
    let r4 = ranked_changes(
        "jest_mock_mode"@,
        jest_rank(head.jest_mock_mode),
        jest_rank(base.jest_mock_mode),
        jest_text(head.jest_mock_mode),
        jest_text(base.jest_mock_mode),
    );
    let a5 = ranked_changes(
        "stale_baseline"@,
        stale_rank(base.stale_baseline),
        stale_rank(head.stale_baseline),
        stale_text(base.stale_baseline),
        stale_text(head.stale_baseline),
    );
    let r5 = ranked_changes(
        "stale_baseline"@,
        stale_rank(head.stale_baseline),
        stale_rank(base.stale_baseline),
        stale_text(head.stale_baseline),
        stale_text(base.stale_baseline),
    );
    let a6 = ranked_changes(
        "enforce_type_only_imports"@,
        bool_rank(base.enforce_type_only_imports),
        bool_rank(head.enforce_type_only_imports),
        bool_text(base.enforce_type_only_imports),
        bool_text(head.enforce_type_only_imports),
    );
    let r6 = ranked_changes(
        "enforce_type_only_imports"@,
        bool_rank(head.enforce_type_only_imports),
        bool_rank(base.enforce_type_only_imports),
        bool_text(head.enforce_type_only_imports),
        bool_text(base.enforce_type_only_imports),
    );
    let a7 = ranked_changes(
        "unresolved_edge_policy"@,
        unresolved_rank(base.unresolved_edge_policy),
        unresolved_rank(head.unresolved_edge_policy),
        unresolved_text(base.unresolved_edge_policy),
        unresolved_text(head.unresolved_edge_policy),
    );
    let r7 = ranked_changes(
        "unresolved_edge_policy"@,
        unresolved_rank(head.unresolved_edge_policy),
        unresolved_rank(base.unresolved_edge_policy),
        unresolved_text(head.unresolved_edge_policy),
        unresolved_text(base.unresolved_edge_policy),
    );
    let a8 = ranked_changes(
        "strict_ownership"@,
        bool_rank(base.strict_ownership),
        bool_rank(head.strict_ownership),
        bool_text(base.strict_ownership),
        bool_text(head.strict_ownership),
    );
    let r8 = ranked_changes(
        "strict_ownership"@,
        bool_rank(head.strict_ownership),
        bool_rank(base.strict_ownership),
        bool_text(head.strict_ownership),
        bool_text(base.strict_ownership),
    );
    let a9 = deep_import_changes(
        "import_hygiene.deny_deep_imports"@,
        base.import_hygiene.deny_deep_imports@,
        head.import_hygiene.deny_deep_imports@,
    );
    let r9 = deep_import_changes(
        "import_hygiene.deny_deep_imports"@,
        head.import_hygiene.deny_deep_imports@,
        base.import_hygiene.deny_deep_imports@,
    );
    let a10 = ranked_changes(
        "envelope.enabled"@,
        bool_rank(base.envelope.enabled),
        bool_rank(head.envelope.enabled),
        bool_text(base.envelope.enabled),
        bool_text(head.envelope.enabled),
    );
    let r10 = ranked_changes(
        "envelope.enabled"@,
        bool_rank(head.envelope.enabled),
        bool_rank(base.envelope.enabled),
        bool_text(head.envelope.enabled),
        bool_text(base.envelope.enabled),
    );
    let a11 = ranked_changes(
        "strict_ownership_level"@,
        ownership_rank(base.strict_ownership_level),
        ownership_rank(head.strict_ownership_level),
        ownership_text(base.strict_ownership_level),
        ownership_text(head.strict_ownership_level),
    );
    let r11 = ranked_changes(
        "strict_ownership_level"@,
        ownership_rank(head.strict_ownership_level),
        ownership_rank(base.strict_ownership_level),
        ownership_text(head.strict_ownership_level),
        ownership_text(base.strict_ownership_level),
    );
    let a12 = structural_changes(
        "telemetry"@,
        base.telemetry == head.telemetry,
        bool_text(base.telemetry),
        bool_text(head.telemetry),
    );
    let r12 = structural_changes(
        "telemetry"@,
        head.telemetry == base.telemetry,
        bool_text(head.telemetry),
        bool_text(base.telemetry),
    );
    let a13 = structural_changes(
        "release_channel"@,
        base.release_channel == head.release_channel,
        channel_text(base.release_channel),
        channel_text(head.release_channel),
    );
    let r13 = structural_changes(
        "release_channel"@,
        head.release_channel == base.release_channel,
        channel_text(head.release_channel),
        channel_text(base.release_channel),
    );
    let a14 = structural_changes(
        "tsconfig_filename"@,
        base.tsconfig_filename@ == head.tsconfig_filename@,
        base.tsconfig_filename@,
        head.tsconfig_filename@,
    );
    let r14 = structural_changes(
        "tsconfig_filename"@,
        head.tsconfig_filename@ == base.tsconfig_filename@,
        head.tsconfig_filename@,
        base.tsconfig_filename@,
    );
    let a15 = structural_changes(
        "test_patterns"@,
        views(base.test_patterns@) == views(head.test_patterns@),
        json_string_array(views(base.test_patterns@)),
        json_string_array(views(head.test_patterns@)),
    );
    let r15 = structural_changes(
        "test_patterns"@,
        views(head.test_patterns@) == views(base.test_patterns@),
        json_string_array(views(head.test_patterns@)),
        json_string_array(views(base.test_patterns@)),
    );
    let a16 = structural_changes(
        "include_dirs"@,
        views(base.include_dirs@) == views(head.include_dirs@),
        json_string_array(views(base.include_dirs@)),
        json_string_array(views(head.include_dirs@)),
    );
    let r16 = structural_changes(
        "include_dirs"@,
        views(head.include_dirs@) == views(base.include_dirs@),
        json_string_array(views(head.include_dirs@)),
        json_string_array(views(base.include_dirs@)),
    );
    lemma_set_changes_reverse(
        "exclude"@,
        views(base.exclude@).to_set(),
        views(head.exclude@).to_set(),
        ChangeClassification::Widening,
        ChangeClassification::Narrowing,
    );
    assert(r0 == reversed(a0));
    lemma_set_changes_reverse(
        "spec_dirs"@,
        views(base.spec_dirs@).to_set(),
        views(head.spec_dirs@).to_set(),
        ChangeClassification::Narrowing,
        ChangeClassification::Widening,
    );
    assert(r1 == reversed(a1));
    lemma_limit_reverse(
        "escape_hatches.max_new_per_diff"@,
        base.escape_hatches.max_new_per_diff,
        head.escape_hatches.max_new_per_diff,
    );
    assert(r2 == reversed(a2));
    lemma_ranked_reverse(
        "escape_hatches.require_expiry"@,
        bool_rank(base.escape_hatches.require_expiry),
        bool_rank(head.escape_hatches.require_expiry),
        bool_text(base.escape_hatches.require_expiry),
        bool_text(head.escape_hatches.require_expiry),
    );
    assert(r3 == reversed(a3));
    lemma_ranked_reverse(
        "jest_mock_mode"@,
        jest_rank(base.jest_mock_mode),
        jest_rank(head.jest_mock_mode),
        jest_text(base.jest_mock_mode),
        jest_text(head.jest_mock_mode),
    );
    assert(r4 == reversed(a4));
    lemma_ranked_reverse(
        "stale_baseline"@,
        stale_rank(base.stale_baseline),
        stale_rank(head.stale_baseline),
        stale_text(base.stale_baseline),
        stale_text(head.stale_baseline),
    );
    assert(r5 == reversed(a5));
    lemma_ranked_reverse(
        "enforce_type_only_imports"@,
        bool_rank(base.enforce_type_only_imports),
        bool_rank(head.enforce_type_only_imports),
        bool_text(base.enforce_type_only_imports),
        bool_text(head.enforce_type_only_imports),
    );
    assert(r6 == reversed(a6));
    lemma_ranked_reverse(
        "unresolved_edge_policy"@,
        unresolved_rank(base.unresolved_edge_policy),
        unresolved_rank(head.unresolved_edge_policy),
        unresolved_text(base.unresolved_edge_policy),
        unresolved_text(head.unresolved_edge_policy),
    );
    assert(r7 == reversed(a7));
    lemma_ranked_reverse(
        "strict_ownership"@,
        bool_rank(base.strict_ownership),
        bool_rank(head.strict_ownership),
        bool_text(base.strict_ownership),
        bool_text(head.strict_ownership),
    );
    assert(r8 == reversed(a8));
    lemma_deep_changes_reverse(
        "import_hygiene.deny_deep_imports"@,
        base.import_hygiene.deny_deep_imports@,
        head.import_hygiene.deny_deep_imports@,
    );
    assert(r9 == reversed(a9));
    lemma_ranked_reverse(
        "envelope.enabled"@,
        bool_rank(base.envelope.enabled),
        bool_rank(head.envelope.enabled),
        bool_text(base.envelope.enabled),
        bool_text(head.envelope.enabled),
    );
    assert(r10 == reversed(a10));
    lemma_ranked_reverse(
        "strict_ownership_level"@,
        ownership_rank(base.strict_ownership_level),
        ownership_rank(head.strict_ownership_level),
        ownership_text(base.strict_ownership_level),
        ownership_text(head.strict_ownership_level),
    );
    assert(r11 == reversed(a11));
    lemma_structural_reverse(
        "telemetry"@,
        base.telemetry == head.telemetry,
        bool_text(base.telemetry),
        bool_text(head.telemetry),
    );
    assert(r12 == reversed(a12));
    lemma_structural_reverse(
        "release_channel"@,
        base.release_channel == head.release_channel,
        channel_text(base.release_channel),
        channel_text(head.release_channel),
    );
    assert(r13 == reversed(a13));
    lemma_structural_reverse(
        "tsconfig_filename"@,
        base.tsconfig_filename@ == head.tsconfig_filename@,
        base.tsconfig_filename@,
        head.tsconfig_filename@,
    );
    assert(r14 == reversed(a14));
    lemma_structural_reverse(
        "test_patterns"@,
        views(base.test_patterns@) == views(head.test_patterns@),
        json_string_array(views(base.test_patterns@)),
        json_string_array(views(head.test_patterns@)),
    );
    assert(r15 == reversed(a15));
    lemma_structural_reverse(
        "include_dirs"@,
        views(base.include_dirs@) == views(head.include_dirs@),
        json_string_array(views(base.include_dirs@)),
        json_string_array(views(head.include_dirs@)),
    );
    assert(r16 == reversed(a16));
    lemma_reversed_union(a0, a1);
    assert(reversed((a0 + a1)) == (r0 + r1));
    lemma_reversed_union((a0 + a1), a2);
    assert(reversed(((a0 + a1) + a2)) == ((r0 + r1) + r2));
    lemma_reversed_union(((a0 + a1) + a2), a3);
    assert(reversed((((a0 + a1) + a2) + a3)) == (((r0 + r1) + r2) + r3));
    lemma_reversed_union((((a0 + a1) + a2) + a3), a4);
    assert(reversed(((((a0 + a1) + a2) + a3) + a4)) == ((((r0 + r1) + r2) + r3) + r4));
    lemma_reversed_union(((((a0 + a1) + a2) + a3) + a4), a5);
    assert(reversed((((((a0 + a1) + a2) + a3) + a4) + a5)) == (((((r0 + r1) + r2) + r3) + r4) + r5));
    lemma_reversed_union((((((a0 + a1) + a2) + a3) + a4) + a5), a6);
    assert(reversed(((((((a0 + a1) + a2) + a3) + a4) + a5) + a6)) == ((((((r0 + r1) + r2) + r3) + r4) + r5) + r6));
    lemma_reversed_union(((((((a0 + a1) + a2) + a3) + a4) + a5) + a6), a7);
    assert(reversed((((((((a0 + a1) + a2) + a3) + a4) + a5) + a6) + a7)) == (((((((r0 + r1) + r2) + r3) + r4) + r5) + r6) + r7));
    lemma_reversed_union((((((((a0 + a1) + a2) + a3) + a4) + a5) + a6) + a7), a8);
    assert(reversed(((((((((a0 + a1) + a2) + a3) + a4) + a5) + a6) + a7) + a8)) == ((((((((r0 + r1) + r2) + r3) + r4) + r5) + r6) + r7) + r8));
    lemma_reversed_union(((((((((a0 + a1) + a2) + a3) + a4) + a5) + a6) + a7) + a8), a9);
    assert(reversed((((((((((a0 + a1) + a2) + a3) + a4) + a5) + a6) + a7) + a8) + a9)) == (((((((((r0 + r1) + r2) + r3) + r4) + r5) + r6) + r7) + r8) + r9));
    lemma_reversed_union((((((((((a0 + a1) + a2) + a3) + a4) + a5) + a6) + a7) + a8) + a9), a10);
    assert(reversed(((((((((((a0 + a1) + a2) + a3) + a4) + a5) + a6) + a7) + a8) + a9) + a10)) == ((((((((((r0 + r1) + r2) + r3) + r4) + r5) + r6) + r7) + r8) + r9) + r10));
    lemma_reversed_union(((((((((((a0 + a1) + a2) + a3) + a4) + a5) + a6) + a7) + a8) + a9) + a10), a11);
    assert(reversed((((((((((((a0 + a1) + a2) + a3) + a4) + a5) + a6) + a7) + a8) + a9) + a10) + a11)) == (((((((((((r0 + r1) + r2) + r3) + r4) + r5) + r6) + r7) + r8) + r9) + r10) + r11));
    lemma_reversed_union((((((((((((a0 + a1) + a2) + a3) + a4) + a5) + a6) + a7) + a8) + a9) + a10) + a11), a12);
    assert(reversed(((((((((((((a0 + a1) + a2) + a3) + a4) + a5) + a6) + a7) + a8) + a9) + a10) + a11) + a12)) == ((((((((((((r0 + r1) + r2) + r3) + r4) + r5) + r6) + r7) + r8) + r9) + r10) + r11) + r12));
    lemma_reversed_union(((((((((((((a0 + a1) + a2) + a3) + a4) + a5) + a6) + a7) + a8) + a9) + a10) + a11) + a12), a13);
    assert(reversed((((((((((((((a0 + a1) + a2) + a3) + a4) + a5) + a6) + a7) + a8) + a9) + a10) + a11) + a12) + a13)) == (((((((((((((r0 + r1) + r2) + r3) + r4) + r5) + r6) + r7) + r8) + r9) + r10) + r11) + r12) + r13));
    lemma_reversed_union((((((((((((((a0 + a1) + a2) + a3) + a4) + a5) + a6) + a7) + a8) + a9) + a10) + a11) + a12) + a13), a14);
    assert(reversed(((((((((((((((a0 + a1) + a2) + a3) + a4) + a5) + a6) + a7) + a8) + a9) + a10) + a11) + a12) + a13) + a14)) == ((((((((((((((r0 + r1) + r2) + r3) + r4) + r5) + r6) + r7) + r8) + r9) + r10) + r11) + r12) + r13) + r14));
    lemma_reversed_union(((((((((((((((a0 + a1) + a2) + a3) + a4) + a5) + a6) + a7) + a8) + a9) + a10) + a11) + a12) + a13) + a14), a15);
    assert(reversed((((((((((((((((a0 + a1) + a2) + a3) + a4) + a5) + a6) + a7) + a8) + a9) + a10) + a11) + a12) + a13) + a14) + a15)) == (((((((((((((((r0 + r1) + r2) + r3) + r4) + r5) + r6) + r7) + r8) + r9) + r10) + r11) + r12) + r13) + r14) + r15));
    lemma_reversed_union((((((((((((((((a0 + a1) + a2) + a3) + a4) + a5) + a6) + a7) + a8) + a9) + a10) + a11) + a12) + a13) + a14) + a15), a16);
    assert(reversed(((((((((((((((((a0 + a1) + a2) + a3) + a4) + a5) + a6) + a7) + a8) + a9) + a10) + a11) + a12) + a13) + a14) + a15) + a16)) == ((((((((((((((((r0 + r1) + r2) + r3) + r4) + r5) + r6) + r7) + r8) + r9) + r10) + r11) + r12) + r13) + r14) + r15) + r16));
    lemma_config_changes_unfold(base, head);
    lemma_config_changes_unfold(head, base);

}

pub proof fn lemma_push_to_set<A>(s: Seq<A>, x: A)
    ensures
        s.push(x).to_set() == s.to_set().insert(x),
{
    assert(s.push(x).to_set() =~= s.to_set().insert(x)) by {
        assert forall|y: A| s.push(x).contains(y) implies s.to_set().insert(x).contains(y) by {
            let j = choose|j: int| 0 <= j < s.push(x).len() && s.push(x)[j] == y;
            if j < s.len() {
                assert(s[j] == y);
            }
        }
        assert forall|y: A| s.to_set().insert(x).contains(y) implies s.push(x).contains(y) by {
            if y == x {
                assert(s.push(x)[s.len() as int] == y);
            } else {
                let j = choose|j: int| 0 <= j < s.len() && s[j] == y;
                assert(s.push(x)[j] == y);
            }
        }
    }
}

fn push_change(
    changes: &mut Vec<ConfigFieldChange>,
    field_path: &str,
    classification: ChangeClassification,
    before: String,
    after: String,
)
    ensures
        change_models(final(changes)@).to_set() == change_models(old(changes)@).to_set().insert(
            (field_path@, classification, before@, after@),
        ),
{
    let ghost old_models = change_models(changes@);
    changes.push(ConfigFieldChange { field_path: owned(field_path), classification, before, after });
    assert(change_models(changes@) =~= old_models.push((field_path@, classification, before@, after@)));
    proof {
        lemma_push_to_set(old_models, (field_path@, classification, before@, after@));
    }
}

/// The distinct values of a list, sorted.
fn distinct_strings(values: &Vec<String>) -> (r: Vec<String>)
    ensures
        strictly_sorted(views(r@)),
        views(r@).to_set() == views(values@).to_set(),
{
    let mut out: Vec<String> = Vec::new();
    let mut i: usize = 0;
    assert(views(out@).to_set() =~= views(values@).take(0).to_set());
    while i < values.len()
        invariant
            i <= values@.len(),
            strictly_sorted(views(out@)),
            views(out@).to_set() == views(values@).take(i as int).to_set(),
        decreases values@.len() - i,
    {
        set_insert(&mut out, values[i].clone());
        assert(views(values@).take(i + 1) =~= views(values@).take(i as int).push(values@[i as int]@));
        proof {
            lemma_push_to_set(views(values@).take(i as int), values@[i as int]@);
        }
        i = i + 1;
    }
    assert(views(values@).take(i as int) =~= views(values@));
    out
}

fn diff_string_set(
    changes: &mut Vec<ConfigFieldChange>,
    field_path: &str,
    base: &Vec<String>,
    head: &Vec<String>,
    added_classification: ChangeClassification,
    removed_classification: ChangeClassification,
)
    ensures
        change_models(final(changes)@).to_set() == change_models(old(changes)@).to_set() + string_set_changes(
            field_path@,
            views(base@).to_set(),
            views(head@).to_set(),
            added_classification,
            removed_classification,
        ),
{
    let ghost start = change_models(changes@).to_set();
    let ghost bset = views(base@).to_set();
    let ghost hset = views(head@).to_set();
    let ghost target = string_set_changes(field_path@, bset, hset, added_classification, removed_classification);
    let base_values = distinct_strings(base);
    let head_values = distinct_strings(head);
    let ghost added = Set::new(|m: ChangeModel| hset.contains(m.3) && !bset.contains(m.3) && m == (field_path@, added_classification, absent(), m.3));
    let mut i: usize = 0;
    while i < head_values.len()
        invariant
            i <= head_values@.len(),
            views(head_values@).to_set() == hset,
            views(base_values@).to_set() == bset,
            change_models(changes@).to_set() == start + Set::new(
                |m: ChangeModel|
                    views(head_values@).take(i as int).contains(m.3) && !bset.contains(m.3) && m == (
                    field_path@,
                    added_classification,
                    absent(),
                    m.3,
                ),
            ),
        decreases head_values@.len() - i,
    {
        let v = &head_values[i];
        let ghost prev = views(head_values@).take(i as int);
        let ghost before_set = change_models(changes@).to_set();
        assert(views(head_values@).take(i + 1) =~= prev.push(v@));
        assert forall|x: Seq<char>| prev.push(v@).contains(x) <==> (prev.contains(x) || x == v@) by {
            if prev.push(v@).contains(x) {
                let k = choose|k: int| 0 <= k < prev.push(v@).len() && prev.push(v@)[k] == x;
                if k < prev.len() {
                    assert(prev[k] == x);
                }
            }
            if prev.contains(x) {
                let k = choose|k: int| 0 <= k < prev.len() && prev[k] == x;
                assert(prev.push(v@)[k] == x);
            }
            if x == v@ {
                assert(prev.push(v@)[prev.len() as int] == x);
            }
        }
        let ghost s_prev = Set::new(
            |m: ChangeModel|
                prev.contains(m.3) && !bset.contains(m.3) && m == (
                field_path@,
                added_classification,
                absent(),
                m.3,
            ),
        );
        let ghost s_next = Set::new(
            |m: ChangeModel|
                views(head_values@).take(i + 1).contains(m.3) && !bset.contains(m.3) && m == (
                field_path@,
                added_classification,
                absent(),
                m.3,
            ),
        );
        assert(before_set == start + s_prev);
        let ghost new_m = (field_path@, added_classification, absent(), v@);
        if !strings_contain(&base_values, v.as_str()) {
            assert(!bset.contains(v@));
            push_change(changes, field_path, added_classification, owned("<absent>"), v.clone());
            assert forall|m: ChangeModel| s_next.contains(m) <==> s_prev.insert(new_m).contains(m) by {
                assert(views(head_values@).take(i + 1).contains(m.3) <==> (prev.contains(m.3) || m.3 == v@));
            }
            assert(s_next =~= s_prev.insert(new_m));
            assert(change_models(changes@).to_set() =~= before_set.insert(new_m));
        } else {
            assert(bset.contains(v@));
            assert forall|m: ChangeModel| s_next.contains(m) <==> s_prev.contains(m) by {
                assert(views(head_values@).take(i + 1).contains(m.3) <==> (prev.contains(m.3) || m.3 == v@));
            }
            assert(s_next =~= s_prev);
        }
        assert(change_models(changes@).to_set() =~= start + Set::new(
            |m: ChangeModel|
                views(head_values@).take(i + 1).contains(m.3) && !bset.contains(m.3) && m == (
                field_path@,
                added_classification,
                absent(),
                m.3,
            ),
        ));
        i = i + 1;
    }
    assert(views(head_values@).take(i as int) =~= views(head_values@));
    let ghost mid = change_models(changes@).to_set();
    assert(mid =~= start + added) by {
        assert forall|x: Seq<char>| views(head_values@).contains(x) <==> hset.contains(x) by {}
    }
    let mut j: usize = 0;
    while j < base_values.len()
        invariant
            j <= base_values@.len(),
            views(head_values@).to_set() == hset,
            views(base_values@).to_set() == bset,
            change_models(changes@).to_set() == start + added + Set::new(
                |m: ChangeModel|
                    views(base_values@).take(j as int).contains(m.2) && !hset.contains(m.2) && m == (
                    field_path@,
                    removed_classification,
                    m.2,
                    absent(),
                ),
            ),
        decreases base_values@.len() - j,
    {
        let v = &base_values[j];
        let ghost prev = views(base_values@).take(j as int);
        assert(views(base_values@).take(j + 1) =~= prev.push(v@));
        assert forall|x: Seq<char>| prev.push(v@).contains(x) <==> (prev.contains(x) || x == v@) by {
            if prev.push(v@).contains(x) {
                let k = choose|k: int| 0 <= k < prev.push(v@).len() && prev.push(v@)[k] == x;
                if k < prev.len() {
                    assert(prev[k] == x);
                }
            }
            if prev.contains(x) {
                let k = choose|k: int| 0 <= k < prev.len() && prev[k] == x;
                assert(prev.push(v@)[k] == x);
            }
            if x == v@ {
                assert(prev.push(v@)[prev.len() as int] == x);
            }
        }
        let ghost before_set = change_models(changes@).to_set();
        let ghost s_prev = Set::new(
            |m: ChangeModel|
                prev.contains(m.2) && !hset.contains(m.2) && m == (
                field_path@,
                removed_classification,
                m.2,
                absent(),
            ),
        );
        let ghost s_next = Set::new(
            |m: ChangeModel|
                views(base_values@).take(j + 1).contains(m.2) && !hset.contains(m.2) && m == (
                field_path@,
                removed_classification,
                m.2,
                absent(),
            ),
        );
        assert(before_set == start + added + s_prev);
        let ghost new_m = (field_path@, removed_classification, v@, absent());
        if !strings_contain(&head_values, v.as_str()) {
            assert(!hset.contains(v@));
            push_change(changes, field_path, removed_classification, v.clone(), owned("<absent>"));
            assert forall|m: ChangeModel| s_next.contains(m) <==> s_prev.insert(new_m).contains(m) by {
                assert(views(base_values@).take(j + 1).contains(m.2) <==> (prev.contains(m.2) || m.2 == v@));
            }
            assert(s_next =~= s_prev.insert(new_m));
            assert(change_models(changes@).to_set() =~= before_set.insert(new_m));
        } else {
            assert(hset.contains(v@));
            assert forall|m: ChangeModel| s_next.contains(m) <==> s_prev.contains(m) by {
                assert(views(base_values@).take(j + 1).contains(m.2) <==> (prev.contains(m.2) || m.2 == v@));
            }
            assert(s_next =~= s_prev);
        }
        assert(change_models(changes@).to_set() =~= start + added + Set::new(
            |m: ChangeModel|
                views(base_values@).take(j + 1).contains(m.2) && !hset.contains(m.2) && m == (
                field_path@,
                removed_classification,
                m.2,
                absent(),
            ),
        ));
        j = j + 1;
    }
    assert(views(base_values@).take(j as int) =~= views(base_values@));
    assert(change_models(changes@).to_set() =~= start + target);
}

/// Trimmed patterns of a deny-deep-imports list.
pub open spec fn deep_patterns(entries: Seq<DenyDeepImportEntry>) -> Set<Seq<char>> {
    entries.map_values(|e: DenyDeepImportEntry| trim(e.pattern@)).to_set()
}

proof fn lemma_last_entry_pattern(entries: Seq<DenyDeepImportEntry>, p: Seq<char>)
    requires
        last_entry(entries, p) is Some,
    ensures
        deep_patterns(entries).contains(p),
    decreases entries.len(),
{
    let mapped = entries.map_values(|e: DenyDeepImportEntry| trim(e.pattern@));
    if trim(entries.last().pattern@) == p {
        assert(mapped[entries.len() - 1] == p);
    } else {
        lemma_last_entry_pattern(entries.drop_last(), p);
        let inner = entries.drop_last().map_values(|e: DenyDeepImportEntry| trim(e.pattern@));
        let k = choose|k: int| 0 <= k < inner.len() && inner[k] == p;
        assert(mapped[k] == p);
    }
}

/// The depth and severity of the last entry with trimmed pattern `pattern`.
fn last_deep_entry(entries: &Vec<DenyDeepImportEntry>, pattern: &str) -> (r: Option<(usize, Severity)>)
    ensures
        last_entry(entries@, pattern@) == (match r {
            Some(e) => Some((e.0 as nat, e.1)),
            None => None,
        }),
{
    let mut i: usize = entries.len();
    assert(entries@.take(i as int) =~= entries@);
    while i > 0
        invariant
            i <= entries@.len(),
            last_entry(entries@, pattern@) == last_entry(entries@.take(i as int), pattern@),
        decreases i,
    {
        let e = &entries[i - 1];
        let ghost prefix = entries@.take(i as int);
        assert(prefix.last() == entries@[i - 1]);
        assert(prefix.drop_last() =~= entries@.take(i - 1));
        if str_eq(trim_str(e.pattern.as_str()), pattern) {
            return Some((e.max_depth, e.effective_severity()));
        }
        i = i - 1;
    }
    None
}

/// The sorted set of trimmed patterns of both lists.
fn collect_deep_patterns(base: &Vec<DenyDeepImportEntry>, head: &Vec<DenyDeepImportEntry>) -> (r: Vec<String>)
    ensures
        strictly_sorted(views(r@)),
        views(r@).to_set() == deep_patterns(base@) + deep_patterns(head@),
{
    let mut out: Vec<String> = Vec::new();
    let mut i: usize = 0;
    assert(views(out@).to_set() =~= deep_patterns(base@.take(0)));
    while i < base.len()
        invariant
            i <= base@.len(),
            strictly_sorted(views(out@)),
            views(out@).to_set() == deep_patterns(base@.take(i as int)),
        decreases base@.len() - i,
    {
        let p = owned(trim_str(base[i].pattern.as_str()));
        set_insert(&mut out, p);
        proof {
            let f = |e: DenyDeepImportEntry| trim(e.pattern@);
            assert(base@.take(i + 1).map_values(f) =~= base@.take(i as int).map_values(f).push(p@));
            lemma_push_to_set(base@.take(i as int).map_values(f), p@);
        }
        i = i + 1;
    }
    assert(base@.take(i as int) =~= base@);
    let ghost bset = views(out@).to_set();
    let mut j: usize = 0;
    assert(views(out@).to_set() =~= bset + deep_patterns(head@.take(0)));
    while j < head.len()
        invariant
            j <= head@.len(),
            strictly_sorted(views(out@)),
            bset == deep_patterns(base@),
            views(out@).to_set() == bset + deep_patterns(head@.take(j as int)),
        decreases head@.len() - j,
    {
        let p = owned(trim_str(head[j].pattern.as_str()));
        set_insert(&mut out, p);
        proof {
            let f = |e: DenyDeepImportEntry| trim(e.pattern@);
            assert(head@.take(j + 1).map_values(f) =~= head@.take(j as int).map_values(f).push(p@));
            lemma_push_to_set(head@.take(j as int).map_values(f), p@);
            assert(views(out@).to_set() =~= bset + deep_patterns(head@.take(j + 1)));
        }
        j = j + 1;
    }
    assert(head@.take(j as int) =~= head@);
    out
}

/// Direction of a change to an entry present on both sides.
fn classify_deep_import_entry_change(
    before_depth: usize,
    before_severity: Severity,
    after_depth: usize,
    after_severity: Severity,
) -> (r: ChangeClassification)
    ensures
        r == deep_entry_direction(
            (before_depth as nat, before_severity),
            (after_depth as nat, after_severity),
        ),
{
    let depth: Option<ChangeClassification> = if after_depth < before_depth {
        Some(ChangeClassification::Narrowing)
    } else if after_depth > before_depth {
        Some(ChangeClassification::Widening)
    } else {
        None
    };
    let b = severity_rank_exec(before_severity);
    let a = severity_rank_exec(after_severity);
    let sev: Option<ChangeClassification> = if a < b {
        Some(ChangeClassification::Narrowing)
    } else if a > b {
        Some(ChangeClassification::Widening)
    } else {
        None
    };
    match (depth, sev) {
        (Some(d), None) => d,
        (None, Some(s)) => s,
        (Some(d), Some(s)) => {
            if d == s {
                d
            } else {
                ChangeClassification::StructuralChange
            }
        },
        (None, None) => ChangeClassification::StructuralChange,
    }
}

/// The JSON rendering of a normalized deep-import entry.
fn render_deep_import_entry(pattern: &str, max_depth: usize, severity: Severity) -> (r: String)
    ensures
        r@ == entry_text(pattern@, (max_depth as nat, severity)),
{
    render_deep_import_json(pattern, max_depth, render_severity(severity))
}

/// The changes contributed by the patterns in `pats`.
pub open spec fn deep_changes_over(
    field: Seq<char>,
    pats: Seq<Seq<char>>,
    base: Seq<DenyDeepImportEntry>,
    head: Seq<DenyDeepImportEntry>,
) -> Set<ChangeModel> {
    Set::new(|m: ChangeModel| exists|q: Seq<char>| pats.contains(q) && deep_pattern_change(field, q, base, head) == Some(m))
}

fn diff_deny_deep_import_entries(
    changes: &mut Vec<ConfigFieldChange>,
    field_path: &str,
    base: &Vec<DenyDeepImportEntry>,
    head: &Vec<DenyDeepImportEntry>,
)
    ensures
        change_models(final(changes)@).to_set() == change_models(old(changes)@).to_set() + deep_import_changes(
            field_path@,
            base@,
            head@,
        ),
{
    let ghost start = change_models(changes@).to_set();
    let ghost field = field_path@;
    let patterns = collect_deep_patterns(base, head);
    let ghost pats = views(patterns@);
    let mut i: usize = 0;
    assert(deep_changes_over(field, pats.take(0), base@, head@) =~= Set::empty());
    assert(start =~= start + Set::empty());
    while i < patterns.len()
        invariant
            i <= patterns@.len(),
            pats == views(patterns@),
            field == field_path@,
            change_models(changes@).to_set() == start + deep_changes_over(field, pats.take(i as int), base@, head@),
        decreases patterns@.len() - i,
    {
        let p = patterns[i].as_str();
        let ghost prev = pats.take(i as int);
        let ghost next = pats.take(i + 1);
        assert(next =~= prev.push(p@));
        assert forall|x: Seq<char>| #[trigger] next.contains(x) <==> (prev.contains(x) || x == p@) by {
            if next.contains(x) {
                let k = choose|k: int| 0 <= k < next.len() && next[k] == x;
                if k < prev.len() {
                    assert(prev[k] == x);
                }
            }
            if prev.contains(x) {
                let k = choose|k: int| 0 <= k < prev.len() && prev[k] == x;
                assert(next[k] == x);
            }
            if x == p@ {
                assert(next[prev.len() as int] == x);
            }
        }
        let ghost before_set = change_models(changes@).to_set();
        let ghost s_prev = deep_changes_over(field, prev, base@, head@);
        let ghost s_next = deep_changes_over(field, next, base@, head@);
        let ghost ch = deep_pattern_change(field, p@, base@, head@);
        assert forall|m: ChangeModel| #[trigger] s_next.contains(m) <==> (s_prev.contains(m) || ch == Some(m)) by {
            if s_next.contains(m) {
                let q = choose|q: Seq<char>| next.contains(q) && deep_pattern_change(field, q, base@, head@) == Some(m);
                if q != p@ {
                    assert(prev.contains(q));
                }
            }
            if s_prev.contains(m) {
                let q = choose|q: Seq<char>| prev.contains(q) && deep_pattern_change(field, q, base@, head@) == Some(m);
                assert(next.contains(q));
            }
            if ch == Some(m) {
                assert(next.contains(p@));
            }
        }
        let b = last_deep_entry(base, p);
        let h = last_deep_entry(head, p);
        match (b, h) {
            (Some((bd, bs)), None) => {
                let before = render_deep_import_entry(p, bd, bs);
                push_change(changes, field_path, ChangeClassification::Widening, before, owned("<absent>"));
                assert(s_next =~= s_prev.insert(ch.unwrap()));
                assert(change_models(changes@).to_set() =~= start + s_next);
            },
            (None, Some((hd, hs))) => {
                let after = render_deep_import_entry(p, hd, hs);
                push_change(changes, field_path, ChangeClassification::Narrowing, owned("<absent>"), after);
                assert(s_next =~= s_prev.insert(ch.unwrap()));
                assert(change_models(changes@).to_set() =~= start + s_next);
            },
            (Some((bd, bs)), Some((hd, hs))) => {
                if bd != hd || bs != hs {
                    let c = classify_deep_import_entry_change(bd, bs, hd, hs);
                    let before = render_deep_import_entry(p, bd, bs);
                    let after = render_deep_import_entry(p, hd, hs);
                    push_change(changes, field_path, c, before, after);
                    assert(s_next =~= s_prev.insert(ch.unwrap()));
                    assert(change_models(changes@).to_set() =~= start + s_next);
                } else {
                    assert(s_next =~= s_prev);
                }
            },
            (None, None) => {
                assert(s_next =~= s_prev);
            },
        }
        i = i + 1;
    }
    assert(pats.take(i as int) =~= pats);
    assert(deep_changes_over(field, pats, base@, head@) =~= deep_import_changes(field, base@, head@)) by {
        assert forall|m: ChangeModel| deep_import_changes(field, base@, head@).contains(m) implies deep_changes_over(field, pats, base@, head@).contains(m) by {
            let q = choose|q: Seq<char>| deep_pattern_change(field, q, base@, head@) == Some(m);
            if last_entry(base@, q) is Some {
                lemma_last_entry_pattern(base@, q);
            } else {
                lemma_last_entry_pattern(head@, q);
            }
            assert(pats.to_set().contains(q));
            assert(pats.contains(q));
        }
    }
}

proof fn lemma_same_multiset_same_models(a: Seq<ConfigFieldChange>, b: Seq<ConfigFieldChange>)
    requires
        a.to_multiset() == b.to_multiset(),
    ensures
        change_models(a).to_set() == change_models(b).to_set(),
{
    assert forall|m: ChangeModel| change_models(a).to_set().contains(m) implies change_models(b).to_set().contains(m) by {
        let k = choose|k: int| 0 <= k < change_models(a).len() && change_models(a)[k] == m;
        vstd::seq_lib::to_multiset_contains(a, a[k]);
        vstd::seq_lib::to_multiset_contains(b, a[k]);
        assert(a.contains(a[k]));
        let j = choose|j: int| 0 <= j < b.len() && b[j] == a[k];
        assert(change_models(b)[j] == m);
    }
    assert forall|m: ChangeModel| change_models(b).to_set().contains(m) implies change_models(a).to_set().contains(m) by {
        let k = choose|k: int| 0 <= k < change_models(b).len() && change_models(b)[k] == m;
        vstd::seq_lib::to_multiset_contains(b, b[k]);
        vstd::seq_lib::to_multiset_contains(a, b[k]);
        assert(b.contains(b[k]));
        let j = choose|j: int| 0 <= j < a.len() && a[j] == b[k];
        assert(change_models(a)[j] == m);
    }
    assert(change_models(a).to_set() =~= change_models(b).to_set());
}

/// Classifies every governance-relevant difference between two project
/// configurations, sorted deterministically.
/// Each change is reported once.
pub fn classify_config_changes(base: &SpecConfig, head: &SpecConfig) -> (r: Vec<ConfigFieldChange>)
    ensures
        sorted_by_key(r@),
        change_models(r@).no_duplicates(),
        change_models(r@).to_set() == config_changes(*base, *head),
{
    let mut changes = collect_config_changes(base, head);
    let ghost unsorted = changes@;
    sort_config_field_changes_deterministic(&mut changes);
    proof {
        lemma_same_multiset_same_models(changes@, unsorted);
    }
    let ghost sorted = changes@;
    let r = dedup_sorted(changes);
    proof {
        lemma_distinct_change_models(sorted, r@);
    }
    r
}

/// Equal keys mean equal changes.
proof fn lemma_key_equal_models(a: ConfigFieldChange, b: ConfigFieldChange)
    ensures
        ConfigFieldChange::key_order(a, b) == 0 <==> change_model(a) == change_model(b),
        ConfigFieldChange::key_order(a, b) < 0 ==> change_model(a) != change_model(b),
{
    lemma_seq_order_antisymmetric(a.field_path@, b.field_path@);
    lemma_seq_order_antisymmetric(a.before@, b.before@);
    lemma_seq_order_antisymmetric(a.after@, b.after@);
}

/// A strictly sorted selection covering every change keeps the same models,
/// each once.
proof fn lemma_distinct_change_models(v: Seq<ConfigFieldChange>, r: Seq<ConfigFieldChange>)
    requires
        strictly_sorted_by_key(r),
        forall|k: int| 0 <= k < r.len() ==> v.contains(#[trigger] r[k]),
        forall|j: int| 0 <= j < v.len() ==> key_covered(r, #[trigger] v[j]),
    ensures
        sorted_by_key(r),
        change_models(r).no_duplicates(),
        change_models(r).to_set() == change_models(v).to_set(),
{
    assert forall|i: int, j: int| 0 <= i < j < r.len() implies ConfigFieldChange::key_order(
        #[trigger] r[i],
        #[trigger] r[j],
    ) <= 0 by {}
    assert forall|i: int, j: int| 0 <= i < change_models(r).len() && 0 <= j < change_models(r).len() && i != j implies change_models(r)[i] != change_models(r)[j] by {
        if i < j {
            lemma_key_equal_models(r[i], r[j]);
        } else {
            lemma_key_equal_models(r[j], r[i]);
        }
    }
    assert forall|m: ChangeModel| change_models(r).to_set().contains(m) implies change_models(v).to_set().contains(m) by {
        let k = choose|k: int| 0 <= k < change_models(r).len() && change_models(r)[k] == m;
        assert(v.contains(r[k]));
        let j = choose|j: int| 0 <= j < v.len() && v[j] == r[k];
        assert(change_models(v)[j] == m);
    }
    assert forall|m: ChangeModel| change_models(v).to_set().contains(m) implies change_models(r).to_set().contains(m) by {
        let j = choose|j: int| 0 <= j < change_models(v).len() && change_models(v)[j] == m;
        assert(key_covered(r, v[j]));
        let k = choose|k: int| 0 <= k < r.len() && ConfigFieldChange::key_order(r[k], v[j]) == 0;
        lemma_key_equal_models(r[k], v[j]);
        assert(change_models(r)[k] == m);
    }
    assert(change_models(r).to_set() =~= change_models(v).to_set());
}

#[verifier::spinoff_prover]
#[verifier::rlimit(40)]
fn collect_config_changes(base: &SpecConfig, head: &SpecConfig) -> (r: Vec<ConfigFieldChange>)
    ensures
        change_models(r@).to_set() == config_changes(*base, *head),
{
    let mut changes: Vec<ConfigFieldChange> = Vec::new();
    assert(change_models(changes@).to_set() =~= Set::empty());
    diff_string_set(
        &mut changes,
        "exclude",
        &base.exclude,
        &head.exclude,
        ChangeClassification::Widening,
        ChangeClassification::Narrowing,
    );
    diff_string_set(
        &mut changes,
        "spec_dirs",
        &base.spec_dirs,
        &head.spec_dirs,
        ChangeClassification::Narrowing,
        ChangeClassification::Widening,
    );
    diff_optional_limit(
        &mut changes,
        "escape_hatches.max_new_per_diff",
        base.escape_hatches.max_new_per_diff,
        head.escape_hatches.max_new_per_diff,
    );
    diff_ranked_change(
        &mut changes,
        "escape_hatches.require_expiry",
        bool_rank_exec(base.escape_hatches.require_expiry),
        bool_rank_exec(head.escape_hatches.require_expiry),
        bool_string(base.escape_hatches.require_expiry),
        bool_string(head.escape_hatches.require_expiry),
    );
    diff_ranked_change(
        &mut changes,
        "jest_mock_mode",
        jest_mock_mode_rank(base.jest_mock_mode),
        jest_mock_mode_rank(head.jest_mock_mode),
        render_jest_mock_mode(base.jest_mock_mode),
        render_jest_mock_mode(head.jest_mock_mode),
    );
    diff_ranked_change(
        &mut changes,
        "stale_baseline",
        stale_baseline_rank(base.stale_baseline),
        stale_baseline_rank(head.stale_baseline),
        render_stale_baseline(base.stale_baseline),
        render_stale_baseline(head.stale_baseline),
    );
    diff_ranked_change(
        &mut changes,
        "enforce_type_only_imports",
        bool_rank_exec(base.enforce_type_only_imports),
        bool_rank_exec(head.enforce_type_only_imports),
        bool_string(base.enforce_type_only_imports),
        bool_string(head.enforce_type_only_imports),
    );
    diff_ranked_change(
        &mut changes,
        "unresolved_edge_policy",
        unresolved_edge_policy_rank(base.unresolved_edge_policy),
        unresolved_edge_policy_rank(head.unresolved_edge_policy),
        render_unresolved_edge_policy(base.unresolved_edge_policy),
        render_unresolved_edge_policy(head.unresolved_edge_policy),
    );
    diff_ranked_change(
        &mut changes,
        "strict_ownership",
        bool_rank_exec(base.strict_ownership),
        bool_rank_exec(head.strict_ownership),
        bool_string(base.strict_ownership),
        bool_string(head.strict_ownership),
    );
    diff_deny_deep_import_entries(
        &mut changes,
        "import_hygiene.deny_deep_imports",
        &base.import_hygiene.deny_deep_imports,
        &head.import_hygiene.deny_deep_imports,
    );
    diff_ranked_change(
        &mut changes,
        "envelope.enabled",
        bool_rank_exec(base.envelope.enabled),
        bool_rank_exec(head.envelope.enabled),
        bool_string(base.envelope.enabled),
        bool_string(head.envelope.enabled),
    );
    diff_ranked_change(
        &mut changes,
        "strict_ownership_level",
        strict_ownership_level_rank(base.strict_ownership_level),
        strict_ownership_level_rank(head.strict_ownership_level),
        render_strict_ownership_level(base.strict_ownership_level),
        render_strict_ownership_level(head.strict_ownership_level),
    );
    diff_structural_change(
        &mut changes,
        "telemetry",
        base.telemetry == head.telemetry,
        bool_string(base.telemetry),
        bool_string(head.telemetry),
    );
    diff_structural_change(
        &mut changes,
        "release_channel",
        base.release_channel == head.release_channel,
        render_release_channel(base.release_channel),
        render_release_channel(head.release_channel),
    );
    diff_structural_change(
        &mut changes,
        "tsconfig_filename",
        str_eq(base.tsconfig_filename.as_str(), head.tsconfig_filename.as_str()),
        base.tsconfig_filename.clone(),
        head.tsconfig_filename.clone(),
    );
    diff_structural_change(
        &mut changes,
        "test_patterns",
        strings_equal(&base.test_patterns, &head.test_patterns),
        render_string_list(&base.test_patterns),
        render_string_list(&head.test_patterns),
    );
    diff_structural_change(
        &mut changes,
        "include_dirs",
        strings_equal(&base.include_dirs, &head.include_dirs),
        render_string_list(&base.include_dirs),
        render_string_list(&head.include_dirs),
    );
    proof {
        let first = string_set_changes(
            "exclude"@,
            views(base.exclude@).to_set(),
            views(head.exclude@).to_set(),
            ChangeClassification::Widening,
            ChangeClassification::Narrowing,
        );
        assert(Set::<ChangeModel>::empty() + first =~= first);
    }
    changes
}


fn render_optional_limit(value: Option<usize>) -> (r: String)
    ensures
        r@ == limit_text(value),
{
    match value {
        Some(v) => decimal_string(v as u64),
        None => owned("none"),
    }
}

fn diff_optional_limit(
    changes: &mut Vec<ConfigFieldChange>,
    field_path: &str,
    base: Option<usize>,
    head: Option<usize>,
)
    ensures
        change_models(final(changes)@).to_set() == change_models(old(changes)@).to_set() + limit_changes(
            field_path@,
            base,
            head,
        ),
{
    let classification = match (base, head) {
        (Some(b), Some(h)) => {
            if h > b {
                ChangeClassification::Widening
            } else if h < b {
                ChangeClassification::Narrowing
            } else {
                assert(limit_changes(field_path@, base, head) =~= Set::empty());
                assert(change_models(changes@).to_set() =~= change_models(changes@).to_set() + Set::empty());
                return;
            }
        },
        (Some(_), None) => ChangeClassification::Widening,
        (None, Some(_)) => ChangeClassification::Narrowing,
        (None, None) => {
            assert(change_models(changes@).to_set() =~= change_models(changes@).to_set() + Set::empty());
            return;
        },
    };
    let ghost start = change_models(changes@).to_set();
    push_change(changes, field_path, classification, render_optional_limit(base), render_optional_limit(head));
    assert(change_models(changes@).to_set() =~= start + limit_changes(field_path@, base, head));
}

fn diff_ranked_change(
    changes: &mut Vec<ConfigFieldChange>,
    field_path: &str,
    base_rank: u8,
    head_rank: u8,
    before: String,
    after: String,
)
    ensures
        change_models(final(changes)@).to_set() == change_models(old(changes)@).to_set() + ranked_changes(
            field_path@,
            base_rank as int,
            head_rank as int,
            before@,
            after@,
        ),
{
    let ghost start = change_models(changes@).to_set();
    if base_rank == head_rank {
        assert(start =~= start + Set::empty());
        return;
    }
    let classification = if head_rank < base_rank {
        ChangeClassification::Widening
    } else {
        ChangeClassification::Narrowing
    };
    let ghost bv = before@;
    let ghost av = after@;
    push_change(changes, field_path, classification, before, after);
    assert(change_models(changes@).to_set() =~= start + ranked_changes(field_path@, base_rank as int, head_rank as int, bv, av));
}

fn diff_structural_change(
    changes: &mut Vec<ConfigFieldChange>,
    field_path: &str,
    same: bool,
    before: String,
    after: String,
)
    ensures
        change_models(final(changes)@).to_set() == change_models(old(changes)@).to_set() + structural_changes(
            field_path@,
            same,
            before@,
            after@,
        ),
{
    let ghost start = change_models(changes@).to_set();
    if same {
        assert(start =~= start + Set::empty());
        return;
    }
    let ghost bv = before@;
    let ghost av = after@;
    push_change(changes, field_path, ChangeClassification::StructuralChange, before, after);
    assert(change_models(changes@).to_set() =~= start + structural_changes(field_path@, same, bv, av));
}

fn bool_string(b: bool) -> (r: String)
    ensures
        r@ == bool_text(b),
{
    if b { owned("true") } else { owned("false") }
}

fn bool_rank_exec(b: bool) -> (r: u8)
    ensures
        r as int == bool_rank(b),
{
    if b { 1 } else { 0 }
}

fn jest_mock_mode_rank(m: JestMockMode) -> (r: u8)
    ensures
        r as int == jest_rank(m),
{
    match m {
        JestMockMode::Warn => 0,
        JestMockMode::Enforce => 1,
    }
}

fn render_jest_mock_mode(m: JestMockMode) -> (r: String)
    ensures
        r@ == jest_text(m),
{
    match m {
        JestMockMode::Warn => owned("warn"),
        JestMockMode::Enforce => owned("enforce"),
    }
}

fn stale_baseline_rank(p: StaleBaselinePolicy) -> (r: u8)
    ensures
        r as int == stale_rank(p),
{
    match p {
        StaleBaselinePolicy::Warn => 0,
        StaleBaselinePolicy::Fail => 1,
    }
}

fn render_stale_baseline(p: StaleBaselinePolicy) -> (r: String)
    ensures
        r@ == stale_text(p),
{
    match p {
        StaleBaselinePolicy::Warn => owned("warn"),
        StaleBaselinePolicy::Fail => owned("fail"),
    }
}

fn unresolved_edge_policy_rank(p: UnresolvedEdgePolicy) -> (r: u8)
    ensures
        r as int == unresolved_rank(p),
{
    match p {
        UnresolvedEdgePolicy::Ignore => 0,
        UnresolvedEdgePolicy::Warn => 1,
        UnresolvedEdgePolicy::Error => 2,
    }
}

fn render_unresolved_edge_policy(p: UnresolvedEdgePolicy) -> (r: String)
    ensures
        r@ == unresolved_text(p),
{
    match p {
        UnresolvedEdgePolicy::Warn => owned("warn"),
        UnresolvedEdgePolicy::Error => owned("error"),
        UnresolvedEdgePolicy::Ignore => owned("ignore"),
    }
}

fn strict_ownership_level_rank(l: StrictOwnershipLevel) -> (r: u8)
    ensures
        r as int == ownership_rank(l),
{
    match l {
        StrictOwnershipLevel::Errors => 0,
        StrictOwnershipLevel::Warnings => 1,
    }
}

fn render_strict_ownership_level(l: StrictOwnershipLevel) -> (r: String)
    ensures
        r@ == ownership_text(l),
{
    match l {
        StrictOwnershipLevel::Errors => owned("errors"),
        StrictOwnershipLevel::Warnings => owned("warnings"),
    }
}

fn render_release_channel(c: ReleaseChannel) -> (r: String)
    ensures
        r@ == channel_text(c),
{
    match c {
        ReleaseChannel::Stable => owned("stable"),
        ReleaseChannel::Beta => owned("beta"),
    }
}

fn severity_rank_exec(s: Severity) -> (r: u8)
    ensures
        r as int == severity_rank(s),
{
    match s {
        Severity::Error => 0,
        Severity::Warning => 1,
    }
}

fn render_severity(s: Severity) -> (r: &'static str)
    ensures
        r@ == severity_text(s),
{
    match s {
        Severity::Error => "error",
        Severity::Warning => "warning",
    }
}

/// Whether two string lists hold the same strings in the same order.
fn strings_equal(a: &Vec<String>, b: &Vec<String>) -> (r: bool)
    ensures
        r == (views(a@) == views(b@)),
{
    if a.len() != b.len() {
        assert(views(a@).len() != views(b@).len());
        return false;
    }
    let mut i: usize = 0;
    while i < a.len()
        invariant
            a@.len() == b@.len(),
            i <= a@.len(),
            forall|k: int| 0 <= k < i ==> a@[k]@ == b@[k]@,
        decreases a@.len() - i,
    {
        if !str_eq(a[i].as_str(), b[i].as_str()) {
            assert(views(a@)[i as int] != views(b@)[i as int]);
            return false;
        }
        i = i + 1;
    }
    assert(views(a@) =~= views(b@));
    true
}

} // verus!
