//! Verdicts: the outcome of a policy check, its summary counts and status.
use vstd::prelude::*;

pub mod format;

use std::collections::BTreeMap;

use crate::order::{
    int_order, lemma_comps_order_facts, lemma_int_order_facts, lemma_multiset_map, lemma_opt_comps_order_facts,
    lemma_opt_int_order_facts, lemma_opt_seq_order_facts, lemma_seq_order_facts, opt_comps_order,
    opt_components, opt_int_order, opt_path_compare, opt_seq_order, opt_str_order, opt_u32_order,
    path_compare, sort_by_key, sorted_by_key, then, u8_order, KeyOrdered, comps_order, first_after, insert_stable,
    stable_sort,
};
use crate::paths::{normalize_repo_relative, path_components, repo_relative};
use crate::policy::types::opt_view;
use crate::rules::opt_u32_view;
use crate::spec::config::StaleBaselinePolicy;
use crate::spec::Severity;
use crate::text::{seq_order, str_order};

verus! {

/// Schema version for the verdict format itself.
pub const VERDICT_SCHEMA_VERSION: &'static str = "1.0";

/// A package found in a workspace.
#[derive(Debug, Clone, PartialEq, Eq)]
pub struct WorkspacePackageInfo {
    pub name: String,
    pub path: String,
    pub tsconfig: Option<String>,
}

/// Classification of an import edge.
#[derive(Debug, Clone, Copy, PartialEq, Eq, Structural)]
pub enum EdgeType {
    Resolved,
    UnresolvedLiteral,
    UnresolvedDynamic,
    External,
    TypeOnly,
}

pub open spec fn edge_type_text(t: EdgeType) -> Seq<char> {
    match t {
        EdgeType::Resolved => "resolved"@,
        EdgeType::UnresolvedLiteral => "unresolved_literal"@,
        EdgeType::UnresolvedDynamic => "unresolved_dynamic"@,
        EdgeType::External => "external"@,
        EdgeType::TypeOnly => "type_only"@,
    }
}

impl EdgeType {
    /// The snake_case name of the edge type.
    pub fn as_str(self) -> (r: &'static str)
        ensures
            r@ == edge_type_text(self),
    {
        match self {
            EdgeType::Resolved => "resolved",
            EdgeType::UnresolvedLiteral => "unresolved_literal",
            EdgeType::UnresolvedDynamic => "unresolved_dynamic",
            EdgeType::External => "external",
            EdgeType::TypeOnly => "type_only",
        }
    }
}

/// A policy violation as the rules report it.
#[derive(Debug, Clone, PartialEq, Eq)]
pub struct PolicyViolation {
    pub rule: String,
    pub severity: Severity,
    pub message: String,
    pub from_file: String,
    pub to_file: Option<String>,
    pub from_module: Option<String>,
    pub to_module: Option<String>,
    pub line: Option<u32>,
    pub column: Option<u32>,
    /// Expected value for structured diagnostics (e.g., allowed import patterns).
    pub expected: Option<String>,
    /// Actual value that violated the policy (e.g., the actual import found).
    pub actual: Option<String>,
    /// Human-readable hint on how to fix the violation.
    pub remediation_hint: Option<String>,
    /// Contract ID for contract-related violations.
    pub contract_id: Option<String>,
    /// Edge classification for unresolved import findings.
    pub edge_type: Option<EdgeType>,
}

/// Whether a violation is new or covered by the baseline.
#[derive(Debug, Clone, Copy, PartialEq, Eq, Structural)]
pub enum ViolationDisposition {
    New,
    Baseline,
}

/// A violation with its stable fingerprint and baseline disposition.
#[derive(Debug, Clone, PartialEq, Eq)]
pub struct FingerprintedViolation {
    pub violation: PolicyViolation,
    pub fingerprint: String,
    pub disposition: ViolationDisposition,
}

/// Counts of import edges by classification.
#[derive(Debug, Clone, Copy, PartialEq, Eq, Structural)]
pub struct EdgeClassification {
    pub resolved: usize,
    pub unresolved_literal: usize,
    pub unresolved_dynamic: usize,
    pub external: usize,
    pub type_only: usize,
}

/// An import that could not be resolved.
#[derive(Debug, Clone, PartialEq, Eq)]
pub struct UnresolvedEdge {
    pub from: String,
    pub specifier: String,
    pub kind: String,
    pub line: Option<u32>,
}

/// Overall outcome of a check.
#[derive(Debug, Clone, Copy, PartialEq, Eq, Structural)]
pub enum VerdictStatus {
    Pass,
    Fail,
}

/// Summary counts of a verdict.
#[derive(Debug, Clone, Copy, PartialEq, Eq, Structural)]
pub struct VerdictSummary {
    pub core: AnonymizedTelemetrySummary,
    pub suppressed_violations: usize,
    pub error_violations: usize,
    pub warning_violations: usize,
}

/// A violation as it appears in a verdict, with repository-relative paths.
#[derive(Debug, Clone, PartialEq, Eq)]
pub struct VerdictViolation {
    pub rule: String,
    pub severity: Severity,
    pub message: String,
    pub fingerprint: String,
    pub disposition: VerdictDisposition,
    pub from_file: String,
    pub to_file: Option<String>,
    pub from_module: Option<String>,
    pub to_module: Option<String>,
    pub line: Option<u32>,
    pub column: Option<u32>,
    /// Expected value for structured diagnostics (e.g., allowed import patterns).
    pub expected: Option<String>,
    /// Actual value that violated the policy (e.g., the actual import found).
    pub actual: Option<String>,
    /// Human-readable hint on how to fix the violation.
    pub remediation_hint: Option<String>,
    /// Contract ID for contract-related violations.
    pub contract_id: Option<String>,
    pub edge_type: Option<EdgeType>,
}

/// An import edge as reported in a verdict.
#[derive(Debug, Clone, PartialEq, Eq)]
pub struct VerdictEdge {
    pub from_module: Option<String>,
    pub to_module: Option<String>,
    pub edge_type: EdgeType,
    pub import_path: String,
    pub file: String,
    pub line: Option<u32>,
}

/// Disposition of a violation in a verdict.
#[derive(Debug, Clone, Copy, PartialEq, Eq, Structural)]
pub enum VerdictDisposition {
    New,
    Baseline,
}

/// Timing metrics of a run.
#[derive(Debug, Clone, PartialEq, Eq)]
pub struct VerdictMetrics {
    pub timings_ms: BTreeMap<String, u128>,
    pub total_ms: u128,
}

/// Governance information attached to a verdict.
#[derive(Debug, Clone, Copy, PartialEq, Eq, Structural)]
pub struct VerdictGovernance {
    pub stale_baseline_policy: StaleBaselinePolicy,
}

/// Name of a telemetry event.
#[derive(Debug, Clone, Copy, PartialEq, Eq, Structural)]
pub enum TelemetryEventName {
    CheckCompleted,
}

/// Counts that may leave the machine in anonymized telemetry.
#[derive(Debug, Clone, Copy, PartialEq, Eq, Structural)]
pub struct AnonymizedTelemetrySummary {
    pub total_violations: usize,
    pub new_violations: usize,
    pub baseline_violations: usize,
    pub new_error_violations: usize,
    pub new_warning_violations: usize,
    pub stale_baseline_entries: usize,
    pub expired_baseline_entries: usize,
}

impl VerdictSummary {
    /// The anonymized part of the summary.
    pub fn into_telemetry(self) -> (r: AnonymizedTelemetrySummary)
        ensures
            r == self.core,
    {
        self.core
    }
}

/// An anonymized telemetry event.
#[derive(Debug, Clone, PartialEq, Eq)]
pub struct AnonymizedTelemetryEvent {
    pub schema_version: String,
    pub event: TelemetryEventName,
    /// Stable project-level hash supplied by the caller; never raw repo paths/names.
    pub project_fingerprint: String,
    pub config_hash: String,
    pub spec_hash: String,
    pub status: VerdictStatus,
    pub summary: AnonymizedTelemetrySummary,
}

/// Options of verdict building.
#[derive(Debug, Clone, PartialEq, Eq)]
pub struct VerdictBuildOptions {
    pub stale_baseline_policy: StaleBaselinePolicy,
    pub telemetry: Option<AnonymizedTelemetryEvent>,
}

impl Default for VerdictBuildOptions {
    fn default() -> (r: Self)
        ensures
            r.stale_baseline_policy == StaleBaselinePolicy::Warn,
            r.telemetry is None,
    {
        VerdictBuildOptions { stale_baseline_policy: StaleBaselinePolicy::Warn, telemetry: None }
    }
}

/// Everything a verdict is built from.
#[derive(Debug, Clone, PartialEq, Eq)]
pub struct VerdictBuildRequest<'a> {
    pub project_root: &'a str,
    pub violations: &'a [FingerprintedViolation],
    pub suppressed_violations: usize,
    pub metrics: Option<VerdictMetrics>,
    pub identity: VerdictIdentity,
    pub governance: GovernanceContext,
    pub options: VerdictBuildOptions,
}

/// Identity of the run and inputs a verdict reports.
#[derive(Debug, Clone, PartialEq, Eq)]
pub struct VerdictIdentity {
    pub tool_version: String,
    pub git_sha: String,
    pub config_hash: String,
    pub spec_hash: String,
    pub output_mode: String,
    pub spec_files_changed: Vec<String>,
    pub rule_deltas: Vec<String>,
    pub policy_change_detected: bool,
}

/// The outcome of a policy check.
#[derive(Debug, Clone, PartialEq, Eq)]
pub struct Verdict {
    pub verdict_schema: String,
    pub schema_version: String,
    pub tool_version: String,
    pub git_sha: String,
    pub config_hash: String,
    pub spec_hash: String,
    pub output_mode: String,
    pub spec_files_changed: Vec<String>,
    pub rule_deltas: Vec<String>,
    pub policy_change_detected: bool,
    pub status: VerdictStatus,
    pub summary: VerdictSummary,
    pub violations: Vec<VerdictViolation>,
    pub metrics: Option<VerdictMetrics>,
    pub governance: Option<VerdictGovernance>,
    pub telemetry: Option<AnonymizedTelemetryEvent>,
    pub workspace_packages: Option<Vec<WorkspacePackageInfo>>,
    pub edge_classification: Option<EdgeClassification>,
    pub edges: Vec<VerdictEdge>,
    pub unresolved_edges: Vec<UnresolvedEdge>,
}

/// Governance context for verdict building.
#[derive(Debug, Clone, PartialEq, Eq)]
pub struct GovernanceContext {
    /// Number of baseline entries that no longer match any current violations.
    pub stale_baseline_entries: usize,
    /// Number of baseline entries that have passed their expiry date.
    pub expired_baseline_entries: usize,
    /// Rule deltas computed from spec changes in diff-aware mode.
    pub rule_deltas: Vec<String>,
    /// Whether policy changes were detected in diff-aware mode.
    pub policy_change_detected: bool,
}

impl Default for GovernanceContext {
    fn default() -> (r: Self)
        ensures
            r.stale_baseline_entries == 0,
            r.expired_baseline_entries == 0,
            r.rule_deltas@.len() == 0,
            !r.policy_change_detected,
    {
        GovernanceContext {
            stale_baseline_entries: 0,
            expired_baseline_entries: 0,
            rule_deltas: Vec::new(),
            policy_change_detected: false,
        }
    }
}

pub open spec fn severity_rank(s: Severity) -> int {
    match s {
        Severity::Error => 0,
        Severity::Warning => 1,
    }
}

fn severity_rank_exec(s: Severity) -> (r: u8)
    ensures
        r as int == severity_rank(s),
{
    match s {
        Severity::Error => 0,
        Severity::Warning => 1,
    }
}

/// Number of violations that satisfy `p`.
pub open spec fn count_where(vs: Seq<FingerprintedViolation>, p: spec_fn(FingerprintedViolation) -> bool) -> nat
    decreases vs.len(),
{
    if vs.len() == 0 {
        0
    } else {
        count_where(vs.drop_last(), p) + if p(vs.last()) { 1nat } else { 0nat }
    }
}

pub open spec fn is_new(v: FingerprintedViolation) -> bool {
    v.disposition == ViolationDisposition::New
}

pub open spec fn is_error(v: FingerprintedViolation) -> bool {
    v.violation.severity == Severity::Error
}

pub open spec fn is_new_error(v: FingerprintedViolation) -> bool {
    is_new(v) && is_error(v)
}

proof fn lemma_count_bounds(vs: Seq<FingerprintedViolation>, p: spec_fn(FingerprintedViolation) -> bool, q: spec_fn(FingerprintedViolation) -> bool)
    requires
        forall|v: FingerprintedViolation| #[trigger] p(v) ==> q(v),
    ensures
        count_where(vs, p) <= count_where(vs, q),
        count_where(vs, q) <= vs.len(),
    decreases vs.len(),
{
    if vs.len() > 0 {
        lemma_count_bounds(vs.drop_last(), p, q);
    }
}

/// The summary of a set of violations.
pub open spec fn summary_of(
    vs: Seq<FingerprintedViolation>,
    suppressed: usize,
    stale: usize,
    expired: usize,
) -> VerdictSummary {
    let total = vs.len();
    let new = count_where(vs, |v: FingerprintedViolation| is_new(v));
    let errors = count_where(vs, |v: FingerprintedViolation| is_error(v));
    let new_errors = count_where(vs, |v: FingerprintedViolation| is_new_error(v));
    VerdictSummary {
        core: AnonymizedTelemetrySummary {
            total_violations: total as usize,
            new_violations: new as usize,
            baseline_violations: (total - new) as usize,
            new_error_violations: new_errors as usize,
            new_warning_violations: (new - new_errors) as usize,
            stale_baseline_entries: stale,
            expired_baseline_entries: expired,
        },
        suppressed_violations: suppressed,
        error_violations: errors as usize,
        warning_violations: (total - errors) as usize,
    }
}

/// The status a summary implies: failing on new errors, and on stale
/// baseline entries when the policy says so.
pub open spec fn status_of(summary: VerdictSummary, policy: StaleBaselinePolicy) -> VerdictStatus {
    if summary.core.new_error_violations > 0 || (policy == StaleBaselinePolicy::Fail
        && summary.core.stale_baseline_entries > 0) {
        VerdictStatus::Fail
    } else {
        VerdictStatus::Pass
    }
}

proof fn lemma_count_positive(vs: Seq<FingerprintedViolation>, p: spec_fn(FingerprintedViolation) -> bool)
    ensures
        count_where(vs, p) > 0 <==> exists|i: int| 0 <= i < vs.len() && #[trigger] p(vs[i]),
    decreases vs.len(),
{
    if vs.len() > 0 {
        lemma_count_positive(vs.drop_last(), p);
        if exists|i: int| 0 <= i < vs.len() && #[trigger] p(vs[i]) {
            let i = choose|i: int| 0 <= i < vs.len() && #[trigger] p(vs[i]);
            if i < vs.len() - 1 {
                assert(p(vs.drop_last()[i]));
            }
        }
        if exists|i: int| 0 <= i < vs.drop_last().len() && #[trigger] p(vs.drop_last()[i]) {
            let i = choose|i: int| 0 <= i < vs.drop_last().len() && #[trigger] p(vs.drop_last()[i]);
            assert(p(vs[i]));
        }
    }
}

/// The summary's counts add up: new and baseline violations make up the
/// total, as do error and warning violations, and new errors and new
/// warnings make up the new violations.
pub proof fn law_summary_counts_add_up(
    vs: Seq<FingerprintedViolation>,
    suppressed: usize,
    stale: usize,
    expired: usize,
)
    requires
        vs.len() <= usize::MAX,
    ensures
        ({
            let s = summary_of(vs, suppressed, stale, expired);
            &&& s.core.total_violations == vs.len()
            &&& s.core.new_violations + s.core.baseline_violations == s.core.total_violations
            &&& s.error_violations + s.warning_violations == s.core.total_violations
            &&& s.core.new_error_violations + s.core.new_warning_violations == s.core.new_violations
            &&& s.core.new_error_violations <= s.error_violations
        }),
{
    lemma_count_bounds(vs, |v: FingerprintedViolation| is_new_error(v), |v: FingerprintedViolation| is_new(v));
    lemma_count_bounds(vs, |v: FingerprintedViolation| is_new_error(v), |v: FingerprintedViolation| is_error(v));
}

/// A verdict fails exactly when some new violation is an error, or when
/// stale baseline entries exist under the failing stale-baseline policy.
pub proof fn law_status_fails_on_new_errors(
    vs: Seq<FingerprintedViolation>,
    suppressed: usize,
    stale: usize,
    expired: usize,
    policy: StaleBaselinePolicy,
)
    requires
        vs.len() <= usize::MAX,
    ensures
        (status_of(summary_of(vs, suppressed, stale, expired), policy) == VerdictStatus::Fail) <==> ((exists|i: int|
            0 <= i < vs.len() && #[trigger] is_new_error(vs[i])) || (policy == StaleBaselinePolicy::Fail && stale > 0)),
{
    let p = |v: FingerprintedViolation| is_new_error(v);
    lemma_count_positive(vs, p);
    lemma_count_bounds(vs, p, |v: FingerprintedViolation| is_new(v));
    let c = count_where(vs, p);
    assert(c > 0 <==> exists|i: int| 0 <= i < vs.len() && #[trigger] is_new_error(vs[i])) by {
        if c > 0 {
            let i = choose|i: int| 0 <= i < vs.len() && #[trigger] p(vs[i]);
            assert(is_new_error(vs[i]));
        }
        if exists|i: int| 0 <= i < vs.len() && #[trigger] is_new_error(vs[i]) {
            let i = choose|i: int| 0 <= i < vs.len() && #[trigger] is_new_error(vs[i]);
            assert(p(vs[i]));
        }
    }
}

fn summarize(
    violations: &[FingerprintedViolation],
    suppressed_violations: usize,
    stale_baseline_entries: usize,
    expired_baseline_entries: usize,
) -> (r: VerdictSummary)
    ensures
        r == summary_of(violations@, suppressed_violations, stale_baseline_entries, expired_baseline_entries),
{
    let ghost vs = violations@;
    let mut new: usize = 0;
    let mut errors: usize = 0;
    let mut new_errors: usize = 0;
    let mut i: usize = 0;
    while i < violations.len()
        invariant
            vs == violations@,
            i <= vs.len(),
            new == count_where(vs.take(i as int), |v: FingerprintedViolation| is_new(v)),
            errors == count_where(vs.take(i as int), |v: FingerprintedViolation| is_error(v)),
            new_errors == count_where(vs.take(i as int), |v: FingerprintedViolation| is_new_error(v)),
            new_errors <= new <= i,
            errors <= i,
        decreases vs.len() - i,
    {
        assert(vs.take(i + 1).drop_last() =~= vs.take(i as int));
        assert(vs.take(i + 1).last() == vs[i as int]);
        let e = &violations[i];
        let n = match e.disposition {
            ViolationDisposition::New => true,
            ViolationDisposition::Baseline => false,
        };
        let er = match e.violation.severity {
            Severity::Error => true,
            Severity::Warning => false,
        };
        if n {
            new = new + 1;
        }
        if er {
            errors = errors + 1;
        }
        if n && er {
            new_errors = new_errors + 1;
        }
        i = i + 1;
    }
    assert(vs.take(i as int) =~= vs);
    VerdictSummary {
        core: AnonymizedTelemetrySummary {
            total_violations: violations.len(),
            new_violations: new,
            baseline_violations: violations.len() - new,
            new_error_violations: new_errors,
            new_warning_violations: new - new_errors,
            stale_baseline_entries,
            expired_baseline_entries,
        },
        suppressed_violations,
        error_violations: errors,
        warning_violations: violations.len() - errors,
    }
}

/// A verdict violation as plain values.
pub type VerdictViolationModel = (
    (Seq<char>, Severity, Seq<char>, Seq<char>),
    (VerdictDisposition, Seq<char>, Option<Seq<char>>, Option<Seq<char>>),
    (Option<Seq<char>>, Option<u32>, Option<u32>, Option<Seq<char>>),
    (Option<Seq<char>>, Option<Seq<char>>, Option<Seq<char>>, Option<EdgeType>),
);

pub open spec fn verdict_model(v: VerdictViolation) -> VerdictViolationModel {
    (
        (v.rule@, v.severity, v.message@, v.fingerprint@),
        (v.disposition, v.from_file@, opt_view(v.to_file), opt_view(v.from_module)),
        (opt_view(v.to_module), v.line, v.column, opt_view(v.expected)),
        (opt_view(v.actual), opt_view(v.remediation_hint), opt_view(v.contract_id), v.edge_type),
    )
}

/// The order of rendered violations, on their models (the same order as
/// `VerdictViolation`'s key order).
pub open spec fn model_key_order(a: VerdictViolationModel, b: VerdictViolationModel) -> int {
    then(
        seq_order(a.1.1, b.1.1),
        then(
            opt_int_order(opt_u32_view(a.2.1), opt_u32_view(b.2.1)),
            then(
                opt_int_order(opt_u32_view(a.2.2), opt_u32_view(b.2.2)),
                then(
                    opt_seq_order(a.1.2, b.1.2),
                    then(
                        seq_order(a.0.0, b.0.0),
                        then(
                            int_order(severity_rank(a.0.1), severity_rank(b.0.1)),
                            then(seq_order(a.0.3, b.0.3), seq_order(a.0.2, b.0.2)),
                        ),
                    ),
                ),
            ),
        ),
    )
}

pub open spec fn model_first_after(s: Seq<VerdictViolationModel>, x: VerdictViolationModel) -> int
    decreases s.len(),
{
    if s.len() == 0 {
        0
    } else if model_key_order(s[0], x) > 0 {
        0
    } else {
        1 + model_first_after(s.drop_first(), x)
    }
}

/// Violation models sorted stably by `model_key_order`: each in turn
/// inserted after every earlier one whose key is not greater, so ties keep
/// their input order.
pub open spec fn stable_sort_models(s: Seq<VerdictViolationModel>) -> Seq<VerdictViolationModel>
    decreases s.len(),
{
    if s.len() == 0 {
        Seq::empty()
    } else {
        let t = stable_sort_models(s.drop_last());
        let p = model_first_after(t, s.last());
        t.take(p).push(s.last()) + t.skip(p)
    }
}

proof fn lemma_first_after_models(t: Seq<VerdictViolation>, x: VerdictViolation)
    ensures
        first_after(t, x) == model_first_after(t.map_values(|v: VerdictViolation| verdict_model(v)), verdict_model(x)),
    decreases t.len(),
{
    if t.len() > 0 {
        assert(t.map_values(|v: VerdictViolation| verdict_model(v)).drop_first() =~= t.drop_first().map_values(
            |v: VerdictViolation| verdict_model(v),
        ));
        lemma_first_after_models(t.drop_first(), x);
    }
}

/// Sorting violations and taking their models commute.
proof fn lemma_stable_sort_models(s: Seq<VerdictViolation>)
    ensures
        stable_sort(s).map_values(|v: VerdictViolation| verdict_model(v)) == stable_sort_models(
            s.map_values(|v: VerdictViolation| verdict_model(v)),
        ),
    decreases s.len(),
{
    let m = s.map_values(|v: VerdictViolation| verdict_model(v));
    if s.len() > 0 {
        lemma_stable_sort_models(s.drop_last());
        assert(m.drop_last() =~= s.drop_last().map_values(|v: VerdictViolation| verdict_model(v)));
        let t = stable_sort(s.drop_last());
        lemma_first_after_models(t, s.last());
        let p = first_after(t, s.last());
        crate::order::lemma_first_after_bounds(t, s.last());
        let tm = t.map_values(|v: VerdictViolation| verdict_model(v));
        assert(insert_stable(t, s.last()).map_values(|v: VerdictViolation| verdict_model(v)) =~= tm.take(p).push(
            verdict_model(s.last()),
        ) + tm.skip(p));
    } else {
        assert(m =~= Seq::<VerdictViolationModel>::empty());
    }
}

pub open spec fn disposition_of(d: ViolationDisposition) -> VerdictDisposition {
    match d {
        ViolationDisposition::New => VerdictDisposition::New,
        ViolationDisposition::Baseline => VerdictDisposition::Baseline,
    }
}

pub open spec fn opt_relative(root: Seq<char>, p: Option<String>) -> Option<Seq<char>> {
    match p {
        Some(x) => Some(repo_relative(root, x@)),
        None => None,
    }
}

/// A fingerprinted violation as a verdict lists it: paths relative to the
/// project root, every other field unchanged.
pub open spec fn rendered_model(root: Seq<char>, e: FingerprintedViolation) -> VerdictViolationModel {
    let v = e.violation;
    (
        (v.rule@, v.severity, v.message@, e.fingerprint@),
        (disposition_of(e.disposition), repo_relative(root, v.from_file@), opt_relative(root, v.to_file), opt_view(v.from_module)),
        (opt_view(v.to_module), v.line, v.column, opt_view(v.expected)),
        (opt_view(v.actual), opt_view(v.remediation_hint), opt_view(v.contract_id), v.edge_type),
    )
}

fn clone_opt(o: &Option<String>) -> (r: Option<String>)
    ensures
        opt_view(r) == opt_view(*o),
{
    match o {
        Some(s) => Some(s.clone()),
        None => None,
    }
}

fn render_violation(project_root: &str, entry: &FingerprintedViolation) -> (r: VerdictViolation)
    ensures
        verdict_model(r) == rendered_model(project_root@, *entry),
{
    let v = &entry.violation;
    VerdictViolation {
        rule: v.rule.clone(),
        severity: v.severity,
        message: v.message.clone(),
        fingerprint: entry.fingerprint.clone(),
        disposition: match entry.disposition {
            ViolationDisposition::New => VerdictDisposition::New,
            ViolationDisposition::Baseline => VerdictDisposition::Baseline,
        },
        from_file: normalize_repo_relative(project_root, v.from_file.as_str()),
        to_file: match &v.to_file {
            Some(p) => Some(normalize_repo_relative(project_root, p.as_str())),
            None => None,
        },
        from_module: clone_opt(&v.from_module),
        to_module: clone_opt(&v.to_module),
        line: v.line,
        column: v.column,
        expected: clone_opt(&v.expected),
        actual: clone_opt(&v.actual),
        remediation_hint: clone_opt(&v.remediation_hint),
        contract_id: clone_opt(&v.contract_id),
        edge_type: v.edge_type,
    }
}

impl KeyOrdered for VerdictViolation {
    /// By source file, line, column, target file, rule, severity rank,
    /// fingerprint, message (paths compared as text).
    open spec fn key_order(a: Self, b: Self) -> int {
        then(
            seq_order(a.from_file@, b.from_file@),
            then(
                opt_int_order(opt_u32_view(a.line), opt_u32_view(b.line)),
                then(
                    opt_int_order(opt_u32_view(a.column), opt_u32_view(b.column)),
                    then(
                        opt_seq_order(opt_view(a.to_file), opt_view(b.to_file)),
                        then(
                            seq_order(a.rule@, b.rule@),
                            then(
                                int_order(severity_rank(a.severity), severity_rank(b.severity)),
                                then(seq_order(a.fingerprint@, b.fingerprint@), seq_order(a.message@, b.message@)),
                            ),
                        ),
                    ),
                ),
            ),
        )
    }

    proof fn lemma_key_order(a: Self, b: Self, c: Self) {
        lemma_seq_order_facts(a.from_file@, b.from_file@, c.from_file@);
        lemma_opt_int_order_facts(opt_u32_view(a.line), opt_u32_view(b.line), opt_u32_view(c.line));
        lemma_opt_int_order_facts(opt_u32_view(a.column), opt_u32_view(b.column), opt_u32_view(c.column));
        lemma_opt_seq_order_facts(opt_view(a.to_file), opt_view(b.to_file), opt_view(c.to_file));
        lemma_seq_order_facts(a.rule@, b.rule@, c.rule@);
        lemma_int_order_facts(severity_rank(a.severity), severity_rank(b.severity), severity_rank(c.severity));
        lemma_seq_order_facts(a.fingerprint@, b.fingerprint@, c.fingerprint@);
        lemma_seq_order_facts(a.message@, b.message@, c.message@);
    }

    fn key_compare(&self, other: &Self) -> (r: i8) {
        let o = str_order(self.from_file.as_str(), other.from_file.as_str());
        if o != 0 {
            return o;
        }
        let o = opt_u32_order(self.line, other.line);
        if o != 0 {
            return o;
        }
        let o = opt_u32_order(self.column, other.column);
        if o != 0 {
            return o;
        }
        let o = opt_str_order(&self.to_file, &other.to_file);
        if o != 0 {
            return o;
        }
        let o = str_order(self.rule.as_str(), other.rule.as_str());
        if o != 0 {
            return o;
        }
        let o = u8_order(severity_rank_exec(self.severity), severity_rank_exec(other.severity));
        if o != 0 {
            return o;
        }
        let o = str_order(self.fingerprint.as_str(), other.fingerprint.as_str());
        if o != 0 {
            return o;
        }
        str_order(self.message.as_str(), other.message.as_str())
    }
}

impl KeyOrdered for PolicyViolation {
    /// By source file (as a path), line, column, target file (as a path),
    /// source module, target module, rule, severity rank, message.
    open spec fn key_order(a: Self, b: Self) -> int {
        then(
            comps_order(path_components(a.from_file@), path_components(b.from_file@)),
            then(
                opt_int_order(opt_u32_view(a.line), opt_u32_view(b.line)),
                then(
                    opt_int_order(opt_u32_view(a.column), opt_u32_view(b.column)),
                    then(
                        opt_comps_order(opt_components(opt_view(a.to_file)), opt_components(opt_view(b.to_file))),
                        then(
                            opt_seq_order(opt_view(a.from_module), opt_view(b.from_module)),
                            then(
                                opt_seq_order(opt_view(a.to_module), opt_view(b.to_module)),
                                then(
                                    seq_order(a.rule@, b.rule@),
                                    then(
                                        int_order(severity_rank(a.severity), severity_rank(b.severity)),
                                        seq_order(a.message@, b.message@),
                                    ),
                                ),
                            ),
                        ),
                    ),
                ),
            ),
        )
    }

    proof fn lemma_key_order(a: Self, b: Self, c: Self) {
        lemma_comps_order_facts(
            path_components(a.from_file@),
            path_components(b.from_file@),
            path_components(c.from_file@),
        );
        lemma_opt_int_order_facts(opt_u32_view(a.line), opt_u32_view(b.line), opt_u32_view(c.line));
        lemma_opt_int_order_facts(opt_u32_view(a.column), opt_u32_view(b.column), opt_u32_view(c.column));
        lemma_opt_comps_order_facts(
            opt_components(opt_view(a.to_file)),
            opt_components(opt_view(b.to_file)),
            opt_components(opt_view(c.to_file)),
        );
        lemma_opt_seq_order_facts(opt_view(a.from_module), opt_view(b.from_module), opt_view(c.from_module));
        lemma_opt_seq_order_facts(opt_view(a.to_module), opt_view(b.to_module), opt_view(c.to_module));
        lemma_seq_order_facts(a.rule@, b.rule@, c.rule@);
        lemma_int_order_facts(severity_rank(a.severity), severity_rank(b.severity), severity_rank(c.severity));
        lemma_seq_order_facts(a.message@, b.message@, c.message@);
    }

    fn key_compare(&self, other: &Self) -> (r: i8) {
        let o = path_compare(self.from_file.as_str(), other.from_file.as_str());
        if o != 0 {
            return o;
        }
        let o = opt_u32_order(self.line, other.line);
        if o != 0 {
            return o;
        }
        let o = opt_u32_order(self.column, other.column);
        if o != 0 {
            return o;
        }
        let o = opt_path_compare(&self.to_file, &other.to_file);
        if o != 0 {
            return o;
        }
        let o = opt_str_order(&self.from_module, &other.from_module);
        if o != 0 {
            return o;
        }
        let o = opt_str_order(&self.to_module, &other.to_module);
        if o != 0 {
            return o;
        }
        let o = str_order(self.rule.as_str(), other.rule.as_str());
        if o != 0 {
            return o;
        }
        let o = u8_order(severity_rank_exec(self.severity), severity_rank_exec(other.severity));
        if o != 0 {
            return o;
        }
        str_order(self.message.as_str(), other.message.as_str())
    }
}

/// Sorts policy violations deterministically (see `PolicyViolation::key_order`).
pub fn sort_policy_violations(violations: &mut Vec<PolicyViolation>)
    ensures
        sorted_by_key(final(violations)@),
        final(violations)@.to_multiset() == old(violations)@.to_multiset(),
{
    sort_by_key(violations);
}

/// What a verdict built from `request` holds (see `build_verdict_from_request`).
pub open spec fn verdict_built_from(r: Verdict, request: VerdictBuildRequest) -> bool {
    let summary = summary_of(
        request.violations@,
        request.suppressed_violations,
        request.governance.stale_baseline_entries,
        request.governance.expired_baseline_entries,
    );
    &&& r.verdict_schema@ == VERDICT_SCHEMA_VERSION@
    &&& r.schema_version@ == "2.2"@
    &&& r.tool_version == request.identity.tool_version
    &&& r.git_sha == request.identity.git_sha
    &&& r.config_hash == request.identity.config_hash
    &&& r.spec_hash == request.identity.spec_hash
    &&& r.output_mode == request.identity.output_mode
    &&& r.spec_files_changed == request.identity.spec_files_changed
    &&& r.rule_deltas == (if request.governance.rule_deltas@.len() == 0 {
        request.identity.rule_deltas
    } else {
        request.governance.rule_deltas
    })
    &&& r.policy_change_detected == (request.governance.policy_change_detected
        || request.identity.policy_change_detected)
    &&& r.summary == summary
    &&& r.status == status_of(summary, request.options.stale_baseline_policy)
    &&& sorted_by_key(r.violations@)
    &&& r.violations@.map_values(|v: VerdictViolation| verdict_model(v)).to_multiset()
        == request.violations@.map_values(
        |e: FingerprintedViolation| rendered_model(request.project_root@, e),
    ).to_multiset()
    &&& r.violations@.map_values(|v: VerdictViolation| verdict_model(v)) == stable_sort_models(
        request.violations@.map_values(|e: FingerprintedViolation| rendered_model(request.project_root@, e)),
    )
    &&& r.metrics == request.metrics
    &&& r.governance == (if summary.core.stale_baseline_entries > 0 {
        Some(VerdictGovernance { stale_baseline_policy: request.options.stale_baseline_policy })
    } else {
        None
    })
    &&& r.telemetry == request.options.telemetry
    &&& r.workspace_packages is None
    &&& r.edge_classification is None
    &&& r.edges@.len() == 0
    &&& r.unresolved_edges@.len() == 0
}

/// A verdict is settled by its request: two verdicts built from the same
/// request (as `build_verdict_from_request` and `build_verdict_with_options`
/// build them) agree on every field, and hold the same violations in the
/// same order (ties kept in input order).
pub proof fn law_verdict_settled_by_request(r1: Verdict, r2: Verdict, request: VerdictBuildRequest)
    requires
        verdict_built_from(r1, request),
        verdict_built_from(r2, request),
    ensures
        r1.verdict_schema@ == r2.verdict_schema@,
        r1.schema_version@ == r2.schema_version@,
        r1.tool_version == r2.tool_version,
        r1.git_sha == r2.git_sha,
        r1.config_hash == r2.config_hash,
        r1.spec_hash == r2.spec_hash,
        r1.output_mode == r2.output_mode,
        r1.spec_files_changed == r2.spec_files_changed,
        r1.rule_deltas == r2.rule_deltas,
        r1.policy_change_detected == r2.policy_change_detected,
        r1.summary == r2.summary,
        r1.status == r2.status,
        sorted_by_key(r1.violations@) && sorted_by_key(r2.violations@),
        r1.violations@.map_values(|v: VerdictViolation| verdict_model(v)) == r2.violations@.map_values(
            |v: VerdictViolation| verdict_model(v),
        ),
        r1.metrics == r2.metrics,
        r1.governance == r2.governance,
        r1.telemetry == r2.telemetry,
        r1.workspace_packages == r2.workspace_packages,
        r1.edge_classification == r2.edge_classification,
        r1.edges@ == r2.edges@,
        r1.unresolved_edges@ == r2.unresolved_edges@,
{
    assert(r1.edges@ =~= r2.edges@);
    assert(r1.unresolved_edges@ =~= r2.unresolved_edges@);
}

/// The verdict for a request: its violations with project-relative paths
/// in deterministic order, their summary, and the resulting status.
pub fn build_verdict_from_request(request: VerdictBuildRequest<'_>) -> (r: Verdict)
    ensures
        verdict_built_from(r, request),
{
    let ghost req = request;
    let VerdictBuildRequest {
        project_root,
        violations,
        suppressed_violations,
        metrics,
        identity,
        governance,
        options,
    } = request;
    let mut rendered: Vec<VerdictViolation> = Vec::new();
    let mut i: usize = 0;
    while i < violations.len()
        invariant
            i <= violations@.len(),
            rendered@.len() == i,
            forall|k: int| 0 <= k < i ==> verdict_model(#[trigger] rendered@[k]) == rendered_model(project_root@, violations@[k]),
        decreases violations@.len() - i,
    {
        let v = render_violation(project_root, &violations[i]);
        rendered.push(v);
        i = i + 1;
    }
    let ghost unsorted = rendered@;
    assert(unsorted.map_values(|v: VerdictViolation| verdict_model(v)) =~= violations@.map_values(
        |e: FingerprintedViolation| rendered_model(project_root@, e),
    ));
    sort_by_key(&mut rendered);
    proof {
        lemma_multiset_map(rendered@, unsorted, |v: VerdictViolation| verdict_model(v));
        lemma_stable_sort_models(unsorted);
    }
    let summary = summarize(
        violations,
        suppressed_violations,
        governance.stale_baseline_entries,
        governance.expired_baseline_entries,
    );
    let fail_on_stale = match options.stale_baseline_policy {
        StaleBaselinePolicy::Fail => summary.core.stale_baseline_entries > 0,
        StaleBaselinePolicy::Warn => false,
    };
    let status = if summary.core.new_error_violations > 0 || fail_on_stale {
        VerdictStatus::Fail
    } else {
        VerdictStatus::Pass
    };
    let governance_payload = if summary.core.stale_baseline_entries > 0 {
        Some(VerdictGovernance { stale_baseline_policy: options.stale_baseline_policy })
    } else {
        None
    };
    let policy_change_detected = governance.policy_change_detected || identity.policy_change_detected;
    let rule_deltas = if governance.rule_deltas.len() == 0 {
        identity.rule_deltas
    } else {
        governance.rule_deltas
    };
    Verdict {
        schema_version: crate::text::owned("2.2"),
        verdict_schema: crate::text::owned(VERDICT_SCHEMA_VERSION),
        tool_version: identity.tool_version,
        git_sha: identity.git_sha,
        config_hash: identity.config_hash,
        spec_hash: identity.spec_hash,
        output_mode: identity.output_mode,
        spec_files_changed: identity.spec_files_changed,
        rule_deltas,
        policy_change_detected,
        status,
        summary,
        violations: rendered,
        metrics,
        governance: governance_payload,
        telemetry: options.telemetry,
        workspace_packages: None,
        edge_classification: None,
        edges: Vec::new(),
        unresolved_edges: Vec::new(),
    }
}

/// A verdict with default governance and options.
pub fn build_verdict(
    project_root: &str,
    violations: &[FingerprintedViolation],
    suppressed_violations: usize,
    metrics: Option<VerdictMetrics>,
    identity: VerdictIdentity,
) -> (r: Verdict)
    ensures
        exists|req: VerdictBuildRequest| {
            &&& verdict_built_from(r, req)
            &&& req.project_root == project_root
            &&& req.violations == violations
            &&& req.suppressed_violations == suppressed_violations
            &&& req.metrics == metrics
            &&& req.identity == identity
            &&& req.governance.stale_baseline_entries == 0
            &&& req.governance.expired_baseline_entries == 0
            &&& req.governance.rule_deltas@.len() == 0
            &&& !req.governance.policy_change_detected
            &&& req.options.stale_baseline_policy == StaleBaselinePolicy::Warn
            &&& req.options.telemetry is None
        },
{
    let request = VerdictBuildRequest {
        project_root,
        violations,
        suppressed_violations,
        metrics,
        identity,
        governance: GovernanceContext::default(),
        options: VerdictBuildOptions::default(),
    };
    let ghost req = request;
    let r = build_verdict_from_request(request);
    assert(verdict_built_from(r, req));
    r
}

/// A verdict with the given governance context and default options.
pub fn build_verdict_with_governance(
    project_root: &str,
    violations: &[FingerprintedViolation],
    suppressed_violations: usize,
    metrics: Option<VerdictMetrics>,
    identity: VerdictIdentity,
    governance: GovernanceContext,
) -> (r: Verdict)
    ensures
        exists|req: VerdictBuildRequest| {
            &&& verdict_built_from(r, req)
            &&& req.project_root == project_root
            &&& req.violations == violations
            &&& req.suppressed_violations == suppressed_violations
            &&& req.metrics == metrics
            &&& req.identity == identity
            &&& req.governance == governance
            &&& req.options.stale_baseline_policy == StaleBaselinePolicy::Warn
            &&& req.options.telemetry is None
        },
{
    let request = VerdictBuildRequest {
        project_root,
        violations,
        suppressed_violations,
        metrics,
        identity,
        governance,
        options: VerdictBuildOptions::default(),
    };
    let ghost req = request;
    let r = build_verdict_from_request(request);
    assert(verdict_built_from(r, req));
    r
}

/// A verdict with the given governance context and options.
pub fn build_verdict_with_options(
    project_root: &str,
    violations: &[FingerprintedViolation],
    suppressed_violations: usize,
    metrics: Option<VerdictMetrics>,
    identity: VerdictIdentity,
    governance: GovernanceContext,
    options: VerdictBuildOptions,
) -> (r: Verdict)
    ensures
        verdict_built_from(
            r,
            VerdictBuildRequest {
                project_root,
                violations,
                suppressed_violations,
                metrics,
                identity,
                governance,
                options,
            },
        ),
{
    build_verdict_from_request(
        VerdictBuildRequest {
            project_root,
            violations,
            suppressed_violations,
            metrics,
            identity,
            governance,
            options,
        },
    )
}

} // verus!
