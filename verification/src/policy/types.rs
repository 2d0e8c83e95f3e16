//! Policy-diff report types and their deterministic orderings.
use vstd::prelude::*;

use crate::order::{
    int_order, lemma_int_order_facts, lemma_opt_seq_order_facts, lemma_seq_order_facts,
    opt_seq_order, opt_str_order, sort_by_key, sorted_by_key, then, u8_order, KeyOrdered,
};
use vstd::multiset::Multiset;
use crate::order::lemma_multiset_map;
use crate::spec::types::{opt_json_shape, JsonShape, JsonValue};
use crate::text::{owned, seq_order, str_order};

verus! {

/// JSON schema version for `PolicyDiffReport` output.
pub const POLICY_DIFF_SCHEMA_VERSION: &'static str = "1";

/// Direction of a policy change.
#[derive(Debug, Clone, Copy, PartialEq, Eq, Structural)]
pub enum ChangeClassification {
    Widening,
    Narrowing,
    StructuralChange,
}

/// Rank of a classification in deterministic orderings.
pub open spec fn classification_rank(c: ChangeClassification) -> int {
    match c {
        ChangeClassification::Widening => 0,
        ChangeClassification::Narrowing => 1,
        ChangeClassification::StructuralChange => 2,
    }
}

impl ChangeClassification {
    /// Widening 0, narrowing 1, structural 2.
    pub fn deterministic_rank(self) -> (r: u8)
        ensures
            r as int == classification_rank(self),
    {
        match self {
            ChangeClassification::Widening => 0,
            ChangeClassification::Narrowing => 1,
            ChangeClassification::StructuralChange => 2,
        }
    }
}

/// Where in a spec a change happened.
#[derive(Debug, Clone, Copy, PartialEq, Eq, Structural)]
pub enum ChangeScope {
    SpecFile,
    Boundaries,
    Constraint,
    Contract,
    ContractMatch,
}

/// A classified change to one field of a module's spec.
#[derive(Debug, PartialEq, Eq)]
pub struct FieldChange {
    pub module: String,
    pub spec_path: String,
    pub scope: ChangeScope,
    pub field: String,
    pub classification: ChangeClassification,
    pub before: Option<JsonValue>,
    pub after: Option<JsonValue>,
    pub detail: String,
}

/// Where a change happened: module, spec path, scope and field.
pub type ChangeSite = (Seq<char>, Seq<char>, ChangeScope, Seq<char>);

/// A field change as plain values: site, then classification, the shapes of
/// the values before and after, and the detail text.
pub type FieldChangeModel = (ChangeSite, (ChangeClassification, Option<JsonShape>, Option<JsonShape>, Seq<char>));

pub open spec fn field_change_model(c: FieldChange) -> FieldChangeModel {
    (
        (c.module@, c.spec_path@, c.scope, c.field@),
        (c.classification, opt_json_shape(c.before), opt_json_shape(c.after), c.detail@),
    )
}

pub open spec fn field_change_models(cs: Seq<FieldChange>) -> Seq<FieldChangeModel> {
    cs.map_values(|c: FieldChange| field_change_model(c))
}

/// A module diff as plain values: module, spec path and its changes.
pub open spec fn diff_model(d: ModulePolicyDiff) -> (Seq<char>, Seq<char>, Multiset<FieldChangeModel>) {
    (d.module@, d.spec_path@, field_change_models(d.changes@).to_multiset())
}

/// A module diff with its changes as a multiset of whole changes.
pub open spec fn diff_full_model(d: ModulePolicyDiff) -> (Seq<char>, Seq<char>, Multiset<FieldChange>) {
    (d.module@, d.spec_path@, d.changes@.to_multiset())
}

/// A module diff with its changes in order.
pub open spec fn diff_seq_model(d: ModulePolicyDiff) -> (Seq<char>, Seq<char>, Seq<FieldChange>) {
    (d.module@, d.spec_path@, d.changes@)
}

/// All changes to one module's spec.
#[derive(Debug, PartialEq, Eq)]
pub struct ModulePolicyDiff {
    pub module: String,
    pub spec_path: String,
    pub changes: Vec<FieldChange>,
}

/// Counts over a policy diff.
#[derive(Debug, Clone, PartialEq, Eq, Default)]
pub struct PolicyDiffSummary {
    pub modules_changed: usize,
    pub widening_changes: usize,
    pub narrowing_changes: usize,
    pub structural_changes: usize,
    pub has_widening: bool,
    pub limitations: Vec<String>,
}

/// The result of comparing two refs' policies.
#[derive(Debug, PartialEq, Eq)]
pub struct PolicyDiffReport {
    pub schema_version: String,
    pub base_ref: String,
    pub head_ref: String,
    pub diffs: Vec<ModulePolicyDiff>,
    pub summary: PolicyDiffSummary,
    pub errors: Vec<PolicyDiffErrorEntry>,
    /// Cross-file compensation candidates.
    pub compensations: Vec<CompensationCandidate>,
    /// Net classification after compensation.
    pub net_classification: ChangeClassification,
    /// Config-level governance changes.
    pub config_changes: Vec<ConfigFieldChange>,
}

/// The net classification a summary implies: widening if any, else
/// narrowing if any, else structural.
pub open spec fn net_of_summary(summary: PolicyDiffSummary) -> ChangeClassification {
    if summary.has_widening {
        ChangeClassification::Widening
    } else if summary.narrowing_changes > 0 {
        ChangeClassification::Narrowing
    } else {
        ChangeClassification::StructuralChange
    }
}

impl PolicyDiffReport {
    /// A report without compensations or config changes, whose net
    /// classification is derived from the summary.
    pub fn new(
        base_ref: String,
        head_ref: String,
        diffs: Vec<ModulePolicyDiff>,
        summary: PolicyDiffSummary,
        errors: Vec<PolicyDiffErrorEntry>,
    ) -> (r: Self)
        ensures
            r.schema_version@ == POLICY_DIFF_SCHEMA_VERSION@,
            r.base_ref == base_ref,
            r.head_ref == head_ref,
            r.diffs == diffs,
            r.summary == summary,
            r.errors == errors,
            r.compensations@.len() == 0,
            r.config_changes@.len() == 0,
            r.net_classification == net_of_summary(summary),
    {
        let net_classification = if summary.has_widening {
            ChangeClassification::Widening
        } else if summary.narrowing_changes > 0 {
            ChangeClassification::Narrowing
        } else {
            ChangeClassification::StructuralChange
        };
        PolicyDiffReport {
            schema_version: owned(POLICY_DIFF_SCHEMA_VERSION),
            base_ref,
            head_ref,
            diffs,
            summary,
            errors,
            compensations: Vec::new(),
            net_classification,
            config_changes: Vec::new(),
        }
    }

    /// Sorts every list of the report into its deterministic order: the
    /// diffs, the changes inside each diff (each diff keeps its module, spec
    /// path and multiset of changes), the errors, the compensations and the
    /// configuration changes.
    pub fn sort_deterministic(&mut self)
        ensures
            sorted_by_key(final(self).diffs@),
            forall|i: int| 0 <= i < final(self).diffs@.len() ==> sorted_by_key(#[trigger] final(self).diffs@[i].changes@),
            final(self).diffs@.map_values(|d: ModulePolicyDiff| diff_model(d)).to_multiset() == old(
                self,
            ).diffs@.map_values(|d: ModulePolicyDiff| diff_model(d)).to_multiset(),
            final(self).diffs@.map_values(|d: ModulePolicyDiff| diff_full_model(d)).to_multiset() == old(
                self,
            ).diffs@.map_values(|d: ModulePolicyDiff| diff_full_model(d)).to_multiset(),
            sorted_by_key(final(self).errors@),
            final(self).errors@.to_multiset() == old(self).errors@.to_multiset(),
            sorted_by_key(final(self).compensations@),
            final(self).compensations@.to_multiset() == old(self).compensations@.to_multiset(),
            sorted_by_key(final(self).config_changes@),
            final(self).config_changes@.to_multiset() == old(self).config_changes@.to_multiset(),
            final(self).schema_version == old(self).schema_version,
            final(self).base_ref == old(self).base_ref,
            final(self).head_ref == old(self).head_ref,
            final(self).summary == old(self).summary,
            final(self).net_classification == old(self).net_classification,
            ({
                &&& sorted_by_key(old(self).diffs@)
                &&& forall|i: int| 0 <= i < old(self).diffs@.len() ==> sorted_by_key(#[trigger] old(self).diffs@[i].changes@)
                &&& sorted_by_key(old(self).errors@)
                &&& sorted_by_key(old(self).compensations@)
                &&& sorted_by_key(old(self).config_changes@)
            }) ==> {
                &&& final(self).diffs@.map_values(|d: ModulePolicyDiff| diff_seq_model(d)) == old(self).diffs@.map_values(
                    |d: ModulePolicyDiff| diff_seq_model(d),
                )
                &&& final(self).errors@ == old(self).errors@
                &&& final(self).compensations@ == old(self).compensations@
                &&& final(self).config_changes@ == old(self).config_changes@
            },
    {
        sort_module_policy_diffs_deterministic(&mut self.diffs);
        sort_policy_diff_errors_deterministic(&mut self.errors);
        sort_compensation_candidates_deterministic(&mut self.compensations);
        sort_config_field_changes_deterministic(&mut self.config_changes);
    }
}

/// An error met while building a policy diff.
#[derive(Debug, Clone, PartialEq, Eq)]
pub struct PolicyDiffErrorEntry {
    pub code: String,
    pub message: String,
    pub spec_path: Option<String>,
}

/// A typed dependency edge between two modules.
#[derive(Debug, Clone, PartialEq, Eq)]
pub struct DependencyEdge {
    /// Module that imports (has `allow_imports_from` listing the provider).
    pub importer: String,
    /// Module being imported from.
    pub provider: String,
}

/// Result of attempting cross-file compensation.
#[derive(Debug, Clone, Copy, PartialEq, Eq, Structural)]
pub enum CompensationResult {
    /// Narrowing fully offsets the widening.
    Offset,
    /// Narrowing partially offsets.
    Partial,
    /// Multiple candidates: fail closed, no compensation applied.
    Ambiguous,
}

/// A candidate pairing of a widening with a narrowing for cross-file compensation.
#[derive(Debug, PartialEq, Eq)]
pub struct CompensationCandidate {
    pub widening: FieldChange,
    pub narrowing: FieldChange,
    pub relationship: DependencyEdge,
    pub result: CompensationResult,
}

/// A classified change to one field of the project configuration.
#[derive(Debug, Clone, PartialEq, Eq)]
pub struct ConfigFieldChange {
    pub field_path: String,
    pub classification: ChangeClassification,
    pub before: String,
    pub after: String,
}

pub open spec fn compensation_rank(r: CompensationResult) -> int {
    match r {
        CompensationResult::Offset => 0,
        CompensationResult::Partial => 1,
        CompensationResult::Ambiguous => 2,
    }
}

fn compensation_result_rank(result: CompensationResult) -> (r: u8)
    ensures
        r as int == compensation_rank(result),
{
    match result {
        CompensationResult::Offset => 0,
        CompensationResult::Partial => 1,
        CompensationResult::Ambiguous => 2,
    }
}

pub open spec fn opt_view(o: Option<String>) -> Option<Seq<char>> {
    match o {
        Some(s) => Some(s@),
        None => None,
    }
}

impl KeyOrdered for ConfigFieldChange {
    /// By field path, classification rank, before value, after value.
    open spec fn key_order(a: Self, b: Self) -> int {
        then(
            seq_order(a.field_path@, b.field_path@),
            then(
                int_order(classification_rank(a.classification), classification_rank(b.classification)),
                then(seq_order(a.before@, b.before@), seq_order(a.after@, b.after@)),
            ),
        )
    }

    proof fn lemma_key_order(a: Self, b: Self, c: Self) {
        lemma_seq_order_facts(a.field_path@, b.field_path@, c.field_path@);
        lemma_int_order_facts(
            classification_rank(a.classification),
            classification_rank(b.classification),
            classification_rank(c.classification),
        );
        lemma_seq_order_facts(a.before@, b.before@, c.before@);
        lemma_seq_order_facts(a.after@, b.after@, c.after@);
    }

    fn key_compare(&self, other: &Self) -> (r: i8) {
        let o = str_order(self.field_path.as_str(), other.field_path.as_str());
        if o != 0 {
            return o;
        }
        let o = u8_order(self.classification.deterministic_rank(), other.classification.deterministic_rank());
        if o != 0 {
            return o;
        }
        let o = str_order(self.before.as_str(), other.before.as_str());
        if o != 0 {
            return o;
        }
        str_order(self.after.as_str(), other.after.as_str())
    }
}

impl KeyOrdered for PolicyDiffErrorEntry {
    /// By code, spec path (absent first), message.
    open spec fn key_order(a: Self, b: Self) -> int {
        then(
            seq_order(a.code@, b.code@),
            then(opt_seq_order(opt_view(a.spec_path), opt_view(b.spec_path)), seq_order(a.message@, b.message@)),
        )
    }

    proof fn lemma_key_order(a: Self, b: Self, c: Self) {
        lemma_seq_order_facts(a.code@, b.code@, c.code@);
        lemma_opt_seq_order_facts(opt_view(a.spec_path), opt_view(b.spec_path), opt_view(c.spec_path));
        lemma_seq_order_facts(a.message@, b.message@, c.message@);
    }

    fn key_compare(&self, other: &Self) -> (r: i8) {
        let o = str_order(self.code.as_str(), other.code.as_str());
        if o != 0 {
            return o;
        }
        let o = opt_str_order(&self.spec_path, &other.spec_path);
        if o != 0 {
            return o;
        }
        str_order(self.message.as_str(), other.message.as_str())
    }
}

impl KeyOrdered for FieldChange {
    /// By classification rank, field, detail, module, spec path.
    open spec fn key_order(a: Self, b: Self) -> int {
        then(
            int_order(classification_rank(a.classification), classification_rank(b.classification)),
            then(
                seq_order(a.field@, b.field@),
                then(
                    seq_order(a.detail@, b.detail@),
                    then(seq_order(a.module@, b.module@), seq_order(a.spec_path@, b.spec_path@)),
                ),
            ),
        )
    }

    proof fn lemma_key_order(a: Self, b: Self, c: Self) {
        lemma_int_order_facts(
            classification_rank(a.classification),
            classification_rank(b.classification),
            classification_rank(c.classification),
        );
        lemma_seq_order_facts(a.field@, b.field@, c.field@);
        lemma_seq_order_facts(a.detail@, b.detail@, c.detail@);
        lemma_seq_order_facts(a.module@, b.module@, c.module@);
        lemma_seq_order_facts(a.spec_path@, b.spec_path@, c.spec_path@);
    }

    fn key_compare(&self, other: &Self) -> (r: i8) {
        let o = u8_order(self.classification.deterministic_rank(), other.classification.deterministic_rank());
        if o != 0 {
            return o;
        }
        let o = str_order(self.field.as_str(), other.field.as_str());
        if o != 0 {
            return o;
        }
        let o = str_order(self.detail.as_str(), other.detail.as_str());
        if o != 0 {
            return o;
        }
        let o = str_order(self.module.as_str(), other.module.as_str());
        if o != 0 {
            return o;
        }
        str_order(self.spec_path.as_str(), other.spec_path.as_str())
    }
}

impl KeyOrdered for ModulePolicyDiff {
    /// By module, spec path.
    open spec fn key_order(a: Self, b: Self) -> int {
        then(seq_order(a.module@, b.module@), seq_order(a.spec_path@, b.spec_path@))
    }

    proof fn lemma_key_order(a: Self, b: Self, c: Self) {
        lemma_seq_order_facts(a.module@, b.module@, c.module@);
        lemma_seq_order_facts(a.spec_path@, b.spec_path@, c.spec_path@);
    }

    fn key_compare(&self, other: &Self) -> (r: i8) {
        let o = str_order(self.module.as_str(), other.module.as_str());
        if o != 0 {
            return o;
        }
        str_order(self.spec_path.as_str(), other.spec_path.as_str())
    }
}

impl KeyOrdered for CompensationCandidate {
    /// By result rank, widening module and field, narrowing module and field,
    /// importer, provider.
    open spec fn key_order(a: Self, b: Self) -> int {
        then(
            int_order(compensation_rank(a.result), compensation_rank(b.result)),
            then(
                seq_order(a.widening.module@, b.widening.module@),
                then(
                    seq_order(a.widening.field@, b.widening.field@),
                    then(
                        seq_order(a.narrowing.module@, b.narrowing.module@),
                        then(
                            seq_order(a.narrowing.field@, b.narrowing.field@),
                            then(
                                seq_order(a.relationship.importer@, b.relationship.importer@),
                                seq_order(a.relationship.provider@, b.relationship.provider@),
                            ),
                        ),
                    ),
                ),
            ),
        )
    }

    proof fn lemma_key_order(a: Self, b: Self, c: Self) {
        lemma_int_order_facts(compensation_rank(a.result), compensation_rank(b.result), compensation_rank(c.result));
        lemma_seq_order_facts(a.widening.module@, b.widening.module@, c.widening.module@);
        lemma_seq_order_facts(a.widening.field@, b.widening.field@, c.widening.field@);
        lemma_seq_order_facts(a.narrowing.module@, b.narrowing.module@, c.narrowing.module@);
        lemma_seq_order_facts(a.narrowing.field@, b.narrowing.field@, c.narrowing.field@);
        lemma_seq_order_facts(a.relationship.importer@, b.relationship.importer@, c.relationship.importer@);
        lemma_seq_order_facts(a.relationship.provider@, b.relationship.provider@, c.relationship.provider@);
    }

    fn key_compare(&self, other: &Self) -> (r: i8) {
        let o = u8_order(compensation_result_rank(self.result), compensation_result_rank(other.result));
        if o != 0 {
            return o;
        }
        let o = str_order(self.widening.module.as_str(), other.widening.module.as_str());
        if o != 0 {
            return o;
        }
        let o = str_order(self.widening.field.as_str(), other.widening.field.as_str());
        if o != 0 {
            return o;
        }
        let o = str_order(self.narrowing.module.as_str(), other.narrowing.module.as_str());
        if o != 0 {
            return o;
        }
        let o = str_order(self.narrowing.field.as_str(), other.narrowing.field.as_str());
        if o != 0 {
            return o;
        }
        let o = str_order(self.relationship.importer.as_str(), other.relationship.importer.as_str());
        if o != 0 {
            return o;
        }
        str_order(self.relationship.provider.as_str(), other.relationship.provider.as_str())
    }
}

/// Sorts compensation candidates by result rank, then the modules and fields involved.
pub fn sort_compensation_candidates_deterministic(candidates: &mut Vec<CompensationCandidate>)
    ensures
        sorted_by_key(final(candidates)@),
        final(candidates)@.to_multiset() == old(candidates)@.to_multiset(),
        sorted_by_key(old(candidates)@) ==> final(candidates)@ == old(candidates)@,
{
    sort_by_key(candidates);
}

/// Sorts config changes by field path, classification, before and after values.
pub fn sort_config_field_changes_deterministic(changes: &mut Vec<ConfigFieldChange>)
    ensures
        sorted_by_key(final(changes)@),
        final(changes)@.to_multiset() == old(changes)@.to_multiset(),
        sorted_by_key(old(changes)@) ==> final(changes)@ == old(changes)@,
{
    sort_by_key(changes);
}

/// Sorts field changes by classification, field, detail, module, spec path.
pub fn sort_field_changes_deterministic(changes: &mut Vec<FieldChange>)
    ensures
        sorted_by_key(final(changes)@),
        final(changes)@.to_multiset() == old(changes)@.to_multiset(),
        sorted_by_key(old(changes)@) ==> final(changes)@ == old(changes)@,
{
    sort_by_key(changes);
}

/// Sorts each module's changes, then the modules by module id and spec path.
pub fn sort_module_policy_diffs_deterministic(diffs: &mut Vec<ModulePolicyDiff>)
    ensures
        sorted_by_key(final(diffs)@),
        forall|i: int| 0 <= i < final(diffs)@.len() ==> sorted_by_key(#[trigger] final(diffs)@[i].changes@),
        final(diffs)@.map_values(|d: ModulePolicyDiff| diff_model(d)).to_multiset() == old(diffs)@.map_values(
            |d: ModulePolicyDiff| diff_model(d),
        ).to_multiset(),
        final(diffs)@.map_values(|d: ModulePolicyDiff| diff_full_model(d)).to_multiset() == old(diffs)@.map_values(
            |d: ModulePolicyDiff| diff_full_model(d),
        ).to_multiset(),
        sorted_by_key(old(diffs)@) && (forall|i: int| 0 <= i < old(diffs)@.len() ==> sorted_by_key(
            #[trigger] old(diffs)@[i].changes@,
        )) ==> final(diffs)@.map_values(|d: ModulePolicyDiff| diff_seq_model(d)) == old(diffs)@.map_values(
            |d: ModulePolicyDiff| diff_seq_model(d),
        ),
{
    let ghost original = diffs@;
    let ghost already = sorted_by_key(original) && (forall|i: int| 0 <= i < original.len() ==> sorted_by_key(
        #[trigger] original[i].changes@,
    ));
    let mut i: usize = 0;
    while i < diffs.len()
        invariant
            i <= diffs@.len(),
            diffs@.len() == original.len(),
            already == (sorted_by_key(original) && (forall|i: int| 0 <= i < original.len() ==> sorted_by_key(
                #[trigger] original[i].changes@,
            ))),
            already ==> forall|k: int| 0 <= k < diffs@.len() ==> diff_seq_model(#[trigger] diffs@[k]) == diff_seq_model(original[k]),
            forall|k: int| 0 <= k < i ==> sorted_by_key(#[trigger] diffs@[k].changes@),
            forall|k: int| 0 <= k < diffs@.len() ==> diff_model(#[trigger] diffs@[k]) == diff_model(original[k]),
            forall|k: int| 0 <= k < diffs@.len() ==> diff_full_model(#[trigger] diffs@[k]) == diff_full_model(original[k]),
        decreases diffs@.len() - i,
    {
        let ghost whole = diffs@;
        let mut d = diffs.remove(i);
        let ghost before = d.changes@;
        let ghost d0 = d;
        sort_field_changes_deterministic(&mut d.changes);
        proof {
            lemma_multiset_map(d.changes@, before, |c: FieldChange| field_change_model(c));
            if already {
                assert(diff_seq_model(d0) == diff_seq_model(original[i as int]));
                assert(d.changes@ == d0.changes@);
            }
        }
        diffs.insert(i, d);
        i = i + 1;
    }
    let ghost mid = diffs@;
    assert(mid.map_values(|d: ModulePolicyDiff| diff_model(d)) =~= original.map_values(
        |d: ModulePolicyDiff| diff_model(d),
    ));
    assert(mid.map_values(|d: ModulePolicyDiff| diff_full_model(d)) =~= original.map_values(
        |d: ModulePolicyDiff| diff_full_model(d),
    ));
    proof {
        if already {
            assert forall|a: int, b: int| 0 <= a < b < mid.len() implies ModulePolicyDiff::key_order(
                #[trigger] mid[a],
                #[trigger] mid[b],
            ) <= 0 by {
                assert(ModulePolicyDiff::key_order(original[a], original[b]) <= 0);
                assert(diff_seq_model(mid[a]) == diff_seq_model(original[a]));
                assert(diff_seq_model(mid[b]) == diff_seq_model(original[b]));
            }
            assert(mid.map_values(|d: ModulePolicyDiff| diff_seq_model(d)) =~= original.map_values(
                |d: ModulePolicyDiff| diff_seq_model(d),
            ));
        }
    }
    sort_by_key(diffs);
    proof {
        lemma_multiset_map(diffs@, mid, |d: ModulePolicyDiff| diff_model(d));
        lemma_multiset_map(diffs@, mid, |d: ModulePolicyDiff| diff_full_model(d));
        assert forall|k: int| 0 <= k < diffs@.len() implies sorted_by_key(#[trigger] diffs@[k].changes@) by {
            vstd::seq_lib::to_multiset_contains(diffs@, diffs@[k]);
            assert(diffs@.contains(diffs@[k]));
            assert(mid.to_multiset().count(diffs@[k]) > 0);
            vstd::seq_lib::to_multiset_contains(mid, diffs@[k]);
            let j = choose|j: int| 0 <= j < mid.len() && mid[j] == diffs@[k];
        }
    }
}

/// Sorts policy-diff errors by code, spec path, message.
pub fn sort_policy_diff_errors_deterministic(errors: &mut Vec<PolicyDiffErrorEntry>)
    ensures
        sorted_by_key(final(errors)@),
        final(errors)@.to_multiset() == old(errors)@.to_multiset(),
        sorted_by_key(old(errors)@) ==> final(errors)@ == old(errors)@,
{
    sort_by_key(errors);
}

/// Exit status of a policy-diff run.
#[derive(Debug, Clone, Copy, PartialEq, Eq, Structural)]
pub enum PolicyDiffExit {
    Clean,
    Widening,
    RuntimeError,
}

impl PolicyDiffExit {
    /// Clean 0, widening 1, runtime error 2.
    pub fn code(self) -> (r: i32)
        ensures
            r == (match self {
                PolicyDiffExit::Clean => 0i32,
                PolicyDiffExit::Widening => 1i32,
                PolicyDiffExit::RuntimeError => 2i32,
            }),
    {
        match self {
            PolicyDiffExit::Clean => 0,
            PolicyDiffExit::Widening => 1,
            PolicyDiffExit::RuntimeError => 2,
        }
    }
}

} // verus!
