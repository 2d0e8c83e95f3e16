//! Assembling a policy-diff report: summary counts, the net classification
//! (with and without cross-file compensation), and the exit it implies.
use vstd::prelude::*;

use super::compensate::{
    candidate_model, candidate_models, compensation_candidates, copy_field_change, dependency_edges_from_specs,
    edge_models, find_compensation_candidates, specs_edges, widening_key, CandidateModel,
};
use super::types::{
    diff_model, field_change_model, field_change_models, net_of_summary, POLICY_DIFF_SCHEMA_VERSION, ChangeClassification, CompensationResult, ConfigFieldChange, FieldChange,
    FieldChangeModel, ModulePolicyDiff, PolicyDiffErrorEntry, PolicyDiffExit, PolicyDiffReport, PolicyDiffSummary,
};
use crate::order::sorted_by_key;
use crate::spec::types::SpecFile;
use crate::strset::{set_insert, strictly_sorted};
use crate::text::{contains_text, lemma_seq_order_antisymmetric, owned, str_contains, views};

verus! {

/// The marker of a path change whose coverage could not be bounded.
pub const PATH_COVERAGE_LIMITATION: &'static str = "path_coverage_unbounded_mvp";

/// Options for controlling policy diff behavior.
#[derive(Debug, Clone, Default)]
pub struct PolicyDiffOptions {
    /// Enable cross-file compensation analysis (scoped to directly-connected modules).
    pub cross_file_compensation: bool,
}

/// Every change of every diff, in order.
pub open spec fn all_changes(diffs: Seq<ModulePolicyDiff>) -> Seq<FieldChange>
    decreases diffs.len(),
{
    if diffs.len() == 0 {
        Seq::empty()
    } else {
        all_changes(diffs.drop_last()) + diffs.last().changes@
    }
}

/// How many of `cs` have classification `c`.
pub open spec fn count_class(cs: Seq<FieldChange>, c: ChangeClassification) -> nat {
    cs.filter(|x: FieldChange| x.classification == c).len()
}

/// Some change's detail records the path-coverage limitation.
pub open spec fn coverage_limited(cs: Seq<FieldChange>) -> bool {
    exists|i: int| 0 <= i < cs.len() && contains_text(#[trigger] cs[i].detail@, PATH_COVERAGE_LIMITATION@)
}

/// The summary of a list of diffs: counts by classification, whether any
/// change widens, how many distinct modules changed, and the limitations
/// met.
pub open spec fn summary_ok(r: PolicyDiffSummary, diffs: Seq<ModulePolicyDiff>) -> bool {
    let cs = all_changes(diffs);
    &&& r.widening_changes == count_class(cs, ChangeClassification::Widening)
    &&& r.narrowing_changes == count_class(cs, ChangeClassification::Narrowing)
    &&& r.structural_changes == count_class(cs, ChangeClassification::StructuralChange)
    &&& r.has_widening == (count_class(cs, ChangeClassification::Widening) > 0)
    &&& r.modules_changed == diffs.map_values(|d: ModulePolicyDiff| d.module@).to_set().len()
    &&& views(r.limitations@) == if coverage_limited(cs) {
        seq![PATH_COVERAGE_LIMITATION@]
    } else {
        Seq::empty()
    }
}

proof fn lemma_strictly_sorted_set_len(s: Seq<Seq<char>>)
    requires
        strictly_sorted(s),
    ensures
        s.to_set().len() == s.len(),
{
    assert forall|i: int, j: int| 0 <= i < s.len() && 0 <= j < s.len() && i != j implies s[i] != s[j] by {
        if i < j {
            lemma_seq_order_antisymmetric(s[i], s[j]);
        } else {
            lemma_seq_order_antisymmetric(s[j], s[i]);
        }
    }
    s.unique_seq_to_set();
}

/// Summarizes diffs (see `summary_ok`).
pub fn summarize_policy_diffs(diffs: &[ModulePolicyDiff]) -> (r: PolicyDiffSummary)
    requires
        all_changes(diffs@).len() <= usize::MAX,
    ensures
        summary_ok(r, diffs@),
{
    let mut widening: usize = 0;
    let mut narrowing: usize = 0;
    let mut structural: usize = 0;
    let mut limited = false;
    let mut modules: Vec<String> = Vec::new();
    let ghost total = all_changes(diffs@);
    let mut i: usize = 0;
    assert(views(modules@).to_set() =~= diffs@.take(0).map_values(|d: ModulePolicyDiff| d.module@).to_set());
    while i < diffs.len()
        invariant
            total == all_changes(diffs@),
            total.len() <= usize::MAX,
            i <= diffs@.len(),
            strictly_sorted(views(modules@)),
            views(modules@).to_set() == diffs@.take(i as int).map_values(|d: ModulePolicyDiff| d.module@).to_set(),
            widening == count_class(all_changes(diffs@.take(i as int)), ChangeClassification::Widening),
            narrowing == count_class(all_changes(diffs@.take(i as int)), ChangeClassification::Narrowing),
            structural == count_class(all_changes(diffs@.take(i as int)), ChangeClassification::StructuralChange),
            widening + narrowing + structural == all_changes(diffs@.take(i as int)).len(),
            limited == coverage_limited(all_changes(diffs@.take(i as int))),
            all_changes(diffs@.take(i as int)).len() <= total.len(),
        decreases diffs@.len() - i,
    {
        let d = &diffs[i];
        let ghost prefix = all_changes(diffs@.take(i as int));
        assert(diffs@.take(i + 1).drop_last() =~= diffs@.take(i as int));
        assert(diffs@.take(i + 1).last() == *d);
        assert(all_changes(diffs@.take(i + 1)) == prefix + d.changes@);
        proof {
            lemma_all_changes_prefix(diffs@, i + 1);
        }
        set_insert(&mut modules, d.module.clone());
        assert(diffs@.take(i + 1).map_values(|x: ModulePolicyDiff| x.module@) =~= diffs@.take(i as int).map_values(
            |x: ModulePolicyDiff| x.module@,
        ).push(d.module@));
        proof {
            crate::policy::config_diff::lemma_push_to_set(
                diffs@.take(i as int).map_values(|x: ModulePolicyDiff| x.module@),
                d.module@,
            );
        }
        let mut j: usize = 0;
        while j < d.changes.len()
            invariant
                j <= d.changes@.len(),
                (prefix + d.changes@).len() <= usize::MAX,
                widening == count_class(prefix + d.changes@.take(j as int), ChangeClassification::Widening),
                narrowing == count_class(prefix + d.changes@.take(j as int), ChangeClassification::Narrowing),
                structural == count_class(prefix + d.changes@.take(j as int), ChangeClassification::StructuralChange),
                widening + narrowing + structural == (prefix + d.changes@.take(j as int)).len(),
                limited == coverage_limited(prefix + d.changes@.take(j as int)),
            decreases d.changes@.len() - j,
        {
            let c = &d.changes[j];
            let ghost before = prefix + d.changes@.take(j as int);
            let ghost after = prefix + d.changes@.take(j + 1);
            assert(after =~= before.push(*c));
            assert(after.drop_last() =~= before);
            reveal(Seq::filter);
            match c.classification {
                ChangeClassification::Widening => {
                    widening = widening + 1;
                },
                ChangeClassification::Narrowing => {
                    narrowing = narrowing + 1;
                },
                ChangeClassification::StructuralChange => {
                    structural = structural + 1;
                },
            }
            let hit = str_contains(c.detail.as_str(), PATH_COVERAGE_LIMITATION);
            proof {
                if coverage_limited(before) {
                    let q = choose|q: int| 0 <= q < before.len() && contains_text(#[trigger] before[q].detail@, PATH_COVERAGE_LIMITATION@);
                    assert(after[q] == before[q]);
                }
                if hit {
                    assert(after[before.len() as int] == *c);
                }
                if coverage_limited(after) {
                    let q = choose|q: int| 0 <= q < after.len() && contains_text(#[trigger] after[q].detail@, PATH_COVERAGE_LIMITATION@);
                    if q < before.len() {
                        assert(before[q] == after[q]);
                    }
                }
            }
            limited = limited || hit;
            j = j + 1;
        }
        assert(d.changes@.take(j as int) =~= d.changes@);
        i = i + 1;
    }
    assert(diffs@.take(i as int) =~= diffs@);
    proof {
        lemma_strictly_sorted_set_len(views(modules@));
    }
    let mut limitations: Vec<String> = Vec::new();
    if limited {
        limitations.push(owned(PATH_COVERAGE_LIMITATION));
        assert(views(limitations@) =~= seq![PATH_COVERAGE_LIMITATION@]);
    } else {
        assert(views(limitations@) =~= Seq::<Seq<char>>::empty());
    }
    PolicyDiffSummary {
        modules_changed: modules.len(),
        widening_changes: widening,
        narrowing_changes: narrowing,
        structural_changes: structural,
        has_widening: widening > 0,
        limitations,
    }
}

proof fn lemma_all_changes_prefix(diffs: Seq<ModulePolicyDiff>, k: int)
    requires
        0 <= k <= diffs.len(),
    ensures
        all_changes(diffs.take(k)).len() <= all_changes(diffs).len(),
    decreases diffs.len() - k,
{
    if k < diffs.len() {
        lemma_all_changes_prefix(diffs, k + 1);
        assert(diffs.take(k + 1).drop_last() =~= diffs.take(k));
    } else {
        assert(diffs.take(k) =~= diffs);
    }
}

/// How many config changes have classification `c`.
pub open spec fn config_count(cs: Seq<ConfigFieldChange>, c: ChangeClassification) -> nat {
    cs.filter(|x: ConfigFieldChange| x.classification == c).len()
}

/// Adds config changes to a summary's counts.
fn apply_config_changes_to_summary(summary: &mut PolicyDiffSummary, config_changes: &[ConfigFieldChange])
    requires
        old(summary).widening_changes + config_changes@.len() <= usize::MAX,
        old(summary).narrowing_changes + config_changes@.len() <= usize::MAX,
        old(summary).structural_changes + config_changes@.len() <= usize::MAX,
    ensures
        final(summary).widening_changes == old(summary).widening_changes + config_count(
            config_changes@,
            ChangeClassification::Widening,
        ),
        final(summary).narrowing_changes == old(summary).narrowing_changes + config_count(
            config_changes@,
            ChangeClassification::Narrowing,
        ),
        final(summary).structural_changes == old(summary).structural_changes + config_count(
            config_changes@,
            ChangeClassification::StructuralChange,
        ),
        final(summary).has_widening == (old(summary).has_widening || config_count(
            config_changes@,
            ChangeClassification::Widening,
        ) > 0),
        final(summary).modules_changed == old(summary).modules_changed,
        final(summary).limitations == old(summary).limitations,
{
    let ghost start = *summary;
    let ghost cs = config_changes@;
    let mut i: usize = 0;
    while i < config_changes.len()
        invariant
            cs == config_changes@,
            i <= cs.len(),
            start.widening_changes + cs.len() <= usize::MAX,
            start.narrowing_changes + cs.len() <= usize::MAX,
            start.structural_changes + cs.len() <= usize::MAX,
            summary.widening_changes == start.widening_changes + config_count(cs.take(i as int), ChangeClassification::Widening),
            summary.narrowing_changes == start.narrowing_changes + config_count(cs.take(i as int), ChangeClassification::Narrowing),
            summary.structural_changes == start.structural_changes + config_count(
                cs.take(i as int),
                ChangeClassification::StructuralChange,
            ),
            config_count(cs.take(i as int), ChangeClassification::Widening) <= i,
            config_count(cs.take(i as int), ChangeClassification::Narrowing) <= i,
            config_count(cs.take(i as int), ChangeClassification::StructuralChange) <= i,
            summary.has_widening == (start.has_widening || config_count(cs.take(i as int), ChangeClassification::Widening) > 0),
            summary.modules_changed == start.modules_changed,
            summary.limitations == start.limitations,
        decreases cs.len() - i,
    {
        assert(cs.take(i + 1).drop_last() =~= cs.take(i as int));
        assert(cs.take(i + 1).last() == cs[i as int]);
        reveal(Seq::filter);
        match config_changes[i].classification {
            ChangeClassification::Widening => {
                summary.widening_changes = summary.widening_changes + 1;
                summary.has_widening = true;
            },
            ChangeClassification::Narrowing => {
                summary.narrowing_changes = summary.narrowing_changes + 1;
            },
            ChangeClassification::StructuralChange => {
                summary.structural_changes = summary.structural_changes + 1;
            },
        }
        i = i + 1;
    }
    assert(cs.take(i as int) =~= cs);
}

/// The net classification a summary implies (see `net_of_summary`).
pub fn derive_net_classification(summary: &PolicyDiffSummary) -> (r: ChangeClassification)
    ensures
        r == net_of_summary(*summary),
{
    if summary.has_widening {
        ChangeClassification::Widening
    } else if summary.narrowing_changes > 0 {
        ChangeClassification::Narrowing
    } else {
        ChangeClassification::StructuralChange
    }
}

/// The widenings an offset candidate compensates: (module, field).
pub open spec fn offset_keys(cands: Seq<CandidateModel>) -> Set<(Seq<char>, Seq<char>)> {
    Set::new(
        |k: (Seq<char>, Seq<char>)|
            exists|i: int|
                0 <= i < cands.len() && (#[trigger] cands[i]).3 == CompensationResult::Offset && widening_key(cands[i]) == k,
    )
}

/// Some spec widening is not compensated.
pub open spec fn uncompensated_widening(changes: Seq<FieldChange>, keys: Set<(Seq<char>, Seq<char>)>) -> bool {
    exists|i: int|
        0 <= i < changes.len() && (#[trigger] changes[i]).classification == ChangeClassification::Widening
            && !keys.contains((changes[i].module@, changes[i].field@))
}

/// Some config change widens.
pub open spec fn config_widens(cs: Seq<ConfigFieldChange>) -> bool {
    exists|i: int| 0 <= i < cs.len() && (#[trigger] cs[i]).classification == ChangeClassification::Widening
}

/// The net classification once compensation is taken into account: widening
/// while some spec widening is uncompensated or some config change widens;
/// else narrowing if the summary counts a narrowing; else structural.
pub open spec fn net_with_compensation(report: PolicyDiffReport) -> ChangeClassification {
    if uncompensated_widening(all_changes(report.diffs@), offset_keys(candidate_models(report.compensations@)))
        || config_widens(report.config_changes@) {
        ChangeClassification::Widening
    } else if report.summary.narrowing_changes > 0 {
        ChangeClassification::Narrowing
    } else {
        ChangeClassification::StructuralChange
    }
}

fn is_offset_key(cands: &Vec<super::types::CompensationCandidate>, module: &str, field: &str) -> (r: bool)
    ensures
        r == offset_keys(candidate_models(cands@)).contains((module@, field@)),
{
    let ghost ms = candidate_models(cands@);
    let mut i: usize = 0;
    while i < cands.len()
        invariant
            ms == candidate_models(cands@),
            i <= cands@.len(),
            forall|k: int| 0 <= k < i ==> !((#[trigger] ms[k]).3 == CompensationResult::Offset && widening_key(ms[k]) == (module@, field@)),
        decreases cands@.len() - i,
    {
        let c = &cands[i];
        assert(ms[i as int] == candidate_model(*c));
        if c.result == CompensationResult::Offset && crate::text::str_eq(c.widening.module.as_str(), module)
            && crate::text::str_eq(c.widening.field.as_str(), field) {
            return true;
        }
        i = i + 1;
    }
    false
}

/// The net classification once compensation is taken into account (see
/// `net_with_compensation`).
pub fn derive_net_classification_with_compensation(report: &PolicyDiffReport) -> (r: ChangeClassification)
    ensures
        r == net_with_compensation(*report),
{
    let ghost keys = offset_keys(candidate_models(report.compensations@));
    let mut uncompensated = false;
    let mut i: usize = 0;
    assert(report.diffs@.take(0) =~= Seq::<ModulePolicyDiff>::empty());
    while i < report.diffs.len()
        invariant
            keys == offset_keys(candidate_models(report.compensations@)),
            i <= report.diffs@.len(),
            uncompensated == uncompensated_widening(all_changes(report.diffs@.take(i as int)), keys),
        decreases report.diffs@.len() - i,
    {
        let d = &report.diffs[i];
        let ghost prefix = all_changes(report.diffs@.take(i as int));
        assert(report.diffs@.take(i + 1).drop_last() =~= report.diffs@.take(i as int));
        assert(report.diffs@.take(i + 1).last() == *d);
        assert(all_changes(report.diffs@.take(i + 1)) == prefix + d.changes@);
        let mut j: usize = 0;
        while j < d.changes.len()
            invariant
                keys == offset_keys(candidate_models(report.compensations@)),
                j <= d.changes@.len(),
                uncompensated == uncompensated_widening(prefix + d.changes@.take(j as int), keys),
            decreases d.changes@.len() - j,
        {
            let c = &d.changes[j];
            let ghost before = prefix + d.changes@.take(j as int);
            let ghost after = prefix + d.changes@.take(j + 1);
            assert(after =~= before.push(*c));
            let hit = c.classification == ChangeClassification::Widening && !is_offset_key(
                &report.compensations,
                c.module.as_str(),
                c.field.as_str(),
            );
            proof {
                if uncompensated_widening(before, keys) {
                    let q = choose|q: int|
                        0 <= q < before.len() && (#[trigger] before[q]).classification == ChangeClassification::Widening
                            && !keys.contains((before[q].module@, before[q].field@));
                    assert(after[q] == before[q]);
                }
                if hit {
                    assert(after[before.len() as int] == *c);
                }
                if uncompensated_widening(after, keys) {
                    let q = choose|q: int|
                        0 <= q < after.len() && (#[trigger] after[q]).classification == ChangeClassification::Widening
                            && !keys.contains((after[q].module@, after[q].field@));
                    if q < before.len() {
                        assert(before[q] == after[q]);
                    }
                }
            }
            uncompensated = uncompensated || hit;
            j = j + 1;
        }
        assert(d.changes@.take(j as int) =~= d.changes@);
        i = i + 1;
    }
    assert(report.diffs@.take(i as int) =~= report.diffs@);
    let mut config_widening = false;
    let mut k: usize = 0;
    while k < report.config_changes.len()
        invariant
            k <= report.config_changes@.len(),
            config_widening == exists|q: int|
                0 <= q < k && (#[trigger] report.config_changes@[q]).classification == ChangeClassification::Widening,
        decreases report.config_changes@.len() - k,
    {
        if report.config_changes[k].classification == ChangeClassification::Widening {
            config_widening = true;
        }
        k = k + 1;
    }
    if uncompensated || config_widening {
        ChangeClassification::Widening
    } else if report.summary.narrowing_changes > 0 {
        ChangeClassification::Narrowing
    } else {
        ChangeClassification::StructuralChange
    }
}

/// The exit a report implies: a runtime error when it holds errors, else
/// widening when its net classification widens, else clean.
pub fn derive_policy_diff_exit(report: &PolicyDiffReport) -> (r: PolicyDiffExit)
    ensures
        r == (if report.errors@.len() > 0 {
            PolicyDiffExit::RuntimeError
        } else if report.net_classification == ChangeClassification::Widening {
            PolicyDiffExit::Widening
        } else {
            PolicyDiffExit::Clean
        }),
{
    if report.errors.len() > 0 {
        PolicyDiffExit::RuntimeError
    } else if report.net_classification == ChangeClassification::Widening {
        PolicyDiffExit::Widening
    } else {
        PolicyDiffExit::Clean
    }
}

/// A summary with nothing counted.
pub open spec fn empty_summary(s: PolicyDiffSummary) -> bool {
    &&& s.modules_changed == 0
    &&& s.widening_changes == 0
    &&& s.narrowing_changes == 0
    &&& s.structural_changes == 0
    &&& !s.has_widening
    &&& s.limitations@.len() == 0
}

/// The summary of diffs with config changes counted in.
pub open spec fn summary_with_config(r: PolicyDiffSummary, diffs: Seq<ModulePolicyDiff>, cs: Seq<ConfigFieldChange>) -> bool {
    let all = all_changes(diffs);
    &&& r.widening_changes == count_class(all, ChangeClassification::Widening) + config_count(cs, ChangeClassification::Widening)
    &&& r.narrowing_changes == count_class(all, ChangeClassification::Narrowing) + config_count(cs, ChangeClassification::Narrowing)
    &&& r.structural_changes == count_class(all, ChangeClassification::StructuralChange) + config_count(
        cs,
        ChangeClassification::StructuralChange,
    )
    &&& r.has_widening == (count_class(all, ChangeClassification::Widening) > 0 || config_count(
        cs,
        ChangeClassification::Widening,
    ) > 0)
    &&& r.modules_changed == diffs.map_values(|d: ModulePolicyDiff| d.module@).to_set().len()
    &&& views(r.limitations@) == if coverage_limited(all) {
        seq![PATH_COVERAGE_LIMITATION@]
    } else {
        Seq::empty()
    }
}

proof fn lemma_count_bound(cs: Seq<FieldChange>, c: ChangeClassification)
    ensures
        count_class(cs, c) <= cs.len(),
{
    cs.lemma_filter_len(|x: FieldChange| x.classification == c);
}

/// Assembles a report from the classified diffs, the errors met while
/// loading the snapshots, and the config changes. With errors the diffs and
/// config changes are dropped and nothing is counted; otherwise the summary
/// counts the diffs' and the config's changes. Every list comes sorted, and
/// the net classification follows the summary.
pub fn assemble_policy_diff_report(
    base_ref: String,
    head_ref: String,
    diffs: Vec<ModulePolicyDiff>,
    errors: Vec<PolicyDiffErrorEntry>,
    config_changes: Vec<ConfigFieldChange>,
) -> (r: PolicyDiffReport)
    requires
        all_changes(diffs@).len() + config_changes@.len() <= usize::MAX,
    ensures
        r.base_ref == base_ref,
        r.head_ref == head_ref,
        r.schema_version@ == POLICY_DIFF_SCHEMA_VERSION@,
        sorted_by_key(r.errors@),
        r.errors@.to_multiset() == errors@.to_multiset(),
        r.compensations@.len() == 0,
        r.net_classification == net_of_summary(r.summary),
        errors@.len() > 0 ==> r.diffs@.len() == 0 && r.config_changes@.len() == 0 && empty_summary(r.summary),
        errors@.len() == 0 ==> {
            &&& sorted_by_key(r.diffs@)
            &&& r.diffs@.map_values(|d: ModulePolicyDiff| diff_model(d)).to_multiset() == diffs@.map_values(
                |d: ModulePolicyDiff| diff_model(d),
            ).to_multiset()
            &&& sorted_by_key(r.config_changes@)
            &&& r.config_changes@.to_multiset() == config_changes@.to_multiset()
            &&& summary_with_config(r.summary, diffs@, config_changes@)
        },
{
    if errors.len() > 0 {
        let summary = PolicyDiffSummary {
            modules_changed: 0,
            widening_changes: 0,
            narrowing_changes: 0,
            structural_changes: 0,
            has_widening: false,
            limitations: Vec::new(),
        };
        let mut report = PolicyDiffReport::new(base_ref, head_ref, Vec::new(), summary, errors);
        let ghost comp0 = report.compensations@;
        let ghost cfg0 = report.config_changes@;
        let ghost dm0 = report.diffs@.map_values(|d: ModulePolicyDiff| diff_model(d));
        report.sort_deterministic();
        proof {
            comp0.to_multiset_ensures();
            report.compensations@.to_multiset_ensures();
            cfg0.to_multiset_ensures();
            report.config_changes@.to_multiset_ensures();
            dm0.to_multiset_ensures();
            report.diffs@.map_values(|d: ModulePolicyDiff| diff_model(d)).to_multiset_ensures();
        }
        return report;
    }
    proof {
        lemma_count_bound(all_changes(diffs@), ChangeClassification::Widening);
        lemma_count_bound(all_changes(diffs@), ChangeClassification::Narrowing);
        lemma_count_bound(all_changes(diffs@), ChangeClassification::StructuralChange);
    }
    let summary = summarize_policy_diffs(diffs.as_slice());
    let ghost d0 = diffs@;
    let ghost c0 = config_changes@;
    let mut report = PolicyDiffReport::new(base_ref, head_ref, diffs, summary, errors);
    report.config_changes = config_changes;
    apply_config_changes_to_summary(&mut report.summary, report.config_changes.as_slice());
    report.net_classification = derive_net_classification(&report.summary);
    let ghost comp0 = report.compensations@;
    report.sort_deterministic();
    proof {
        comp0.to_multiset_ensures();
        report.compensations@.to_multiset_ensures();
    }
    report
}

/// Copies of the changes of the diffs with classification `c`, in order.
fn changes_classified(diffs: &Vec<ModulePolicyDiff>, c: ChangeClassification) -> (r: Vec<FieldChange>)
    ensures
        field_change_models(r@) == field_change_models(all_changes(diffs@)).filter(
            |m: FieldChangeModel| m.1.0 == c,
        ),
{
    let mut out: Vec<FieldChange> = Vec::new();
    let mut i: usize = 0;
    assert(diffs@.take(0) =~= Seq::<ModulePolicyDiff>::empty());
    assert(field_change_models(all_changes(diffs@.take(0))) =~= Seq::<FieldChangeModel>::empty());
    while i < diffs.len()
        invariant
            i <= diffs@.len(),
            field_change_models(out@) == field_change_models(all_changes(diffs@.take(i as int))).filter(
                |m: FieldChangeModel| m.1.0 == c,
            ),
        decreases diffs@.len() - i,
    {
        let d = &diffs[i];
        let ghost prefix = all_changes(diffs@.take(i as int));
        assert(diffs@.take(i + 1).drop_last() =~= diffs@.take(i as int));
        assert(diffs@.take(i + 1).last() == *d);
        assert(all_changes(diffs@.take(i + 1)) == prefix + d.changes@);
        let mut j: usize = 0;
        while j < d.changes.len()
            invariant
                j <= d.changes@.len(),
                field_change_models(out@) == field_change_models(prefix + d.changes@.take(j as int)).filter(
                    |m: FieldChangeModel| m.1.0 == c,
                ),
            decreases d.changes@.len() - j,
        {
            let ch = &d.changes[j];
            let ghost before = field_change_models(prefix + d.changes@.take(j as int));
            let ghost after = field_change_models(prefix + d.changes@.take(j + 1));
            assert(after =~= before.push(field_change_model(*ch)));
            assert(after.drop_last() =~= before);
            reveal(Seq::filter);
            if ch.classification == c {
                let ghost prev = field_change_models(out@);
                out.push(copy_field_change(ch));
                assert(field_change_models(out@) =~= prev.push(field_change_model(*ch)));
            }
            j = j + 1;
        }
        assert(d.changes@.take(j as int) =~= d.changes@);
        i = i + 1;
    }
    assert(diffs@.take(i as int) =~= diffs@);
    out
}

/// Applies cross-file compensation: pairs the report's spec widenings with
/// its narrowings over the dependency edges of the head specs (see
/// `compensation_candidates`), records the candidates, and recomputes the
/// net classification with them.
pub fn apply_compensation(report: &mut PolicyDiffReport, head_specs: &[SpecFile])
    ensures
        candidate_models(final(report).compensations@) == compensation_candidates(
            field_change_models(all_changes(old(report).diffs@)).filter(
                |m: FieldChangeModel| m.1.0 == ChangeClassification::Widening,
            ),
            field_change_models(all_changes(old(report).diffs@)).filter(
                |m: FieldChangeModel| m.1.0 == ChangeClassification::Narrowing,
            ),
            specs_edges(head_specs@),
        ),
        final(report).net_classification == net_with_compensation(*final(report)),
        final(report).diffs == old(report).diffs,
        final(report).summary == old(report).summary,
        final(report).errors == old(report).errors,
        final(report).config_changes == old(report).config_changes,
        final(report).base_ref == old(report).base_ref,
        final(report).head_ref == old(report).head_ref,
        final(report).schema_version == old(report).schema_version,
{
    let edges = dependency_edges_from_specs(head_specs);
    let widenings = changes_classified(&report.diffs, ChangeClassification::Widening);
    let narrowings = changes_classified(&report.diffs, ChangeClassification::Narrowing);
    let candidates = find_compensation_candidates(widenings.as_slice(), narrowings.as_slice(), edges.as_slice());
    report.compensations = candidates;
    let net = derive_net_classification_with_compensation(report);
    report.net_classification = net;
}

/// Applies the options to a report built without them: cross-file
/// compensation when asked for, over the head specs' dependency edges.
pub fn apply_policy_diff_options(report: &mut PolicyDiffReport, options: &PolicyDiffOptions, head_specs: &[SpecFile])
    ensures
        !options.cross_file_compensation ==> *final(report) == *old(report),
        options.cross_file_compensation ==> {
            &&& candidate_models(final(report).compensations@) == compensation_candidates(
                field_change_models(all_changes(old(report).diffs@)).filter(
                    |m: FieldChangeModel| m.1.0 == ChangeClassification::Widening,
                ),
                field_change_models(all_changes(old(report).diffs@)).filter(
                    |m: FieldChangeModel| m.1.0 == ChangeClassification::Narrowing,
                ),
                specs_edges(head_specs@),
            )
            &&& final(report).net_classification == net_with_compensation(*final(report))
            &&& final(report).diffs == old(report).diffs
            &&& final(report).summary == old(report).summary
            &&& final(report).errors == old(report).errors
            &&& final(report).config_changes == old(report).config_changes
        },
{
    if options.cross_file_compensation {
        apply_compensation(report, head_specs);
    }
}

} // verus!
