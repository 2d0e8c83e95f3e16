//! The human-readable rendering of a policy-diff report.
use vstd::prelude::*;

use super::report::all_changes;
use super::types::{
    diff_model, ChangeClassification, CompensationCandidate, CompensationResult, ConfigFieldChange, FieldChange, ModulePolicyDiff,
    PolicyDiffErrorEntry, PolicyDiffReport,
};
use crate::order::sorted_by_key;
use crate::text::{decimal, decimal_string, join_text, join_text_exec, owned, push_str, views};

verus! {

pub open spec fn classification_label(c: ChangeClassification) -> Seq<char> {
    match c {
        ChangeClassification::Widening => "WIDENING"@,
        ChangeClassification::Narrowing => "NARROWING"@,
        ChangeClassification::StructuralChange => "STRUCTURAL"@,
    }
}

fn render_classification(c: ChangeClassification) -> (r: &'static str)
    ensures
        r@ == classification_label(c),
{
    match c {
        ChangeClassification::Widening => "WIDENING",
        ChangeClassification::Narrowing => "NARROWING",
        ChangeClassification::StructuralChange => "STRUCTURAL",
    }
}

pub open spec fn change_line(c: FieldChange) -> Seq<char> {
    "  - module="@ + c.module@ + " field="@ + c.field@ + " detail="@ + c.detail@
}

/// A section: its title with the count, a line per change, a blank line.
pub open spec fn section_lines(title: Seq<char>, cs: Seq<FieldChange>) -> Seq<Seq<char>> {
    seq![title + " ("@ + decimal(cs.len()) + ")"@] + cs.map_values(|c: FieldChange| change_line(c)) + seq![Seq::empty()]
}

pub open spec fn classified(cs: Seq<FieldChange>, c: ChangeClassification) -> Seq<FieldChange> {
    cs.filter(|x: FieldChange| x.classification == c)
}

pub open spec fn config_line(c: ConfigFieldChange) -> Seq<char> {
    "  "@ + classification_label(c.classification) + ": "@ + c.field_path@ + ": "@ + c.before@ + " -> "@ + c.after@
}

pub open spec fn config_lines(cs: Seq<ConfigFieldChange>) -> Seq<Seq<char>> {
    if cs.len() == 0 {
        Seq::empty()
    } else {
        seq!["Config changes (specgate.config.yml):"@] + cs.map_values(|c: ConfigFieldChange| config_line(c)) + seq![
            Seq::empty(),
        ]
    }
}

pub open spec fn result_label(r: CompensationResult) -> Seq<char> {
    match r {
        CompensationResult::Offset => "offset"@,
        CompensationResult::Partial => "partial"@,
        CompensationResult::Ambiguous => "ambiguous"@,
    }
}

pub open spec fn compensation_line(c: CompensationCandidate) -> Seq<char> {
    "  COMPENSATED ("@ + result_label(c.result) + "): widening in "@ + c.widening.module@ + "/"@ + c.widening.field@
        + " offset by narrowing in "@ + c.narrowing.module@ + "/"@ + c.narrowing.field@ + " ("@
        + c.relationship.importer@ + " imports from "@ + c.relationship.provider@ + ")"@
}

pub open spec fn compensation_lines(cs: Seq<CompensationCandidate>) -> Seq<Seq<char>> {
    if cs.len() == 0 {
        Seq::empty()
    } else {
        seq!["Compensations:"@] + cs.map_values(|c: CompensationCandidate| compensation_line(c)) + seq![Seq::empty()]
    }
}

pub open spec fn summary_line(r: PolicyDiffReport) -> Seq<char> {
    "Summary: modules_changed="@ + decimal(r.summary.modules_changed as nat) + " widening="@ + decimal(
        r.summary.widening_changes as nat,
    ) + " narrowing="@ + decimal(r.summary.narrowing_changes as nat) + " structural="@ + decimal(
        r.summary.structural_changes as nat,
    ) + " net="@ + classification_label(r.net_classification)
}

pub open spec fn limitation_lines(ls: Seq<String>) -> Seq<Seq<char>> {
    if ls.len() == 0 {
        Seq::empty()
    } else {
        seq![Seq::empty(), "Limitations:"@] + ls.map_values(|l: String| "  - "@ + l@)
    }
}

pub open spec fn error_line(e: PolicyDiffErrorEntry) -> Seq<char> {
    "  - "@ + e.code@ + " "@ + match e.spec_path {
        Some(p) => p@,
        None => "-"@,
    } + " "@ + e.message@
}

pub open spec fn error_lines(es: Seq<PolicyDiffErrorEntry>) -> Seq<Seq<char>> {
    if es.len() == 0 {
        Seq::empty()
    } else {
        seq![Seq::empty(), "Errors: "@ + decimal(es.len())] + es.map_values(|e: PolicyDiffErrorEntry| error_line(e))
    }
}

/// The lines of the human rendering of a report, in the report's order.
pub open spec fn human_lines(r: PolicyDiffReport) -> Seq<Seq<char>> {
    let cs = all_changes(r.diffs@);
    seq!["Policy diff: base="@ + r.base_ref@ + " head="@ + r.head_ref@, Seq::empty()] + section_lines(
        "WIDENING"@,
        classified(cs, ChangeClassification::Widening),
    ) + section_lines("NARROWING"@, classified(cs, ChangeClassification::Narrowing)) + section_lines(
        "STRUCTURAL"@,
        classified(cs, ChangeClassification::StructuralChange),
    ) + config_lines(r.config_changes@) + compensation_lines(r.compensations@) + seq![summary_line(r)]
        + limitation_lines(r.summary.limitations@) + error_lines(r.errors@)
}

fn push_line(lines: &mut Vec<String>, line: String)
    ensures
        views(final(lines)@) == views(old(lines)@).push(line@),
{
    let ghost before = views(lines@);
    lines.push(line);
    assert(views(lines@) =~= before.push(line@));
}

fn push_section(lines: &mut Vec<String>, title: &str, diffs: &Vec<ModulePolicyDiff>, c: ChangeClassification)
    ensures
        views(final(lines)@) == views(old(lines)@) + section_lines(title@, classified(all_changes(diffs@), c)),
{
    let ghost start = views(lines@);
    let mut body: Vec<String> = Vec::new();
    let mut i: usize = 0;
    assert(diffs@.take(0) =~= Seq::<ModulePolicyDiff>::empty());
    while i < diffs.len()
        invariant
            i <= diffs@.len(),
            views(body@) == classified(all_changes(diffs@.take(i as int)), c).map_values(|x: FieldChange| change_line(x)),
        decreases diffs@.len() - i,
    {
        let d = &diffs[i];
        let ghost prefix = all_changes(diffs@.take(i as int));
        assert(diffs@.take(i + 1).drop_last() =~= diffs@.take(i as int));
        assert(diffs@.take(i + 1).last() == *d);
        assert(all_changes(diffs@.take(i + 1)) == prefix + d.changes@);
        let mut j: usize = 0;
        while j < d.changes.len()
            invariant
                j <= d.changes@.len(),
                views(body@) == classified(prefix + d.changes@.take(j as int), c).map_values(
                    |x: FieldChange| change_line(x),
                ),
            decreases d.changes@.len() - j,
        {
            let ch = &d.changes[j];
            let ghost before = prefix + d.changes@.take(j as int);
            let ghost after = prefix + d.changes@.take(j + 1);
            assert(after =~= before.push(*ch));
            assert(after.drop_last() =~= before);
            reveal(Seq::filter);
            if ch.classification == c {
                let mut line = owned("  - module=");
                push_str(&mut line, ch.module.as_str());
                push_str(&mut line, " field=");
                push_str(&mut line, ch.field.as_str());
                push_str(&mut line, " detail=");
                push_str(&mut line, ch.detail.as_str());
                let ghost prev = views(body@);
                body.push(line);
                assert(views(body@) =~= prev.push(change_line(*ch)));
                assert(classified(after, c) =~= classified(before, c).push(*ch));
                assert(classified(after, c).map_values(|x: FieldChange| change_line(x)) =~= classified(
                    before,
                    c,
                ).map_values(|x: FieldChange| change_line(x)).push(change_line(*ch)));
            }
            j = j + 1;
        }
        assert(d.changes@.take(j as int) =~= d.changes@);
        i = i + 1;
    }
    assert(diffs@.take(i as int) =~= diffs@);
    let mut head = owned(title);
    push_str(&mut head, " (");
    let n = decimal_string(body.len() as u64);
    push_str(&mut head, n.as_str());
    push_str(&mut head, ")");
    push_line(lines, head);
    let mut k: usize = 0;
    let ghost mid = views(lines@);
    while k < body.len()
        invariant
            k <= body@.len(),
            views(lines@) == mid + views(body@).take(k as int),
        decreases body@.len() - k,
    {
        push_line(lines, body[k].clone());
        assert(views(body@).take(k + 1) =~= views(body@).take(k as int).push(body@[k as int]@));
        assert(views(lines@) =~= mid + views(body@).take(k + 1));
        k = k + 1;
    }
    assert(views(body@).take(k as int) =~= views(body@));
    push_line(lines, String::new());
    assert(views(lines@) =~= start + section_lines(title@, classified(all_changes(diffs@), c)));
}

fn push_config_lines(lines: &mut Vec<String>, cs: &Vec<ConfigFieldChange>)
    ensures
        views(final(lines)@) == views(old(lines)@) + config_lines(cs@),
{
    if cs.len() == 0 {
        assert(views(lines@) =~= views(lines@) + config_lines(cs@));
        return;
    }
    let ghost start = views(lines@);
    push_line(lines, owned("Config changes (specgate.config.yml):"));
    let mut i: usize = 0;
    while i < cs.len()
        invariant
            i <= cs@.len(),
            views(lines@) == start + seq!["Config changes (specgate.config.yml):"@] + cs@.take(i as int).map_values(
                |c: ConfigFieldChange| config_line(c),
            ),
        decreases cs@.len() - i,
    {
        let c = &cs[i];
        let mut line = owned("  ");
        push_str(&mut line, render_classification(c.classification));
        push_str(&mut line, ": ");
        push_str(&mut line, c.field_path.as_str());
        push_str(&mut line, ": ");
        push_str(&mut line, c.before.as_str());
        push_str(&mut line, " -> ");
        push_str(&mut line, c.after.as_str());
        push_line(lines, line);
        assert(cs@.take(i + 1).map_values(|c: ConfigFieldChange| config_line(c)) =~= cs@.take(i as int).map_values(
            |c: ConfigFieldChange| config_line(c),
        ).push(config_line(*c)));
        i = i + 1;
    }
    assert(cs@.take(i as int) =~= cs@);
    push_line(lines, String::new());
    assert(views(lines@) =~= start + config_lines(cs@));
}

fn result_text(r: CompensationResult) -> (t: &'static str)
    ensures
        t@ == result_label(r),
{
    match r {
        CompensationResult::Offset => "offset",
        CompensationResult::Partial => "partial",
        CompensationResult::Ambiguous => "ambiguous",
    }
}

fn render_compensation_human(c: &CompensationCandidate) -> (r: String)
    ensures
        r@ == compensation_line(*c),
{
    let mut line = owned("  COMPENSATED (");
    push_str(&mut line, result_text(c.result));
    push_str(&mut line, "): widening in ");
    push_str(&mut line, c.widening.module.as_str());
    push_str(&mut line, "/");
    push_str(&mut line, c.widening.field.as_str());
    push_str(&mut line, " offset by narrowing in ");
    push_str(&mut line, c.narrowing.module.as_str());
    push_str(&mut line, "/");
    push_str(&mut line, c.narrowing.field.as_str());
    push_str(&mut line, " (");
    push_str(&mut line, c.relationship.importer.as_str());
    push_str(&mut line, " imports from ");
    push_str(&mut line, c.relationship.provider.as_str());
    push_str(&mut line, ")");
    line
}

fn push_compensation_lines(lines: &mut Vec<String>, cs: &Vec<CompensationCandidate>)
    ensures
        views(final(lines)@) == views(old(lines)@) + compensation_lines(cs@),
{
    if cs.len() == 0 {
        assert(views(lines@) =~= views(lines@) + compensation_lines(cs@));
        return;
    }
    let ghost start = views(lines@);
    push_line(lines, owned("Compensations:"));
    let mut i: usize = 0;
    while i < cs.len()
        invariant
            i <= cs@.len(),
            views(lines@) == start + seq!["Compensations:"@] + cs@.take(i as int).map_values(
                |c: CompensationCandidate| compensation_line(c),
            ),
        decreases cs@.len() - i,
    {
        let line = render_compensation_human(&cs[i]);
        push_line(lines, line);
        assert(cs@.take(i + 1).map_values(|c: CompensationCandidate| compensation_line(c)) =~= cs@.take(
            i as int,
        ).map_values(|c: CompensationCandidate| compensation_line(c)).push(compensation_line(cs@[i as int])));
        i = i + 1;
    }
    assert(cs@.take(i as int) =~= cs@);
    push_line(lines, String::new());
    assert(views(lines@) =~= start + compensation_lines(cs@));
}

fn push_limitation_lines(lines: &mut Vec<String>, ls: &Vec<String>)
    ensures
        views(final(lines)@) == views(old(lines)@) + limitation_lines(ls@),
{
    if ls.len() == 0 {
        assert(views(lines@) =~= views(lines@) + limitation_lines(ls@));
        return;
    }
    let ghost start = views(lines@);
    push_line(lines, String::new());
    push_line(lines, owned("Limitations:"));
    let mut i: usize = 0;
    while i < ls.len()
        invariant
            i <= ls@.len(),
            views(lines@) == start + seq![Seq::<char>::empty(), "Limitations:"@] + ls@.take(i as int).map_values(
                |l: String| "  - "@ + l@,
            ),
        decreases ls@.len() - i,
    {
        let mut line = owned("  - ");
        push_str(&mut line, ls[i].as_str());
        push_line(lines, line);
        assert(ls@.take(i + 1).map_values(|l: String| "  - "@ + l@) =~= ls@.take(i as int).map_values(
            |l: String| "  - "@ + l@,
        ).push("  - "@ + ls@[i as int]@));
        i = i + 1;
    }
    assert(ls@.take(i as int) =~= ls@);
    assert(views(lines@) =~= start + limitation_lines(ls@));
}

fn push_error_lines(lines: &mut Vec<String>, es: &Vec<PolicyDiffErrorEntry>)
    ensures
        views(final(lines)@) == views(old(lines)@) + error_lines(es@),
{
    if es.len() == 0 {
        assert(views(lines@) =~= views(lines@) + error_lines(es@));
        return;
    }
    let ghost start = views(lines@);
    push_line(lines, String::new());
    let mut head = owned("Errors: ");
    let n = decimal_string(es.len() as u64);
    push_str(&mut head, n.as_str());
    push_line(lines, head);
    let mut i: usize = 0;
    while i < es.len()
        invariant
            i <= es@.len(),
            views(lines@) == start + seq![Seq::<char>::empty(), "Errors: "@ + decimal(es@.len())] + es@.take(
                i as int,
            ).map_values(|e: PolicyDiffErrorEntry| error_line(e)),
        decreases es@.len() - i,
    {
        let e = &es[i];
        let mut line = owned("  - ");
        push_str(&mut line, e.code.as_str());
        push_str(&mut line, " ");
        match &e.spec_path {
            Some(p) => push_str(&mut line, p.as_str()),
            None => push_str(&mut line, "-"),
        }
        push_str(&mut line, " ");
        push_str(&mut line, e.message.as_str());
        push_line(lines, line);
        assert(es@.take(i + 1).map_values(|e: PolicyDiffErrorEntry| error_line(e)) =~= es@.take(i as int).map_values(
            |e: PolicyDiffErrorEntry| error_line(e),
        ).push(error_line(*e)));
        i = i + 1;
    }
    assert(es@.take(i as int) =~= es@);
    assert(views(lines@) =~= start + error_lines(es@));
}

/// Sorts the report into its deterministic order, then renders it for
/// people (see `human_lines`): the refs, the changes grouped by
/// classification, config changes, compensations, the summary, limitations
/// and errors, one per line.
pub fn render_policy_diff_human(report: &mut PolicyDiffReport) -> (r: String)
    ensures
        r@ == join_text(human_lines(*final(report)), "\n"@),
        sorted_by_key(final(report).diffs@),
        final(report).diffs@.map_values(|d: ModulePolicyDiff| diff_model(d)).to_multiset() == old(
            report,
        ).diffs@.map_values(|d: ModulePolicyDiff| diff_model(d)).to_multiset(),
        sorted_by_key(final(report).errors@),
        final(report).errors@.to_multiset() == old(report).errors@.to_multiset(),
        sorted_by_key(final(report).compensations@),
        final(report).compensations@.to_multiset() == old(report).compensations@.to_multiset(),
        sorted_by_key(final(report).config_changes@),
        final(report).config_changes@.to_multiset() == old(report).config_changes@.to_multiset(),
        final(report).base_ref == old(report).base_ref,
        final(report).head_ref == old(report).head_ref,
        final(report).summary == old(report).summary,
        final(report).net_classification == old(report).net_classification,
{
    report.sort_deterministic();
    let mut lines: Vec<String> = Vec::new();
    let mut head = owned("Policy diff: base=");
    push_str(&mut head, report.base_ref.as_str());
    push_str(&mut head, " head=");
    push_str(&mut head, report.head_ref.as_str());
    push_line(&mut lines, head);
    push_line(&mut lines, String::new());
    push_section(&mut lines, "WIDENING", &report.diffs, ChangeClassification::Widening);
    push_section(&mut lines, "NARROWING", &report.diffs, ChangeClassification::Narrowing);
    push_section(&mut lines, "STRUCTURAL", &report.diffs, ChangeClassification::StructuralChange);
    push_config_lines(&mut lines, &report.config_changes);
    push_compensation_lines(&mut lines, &report.compensations);
    let mut summary = owned("Summary: modules_changed=");
    let n = decimal_string(report.summary.modules_changed as u64);
    push_str(&mut summary, n.as_str());
    push_str(&mut summary, " widening=");
    let n = decimal_string(report.summary.widening_changes as u64);
    push_str(&mut summary, n.as_str());
    push_str(&mut summary, " narrowing=");
    let n = decimal_string(report.summary.narrowing_changes as u64);
    push_str(&mut summary, n.as_str());
    push_str(&mut summary, " structural=");
    let n = decimal_string(report.summary.structural_changes as u64);
    push_str(&mut summary, n.as_str());
    push_str(&mut summary, " net=");
    push_str(&mut summary, render_classification(report.net_classification));
    push_line(&mut lines, summary);
    push_limitation_lines(&mut lines, &report.summary.limitations);
    push_error_lines(&mut lines, &report.errors);
    assert(views(lines@) =~= human_lines(*report));
    join_text_exec(&lines, "\n")
}

} // verus!
