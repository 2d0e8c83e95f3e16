//! Classification of changes between two versions of a module's spec.
use vstd::prelude::*;

use super::git::{FailClosedSpecOperation, RenameCopySemanticPairing, SpecSnapshotPair};
use super::types::{
    diff_model, field_change_model, field_change_models, sort_field_changes_deterministic,
    sort_module_policy_diffs_deterministic, ChangeClassification, ChangeScope, ChangeSite, FieldChange,
    FieldChangeModel, ModulePolicyDiff,
};
use vstd::multiset::Multiset;
use crate::order::{lemma_multiset_map, sorted_by_key};
use crate::jsontext::{canonical_json, render_canonical_json};
use crate::spec::types::{
    json_shape, opt_json_shape, trimmed_nonempty, Boundaries, BoundaryContract, Constraint, ContractDirection,
    EnvelopeRequirement, JsonShape, JsonValue, Severity, SpecFile, Visibility,
};
use crate::strset::{lemma_sorted_seq_of, normalized_set, sorted_seq_of, strictly_sorted};
use crate::paths::strings_contain;
use crate::glob::{path_glob_build_error, path_glob_error, path_glob_matches, PathGlob};
use crate::strset::set_insert;
use crate::text::{
    decimal, has_prefix, has_suffix, join_text, join_text_exec, owned, push_decimal, push_str, seq_order, slice_chars,
    str_ends_with, str_eq, strip_all, strip_all_exec, strip_suffix_or_keep, strip_suffix_or_keep_exec, trim,
    trim_str, views,
};

verus! {

/// The site of a change and the values around it.
pub struct ChangeContext<'a> {
    pub module: &'a str,
    pub spec_path: &'a str,
    pub scope: ChangeScope,
    pub field: &'a str,
}

pub open spec fn site_of(ctx: ChangeContext) -> ChangeSite {
    (ctx.module@, ctx.spec_path@, ctx.scope, ctx.field@)
}

fn context<'a>(module: &'a str, spec_path: &'a str, scope: ChangeScope, field: &'a str) -> (r: ChangeContext<'a>)
    ensures
        site_of(r) == (module@, spec_path@, scope, field@),
{
    ChangeContext { module, spec_path, scope, field }
}

fn push_change(
    changes: &mut Vec<FieldChange>,
    ctx: &ChangeContext,
    classification: ChangeClassification,
    before: Option<JsonValue>,
    after: Option<JsonValue>,
    detail: String,
)
    ensures
        field_change_models(final(changes)@) == field_change_models(old(changes)@).push(
            (site_of(*ctx), (classification, opt_json_shape(before), opt_json_shape(after), detail@)),
        ),
{
    let ghost m = (site_of(*ctx), (classification, opt_json_shape(before), opt_json_shape(after), detail@));
    changes.push(
        FieldChange {
            module: owned(ctx.module),
            spec_path: owned(ctx.spec_path),
            scope: ctx.scope,
            field: owned(ctx.field),
            classification,
            before,
            after,
            detail,
        },
    );
    assert(field_change_models(final(changes)@) =~= field_change_models(old(changes)@).push(m));
}

/// The trimmed, non-empty values of a list, sorted and without duplicates.
pub open spec fn norm(values: Seq<String>) -> Seq<Seq<char>> {
    sorted_seq_of(trimmed_nonempty(views(values)))
}

fn normalized(values: &Vec<String>) -> (r: Vec<String>)
    ensures
        views(r@) == norm(values@),
        strictly_sorted(views(r@)),
{
    let r = normalized_set(values);
    proof {
        lemma_sorted_seq_of(views(r@));
    }
    r
}

/// Changes between two normalized sets: one for additions, one for
/// removals, each carrying both sets and listing the values.
pub open spec fn set_delta(
    site: ChangeSite,
    base: Seq<Seq<char>>,
    head: Seq<Seq<char>>,
    added: ChangeClassification,
    removed: ChangeClassification,
) -> Seq<FieldChangeModel> {
    let additions = head.filter(|x: Seq<char>| !base.contains(x));
    let removals = base.filter(|x: Seq<char>| !head.contains(x));
    let a = if additions.len() > 0 {
        seq![
            (site, (added, Some(JsonShape::Texts(base)), Some(JsonShape::Texts(head)), "added "@ + join_text(
                additions,
                ", "@,
            ))),
        ]
    } else {
        Seq::empty()
    };
    let r = if removals.len() > 0 {
        seq![
            (site, (removed, Some(JsonShape::Texts(base)), Some(JsonShape::Texts(head)), "removed "@ + join_text(
                removals,
                ", "@,
            ))),
        ]
    } else {
        Seq::empty()
    };
    a + r
}

/// The values of `from` that `other` lacks, in order.
fn missing_from(from: &Vec<String>, other: &Vec<String>) -> (r: Vec<String>)
    ensures
        views(r@) == views(from@).filter(|x: Seq<char>| !views(other@).contains(x)),
{
    let mut out: Vec<String> = Vec::new();
    let mut i: usize = 0;
    while i < from.len()
        invariant
            i <= from@.len(),
            views(out@) == views(from@).take(i as int).filter(|x: Seq<char>| !views(other@).contains(x)),
        decreases from@.len() - i,
    {
        let ghost prev = views(out@);
        assert(views(from@).take(i + 1).drop_last() =~= views(from@).take(i as int));
        assert(views(from@).take(i + 1).last() == from@[i as int]@);
        reveal(Seq::filter);
        if !strings_contain(other, from[i].as_str()) {
            out.push(from[i].clone());
            assert(views(out@) =~= prev.push(from@[i as int]@));
        } else {
            assert(views(out@) =~= prev);
        }
        i = i + 1;
    }
    assert(views(from@).take(i as int) =~= views(from@));
    out
}

fn classify_set_delta(
    ctx: &ChangeContext,
    base_set: &Vec<String>,
    head_set: &Vec<String>,
    addition_classification: ChangeClassification,
    removal_classification: ChangeClassification,
    changes: &mut Vec<FieldChange>,
)
    ensures
        field_change_models(final(changes)@) == field_change_models(old(changes)@) + set_delta(
            site_of(*ctx),
            views(base_set@),
            views(head_set@),
            addition_classification,
            removal_classification,
        ),
{
    let ghost start = field_change_models(changes@);
    let additions = missing_from(head_set, base_set);
    let removals = missing_from(base_set, head_set);
    if additions.len() > 0 {
        let mut detail = owned("added ");
        let joined = join_text_exec(&additions, ", ");
        push_str(&mut detail, joined.as_str());
        push_change(
            changes,
            ctx,
            addition_classification,
            Some(JsonValue::texts(base_set)),
            Some(JsonValue::texts(head_set)),
            detail,
        );
    }
    let ghost mid = field_change_models(changes@);
    if removals.len() > 0 {
        let mut detail = owned("removed ");
        let joined = join_text_exec(&removals, ", ");
        push_str(&mut detail, joined.as_str());
        push_change(
            changes,
            ctx,
            removal_classification,
            Some(JsonValue::texts(base_set)),
            Some(JsonValue::texts(head_set)),
            detail,
        );
    }
    assert(field_change_models(changes@) =~= start + set_delta(
        site_of(*ctx),
        views(base_set@),
        views(head_set@),
        addition_classification,
        removal_classification,
    ));
}

/// Changes of a list-valued field compared as normalized sets; when the sets
/// agree, a reordering alone is structural if `reorder_structural` is set.
pub open spec fn set_field_changes(
    site: ChangeSite,
    base: Seq<String>,
    head: Seq<String>,
    added: ChangeClassification,
    removed: ChangeClassification,
    reorder_structural: bool,
) -> Seq<FieldChangeModel> {
    if norm(base) == norm(head) {
        if reorder_structural && views(base) != views(head) {
            seq![
                (site, (
                    ChangeClassification::StructuralChange,
                    Some(JsonShape::Texts(views(base))),
                    Some(JsonShape::Texts(views(head))),
                    "order changed"@,
                )),
            ]
        } else {
            Seq::empty()
        }
    } else {
        set_delta(site, norm(base), norm(head), added, removed)
    }
}

fn strings_equal(a: &Vec<String>, b: &Vec<String>) -> (r: bool)
    ensures
        r == (views(a@) == views(b@)),
{
    if a.len() != b.len() {
        assert(views(a@).len() != views(b@).len());
        return false;
    }
    let mut i: usize = 0;
    while i < a.len()
        invariant
            a@.len() == b@.len(),
            i <= a@.len(),
            forall|k: int| 0 <= k < i ==> a@[k]@ == b@[k]@,
        decreases a@.len() - i,
    {
        if !str_eq(a[i].as_str(), b[i].as_str()) {
            assert(views(a@)[i as int] != views(b@)[i as int]);
            return false;
        }
        i = i + 1;
    }
    assert(views(a@) =~= views(b@));
    true
}

fn classify_set_field(
    ctx: &ChangeContext,
    base: &Vec<String>,
    head: &Vec<String>,
    addition_classification: ChangeClassification,
    removal_classification: ChangeClassification,
    reorder_structural: bool,
    changes: &mut Vec<FieldChange>,
)
    ensures
        field_change_models(final(changes)@) == field_change_models(old(changes)@) + set_field_changes(
            site_of(*ctx),
            base@,
            head@,
            addition_classification,
            removal_classification,
            reorder_structural,
        ),
{
    let ghost start = field_change_models(changes@);
    let base_set = normalized(base);
    let head_set = normalized(head);
    if strings_equal(&base_set, &head_set) {
        if reorder_structural && !strings_equal(base, head) {
            push_change(
                changes,
                ctx,
                ChangeClassification::StructuralChange,
                Some(JsonValue::texts(base)),
                Some(JsonValue::texts(head)),
                owned("order changed"),
            );
        }
        assert(field_change_models(changes@) =~= start + set_field_changes(
            site_of(*ctx),
            base@,
            head@,
            addition_classification,
            removal_classification,
            reorder_structural,
        ));
        return;
    }
    classify_set_delta(ctx, &base_set, &head_set, addition_classification, removal_classification, changes);
}

pub open spec fn bool_text(b: bool) -> Seq<char> {
    if b { "true"@ } else { "false"@ }
}

/// A flipped flag: true-to-false and false-to-true each carry a direction.
pub open spec fn bool_polarity_changes(
    site: ChangeSite,
    before: bool,
    after: bool,
    true_to_false: ChangeClassification,
    false_to_true: ChangeClassification,
) -> Seq<FieldChangeModel> {
    if before == after {
        Seq::empty()
    } else {
        seq![
            (site, (
                if before { true_to_false } else { false_to_true },
                Some(JsonShape::Bool(before)),
                Some(JsonShape::Bool(after)),
                bool_text(before) + " -> "@ + bool_text(after),
            )),
        ]
    }
}

fn classify_bool_polarity(
    ctx: &ChangeContext,
    before: bool,
    after: bool,
    true_to_false_classification: ChangeClassification,
    false_to_true_classification: ChangeClassification,
    changes: &mut Vec<FieldChange>,
)
    ensures
        field_change_models(final(changes)@) == field_change_models(old(changes)@) + bool_polarity_changes(
            site_of(*ctx),
            before,
            after,
            true_to_false_classification,
            false_to_true_classification,
        ),
{
    let ghost start = field_change_models(changes@);
    if before == after {
        assert(field_change_models(changes@) =~= start + Seq::empty());
        return;
    }
    let classification = if before && !after {
        true_to_false_classification
    } else {
        false_to_true_classification
    };
    let mut detail = owned(if before { "true" } else { "false" });
    push_str(&mut detail, " -> ");
    push_str(&mut detail, if after { "true" } else { "false" });
    push_change(changes, ctx, classification, Some(JsonValue::Bool(before)), Some(JsonValue::Bool(after)), detail);
    assert(field_change_models(changes@) =~= start + bool_polarity_changes(
        site_of(*ctx),
        before,
        after,
        true_to_false_classification,
        false_to_true_classification,
    ));
}

pub open spec fn visibility_json(v: Visibility) -> Seq<char> {
    match v {
        Visibility::Public => "public"@,
        Visibility::Internal => "internal"@,
        Visibility::Private => "private"@,
    }
}

pub open spec fn visibility_name(v: Visibility) -> Seq<char> {
    match v {
        Visibility::Public => "Public"@,
        Visibility::Internal => "Internal"@,
        Visibility::Private => "Private"@,
    }
}

pub open spec fn visibility_rank(v: Visibility) -> int {
    match v {
        Visibility::Public => 0,
        Visibility::Internal => 1,
        Visibility::Private => 2,
    }
}

pub open spec fn visibility_or_public(v: Option<Visibility>) -> Visibility {
    match v {
        Some(x) => x,
        None => Visibility::Public,
    }
}

/// A visibility change: towards public widens, towards private narrows.
pub open spec fn visibility_changes(site: ChangeSite, base: Option<Visibility>, head: Option<Visibility>) -> Seq<
    FieldChangeModel,
> {
    let before = visibility_or_public(base);
    let after = visibility_or_public(head);
    if before == after {
        Seq::empty()
    } else {
        seq![
            (site, (
                if visibility_rank(after) < visibility_rank(before) {
                    ChangeClassification::Widening
                } else {
                    ChangeClassification::Narrowing
                },
                Some(JsonShape::Text(visibility_json(before))),
                Some(JsonShape::Text(visibility_json(after))),
                "visibility changed: "@ + visibility_name(before) + " -> "@ + visibility_name(after),
            )),
        ]
    }
}

fn visibility_strs(v: Visibility) -> (r: (&'static str, &'static str, u8))
    ensures
        r.0@ == visibility_json(v),
        r.1@ == visibility_name(v),
        r.2 as int == visibility_rank(v),
{
    match v {
        Visibility::Public => ("public", "Public", 0),
        Visibility::Internal => ("internal", "Internal", 1),
        Visibility::Private => ("private", "Private", 2),
    }
}

fn classify_visibility(
    ctx: &ChangeContext,
    base: Option<Visibility>,
    head: Option<Visibility>,
    changes: &mut Vec<FieldChange>,
)
    ensures
        field_change_models(final(changes)@) == field_change_models(old(changes)@) + visibility_changes(
            site_of(*ctx),
            base,
            head,
        ),
{
    let ghost start = field_change_models(changes@);
    let before = match base {
        Some(v) => v,
        None => Visibility::Public,
    };
    let after = match head {
        Some(v) => v,
        None => Visibility::Public,
    };
    if before == after {
        assert(field_change_models(changes@) =~= start + Seq::empty());
        return;
    }
    let (bj, bn, br) = visibility_strs(before);
    let (aj, an, ar) = visibility_strs(after);
    let classification = if ar < br {
        ChangeClassification::Widening
    } else {
        ChangeClassification::Narrowing
    };
    let mut detail = owned("visibility changed: ");
    push_str(&mut detail, bn);
    push_str(&mut detail, " -> ");
    push_str(&mut detail, an);
    push_change(
        changes,
        ctx,
        classification,
        Some(JsonValue::text(owned(bj))),
        Some(JsonValue::text(owned(aj))),
        detail,
    );
    assert(field_change_models(changes@) =~= start + visibility_changes(site_of(*ctx), base, head));
}

/// An allowlist of importable modules: dropping it widens, introducing it
/// narrows, and a change of its entries is a set delta.
pub open spec fn allow_imports_from_changes(site: ChangeSite, base: Option<Vec<String>>, head: Option<Vec<String>>) -> Seq<
    FieldChangeModel,
> {
    match (base, head) {
        (None, None) => Seq::empty(),
        (Some(b), Some(h)) => set_delta(
            site,
            norm(b@),
            norm(h@),
            ChangeClassification::Widening,
            ChangeClassification::Narrowing,
        ),
        (Some(b), None) => seq![
            (site, (
                ChangeClassification::Widening,
                Some(JsonShape::Texts(norm(b@))),
                None,
                "allow_imports_from restricted -> unrestricted"@,
            )),
        ],
        (None, Some(h)) => seq![
            (site, (
                ChangeClassification::Narrowing,
                None,
                Some(JsonShape::Texts(norm(h@))),
                "allow_imports_from unrestricted -> restricted"@,
            )),
        ],
    }
}

fn classify_allow_imports_from(
    ctx: &ChangeContext,
    base: &Option<Vec<String>>,
    head: &Option<Vec<String>>,
    changes: &mut Vec<FieldChange>,
)
    ensures
        field_change_models(final(changes)@) == field_change_models(old(changes)@) + allow_imports_from_changes(
            site_of(*ctx),
            *base,
            *head,
        ),
{
    let ghost start = field_change_models(changes@);
    match (base, head) {
        (None, None) => {
            assert(field_change_models(changes@) =~= start + Seq::empty());
        },
        (Some(b), Some(h)) => {
            let bs = normalized(b);
            let hs = normalized(h);
            classify_set_delta(
                ctx,
                &bs,
                &hs,
                ChangeClassification::Widening,
                ChangeClassification::Narrowing,
                changes,
            );
        },
        (Some(b), None) => {
            let bs = normalized(b);
            push_change(
                changes,
                ctx,
                ChangeClassification::Widening,
                Some(JsonValue::texts(&bs)),
                None,
                owned("allow_imports_from restricted -> unrestricted"),
            );
            assert(field_change_models(changes@) =~= start + allow_imports_from_changes(site_of(*ctx), *base, *head));
        },
        (None, Some(h)) => {
            let hs = normalized(h);
            push_change(
                changes,
                ctx,
                ChangeClassification::Narrowing,
                None,
                Some(JsonValue::texts(&hs)),
                owned("allow_imports_from unrestricted -> restricted"),
            );
            assert(field_change_models(changes@) =~= start + allow_imports_from_changes(site_of(*ctx), *base, *head));
        },
    }
}

/// Who may import the module: emptying the list lifts the restriction
/// (widening), filling it imposes one (narrowing), otherwise a set delta.
pub open spec fn allow_imported_by_changes(site: ChangeSite, base: Seq<String>, head: Seq<String>) -> Seq<
    FieldChangeModel,
> {
    let b = norm(base);
    let h = norm(head);
    if b.len() > 0 && h.len() == 0 {
        seq![
            (site, (
                ChangeClassification::Widening,
                Some(JsonShape::Texts(b)),
                Some(JsonShape::Texts(Seq::empty())),
                "allow_imported_by restricted -> unrestricted"@,
            )),
        ]
    } else if b.len() == 0 && h.len() > 0 {
        seq![
            (site, (
                ChangeClassification::Narrowing,
                Some(JsonShape::Texts(Seq::empty())),
                Some(JsonShape::Texts(h)),
                "allow_imported_by unrestricted -> restricted"@,
            )),
        ]
    } else if b.len() > 0 && h.len() > 0 {
        set_delta(site, b, h, ChangeClassification::Widening, ChangeClassification::Narrowing)
    } else {
        Seq::empty()
    }
}

fn classify_allow_imported_by(
    ctx: &ChangeContext,
    base: &Vec<String>,
    head: &Vec<String>,
    changes: &mut Vec<FieldChange>,
)
    ensures
        field_change_models(final(changes)@) == field_change_models(old(changes)@) + allow_imported_by_changes(
            site_of(*ctx),
            base@,
            head@,
        ),
{
    let ghost start = field_change_models(changes@);
    let bs = normalized(base);
    let hs = normalized(head);
    let empty: Vec<String> = Vec::new();
    if bs.len() > 0 && hs.len() == 0 {
        push_change(
            changes,
            ctx,
            ChangeClassification::Widening,
            Some(JsonValue::texts(&bs)),
            Some(JsonValue::texts(&empty)),
            owned("allow_imported_by restricted -> unrestricted"),
        );
        assert(views(empty@) =~= Seq::<Seq<char>>::empty());
        assert(field_change_models(changes@) =~= start + allow_imported_by_changes(site_of(*ctx), base@, head@));
    } else if bs.len() == 0 && hs.len() > 0 {
        push_change(
            changes,
            ctx,
            ChangeClassification::Narrowing,
            Some(JsonValue::texts(&empty)),
            Some(JsonValue::texts(&hs)),
            owned("allow_imported_by unrestricted -> restricted"),
        );
        assert(views(empty@) =~= Seq::<Seq<char>>::empty());
        assert(field_change_models(changes@) =~= start + allow_imported_by_changes(site_of(*ctx), base@, head@));
    } else if bs.len() > 0 && hs.len() > 0 {
        classify_set_delta(ctx, &bs, &hs, ChangeClassification::Widening, ChangeClassification::Narrowing, changes);
    } else {
        assert(field_change_models(changes@) =~= start + Seq::empty());
    }
}

/// An optional text trimmed, with blank texts counted as absent.
pub open spec fn trimmed_opt(o: Option<String>) -> Option<Seq<char>> {
    match o {
        Some(s) => if trim(s@).len() > 0 { Some(trim(s@)) } else { None },
        None => None,
    }
}

pub open spec fn text_or_null(o: Option<Seq<char>>) -> JsonShape {
    match o {
        Some(s) => JsonShape::Text(s),
        None => JsonShape::Null,
    }
}

fn trimmed_opt_exec(o: &Option<String>) -> (r: Option<String>)
    ensures
        match r {
            Some(s) => trimmed_opt(*o) == Some(s@),
            None => trimmed_opt(*o) is None,
        },
{
    match o {
        Some(s) => {
            let t = trim_str(s.as_str());
            if t.unicode_len() > 0 {
                Some(owned(t))
            } else {
                None
            }
        },
        None => None,
    }
}

fn opt_strings_equal(a: &Option<String>, b: &Option<String>) -> (r: bool)
    ensures
        r == ((match a { Some(x) => Some(x@), None => None::<Seq<char>> }) == (match b {
            Some(x) => Some(x@),
            None => None::<Seq<char>>,
        })),
{
    match (a, b) {
        (None, None) => true,
        (Some(x), Some(y)) => str_eq(x.as_str(), y.as_str()),
        _ => false,
    }
}

fn opt_json(o: Option<String>) -> (r: JsonValue)
    ensures
        json_shape(r) == text_or_null(match o { Some(s) => Some(s@), None => None }),
{
    JsonValue::opt_text(o)
}

/// Tracked files at the base and head refs under the candidate prefixes,
/// or the message of the failure to list them.
pub struct PathCoverage {
    pub base_files: Result<Vec<String>, String>,
    pub head_files: Result<Vec<String>, String>,
}

pub open spec fn listing_view(r: Result<Vec<String>, String>) -> Result<Seq<Seq<char>>, Seq<char>> {
    match r {
        Ok(v) => Ok(views(v@)),
        Err(e) => Err(e@),
    }
}

/// Position of the first glob wildcard (`*`, `?`, `[`), or the length.
pub open spec fn first_wildcard(s: Seq<char>) -> int
    decreases s.len(),
{
    if s.len() == 0 {
        0
    } else if s[0] == '*' || s[0] == '?' || s[0] == '[' {
        0
    } else {
        1 + first_wildcard(s.drop_first())
    }
}

/// The literal directory prefix of a glob, without `./` and `/` at its start.
pub open spec fn static_prefix(glob: Seq<char>) -> Option<Seq<char>> {
    let t = trim(glob);
    if t.len() == 0 {
        None
    } else {
        let p = strip_all(strip_all(trim(t.take(first_wildcard(t))), "./"@), "/"@);
        if p.len() == 0 { None } else { Some(p) }
    }
}

/// The module path a spec file stands for: its path without `.spec.yml`,
/// `./` and `/` at the start.
pub open spec fn module_prefix(spec_path: Seq<char>) -> Option<Seq<char>> {
    let p = strip_all(strip_all(strip_suffix_or_keep(trim(spec_path), ".spec.yml"@), "./"@), "/"@);
    if p.len() == 0 { None } else { Some(p) }
}

pub open spec fn opt_prefix_set(glob: Option<Seq<char>>) -> Set<Seq<char>> {
    match glob {
        Some(g) => match static_prefix(g) {
            Some(p) => set![p],
            None => Set::empty(),
        },
        None => Set::empty(),
    }
}

/// Prefixes under which coverage of the two path globs is compared: their
/// static prefixes, or the spec's module path when neither glob has one.
pub open spec fn candidate_prefixes(spec_path: Seq<char>, base_path: Option<Seq<char>>, head_path: Option<Seq<char>>) -> Set<
    Seq<char>,
> {
    let from_globs = opt_prefix_set(base_path) + opt_prefix_set(head_path);
    if from_globs == Set::<Seq<char>>::empty() && (base_path is Some || head_path is Some) {
        match module_prefix(spec_path) {
            Some(m) => set![m],
            None => Set::empty(),
        }
    } else {
        from_globs
    }
}

fn first_wildcard_exec(s: &str) -> (r: usize)
    ensures
        r == first_wildcard(s@),
        r <= s@.len(),
{
    let n = s.unicode_len();
    let mut i: usize = 0;
    assert(s@.skip(0) =~= s@);
    while i < n
        invariant
            n == s@.len(),
            i <= n,
            first_wildcard(s@) == i + first_wildcard(s@.skip(i as int)),
        decreases n - i,
    {
        let c = s.get_char(i);
        let ghost rest = s@.skip(i as int);
        assert(rest[0] == c);
        if c == '*' || c == '?' || c == '[' {
            return i;
        }
        assert(rest.drop_first() =~= s@.skip(i + 1));
        i = i + 1;
    }
    assert(s@.skip(i as int) =~= Seq::<char>::empty());
    i
}

fn strip_start_markers<'a>(s: &'a str) -> (r: &'a str)
    ensures
        r@ == strip_all(strip_all(s@, "./"@), "/"@),
{
    proof {
        reveal_strlit("./");
        reveal_strlit("/");
    }
    strip_all_exec(strip_all_exec(s, "./"), "/")
}

/// The literal directory prefix of a glob (see `static_prefix`).
pub fn static_prefix_from_glob(path_glob: &str) -> (r: Option<String>)
    ensures
        match r {
            Some(p) => static_prefix(path_glob@) == Some(p@),
            None => static_prefix(path_glob@) is None,
        },
{
    let trimmed = trim_str(path_glob);
    let n = trimmed.unicode_len();
    if n == 0 {
        return None;
    }
    let w = first_wildcard_exec(trimmed);
    let head = slice_chars(trimmed, 0, w);
    assert(head@ =~= trimmed@.take(w as int));
    let prefix = strip_start_markers(trim_str(head));
    if prefix.unicode_len() == 0 {
        None
    } else {
        Some(owned(prefix))
    }
}

/// The module path of a spec file (see `module_prefix`).
pub fn module_prefix_from_spec_path(spec_path: &str) -> (r: Option<String>)
    ensures
        match r {
            Some(p) => module_prefix(spec_path@) == Some(p@),
            None => module_prefix(spec_path@) is None,
        },
{
    let stripped = strip_start_markers(strip_suffix_or_keep_exec(trim_str(spec_path), ".spec.yml"));
    if stripped.unicode_len() == 0 {
        None
    } else {
        Some(owned(stripped))
    }
}

/// The candidate prefixes (see `candidate_prefixes`) as a sorted set.
pub fn candidate_path_prefixes(spec_path: &str, base_path: Option<&str>, head_path: Option<&str>) -> (r: Vec<String>)
    ensures
        strictly_sorted(views(r@)),
        views(r@).to_set() == candidate_prefixes(
            spec_path@,
            match base_path { Some(p) => Some(p@), None => None },
            match head_path { Some(p) => Some(p@), None => None },
        ),
{
    let ghost bp = match base_path { Some(p) => Some(p@), None => None::<Seq<char>> };
    let ghost hp = match head_path { Some(p) => Some(p@), None => None::<Seq<char>> };
    let mut prefixes: Vec<String> = Vec::new();
    assert(views(prefixes@).to_set() =~= Set::<Seq<char>>::empty());
    match base_path {
        Some(g) => match static_prefix_from_glob(g) {
            Some(p) => set_insert(&mut prefixes, p),
            None => {},
        },
        None => {},
    }
    assert(views(prefixes@).to_set() =~= opt_prefix_set(bp));
    match head_path {
        Some(g) => match static_prefix_from_glob(g) {
            Some(p) => set_insert(&mut prefixes, p),
            None => {},
        },
        None => {},
    }
    assert(views(prefixes@).to_set() =~= opt_prefix_set(bp) + opt_prefix_set(hp));
    if prefixes.len() == 0 && (base_path.is_some() || head_path.is_some()) {
        assert(views(prefixes@).to_set() =~= Set::<Seq<char>>::empty());
        match module_prefix_from_spec_path(spec_path) {
            Some(m) => set_insert(&mut prefixes, m),
            None => {},
        }
    } else if prefixes.len() > 0 {
        assert(views(prefixes@).to_set().contains(views(prefixes@)[0]));
    }
    assert(views(prefixes@).to_set() =~= candidate_prefixes(spec_path@, bp, hp));
    prefixes
}

/// Source files and spec files, the files whose coverage counts.
pub open spec fn source_like(p: Seq<char>) -> bool {
    has_suffix(p, ".ts"@) || has_suffix(p, ".tsx"@) || has_suffix(p, ".js"@) || has_suffix(p, ".jsx"@)
        || has_suffix(p, ".mts"@) || has_suffix(p, ".cts"@) || has_suffix(p, ".spec.yml"@)
}

fn is_source_like_or_spec(path: &str) -> (r: bool)
    ensures
        r == source_like(path@),
{
    str_ends_with(path, ".ts") || str_ends_with(path, ".tsx") || str_ends_with(path, ".js") || str_ends_with(
        path,
        ".jsx",
    ) || str_ends_with(path, ".mts") || str_ends_with(path, ".cts") || str_ends_with(path, ".spec.yml")
}

/// The files whose coverage is compared: the source-like files listed at
/// either ref.
pub open spec fn coverage_universe(base: Seq<Seq<char>>, head: Seq<Seq<char>>) -> Set<Seq<char>> {
    (base.to_set() + head.to_set()).filter(|p: Seq<char>| source_like(p))
}

/// The files of the universe a path glob matches (none without a glob).
pub open spec fn glob_coverage(glob: Option<Seq<char>>, universe: Set<Seq<char>>) -> Set<Seq<char>> {
    match glob {
        Some(g) => universe.filter(|p: Seq<char>| path_glob_matches(g, p)),
        None => Set::empty(),
    }
}

pub open spec fn opt_glob_error(glob: Option<Seq<char>>) -> Option<Seq<char>> {
    match glob {
        Some(g) => match path_glob_error(g) {
            Some(e) => Some("invalid boundaries.path glob '"@ + g + "': "@ + e),
            None => None,
        },
        None => None,
    }
}

pub open spec fn unbounded(reason: Seq<char>) -> (ChangeClassification, Seq<char>) {
    (
        ChangeClassification::StructuralChange,
        "boundaries.path changed: path_coverage_unbounded_mvp ("@ + reason + ")"@,
    )
}

/// How a change of `boundaries.path` is classified: by comparing which
/// tracked source files the two globs cover. Equal coverage is structural,
/// a superset widens, a subset narrows, an overlap is structural; without a
/// listing, or when a glob or listing fails, it is structural with the reason.
pub open spec fn path_change_result(
    spec_path: Seq<char>,
    base_path: Option<Seq<char>>,
    head_path: Option<Seq<char>>,
    coverage: Option<(Result<Seq<Seq<char>>, Seq<char>>, Result<Seq<Seq<char>>, Seq<char>>)>,
) -> (ChangeClassification, Seq<char>) {
    match coverage {
        None => (
            ChangeClassification::StructuralChange,
            "boundaries.path changed (coverage context unavailable in this call path)"@,
        ),
        Some((base_listing, head_listing)) => if candidate_prefixes(spec_path, base_path, head_path)
            == Set::<Seq<char>>::empty() {
            unbounded("empty scoped prefix set"@)
        } else {
            match (base_listing, head_listing) {
                (Err(e), _) => unbounded("base ref scoped ls-tree failed: "@ + e),
                (Ok(_), Err(e)) => unbounded("head ref scoped ls-tree failed: "@ + e),
                (Ok(base_files), Ok(head_files)) => if opt_glob_error(base_path) is Some {
                    unbounded(opt_glob_error(base_path).unwrap())
                } else if opt_glob_error(head_path) is Some {
                    unbounded(opt_glob_error(head_path).unwrap())
                } else {
                    let universe = coverage_universe(base_files, head_files);
                    let b = glob_coverage(base_path, universe);
                    let h = glob_coverage(head_path, universe);
                    if h == b {
                        (ChangeClassification::StructuralChange, "boundaries.path changed with equal scoped coverage"@)
                    } else if b.subset_of(h) {
                        (
                            ChangeClassification::Widening,
                            "boundaries.path broadened scoped coverage ("@ + decimal(b.len()) + " -> "@ + decimal(
                                h.len(),
                            ) + " matched files)"@,
                        )
                    } else if h.subset_of(b) {
                        (
                            ChangeClassification::Narrowing,
                            "boundaries.path narrowed scoped coverage ("@ + decimal(b.len()) + " -> "@ + decimal(
                                h.len(),
                            ) + " matched files)"@,
                        )
                    } else {
                        (
                            ChangeClassification::StructuralChange,
                            "boundaries.path changed with ambiguous scoped coverage overlap"@,
                        )
                    }
                },
            }
        },
    }
}

proof fn lemma_sorted_set_len(q: Seq<Seq<char>>)
    requires
        strictly_sorted(q),
    ensures
        q.to_set().len() == q.len(),
{
    assert(q.no_duplicates()) by {
        assert forall|i: int, j: int| 0 <= i < q.len() && 0 <= j < q.len() && i != j implies q[i] != q[j] by {
            if i < j {
                assert(seq_order(q[i], q[j]) < 0);
            } else {
                assert(seq_order(q[j], q[i]) < 0);
            }
            crate::text::lemma_seq_order_antisymmetric(q[i], q[j]);
        }
    }
    q.unique_seq_to_set();
}

/// The source-like files of two listings as a sorted set.
fn universe_of(base: &Vec<String>, head: &Vec<String>) -> (r: Vec<String>)
    ensures
        strictly_sorted(views(r@)),
        views(r@).to_set() == coverage_universe(views(base@), views(head@)),
{
    let mut out: Vec<String> = Vec::new();
    let ghost target = coverage_universe(views(base@), views(head@));
    let mut i: usize = 0;
    while i < base.len()
        invariant
            i <= base@.len(),
            strictly_sorted(views(out@)),
            views(out@).to_set() == views(base@).take(i as int).to_set().filter(|p: Seq<char>| source_like(p)),
        decreases base@.len() - i,
    {
        let ghost before = views(out@).to_set();
        if is_source_like_or_spec(base[i].as_str()) {
            set_insert(&mut out, base[i].clone());
        }
        assert(views(base@).take(i + 1) =~= views(base@).take(i as int).push(base@[i as int]@));
        proof {
            crate::policy::config_diff::lemma_push_to_set(views(base@).take(i as int), base@[i as int]@);
        }
        assert(views(out@).to_set() =~= views(base@).take(i + 1).to_set().filter(|p: Seq<char>| source_like(p)));
        i = i + 1;
    }
    assert(views(base@).take(i as int) =~= views(base@));
    let mut j: usize = 0;
    while j < head.len()
        invariant
            j <= head@.len(),
            strictly_sorted(views(out@)),
            views(out@).to_set() == (views(base@).to_set() + views(head@).take(j as int).to_set()).filter(
                |p: Seq<char>| source_like(p),
            ),
        decreases head@.len() - j,
    {
        if is_source_like_or_spec(head[j].as_str()) {
            set_insert(&mut out, head[j].clone());
        }
        assert(views(head@).take(j + 1) =~= views(head@).take(j as int).push(head@[j as int]@));
        proof {
            crate::policy::config_diff::lemma_push_to_set(views(head@).take(j as int), head@[j as int]@);
        }
        assert(views(out@).to_set() =~= (views(base@).to_set() + views(head@).take(j + 1).to_set()).filter(
            |p: Seq<char>| source_like(p),
        ));
        j = j + 1;
    }
    assert(views(head@).take(j as int) =~= views(head@));
    out
}

/// The files of a sorted universe that a valid glob matches.
fn matched_paths(glob: Option<&str>, universe: &Vec<String>) -> (r: Vec<String>)
    requires
        strictly_sorted(views(universe@)),
        match glob { Some(g) => path_glob_error(g@) is None, None => true },
    ensures
        strictly_sorted(views(r@)),
        views(r@).to_set() == glob_coverage(
            match glob { Some(g) => Some(g@), None => None },
            views(universe@).to_set(),
        ),
{
    let mut out: Vec<String> = Vec::new();
    match glob {
        None => {
            assert(views(out@).to_set() =~= Set::<Seq<char>>::empty());
            out
        },
        Some(g) => {
            let compiled = PathGlob::new(g);
            let mut i: usize = 0;
            while i < universe.len()
                invariant
                    i <= universe@.len(),
                    path_glob_error(g@) is None,
                    compiled.pattern() == g@,
                    strictly_sorted(views(universe@)),
                    views(out@) == views(universe@).take(i as int).filter(|p: Seq<char>| path_glob_matches(g@, p)),
                decreases universe@.len() - i,
            {
                let ghost prev = views(out@);
                assert(views(universe@).take(i + 1).drop_last() =~= views(universe@).take(i as int));
                assert(views(universe@).take(i + 1).last() == universe@[i as int]@);
                reveal(Seq::filter);
                if compiled.is_match(universe[i].as_str()) {
                    out.push(universe[i].clone());
                    assert(views(out@) =~= prev.push(universe@[i as int]@));
                } else {
                    assert(views(out@) =~= prev);
                }
                i = i + 1;
            }
            assert(views(universe@).take(i as int) =~= views(universe@));
            let ghost u = views(universe@);
            let ghost f = |p: Seq<char>| path_glob_matches(g@, p);
            proof {
                u.filter_lemma(f);
            }
            assert(strictly_sorted(views(out@))) by {
                assert forall|a: int, b: int| 0 <= a < b < views(out@).len() implies seq_order(
                    #[trigger] views(out@)[a],
                    #[trigger] views(out@)[b],
                ) < 0 by {
                    crate::policy::classify::lemma_filter_sorted(u, f, a, b);
                }
            }
            assert(views(out@).to_set() =~= u.to_set().filter(f)) by {
                assert forall|p: Seq<char>| views(out@).to_set().contains(p) <==> u.to_set().filter(f).contains(p) by {
                    if views(out@).contains(p) {
                        let k = choose|k: int| 0 <= k < views(out@).len() && views(out@)[k] == p;
                        assert(u.filter(f).contains(p));
                        u.lemma_filter_contains_rev(f, p);
                        assert(f(u.filter(f)[k]));
                    }
                    if u.contains(p) && f(p) {
                        let k = choose|k: int| 0 <= k < u.len() && u[k] == p;
                        assert(u.filter(f).contains(u[k]));
                    }
                }
            }
            out
        },
    }
}

proof fn lemma_filter_sorted(u: Seq<Seq<char>>, f: spec_fn(Seq<char>) -> bool, a: int, b: int)
    requires
        strictly_sorted(u),
        0 <= a < b < u.filter(f).len(),
    ensures
        seq_order(u.filter(f)[a], u.filter(f)[b]) < 0,
    decreases u.len(),
{
    reveal(Seq::filter);
    if u.len() > 0 {
        let init = u.drop_last();
        assert(strictly_sorted(init));
        init.filter_lemma(f);
        if f(u.last()) {
            assert(u.filter(f) == init.filter(f).push(u.last()));
            if b < init.filter(f).len() {
                lemma_filter_sorted(init, f, a, b);
            } else {
                let x = init.filter(f)[a];
                assert(init.filter(f).contains(x));
                init.lemma_filter_contains_rev(f, x);
                assert(init.contains(x));
                let k = choose|k: int| 0 <= k < init.len() && init[k] == x;
                assert(u[k] == x);
                assert(seq_order(u[k], u[u.len() - 1]) < 0);
            }
        } else {
            assert(u.filter(f) == init.filter(f));
            lemma_filter_sorted(init, f, a, b);
        }
    }
}

fn all_contained(a: &Vec<String>, b: &Vec<String>) -> (r: bool)
    ensures
        r == views(a@).to_set().subset_of(views(b@).to_set()),
{
    let mut i: usize = 0;
    while i < a.len()
        invariant
            i <= a@.len(),
            forall|k: int| 0 <= k < i ==> views(b@).contains(#[trigger] views(a@)[k]),
        decreases a@.len() - i,
    {
        if !strings_contain(b, a[i].as_str()) {
            assert(views(a@).to_set().contains(views(a@)[i as int]));
            return false;
        }
        i = i + 1;
    }
    assert forall|x: Seq<char>| views(a@).to_set().contains(x) implies views(b@).to_set().contains(x) by {
        let k = choose|k: int| 0 <= k < views(a@).len() && views(a@)[k] == x;
    }
    true
}

fn glob_error_reason(glob: Option<&str>) -> (r: Option<String>)
    ensures
        match r {
            Some(e) => opt_glob_error(match glob { Some(g) => Some(g@), None => None }) == Some(e@),
            None => opt_glob_error(match glob { Some(g) => Some(g@), None => None }) is None,
        },
{
    match glob {
        Some(g) => match path_glob_build_error(g) {
            Some(e) => {
                let mut m = owned("invalid boundaries.path glob '");
                push_str(&mut m, g);
                push_str(&mut m, "': ");
                push_str(&mut m, e.as_str());
                Some(m)
            },
            None => None,
        },
        None => None,
    }
}

fn unbounded_exec(reason: &str) -> (r: (ChangeClassification, String))
    ensures
        r.0 == unbounded(reason@).0,
        r.1@ == unbounded(reason@).1,
{
    let mut m = owned("boundaries.path changed: path_coverage_unbounded_mvp (");
    push_str(&mut m, reason);
    push_str(&mut m, ")");
    (ChangeClassification::StructuralChange, m)
}

pub open spec fn coverage_view(c: Option<&PathCoverage>) -> Option<(Result<Seq<Seq<char>>, Seq<char>>, Result<Seq<Seq<char>>, Seq<char>>)> {
    match c {
        Some(x) => Some((listing_view(x.base_files), listing_view(x.head_files))),
        None => None,
    }
}

/// Classifies a change of `boundaries.path` (see `path_change_result`).
pub fn classify_boundaries_path_change(
    spec_path: &str,
    base_path: Option<&str>,
    head_path: Option<&str>,
    coverage: Option<&PathCoverage>,
) -> (r: (ChangeClassification, String))
    ensures
        r.0 == path_change_result(
            spec_path@,
            match base_path { Some(p) => Some(p@), None => None },
            match head_path { Some(p) => Some(p@), None => None },
            coverage_view(coverage),
        ).0,
        r.1@ == path_change_result(
            spec_path@,
            match base_path { Some(p) => Some(p@), None => None },
            match head_path { Some(p) => Some(p@), None => None },
            coverage_view(coverage),
        ).1,
{
    let cov = match coverage {
        None => {
            return (
                ChangeClassification::StructuralChange,
                owned("boundaries.path changed (coverage context unavailable in this call path)"),
            );
        },
        Some(c) => c,
    };
    let prefixes = candidate_path_prefixes(spec_path, base_path, head_path);
    if prefixes.len() == 0 {
        assert(views(prefixes@).to_set() =~= Set::<Seq<char>>::empty());
        return unbounded_exec("empty scoped prefix set");
    }
    assert(views(prefixes@).to_set().contains(views(prefixes@)[0]));
    let base_files = match &cov.base_files {
        Ok(files) => files,
        Err(e) => {
            let mut reason = owned("base ref scoped ls-tree failed: ");
            push_str(&mut reason, e.as_str());
            return unbounded_exec(reason.as_str());
        },
    };
    let head_files = match &cov.head_files {
        Ok(files) => files,
        Err(e) => {
            let mut reason = owned("head ref scoped ls-tree failed: ");
            push_str(&mut reason, e.as_str());
            return unbounded_exec(reason.as_str());
        },
    };
    match glob_error_reason(base_path) {
        Some(reason) => {
            return unbounded_exec(reason.as_str());
        },
        None => {},
    }
    match glob_error_reason(head_path) {
        Some(reason) => {
            return unbounded_exec(reason.as_str());
        },
        None => {},
    }
    let universe = universe_of(base_files, head_files);
    let base_matches = matched_paths(base_path, &universe);
    let head_matches = matched_paths(head_path, &universe);
    proof {
        lemma_sorted_set_len(views(base_matches@));
        lemma_sorted_set_len(views(head_matches@));
    }
    let base_in_head = all_contained(&base_matches, &head_matches);
    let head_in_base = all_contained(&head_matches, &base_matches);
    let ghost bset = views(base_matches@).to_set();
    let ghost hset = views(head_matches@).to_set();
    if base_in_head && head_in_base {
        assert(hset =~= bset);
        return (ChangeClassification::StructuralChange, owned("boundaries.path changed with equal scoped coverage"));
    }
    assert(hset != bset) by {
        if hset == bset {
            assert(bset.subset_of(hset));
        }
    }
    if base_in_head || head_in_base {
        let mut m = owned(if base_in_head { "boundaries.path broadened scoped coverage (" } else { "boundaries.path narrowed scoped coverage (" });
        push_decimal(&mut m, base_matches.len() as u64);
        push_str(&mut m, " -> ");
        push_decimal(&mut m, head_matches.len() as u64);
        push_str(&mut m, " matched files)");
        return (
            if base_in_head {
                ChangeClassification::Widening
            } else {
                ChangeClassification::Narrowing
            },
            m,
        );
    }
    (ChangeClassification::StructuralChange, owned("boundaries.path changed with ambiguous scoped coverage overlap"))
}

/// The boundaries a spec declares, or the defaults.
pub open spec fn bvec(o: Option<Boundaries>, f: spec_fn(Boundaries) -> Seq<String>) -> Seq<String> {
    match o {
        Some(b) => f(b),
        None => Seq::empty(),
    }
}

pub open spec fn bflag(o: Option<Boundaries>, f: spec_fn(Boundaries) -> bool) -> bool {
    match o {
        Some(b) => f(b),
        None => false,
    }
}

pub open spec fn bpath(o: Option<Boundaries>) -> Option<Seq<char>> {
    match o {
        Some(b) => trimmed_opt(b.path),
        None => None,
    }
}

pub open spec fn ballow_from(o: Option<Boundaries>) -> Option<Vec<String>> {
    match o {
        Some(b) => b.allow_imports_from,
        None => None,
    }
}

pub open spec fn bvisibility(o: Option<Boundaries>) -> Option<Visibility> {
    match o {
        Some(b) => b.visibility,
        None => None,
    }
}

pub open spec fn bsite(module: Seq<char>, spec_path: Seq<char>, field: Seq<char>) -> ChangeSite {
    (module, spec_path, ChangeScope::Boundaries, field)
}

/// A change of the boundary path glob, classified by `path_change_result`.
pub open spec fn path_changes(
    site: ChangeSite,
    base_path: Option<Seq<char>>,
    head_path: Option<Seq<char>>,
    result: (ChangeClassification, Seq<char>),
) -> Seq<FieldChangeModel> {
    if base_path == head_path {
        Seq::empty()
    } else {
        seq![(site, (result.0, Some(text_or_null(base_path)), Some(text_or_null(head_path)), result.1))]
    }
}

/// Path, public API, import allowlist and import denylist changes.
pub open spec fn boundaries_changes_a(
    module: Seq<char>,
    spec_path: Seq<char>,
    base: Option<Boundaries>,
    head: Option<Boundaries>,
    coverage: Option<(Result<Seq<Seq<char>>, Seq<char>>, Result<Seq<Seq<char>>, Seq<char>>)>,
) -> Seq<FieldChangeModel> {
    let w = ChangeClassification::Widening;
    let n = ChangeClassification::Narrowing;
    path_changes(
        bsite(module, spec_path, "boundaries.path"@),
        bpath(base),
        bpath(head),
        path_change_result(spec_path, bpath(base), bpath(head), coverage),
    ) + set_field_changes(
        bsite(module, spec_path, "boundaries.public_api"@),
        bvec(base, |b: Boundaries| b.public_api@),
        bvec(head, |b: Boundaries| b.public_api@),
        w,
        n,
        true,
    ) + allow_imports_from_changes(
        bsite(module, spec_path, "boundaries.allow_imports_from"@),
        ballow_from(base),
        ballow_from(head),
    ) + set_field_changes(
        bsite(module, spec_path, "boundaries.never_imports"@),
        bvec(base, |b: Boundaries| b.never_imports@),
        bvec(head, |b: Boundaries| b.never_imports@),
        n,
        w,
        false,
    )
}

/// Type-import allowlist, visibility and importer list changes.
pub open spec fn boundaries_changes_b(
    module: Seq<char>,
    spec_path: Seq<char>,
    base: Option<Boundaries>,
    head: Option<Boundaries>,
) -> Seq<FieldChangeModel> {
    let w = ChangeClassification::Widening;
    let n = ChangeClassification::Narrowing;
    set_field_changes(
        bsite(module, spec_path, "boundaries.allow_type_imports_from"@),
        bvec(base, |b: Boundaries| b.allow_type_imports_from@),
        bvec(head, |b: Boundaries| b.allow_type_imports_from@),
        w,
        n,
        false,
    ) + visibility_changes(
        bsite(module, spec_path, "boundaries.visibility"@),
        bvisibility(base),
        bvisibility(head),
    ) + allow_imported_by_changes(
        bsite(module, spec_path, "boundaries.allow_imported_by"@),
        bvec(base, |b: Boundaries| b.allow_imported_by@),
        bvec(head, |b: Boundaries| b.allow_imported_by@),
    ) + set_field_changes(
        bsite(module, spec_path, "boundaries.deny_imported_by"@),
        bvec(base, |b: Boundaries| b.deny_imported_by@),
        bvec(head, |b: Boundaries| b.deny_imported_by@),
        n,
        w,
        false,
    )
}

/// Friend modules, canonical imports, dependency lists and test enforcement
/// changes.
pub open spec fn boundaries_changes_c(
    module: Seq<char>,
    spec_path: Seq<char>,
    base: Option<Boundaries>,
    head: Option<Boundaries>,
) -> Seq<FieldChangeModel> {
    let w = ChangeClassification::Widening;
    let n = ChangeClassification::Narrowing;
    set_field_changes(
        bsite(module, spec_path, "boundaries.friend_modules"@),
        bvec(base, |b: Boundaries| b.friend_modules@),
        bvec(head, |b: Boundaries| b.friend_modules@),
        w,
        n,
        false,
    ) + bool_polarity_changes(
        bsite(module, spec_path, "boundaries.enforce_canonical_imports"@),
        bflag(base, |b: Boundaries| b.enforce_canonical_imports),
        bflag(head, |b: Boundaries| b.enforce_canonical_imports),
        w,
        n,
    ) + set_field_changes(
        bsite(module, spec_path, "boundaries.allowed_dependencies"@),
        bvec(base, |b: Boundaries| b.allowed_dependencies@),
        bvec(head, |b: Boundaries| b.allowed_dependencies@),
        w,
        n,
        false,
    ) + set_field_changes(
        bsite(module, spec_path, "boundaries.forbidden_dependencies"@),
        bvec(base, |b: Boundaries| b.forbidden_dependencies@),
        bvec(head, |b: Boundaries| b.forbidden_dependencies@),
        n,
        w,
        false,
    ) + bool_polarity_changes(
        bsite(module, spec_path, "boundaries.enforce_in_tests"@),
        bflag(base, |b: Boundaries| b.enforce_in_tests),
        bflag(head, |b: Boundaries| b.enforce_in_tests),
        w,
        n,
    )
}

/// Changes of the boundaries section, field by field: each permission that
/// grows widens and each restriction that grows narrows. Missing boundaries
/// count as the defaults.
pub open spec fn boundaries_changes(
    module: Seq<char>,
    spec_path: Seq<char>,
    base: Option<Boundaries>,
    head: Option<Boundaries>,
    coverage: Option<(Result<Seq<Seq<char>>, Seq<char>>, Result<Seq<Seq<char>>, Seq<char>>)>,
) -> Seq<FieldChangeModel> {
    boundaries_changes_a(module, spec_path, base, head, coverage) + boundaries_changes_b(
        module,
        spec_path,
        base,
        head,
    ) + boundaries_changes_c(module, spec_path, base, head) + contracts_changes(
        module,
        spec_path,
        bcontracts(base),
        bcontracts(head),
    )
}

/// The contracts of a boundaries section (none when it is absent).
pub open spec fn bcontracts(o: Option<Boundaries>) -> Seq<BoundaryContract> {
    match o {
        Some(b) => b.contracts@,
        None => Seq::empty(),
    }
}

/// `b` holds the fields of `o`, or the defaults when `o` is absent.
pub open spec fn effective(b: Boundaries, o: Option<Boundaries>) -> bool {
    &&& trimmed_opt(b.path) == bpath(o)
    &&& b.public_api@ == bvec(o, |b: Boundaries| b.public_api@)
    &&& b.allow_imports_from == ballow_from(o)
    &&& b.never_imports@ == bvec(o, |b: Boundaries| b.never_imports@)
    &&& b.allow_type_imports_from@ == bvec(o, |b: Boundaries| b.allow_type_imports_from@)
    &&& b.visibility == bvisibility(o)
    &&& b.allow_imported_by@ == bvec(o, |b: Boundaries| b.allow_imported_by@)
    &&& b.deny_imported_by@ == bvec(o, |b: Boundaries| b.deny_imported_by@)
    &&& b.friend_modules@ == bvec(o, |b: Boundaries| b.friend_modules@)
    &&& b.enforce_canonical_imports == bflag(o, |b: Boundaries| b.enforce_canonical_imports)
    &&& b.allowed_dependencies@ == bvec(o, |b: Boundaries| b.allowed_dependencies@)
    &&& b.forbidden_dependencies@ == bvec(o, |b: Boundaries| b.forbidden_dependencies@)
    &&& b.enforce_in_tests == bflag(o, |b: Boundaries| b.enforce_in_tests)
}

fn opt_str_equal(a: &Option<String>, b: &Option<String>) -> (r: bool)
    ensures
        r == ((match a { Some(x) => Some(x@), None => None::<Seq<char>> }) == (match b {
            Some(x) => Some(x@),
            None => None::<Seq<char>>,
        })),
{
    opt_strings_equal(a, b)
}

fn as_opt_str(o: &Option<String>) -> (r: Option<&str>)
    ensures
        (match r { Some(x) => Some(x@), None => None::<Seq<char>> }) == (match o {
            Some(x) => Some(x@),
            None => None::<Seq<char>>,
        }),
{
    match o {
        Some(x) => Some(x.as_str()),
        None => None,
    }
}

#[verifier::spinoff_prover]
#[verifier::rlimit(40)]
fn classify_boundaries_a(
    module: &str,
    spec_path: &str,
    b: &Boundaries,
    h: &Boundaries,
    bo: Ghost<Option<Boundaries>>,
    ho: Ghost<Option<Boundaries>>,
    coverage: Option<&PathCoverage>,
    changes: &mut Vec<FieldChange>,
)
    requires
        effective(*b, bo@),
        effective(*h, ho@),
    ensures
        field_change_models(final(changes)@) == field_change_models(old(changes)@) + boundaries_changes_a(
            module@,
            spec_path@,
            bo@,
            ho@,
            coverage_view(coverage),
        ),
{
    let ghost start = field_change_models(changes@);
    let base_path = trimmed_opt_exec(&b.path);
    let head_path = trimmed_opt_exec(&h.path);
    if !opt_str_equal(&base_path, &head_path) {
        let (classification, detail) = classify_boundaries_path_change(
            spec_path,
            as_opt_str(&base_path),
            as_opt_str(&head_path),
            coverage,
        );
        let ctx = context(module, spec_path, ChangeScope::Boundaries, "boundaries.path");
        push_change(
            changes,
            &ctx,
            classification,
            Some(opt_json(base_path)),
            Some(opt_json(head_path)),
            detail,
        );
    }
    let ghost a0 = path_changes(
        bsite(module@, spec_path@, "boundaries.path"@),
        bpath(bo@),
        bpath(ho@),
        path_change_result(spec_path@, bpath(bo@), bpath(ho@), coverage_view(coverage)),
    );
    assert(field_change_models(changes@) =~= start + a0);
    let w = ChangeClassification::Widening;
    let n = ChangeClassification::Narrowing;
    let ghost s1 = field_change_models(changes@);
    classify_set_field(
        &context(module, spec_path, ChangeScope::Boundaries, "boundaries.public_api"),
        &b.public_api,
        &h.public_api,
        w,
        n,
        true,
        changes,
    );
    let ghost s2 = field_change_models(changes@);
    classify_allow_imports_from(
        &context(module, spec_path, ChangeScope::Boundaries, "boundaries.allow_imports_from"),
        &b.allow_imports_from,
        &h.allow_imports_from,
        changes,
    );
    let ghost s3 = field_change_models(changes@);
    classify_set_field(
        &context(module, spec_path, ChangeScope::Boundaries, "boundaries.never_imports"),
        &b.never_imports,
        &h.never_imports,
        n,
        w,
        false,
        changes,
    );
    assert(field_change_models(changes@) =~= start + boundaries_changes_a(
        module@,
        spec_path@,
        bo@,
        ho@,
        coverage_view(coverage),
    ));
}

#[verifier::spinoff_prover]
#[verifier::rlimit(40)]
fn classify_boundaries_b(
    module: &str,
    spec_path: &str,
    b: &Boundaries,
    h: &Boundaries,
    bo: Ghost<Option<Boundaries>>,
    ho: Ghost<Option<Boundaries>>,
    changes: &mut Vec<FieldChange>,
)
    requires
        effective(*b, bo@),
        effective(*h, ho@),
    ensures
        field_change_models(final(changes)@) == field_change_models(old(changes)@) + boundaries_changes_b(
            module@,
            spec_path@,
            bo@,
            ho@,
        ),
{
    let ghost start = field_change_models(changes@);
    let w = ChangeClassification::Widening;
    let n = ChangeClassification::Narrowing;
    classify_set_field(
        &context(module, spec_path, ChangeScope::Boundaries, "boundaries.allow_type_imports_from"),
        &b.allow_type_imports_from,
        &h.allow_type_imports_from,
        w,
        n,
        false,
        changes,
    );
    classify_visibility(
        &context(module, spec_path, ChangeScope::Boundaries, "boundaries.visibility"),
        b.visibility,
        h.visibility,
        changes,
    );
    classify_allow_imported_by(
        &context(module, spec_path, ChangeScope::Boundaries, "boundaries.allow_imported_by"),
        &b.allow_imported_by,
        &h.allow_imported_by,
        changes,
    );
    classify_set_field(
        &context(module, spec_path, ChangeScope::Boundaries, "boundaries.deny_imported_by"),
        &b.deny_imported_by,
        &h.deny_imported_by,
        n,
        w,
        false,
        changes,
    );
    assert(field_change_models(changes@) =~= start + boundaries_changes_b(module@, spec_path@, bo@, ho@));
}

#[verifier::spinoff_prover]
#[verifier::rlimit(40)]
fn classify_boundaries_c(
    module: &str,
    spec_path: &str,
    b: &Boundaries,
    h: &Boundaries,
    bo: Ghost<Option<Boundaries>>,
    ho: Ghost<Option<Boundaries>>,
    changes: &mut Vec<FieldChange>,
)
    requires
        effective(*b, bo@),
        effective(*h, ho@),
    ensures
        field_change_models(final(changes)@) == field_change_models(old(changes)@) + boundaries_changes_c(
            module@,
            spec_path@,
            bo@,
            ho@,
        ),
{
    let ghost start = field_change_models(changes@);
    let w = ChangeClassification::Widening;
    let n = ChangeClassification::Narrowing;
    classify_set_field(
        &context(module, spec_path, ChangeScope::Boundaries, "boundaries.friend_modules"),
        &b.friend_modules,
        &h.friend_modules,
        w,
        n,
        false,
        changes,
    );
    classify_bool_polarity(
        &context(module, spec_path, ChangeScope::Boundaries, "boundaries.enforce_canonical_imports"),
        b.enforce_canonical_imports,
        h.enforce_canonical_imports,
        w,
        n,
        changes,
    );
    classify_set_field(
        &context(module, spec_path, ChangeScope::Boundaries, "boundaries.allowed_dependencies"),
        &b.allowed_dependencies,
        &h.allowed_dependencies,
        w,
        n,
        false,
        changes,
    );
    classify_set_field(
        &context(module, spec_path, ChangeScope::Boundaries, "boundaries.forbidden_dependencies"),
        &b.forbidden_dependencies,
        &h.forbidden_dependencies,
        n,
        w,
        false,
        changes,
    );
    classify_bool_polarity(
        &context(module, spec_path, ChangeScope::Boundaries, "boundaries.enforce_in_tests"),
        b.enforce_in_tests,
        h.enforce_in_tests,
        w,
        n,
        changes,
    );
    assert(field_change_models(changes@) =~= start + boundaries_changes_c(module@, spec_path@, bo@, ho@));
}

fn effective_boundaries<'a>(o: Option<&'a Boundaries>, default: &'a Boundaries) -> (r: &'a Boundaries)
    requires
        default.path is None,
        default.public_api@.len() == 0,
        default.allow_imports_from is None,
        default.never_imports@.len() == 0,
        default.allow_type_imports_from@.len() == 0,
        default.visibility is None,
        default.allow_imported_by@.len() == 0,
        default.deny_imported_by@.len() == 0,
        default.friend_modules@.len() == 0,
        !default.enforce_canonical_imports,
        default.allowed_dependencies@.len() == 0,
        default.forbidden_dependencies@.len() == 0,
        !default.enforce_in_tests,
    ensures
        effective(*r, match o { Some(b) => Some(*b), None => None }),
{
    match o {
        Some(x) => x,
        None => {
            assert(default.public_api@ =~= Seq::<String>::empty());
            assert(default.never_imports@ =~= Seq::<String>::empty());
            assert(default.allow_type_imports_from@ =~= Seq::<String>::empty());
            assert(default.allow_imported_by@ =~= Seq::<String>::empty());
            assert(default.deny_imported_by@ =~= Seq::<String>::empty());
            assert(default.friend_modules@ =~= Seq::<String>::empty());
            assert(default.allowed_dependencies@ =~= Seq::<String>::empty());
            assert(default.forbidden_dependencies@ =~= Seq::<String>::empty());
            default
        },
    }
}

#[verifier::spinoff_prover]
#[verifier::rlimit(40)]
fn classify_boundaries(
    module: &str,
    spec_path: &str,
    base: Option<&Boundaries>,
    head: Option<&Boundaries>,
    coverage: Option<&PathCoverage>,
    changes: &mut Vec<FieldChange>,
)
    ensures
        field_change_models(final(changes)@) == field_change_models(old(changes)@) + boundaries_changes(
            module@,
            spec_path@,
            match base { Some(b) => Some(*b), None => None },
            match head { Some(b) => Some(*b), None => None },
            coverage_view(coverage),
        ),
{
    let ghost start = field_change_models(changes@);
    let ghost bo = match base { Some(b) => Some(*b), None => None::<Boundaries> };
    let ghost ho = match head { Some(b) => Some(*b), None => None::<Boundaries> };
    let default_boundaries = Boundaries::default();
    let b = effective_boundaries(base, &default_boundaries);
    let h = effective_boundaries(head, &default_boundaries);
    classify_boundaries_a(module, spec_path, b, h, Ghost(bo), Ghost(ho), coverage, changes);
    classify_boundaries_b(module, spec_path, b, h, Ghost(bo), Ghost(ho), changes);
    classify_boundaries_c(module, spec_path, b, h, Ghost(bo), Ghost(ho), changes);
    let no_contracts: Vec<BoundaryContract> = Vec::new();
    let bc: &Vec<BoundaryContract> = match base {
        Some(x) => &x.contracts,
        None => &no_contracts,
    };
    let hc: &Vec<BoundaryContract> = match head {
        Some(x) => &x.contracts,
        None => &no_contracts,
    };
    assert(bc@ == bcontracts(bo) && hc@ == bcontracts(ho));
    classify_contracts(module, spec_path, bc, hc, changes);
    assert(field_change_models(changes@) =~= start + boundaries_changes(
        module@,
        spec_path@,
        bo,
        ho,
        coverage_view(coverage),
    ));
}

/// The identity of a constraint: its trimmed rule and canonical parameters.
pub open spec fn constraint_key(c: Constraint) -> Seq<char> {
    trim(c.rule@) + "::"@ + canonical_json(c.params)
}

pub open spec fn constraint_keys(cs: Seq<Constraint>) -> Seq<Seq<char>> {
    cs.map_values(|c: Constraint| constraint_key(c))
}

/// Index of the last entry equal to `k`, or -1.
pub open spec fn last_index_of(keys: Seq<Seq<char>>, k: Seq<char>) -> int
    decreases keys.len(),
{
    if keys.len() == 0 {
        -1
    } else if keys.last() == k {
        keys.len() - 1
    } else {
        last_index_of(keys.drop_last(), k)
    }
}

pub open spec fn severity_json(s: Severity) -> Seq<char> {
    match s {
        Severity::Error => "error"@,
        Severity::Warning => "warning"@,
    }
}

pub open spec fn csite(module: Seq<char>, spec_path: Seq<char>, field: Seq<char>) -> ChangeSite {
    (module, spec_path, ChangeScope::Constraint, field)
}

/// Changes between two declarations of the same constraint: a severity
/// relaxed to a warning widens, tightened to an error narrows; a changed
/// message is structural.
pub open spec fn constraint_pair_changes(
    module: Seq<char>,
    spec_path: Seq<char>,
    key: Seq<char>,
    b: Constraint,
    h: Constraint,
) -> Seq<FieldChangeModel> {
    let sev = if b.severity != h.severity {
        seq![
            (csite(module, spec_path, "constraints.severity"@), (
                if b.severity == Severity::Error {
                    ChangeClassification::Widening
                } else {
                    ChangeClassification::Narrowing
                },
                Some(JsonShape::Text(severity_json(b.severity))),
                Some(JsonShape::Text(severity_json(h.severity))),
                "constraint '"@ + key + "' severity changed"@,
            )),
        ]
    } else {
        Seq::empty()
    };
    let msg = if trimmed_opt(b.message) != trimmed_opt(h.message) {
        seq![
            (csite(module, spec_path, "constraints.message"@), (
                ChangeClassification::StructuralChange,
                Some(text_or_null(trimmed_opt(b.message))),
                Some(text_or_null(trimmed_opt(h.message))),
                "constraint '"@ + key + "' message changed"@,
            )),
        ]
    } else {
        Seq::empty()
    };
    sev + msg
}

/// Changes of the constraints present on both sides, in key order; a key
/// declared twice counts with its last declaration.
pub open spec fn matched_constraint_changes(
    module: Seq<char>,
    spec_path: Seq<char>,
    keys: Seq<Seq<char>>,
    base: Seq<Constraint>,
    head: Seq<Constraint>,
) -> Seq<FieldChangeModel>
    decreases keys.len(),
{
    if keys.len() == 0 {
        Seq::empty()
    } else {
        let k = keys.last();
        let bi = last_index_of(constraint_keys(base), k);
        let hi = last_index_of(constraint_keys(head), k);
        matched_constraint_changes(module, spec_path, keys.drop_last(), base, head) + if bi >= 0 && hi >= 0 {
            constraint_pair_changes(module, spec_path, k, base[bi], head[hi])
        } else {
            Seq::empty()
        }
    }
}

pub open spec fn removed_constraint(module: Seq<char>, spec_path: Seq<char>, key: Seq<char>) -> FieldChangeModel {
    (csite(module, spec_path, "constraints"@), (
        ChangeClassification::StructuralChange,
        Some(JsonShape::Text(key)),
        None,
        "constraint '"@ + key + "' removed (MVP structural)"@,
    ))
}

pub open spec fn added_constraint(module: Seq<char>, spec_path: Seq<char>, key: Seq<char>) -> FieldChangeModel {
    (csite(module, spec_path, "constraints"@), (
        ChangeClassification::StructuralChange,
        None,
        Some(JsonShape::Text(key)),
        "constraint '"@ + key + "' added (MVP structural)"@,
    ))
}

/// Changes of the constraint list, keyed by `constraint_key`: changes of
/// kept constraints, then removed keys, then added keys, each in key order.
pub open spec fn constraints_changes(
    module: Seq<char>,
    spec_path: Seq<char>,
    base: Seq<Constraint>,
    head: Seq<Constraint>,
) -> Seq<FieldChangeModel> {
    let bk = sorted_seq_of(constraint_keys(base).to_set());
    let hk = sorted_seq_of(constraint_keys(head).to_set());
    matched_constraint_changes(module, spec_path, bk, base, head) + bk.filter(
        |k: Seq<char>| !constraint_keys(head).contains(k),
    ).map_values(|k: Seq<char>| removed_constraint(module, spec_path, k)) + hk.filter(
        |k: Seq<char>| !constraint_keys(base).contains(k),
    ).map_values(|k: Seq<char>| added_constraint(module, spec_path, k))
}

fn constraint_key_exec(c: &Constraint) -> (r: String)
    ensures
        r@ == constraint_key(*c),
{
    let mut k = owned(trim_str(c.rule.as_str()));
    push_str(&mut k, "::");
    let p = render_canonical_json(&c.params);
    push_str(&mut k, p.as_str());
    k
}

fn keys_of(cs: &Vec<Constraint>) -> (r: Vec<String>)
    ensures
        views(r@) == constraint_keys(cs@),
{
    let mut out: Vec<String> = Vec::new();
    let mut i: usize = 0;
    while i < cs.len()
        invariant
            i <= cs@.len(),
            views(out@) == constraint_keys(cs@).take(i as int),
        decreases cs@.len() - i,
    {
        let k = constraint_key_exec(&cs[i]);
        out.push(k);
        assert(constraint_keys(cs@).take(i + 1) =~= constraint_keys(cs@).take(i as int).push(
            constraint_key(cs@[i as int]),
        ));
        assert(views(out@) =~= constraint_keys(cs@).take(i + 1));
        i = i + 1;
    }
    assert(constraint_keys(cs@).take(i as int) =~= constraint_keys(cs@));
    out
}

fn last_index_exec(keys: &Vec<String>, k: &str) -> (r: Option<usize>)
    ensures
        match r {
            Some(i) => i as int == last_index_of(views(keys@), k@) && i < keys@.len(),
            None => last_index_of(views(keys@), k@) == -1,
        },
{
    let mut i: usize = keys.len();
    assert(views(keys@).take(i as int) =~= views(keys@));
    while i > 0
        invariant
            i <= keys@.len(),
            last_index_of(views(keys@), k@) == last_index_of(views(keys@).take(i as int), k@),
        decreases i,
    {
        let ghost pre = views(keys@).take(i as int);
        assert(pre.last() == keys@[i - 1]@);
        assert(pre.drop_last() =~= views(keys@).take(i - 1));
        if str_eq(keys[i - 1].as_str(), k) {
            return Some(i - 1);
        }
        i = i - 1;
    }
    None
}

fn sorted_keys(keys: &Vec<String>) -> (r: Vec<String>)
    ensures
        views(r@) == sorted_seq_of(views(keys@).to_set()),
{
    let mut out: Vec<String> = Vec::new();
    let mut i: usize = 0;
    assert(views(out@).to_set() =~= views(keys@).take(0).to_set());
    while i < keys.len()
        invariant
            i <= keys@.len(),
            strictly_sorted(views(out@)),
            views(out@).to_set() == views(keys@).take(i as int).to_set(),
        decreases keys@.len() - i,
    {
        set_insert(&mut out, keys[i].clone());
        assert(views(keys@).take(i + 1) =~= views(keys@).take(i as int).push(keys@[i as int]@));
        proof {
            crate::policy::config_diff::lemma_push_to_set(views(keys@).take(i as int), keys@[i as int]@);
        }
        i = i + 1;
    }
    assert(views(keys@).take(i as int) =~= views(keys@));
    proof {
        lemma_sorted_seq_of(views(out@));
    }
    out
}

fn severity_json_exec(s: Severity) -> (r: &'static str)
    ensures
        r@ == severity_json(s),
{
    match s {
        Severity::Error => "error",
        Severity::Warning => "warning",
    }
}

fn keyed_detail(key: &str, suffix: &str) -> (r: String)
    ensures
        r@ == "constraint '"@ + key@ + suffix@,
{
    let mut d = owned("constraint '");
    push_str(&mut d, key);
    push_str(&mut d, suffix);
    d
}

fn classify_constraint_pair(
    module: &str,
    spec_path: &str,
    key: &str,
    b: &Constraint,
    h: &Constraint,
    changes: &mut Vec<FieldChange>,
)
    ensures
        field_change_models(final(changes)@) == field_change_models(old(changes)@) + constraint_pair_changes(
            module@,
            spec_path@,
            key@,
            *b,
            *h,
        ),
{
    let ghost start = field_change_models(changes@);
    if b.severity != h.severity {
        let classification = match b.severity {
            Severity::Error => ChangeClassification::Widening,
            Severity::Warning => ChangeClassification::Narrowing,
        };
        push_change(
            changes,
            &context(module, spec_path, ChangeScope::Constraint, "constraints.severity"),
            classification,
            Some(JsonValue::text(owned(severity_json_exec(b.severity)))),
            Some(JsonValue::text(owned(severity_json_exec(h.severity)))),
            keyed_detail(key, "' severity changed"),
        );
    }
    let ghost mid = field_change_models(changes@);
    let bm = trimmed_opt_exec(&b.message);
    let hm = trimmed_opt_exec(&h.message);
    if !opt_str_equal(&bm, &hm) {
        push_change(
            changes,
            &context(module, spec_path, ChangeScope::Constraint, "constraints.message"),
            ChangeClassification::StructuralChange,
            Some(opt_json(bm)),
            Some(opt_json(hm)),
            keyed_detail(key, "' message changed"),
        );
    }
    assert(field_change_models(changes@) =~= start + constraint_pair_changes(module@, spec_path@, key@, *b, *h));
}

#[verifier::spinoff_prover]
#[verifier::rlimit(40)]
fn classify_constraints(
    module: &str,
    spec_path: &str,
    base: &Vec<Constraint>,
    head: &Vec<Constraint>,
    changes: &mut Vec<FieldChange>,
)
    ensures
        field_change_models(final(changes)@) == field_change_models(old(changes)@) + constraints_changes(
            module@,
            spec_path@,
            base@,
            head@,
        ),
{
    let ghost start = field_change_models(changes@);
    let base_keys = keys_of(base);
    let head_keys = keys_of(head);
    let bk = sorted_keys(&base_keys);
    let hk = sorted_keys(&head_keys);
    let ghost sbk = views(bk@);
    let ghost shk = views(hk@);
    let mut i: usize = 0;
    assert(start =~= start + matched_constraint_changes(module@, spec_path@, sbk.take(0), base@, head@));
    while i < bk.len()
        invariant
            i <= bk@.len(),
            sbk == views(bk@),
            views(base_keys@) == constraint_keys(base@),
            views(head_keys@) == constraint_keys(head@),
            base_keys@.len() == base@.len(),
            head_keys@.len() == head@.len(),
            field_change_models(changes@) == start + matched_constraint_changes(
                module@,
                spec_path@,
                sbk.take(i as int),
                base@,
                head@,
            ),
        decreases bk@.len() - i,
    {
        let key = bk[i].as_str();
        let ghost before = field_change_models(changes@);
        assert(sbk.take(i + 1).drop_last() =~= sbk.take(i as int));
        assert(sbk.take(i + 1).last() == key@);
        let bi = last_index_exec(&base_keys, key);
        let hi = last_index_exec(&head_keys, key);
        match (bi, hi) {
            (Some(x), Some(y)) => {
                classify_constraint_pair(module, spec_path, key, &base[x], &head[y], changes);
            },
            _ => {
                assert(field_change_models(changes@) =~= before + Seq::empty());
            },
        }
        assert(field_change_models(changes@) =~= start + matched_constraint_changes(
            module@,
            spec_path@,
            sbk.take(i + 1),
            base@,
            head@,
        ));
        i = i + 1;
    }
    assert(sbk.take(i as int) =~= sbk);
    let ghost s1 = field_change_models(changes@);
    let ghost removed = sbk.filter(|k: Seq<char>| !constraint_keys(head@).contains(k)).map_values(
        |k: Seq<char>| removed_constraint(module@, spec_path@, k),
    );
    let mut j: usize = 0;
    assert(s1 =~= s1 + sbk.take(0).filter(|k: Seq<char>| !constraint_keys(head@).contains(k)).map_values(
        |k: Seq<char>| removed_constraint(module@, spec_path@, k),
    ));
    while j < bk.len()
        invariant
            j <= bk@.len(),
            sbk == views(bk@),
            views(head_keys@) == constraint_keys(head@),
            field_change_models(changes@) == s1 + sbk.take(j as int).filter(
                |k: Seq<char>| !constraint_keys(head@).contains(k),
            ).map_values(|k: Seq<char>| removed_constraint(module@, spec_path@, k)),
        decreases bk@.len() - j,
    {
        let key = bk[j].as_str();
        let ghost before = field_change_models(changes@);
        let ghost prevf = sbk.take(j as int).filter(|k: Seq<char>| !constraint_keys(head@).contains(k));
        assert(sbk.take(j + 1).drop_last() =~= sbk.take(j as int));
        assert(sbk.take(j + 1).last() == key@);
        reveal(Seq::filter);
        if !strings_contain(&head_keys, key) {
            push_change(
                changes,
                &context(module, spec_path, ChangeScope::Constraint, "constraints"),
                ChangeClassification::StructuralChange,
                Some(JsonValue::text(owned(key))),
                None,
                keyed_detail(key, "' removed (MVP structural)"),
            );
            assert(sbk.take(j + 1).filter(|k: Seq<char>| !constraint_keys(head@).contains(k)) =~= prevf.push(key@));
        } else {
            assert(sbk.take(j + 1).filter(|k: Seq<char>| !constraint_keys(head@).contains(k)) =~= prevf);
        }
        assert(field_change_models(changes@) =~= s1 + sbk.take(j + 1).filter(
            |k: Seq<char>| !constraint_keys(head@).contains(k),
        ).map_values(|k: Seq<char>| removed_constraint(module@, spec_path@, k)));
        j = j + 1;
    }
    assert(sbk.take(j as int) =~= sbk);
    let ghost s2 = field_change_models(changes@);
    let mut q: usize = 0;
    assert(s2 =~= s2 + shk.take(0).filter(|k: Seq<char>| !constraint_keys(base@).contains(k)).map_values(
        |k: Seq<char>| added_constraint(module@, spec_path@, k),
    ));
    while q < hk.len()
        invariant
            q <= hk@.len(),
            shk == views(hk@),
            views(base_keys@) == constraint_keys(base@),
            field_change_models(changes@) == s2 + shk.take(q as int).filter(
                |k: Seq<char>| !constraint_keys(base@).contains(k),
            ).map_values(|k: Seq<char>| added_constraint(module@, spec_path@, k)),
        decreases hk@.len() - q,
    {
        let key = hk[q].as_str();
        let ghost prevf = shk.take(q as int).filter(|k: Seq<char>| !constraint_keys(base@).contains(k));
        assert(shk.take(q + 1).drop_last() =~= shk.take(q as int));
        assert(shk.take(q + 1).last() == key@);
        reveal(Seq::filter);
        if !strings_contain(&base_keys, key) {
            push_change(
                changes,
                &context(module, spec_path, ChangeScope::Constraint, "constraints"),
                ChangeClassification::StructuralChange,
                None,
                Some(JsonValue::text(owned(key))),
                keyed_detail(key, "' added (MVP structural)"),
            );
            assert(shk.take(q + 1).filter(|k: Seq<char>| !constraint_keys(base@).contains(k)) =~= prevf.push(key@));
        } else {
            assert(shk.take(q + 1).filter(|k: Seq<char>| !constraint_keys(base@).contains(k)) =~= prevf);
        }
        assert(field_change_models(changes@) =~= s2 + shk.take(q + 1).filter(
            |k: Seq<char>| !constraint_keys(base@).contains(k),
        ).map_values(|k: Seq<char>| added_constraint(module@, spec_path@, k)));
        q = q + 1;
    }
    assert(shk.take(q as int) =~= shk);
    assert(field_change_models(changes@) =~= start + constraints_changes(module@, spec_path@, base@, head@));
}

/// The identity of a contract: its trimmed name (empty when it has none).
pub open spec fn contract_id(c: BoundaryContract) -> Seq<char> {
    match c.name {
        Some(n) => trim(n@),
        None => Seq::empty(),
    }
}

pub open spec fn contract_ids(cs: Seq<BoundaryContract>) -> Seq<Seq<char>> {
    cs.map_values(|c: BoundaryContract| contract_id(c))
}

pub open spec fn envelope_json(e: EnvelopeRequirement) -> Seq<char> {
    match e {
        EnvelopeRequirement::Optional => "optional"@,
        EnvelopeRequirement::Required => "required"@,
    }
}

pub open spec fn direction_json(d: ContractDirection) -> Seq<char> {
    match d {
        ContractDirection::Inbound => "inbound"@,
        ContractDirection::Outbound => "outbound"@,
        ContractDirection::Bidirectional => "bidirectional"@,
    }
}

/// A trimmed text, `None` when it is empty.
pub open spec fn trimmed_text(s: Seq<char>) -> Option<Seq<char>> {
    if trim(s).len() > 0 {
        Some(trim(s))
    } else {
        None
    }
}

pub open spec fn contract_detail(id: Seq<char>, suffix: Seq<char>) -> Seq<char> {
    "contract '"@ + id + suffix
}

/// Changes between two declarations of the same contract: a dropped envelope
/// requirement widens and a new one narrows; a match pattern that appears
/// widens, one that disappears narrows, one that changes is structural; a
/// changed direction is structural.
pub open spec fn contract_pair_changes(
    module: Seq<char>,
    spec_path: Seq<char>,
    id: Seq<char>,
    b: BoundaryContract,
    h: BoundaryContract,
) -> Seq<FieldChangeModel> {
    let envelope = if b.envelope != h.envelope {
        seq![
            ((module, spec_path, ChangeScope::Contract, "boundaries.contracts.envelope"@), (
                if b.envelope == EnvelopeRequirement::Required {
                    ChangeClassification::Widening
                } else {
                    ChangeClassification::Narrowing
                },
                Some(JsonShape::Text(envelope_json(b.envelope))),
                Some(JsonShape::Text(envelope_json(h.envelope))),
                contract_detail(id, "' envelope changed"@),
            )),
        ]
    } else {
        Seq::empty()
    };
    let bp = trimmed_text(b.contract_match.pattern@);
    let hp = trimmed_text(h.contract_match.pattern@);
    let pattern = if b.contract_match.pattern@ != h.contract_match.pattern@ {
        seq![
            ((module, spec_path, ChangeScope::ContractMatch, "boundaries.contracts.match.pattern"@), (
                if bp is None && hp is Some {
                    ChangeClassification::Widening
                } else if bp is Some && hp is None {
                    ChangeClassification::Narrowing
                } else {
                    ChangeClassification::StructuralChange
                },
                Some(text_or_null(bp)),
                Some(text_or_null(hp)),
                contract_detail(id, "' match.pattern changed"@),
            )),
        ]
    } else {
        Seq::empty()
    };
    let direction = if b.direction != h.direction {
        seq![
            ((module, spec_path, ChangeScope::Contract, "boundaries.contracts.direction"@), (
                ChangeClassification::StructuralChange,
                Some(JsonShape::Text(direction_json(b.direction))),
                Some(JsonShape::Text(direction_json(h.direction))),
                contract_detail(id, "' direction changed (MVP structural)"@),
            )),
        ]
    } else {
        Seq::empty()
    };
    envelope + pattern + direction
}

/// Changes of the contracts present on both sides, in id order; an id
/// declared twice counts with its last declaration.
pub open spec fn matched_contract_changes(
    module: Seq<char>,
    spec_path: Seq<char>,
    ids: Seq<Seq<char>>,
    base: Seq<BoundaryContract>,
    head: Seq<BoundaryContract>,
) -> Seq<FieldChangeModel>
    decreases ids.len(),
{
    if ids.len() == 0 {
        Seq::empty()
    } else {
        let k = ids.last();
        let bi = last_index_of(contract_ids(base), k);
        let hi = last_index_of(contract_ids(head), k);
        matched_contract_changes(module, spec_path, ids.drop_last(), base, head) + if bi >= 0 && hi >= 0 {
            contract_pair_changes(module, spec_path, k, base[bi], head[hi])
        } else {
            Seq::empty()
        }
    }
}

pub open spec fn removed_contract(module: Seq<char>, spec_path: Seq<char>, id: Seq<char>) -> FieldChangeModel {
    ((module, spec_path, ChangeScope::Contract, "boundaries.contracts"@), (
        ChangeClassification::Widening,
        Some(JsonShape::Text(id)),
        None,
        contract_detail(id, "' removed"@),
    ))
}

pub open spec fn added_contract(module: Seq<char>, spec_path: Seq<char>, id: Seq<char>) -> FieldChangeModel {
    ((module, spec_path, ChangeScope::Contract, "boundaries.contracts"@), (
        ChangeClassification::Narrowing,
        None,
        Some(JsonShape::Text(id)),
        contract_detail(id, "' added"@),
    ))
}

/// Changes of the contract list, keyed by `contract_id`: changes of kept
/// contracts, then removed contracts (each widens), then added contracts
/// (each narrows), each in id order.
pub open spec fn contracts_changes(
    module: Seq<char>,
    spec_path: Seq<char>,
    base: Seq<BoundaryContract>,
    head: Seq<BoundaryContract>,
) -> Seq<FieldChangeModel> {
    let bk = sorted_seq_of(contract_ids(base).to_set());
    let hk = sorted_seq_of(contract_ids(head).to_set());
    matched_contract_changes(module, spec_path, bk, base, head) + bk.filter(
        |k: Seq<char>| !contract_ids(head).contains(k),
    ).map_values(|k: Seq<char>| removed_contract(module, spec_path, k)) + hk.filter(
        |k: Seq<char>| !contract_ids(base).contains(k),
    ).map_values(|k: Seq<char>| added_contract(module, spec_path, k))
}

fn contract_id_exec(c: &BoundaryContract) -> (r: String)
    ensures
        r@ == contract_id(*c),
{
    match &c.name {
        Some(n) => owned(trim_str(n.as_str())),
        None => String::new(),
    }
}

fn contract_ids_of(cs: &Vec<BoundaryContract>) -> (r: Vec<String>)
    ensures
        views(r@) == contract_ids(cs@),
{
    let mut out: Vec<String> = Vec::new();
    let mut i: usize = 0;
    while i < cs.len()
        invariant
            i <= cs@.len(),
            views(out@) == contract_ids(cs@).take(i as int),
        decreases cs@.len() - i,
    {
        let k = contract_id_exec(&cs[i]);
        out.push(k);
        assert(contract_ids(cs@).take(i + 1) =~= contract_ids(cs@).take(i as int).push(contract_id(cs@[i as int])));
        assert(views(out@) =~= contract_ids(cs@).take(i + 1));
        i = i + 1;
    }
    assert(contract_ids(cs@).take(i as int) =~= contract_ids(cs@));
    out
}

fn contract_detail_exec(id: &str, suffix: &str) -> (r: String)
    ensures
        r@ == contract_detail(id@, suffix@),
{
    let mut d = owned("contract '");
    push_str(&mut d, id);
    push_str(&mut d, suffix);
    d
}

fn envelope_json_exec(e: EnvelopeRequirement) -> (r: &'static str)
    ensures
        r@ == envelope_json(e),
{
    match e {
        EnvelopeRequirement::Optional => "optional",
        EnvelopeRequirement::Required => "required",
    }
}

fn direction_json_exec(d: ContractDirection) -> (r: &'static str)
    ensures
        r@ == direction_json(d),
{
    match d {
        ContractDirection::Inbound => "inbound",
        ContractDirection::Outbound => "outbound",
        ContractDirection::Bidirectional => "bidirectional",
    }
}

fn trimmed_text_exec(s: &str) -> (r: Option<String>)
    ensures
        match r {
            Some(t) => trimmed_text(s@) == Some(t@),
            None => trimmed_text(s@) is None,
        },
{
    let t = trim_str(s);
    if t.unicode_len() > 0 {
        Some(owned(t))
    } else {
        None
    }
}

fn classify_contract_fields(
    module: &str,
    spec_path: &str,
    id: &str,
    b: &BoundaryContract,
    h: &BoundaryContract,
    changes: &mut Vec<FieldChange>,
)
    ensures
        field_change_models(final(changes)@) == field_change_models(old(changes)@) + contract_pair_changes(
            module@,
            spec_path@,
            id@,
            *b,
            *h,
        ),
{
    let ghost start = field_change_models(changes@);
    if b.envelope != h.envelope {
        let classification = match b.envelope {
            EnvelopeRequirement::Required => ChangeClassification::Widening,
            EnvelopeRequirement::Optional => ChangeClassification::Narrowing,
        };
        push_change(
            changes,
            &context(module, spec_path, ChangeScope::Contract, "boundaries.contracts.envelope"),
            classification,
            Some(JsonValue::text(owned(envelope_json_exec(b.envelope)))),
            Some(JsonValue::text(owned(envelope_json_exec(h.envelope)))),
            contract_detail_exec(id, "' envelope changed"),
        );
    }
    let ghost mid1 = field_change_models(changes@);
    if !str_eq(b.contract_match.pattern.as_str(), h.contract_match.pattern.as_str()) {
        let bp = trimmed_text_exec(b.contract_match.pattern.as_str());
        let hp = trimmed_text_exec(h.contract_match.pattern.as_str());
        let classification = if bp.is_none() && hp.is_some() {
            ChangeClassification::Widening
        } else if bp.is_some() && hp.is_none() {
            ChangeClassification::Narrowing
        } else {
            ChangeClassification::StructuralChange
        };
        push_change(
            changes,
            &context(module, spec_path, ChangeScope::ContractMatch, "boundaries.contracts.match.pattern"),
            classification,
            Some(opt_json(bp)),
            Some(opt_json(hp)),
            contract_detail_exec(id, "' match.pattern changed"),
        );
    }
    if b.direction != h.direction {
        push_change(
            changes,
            &context(module, spec_path, ChangeScope::Contract, "boundaries.contracts.direction"),
            ChangeClassification::StructuralChange,
            Some(JsonValue::text(owned(direction_json_exec(b.direction)))),
            Some(JsonValue::text(owned(direction_json_exec(h.direction)))),
            contract_detail_exec(id, "' direction changed (MVP structural)"),
        );
    }
    assert(field_change_models(changes@) =~= start + contract_pair_changes(module@, spec_path@, id@, *b, *h));
}

/// Classifies the changes of a module's contract list (see `contracts_changes`).
#[verifier::spinoff_prover]
#[verifier::rlimit(40)]
pub fn classify_contracts(
    module: &str,
    spec_path: &str,
    base: &Vec<BoundaryContract>,
    head: &Vec<BoundaryContract>,
    changes: &mut Vec<FieldChange>,
)
    ensures
        field_change_models(final(changes)@) == field_change_models(old(changes)@) + contracts_changes(
            module@,
            spec_path@,
            base@,
            head@,
        ),
{
    let ghost start = field_change_models(changes@);
    let base_keys = contract_ids_of(base);
    let head_keys = contract_ids_of(head);
    let bk = sorted_keys(&base_keys);
    let hk = sorted_keys(&head_keys);
    let ghost sbk = views(bk@);
    let ghost shk = views(hk@);
    let mut i: usize = 0;
    assert(start =~= start + matched_contract_changes(module@, spec_path@, sbk.take(0), base@, head@));
    while i < bk.len()
        invariant
            i <= bk@.len(),
            sbk == views(bk@),
            views(base_keys@) == contract_ids(base@),
            views(head_keys@) == contract_ids(head@),
            base_keys@.len() == base@.len(),
            head_keys@.len() == head@.len(),
            field_change_models(changes@) == start + matched_contract_changes(
                module@,
                spec_path@,
                sbk.take(i as int),
                base@,
                head@,
            ),
        decreases bk@.len() - i,
    {
        let key = bk[i].as_str();
        let ghost before = field_change_models(changes@);
        assert(sbk.take(i + 1).drop_last() =~= sbk.take(i as int));
        assert(sbk.take(i + 1).last() == key@);
        let bi = last_index_exec(&base_keys, key);
        let hi = last_index_exec(&head_keys, key);
        match (bi, hi) {
            (Some(x), Some(y)) => {
                classify_contract_fields(module, spec_path, key, &base[x], &head[y], changes);
            },
            _ => {
                assert(field_change_models(changes@) =~= before + Seq::empty());
            },
        }
        assert(field_change_models(changes@) =~= start + matched_contract_changes(
            module@,
            spec_path@,
            sbk.take(i + 1),
            base@,
            head@,
        ));
        i = i + 1;
    }
    assert(sbk.take(i as int) =~= sbk);
    let ghost s1 = field_change_models(changes@);
    let mut j: usize = 0;
    assert(s1 =~= s1 + sbk.take(0).filter(|k: Seq<char>| !contract_ids(head@).contains(k)).map_values(
        |k: Seq<char>| removed_contract(module@, spec_path@, k),
    ));
    while j < bk.len()
        invariant
            j <= bk@.len(),
            sbk == views(bk@),
            views(head_keys@) == contract_ids(head@),
            field_change_models(changes@) == s1 + sbk.take(j as int).filter(
                |k: Seq<char>| !contract_ids(head@).contains(k),
            ).map_values(|k: Seq<char>| removed_contract(module@, spec_path@, k)),
        decreases bk@.len() - j,
    {
        let key = bk[j].as_str();
        let ghost prevf = sbk.take(j as int).filter(|k: Seq<char>| !contract_ids(head@).contains(k));
        assert(sbk.take(j + 1).drop_last() =~= sbk.take(j as int));
        assert(sbk.take(j + 1).last() == key@);
        reveal(Seq::filter);
        if !strings_contain(&head_keys, key) {
            push_change(
                changes,
                &context(module, spec_path, ChangeScope::Contract, "boundaries.contracts"),
                ChangeClassification::Widening,
                Some(JsonValue::text(owned(key))),
                None,
                contract_detail_exec(key, "' removed"),
            );
            assert(sbk.take(j + 1).filter(|k: Seq<char>| !contract_ids(head@).contains(k)) =~= prevf.push(key@));
        } else {
            assert(sbk.take(j + 1).filter(|k: Seq<char>| !contract_ids(head@).contains(k)) =~= prevf);
        }
        assert(field_change_models(changes@) =~= s1 + sbk.take(j + 1).filter(
            |k: Seq<char>| !contract_ids(head@).contains(k),
        ).map_values(|k: Seq<char>| removed_contract(module@, spec_path@, k)));
        j = j + 1;
    }
    assert(sbk.take(j as int) =~= sbk);
    let ghost s2 = field_change_models(changes@);
    let mut q: usize = 0;
    assert(s2 =~= s2 + shk.take(0).filter(|k: Seq<char>| !contract_ids(base@).contains(k)).map_values(
        |k: Seq<char>| added_contract(module@, spec_path@, k),
    ));
    while q < hk.len()
        invariant
            q <= hk@.len(),
            shk == views(hk@),
            views(base_keys@) == contract_ids(base@),
            field_change_models(changes@) == s2 + shk.take(q as int).filter(
                |k: Seq<char>| !contract_ids(base@).contains(k),
            ).map_values(|k: Seq<char>| added_contract(module@, spec_path@, k)),
        decreases hk@.len() - q,
    {
        let key = hk[q].as_str();
        let ghost prevf = shk.take(q as int).filter(|k: Seq<char>| !contract_ids(base@).contains(k));
        assert(shk.take(q + 1).drop_last() =~= shk.take(q as int));
        assert(shk.take(q + 1).last() == key@);
        reveal(Seq::filter);
        if !strings_contain(&base_keys, key) {
            push_change(
                changes,
                &context(module, spec_path, ChangeScope::Contract, "boundaries.contracts"),
                ChangeClassification::Narrowing,
                None,
                Some(JsonValue::text(owned(key))),
                contract_detail_exec(key, "' added"),
            );
            assert(shk.take(q + 1).filter(|k: Seq<char>| !contract_ids(base@).contains(k)) =~= prevf.push(key@));
        } else {
            assert(shk.take(q + 1).filter(|k: Seq<char>| !contract_ids(base@).contains(k)) =~= prevf);
        }
        assert(field_change_models(changes@) =~= s2 + shk.take(q + 1).filter(
            |k: Seq<char>| !contract_ids(base@).contains(k),
        ).map_values(|k: Seq<char>| added_contract(module@, spec_path@, k)));
        q = q + 1;
    }
    assert(shk.take(q as int) =~= shk);
    assert(field_change_models(changes@) =~= start + contracts_changes(module@, spec_path@, base@, head@));
}

pub open spec fn ssite(module: Seq<char>, spec_path: Seq<char>, field: Seq<char>) -> ChangeSite {
    (module, spec_path, ChangeScope::SpecFile, field)
}

/// A structural change of a top-level field, when its value differs.
pub open spec fn structural_if_changed(site: ChangeSite, field: Seq<char>, before: JsonShape, after: JsonShape) -> Seq<
    FieldChangeModel,
> {
    if before == after {
        Seq::empty()
    } else {
        seq![(site, (ChangeClassification::StructuralChange, Some(before), Some(after), field + " changed"@))]
    }
}

pub open spec fn opt_string(o: Option<String>) -> Option<Seq<char>> {
    match o {
        Some(s) => Some(s@),
        None => None,
    }
}

/// Structural changes of the identity fields of a spec: version, module,
/// package, import ids and description.
pub open spec fn identity_changes(module: Seq<char>, spec_path: Seq<char>, b: SpecFile, h: SpecFile) -> Seq<
    FieldChangeModel,
> {
    structural_if_changed(
        ssite(module, spec_path, "version"@),
        "version"@,
        JsonShape::Text(b.version@),
        JsonShape::Text(h.version@),
    ) + structural_if_changed(
        ssite(module, spec_path, "module"@),
        "module"@,
        JsonShape::Text(b.module@),
        JsonShape::Text(h.module@),
    ) + structural_if_changed(
        ssite(module, spec_path, "package"@),
        "package"@,
        text_or_null(opt_string(b.package)),
        text_or_null(opt_string(h.package)),
    ) + structural_if_changed(
        ssite(module, spec_path, "import_id"@),
        "import_id"@,
        text_or_null(opt_string(b.import_id)),
        text_or_null(opt_string(h.import_id)),
    ) + (if norm(b.import_ids@) != norm(h.import_ids@) {
        seq![
            (ssite(module, spec_path, "import_ids"@), (
                ChangeClassification::StructuralChange,
                Some(JsonShape::Texts(norm(b.import_ids@))),
                Some(JsonShape::Texts(norm(h.import_ids@))),
                "import_ids changed"@,
            )),
        ]
    } else {
        Seq::empty()
    }) + structural_if_changed(
        ssite(module, spec_path, "description"@),
        "description"@,
        text_or_null(trimmed_opt(b.description)),
        text_or_null(trimmed_opt(h.description)),
    )
}

/// Changes between two versions of a spec: identity fields (structural),
/// boundaries and constraints.
pub open spec fn spec_fields_changes(
    module: Seq<char>,
    spec_path: Seq<char>,
    b: SpecFile,
    h: SpecFile,
    coverage: Option<(Result<Seq<Seq<char>>, Seq<char>>, Result<Seq<Seq<char>>, Seq<char>>)>,
) -> Seq<FieldChangeModel> {
    identity_changes(module, spec_path, b, h) + boundaries_changes(module, spec_path, b.boundaries, h.boundaries, coverage)
        + constraints_changes(module, spec_path, b.constraints@, h.constraints@)
}

fn push_structural_if_changed(
    changes: &mut Vec<FieldChange>,
    module: &str,
    spec_path: &str,
    field: &str,
    same: bool,
    before: JsonValue,
    after: JsonValue,
)
    requires
        same == (json_shape(before) == json_shape(after)),
    ensures
        field_change_models(final(changes)@) == field_change_models(old(changes)@) + structural_if_changed(
            ssite(module@, spec_path@, field@),
            field@,
            json_shape(before),
            json_shape(after),
        ),
{
    let ghost start = field_change_models(changes@);
    let ghost bs = json_shape(before);
    let ghost hs = json_shape(after);
    if !same {
        let mut detail = owned(field);
        push_str(&mut detail, " changed");
        push_change(
            changes,
            &context(module, spec_path, ChangeScope::SpecFile, field),
            ChangeClassification::StructuralChange,
            Some(before),
            Some(after),
            detail,
        );
    }
    assert(field_change_models(changes@) =~= start + structural_if_changed(
        ssite(module@, spec_path@, field@),
        field@,
        bs,
        hs,
    ));
}

fn clone_opt_string(o: &Option<String>) -> (r: Option<String>)
    ensures
        opt_string(r) == opt_string(*o),
{
    match o {
        Some(s) => Some(s.clone()),
        None => None,
    }
}

#[verifier::spinoff_prover]
#[verifier::rlimit(40)]
fn classify_identity_fields(
    spec_path: &str,
    module: &str,
    base: &SpecFile,
    head: &SpecFile,
    changes: &mut Vec<FieldChange>,
)
    ensures
        field_change_models(final(changes)@) == field_change_models(old(changes)@) + identity_changes(
            module@,
            spec_path@,
            *base,
            *head,
        ),
{
    let ghost start = field_change_models(changes@);
    push_structural_if_changed(
        changes,
        module,
        spec_path,
        "version",
        str_eq(base.version.as_str(), head.version.as_str()),
        JsonValue::text(base.version.clone()),
        JsonValue::text(head.version.clone()),
    );
    push_structural_if_changed(
        changes,
        module,
        spec_path,
        "module",
        str_eq(base.module.as_str(), head.module.as_str()),
        JsonValue::text(base.module.clone()),
        JsonValue::text(head.module.clone()),
    );
    push_structural_if_changed(
        changes,
        module,
        spec_path,
        "package",
        opt_str_equal(&base.package, &head.package),
        opt_json(clone_opt_string(&base.package)),
        opt_json(clone_opt_string(&head.package)),
    );
    push_structural_if_changed(
        changes,
        module,
        spec_path,
        "import_id",
        opt_str_equal(&base.import_id, &head.import_id),
        opt_json(clone_opt_string(&base.import_id)),
        opt_json(clone_opt_string(&head.import_id)),
    );
    let ghost s4 = field_change_models(changes@);
    let base_ids = normalized(&base.import_ids);
    let head_ids = normalized(&head.import_ids);
    if !strings_equal(&base_ids, &head_ids) {
        push_change(
            changes,
            &context(module, spec_path, ChangeScope::SpecFile, "import_ids"),
            ChangeClassification::StructuralChange,
            Some(JsonValue::texts(&base_ids)),
            Some(JsonValue::texts(&head_ids)),
            owned("import_ids changed"),
        );
    }
    let ghost s5 = field_change_models(changes@);
    let bd = trimmed_opt_exec(&base.description);
    let hd = trimmed_opt_exec(&head.description);
    let same_description = opt_str_equal(&bd, &hd);
    push_structural_if_changed(changes, module, spec_path, "description", same_description, opt_json(bd), opt_json(hd));
    assert(field_change_models(changes@) =~= start + identity_changes(module@, spec_path@, *base, *head));
}

#[verifier::spinoff_prover]
#[verifier::rlimit(40)]
fn classify_spec_fields(
    spec_path: &str,
    module: &str,
    base: &SpecFile,
    head: &SpecFile,
    coverage: Option<&PathCoverage>,
    changes: &mut Vec<FieldChange>,
)
    ensures
        field_change_models(final(changes)@) == field_change_models(old(changes)@) + spec_fields_changes(
            module@,
            spec_path@,
            *base,
            *head,
            coverage_view(coverage),
        ),
{
    let ghost start = field_change_models(changes@);
    classify_identity_fields(spec_path, module, base, head, changes);
    classify_boundaries(
        module,
        spec_path,
        match &base.boundaries {
            Some(b) => Some(b),
            None => None,
        },
        match &head.boundaries {
            Some(b) => Some(b),
            None => None,
        },
        coverage,
        changes,
    );
    classify_constraints(module, spec_path, &base.constraints, &head.constraints, changes);
    assert(field_change_models(changes@) =~= start + spec_fields_changes(
        module@,
        spec_path@,
        *base,
        *head,
        coverage_view(coverage),
    ));
}

/// A module id guessed from a spec path: without `.spec.yml` and leading
/// `modules/`.
pub open spec fn module_hint(spec_path: Seq<char>) -> Seq<char> {
    strip_all(strip_suffix_or_keep(spec_path, ".spec.yml"@), "modules/"@)
}

/// The module a diff is reported under: the head's, else the base's, else
/// the hint from the spec path.
pub open spec fn module_name_of(base: Option<SpecFile>, head: Option<SpecFile>, spec_path: Seq<char>) -> Seq<char> {
    match head {
        Some(h) => h.module@,
        None => match base {
            Some(b) => b.module@,
            None => module_hint(spec_path),
        },
    }
}

/// All changes of a spec file between two refs: a new file is structural, a
/// removed one widening, otherwise field by field.
pub open spec fn pair_changes(
    spec_path: Seq<char>,
    base: Option<SpecFile>,
    head: Option<SpecFile>,
    coverage: Option<(Result<Seq<Seq<char>>, Seq<char>>, Result<Seq<Seq<char>>, Seq<char>>)>,
) -> Seq<FieldChangeModel> {
    let module = module_name_of(base, head, spec_path);
    match (base, head) {
        (None, None) => Seq::empty(),
        (None, Some(h)) => seq![
            (ssite(module, spec_path, "spec_file"@), (
                ChangeClassification::StructuralChange,
                None,
                Some(JsonShape::Text(h.module@)),
                "new policy file"@,
            )),
        ],
        (Some(b), None) => seq![
            (ssite(module, spec_path, "spec_file"@), (
                ChangeClassification::Widening,
                Some(JsonShape::Text(b.module@)),
                None,
                "policy file removed"@,
            )),
        ],
        (Some(b), Some(h)) => spec_fields_changes(module, spec_path, b, h, coverage),
    }
}

/// The module diff for a spec file's changes.
pub open spec fn pair_diff_model(
    spec_path: Seq<char>,
    base: Option<SpecFile>,
    head: Option<SpecFile>,
    coverage: Option<(Result<Seq<Seq<char>>, Seq<char>>, Result<Seq<Seq<char>>, Seq<char>>)>,
) -> (Seq<char>, Seq<char>, Multiset<FieldChangeModel>) {
    (module_name_of(base, head, spec_path), spec_path, pair_changes(spec_path, base, head, coverage).to_multiset())
}

pub open spec fn opt_spec(o: Option<&SpecFile>) -> Option<SpecFile> {
    match o {
        Some(s) => Some(*s),
        None => None,
    }
}

/// What the classification of a spec file pair returns: nothing when it has
/// no changes, else its diff with the changes sorted.
pub open spec fn pair_result_ok(
    r: Option<ModulePolicyDiff>,
    spec_path: Seq<char>,
    base: Option<SpecFile>,
    head: Option<SpecFile>,
    coverage: Option<(Result<Seq<Seq<char>>, Seq<char>>, Result<Seq<Seq<char>>, Seq<char>>)>,
) -> bool {
    match r {
        None => pair_changes(spec_path, base, head, coverage).len() == 0,
        Some(d) => {
            &&& pair_changes(spec_path, base, head, coverage).len() > 0
            &&& diff_model(d) == pair_diff_model(spec_path, base, head, coverage)
            &&& sorted_by_key(d.changes@)
        },
    }
}

fn module_hint_from_spec_path(spec_path: &str) -> (r: String)
    ensures
        r@ == module_hint(spec_path@),
{
    proof {
        reveal_strlit("modules/");
    }
    owned(strip_all_exec(strip_suffix_or_keep_exec(spec_path, ".spec.yml"), "modules/"))
}

fn module_name(base: Option<&SpecFile>, head: Option<&SpecFile>, spec_path: &str) -> (r: String)
    ensures
        r@ == module_name_of(opt_spec(base), opt_spec(head), spec_path@),
{
    match head {
        Some(h) => h.module.clone(),
        None => match base {
            Some(b) => b.module.clone(),
            None => module_hint_from_spec_path(spec_path),
        },
    }
}

fn classify_spec_snapshot_pair_inner(
    spec_path: &str,
    base: Option<&SpecFile>,
    head: Option<&SpecFile>,
    coverage: Option<&PathCoverage>,
) -> (r: Option<ModulePolicyDiff>)
    ensures
        pair_result_ok(r, spec_path@, opt_spec(base), opt_spec(head), coverage_view(coverage)),
{
    let module = module_name(base, head, spec_path);
    let mut changes: Vec<FieldChange> = Vec::new();
    let ghost expected = pair_changes(spec_path@, opt_spec(base), opt_spec(head), coverage_view(coverage));
    match (base, head) {
        (None, None) => {
            return None;
        },
        (None, Some(h)) => {
            push_change(
                &mut changes,
                &context(module.as_str(), spec_path, ChangeScope::SpecFile, "spec_file"),
                ChangeClassification::StructuralChange,
                None,
                Some(JsonValue::text(h.module.clone())),
                owned("new policy file"),
            );
        },
        (Some(b), None) => {
            push_change(
                &mut changes,
                &context(module.as_str(), spec_path, ChangeScope::SpecFile, "spec_file"),
                ChangeClassification::Widening,
                Some(JsonValue::text(b.module.clone())),
                None,
                owned("policy file removed"),
            );
        },
        (Some(b), Some(h)) => {
            classify_spec_fields(spec_path, module.as_str(), b, h, coverage, &mut changes);
        },
    }
    assert(field_change_models(changes@) =~= expected);
    if changes.len() == 0 {
        return None;
    }
    let ghost unsorted = changes@;
    sort_field_changes_deterministic(&mut changes);
    proof {
        lemma_multiset_map(changes@, unsorted, |c: FieldChange| field_change_model(c));
    }
    Some(ModulePolicyDiff { module, spec_path: owned(spec_path), changes })
}

/// Classifies the changes of one spec file between two refs, without file
/// coverage for path changes.
pub fn classify_spec_snapshot_pair(spec_path: &str, base: Option<&SpecFile>, head: Option<&SpecFile>) -> (r: Option<
    ModulePolicyDiff,
>)
    ensures
        pair_result_ok(r, spec_path@, opt_spec(base), opt_spec(head), None),
{
    classify_spec_snapshot_pair_inner(spec_path, base, head, None)
}

/// Classifies the changes of one spec file between two refs, comparing the
/// file coverage of a changed boundary path over the given listings.
pub fn classify_spec_snapshot_pair_with_path_coverage(
    coverage: &PathCoverage,
    spec_path: &str,
    base: Option<&SpecFile>,
    head: Option<&SpecFile>,
) -> (r: Option<ModulePolicyDiff>)
    ensures
        pair_result_ok(r, spec_path@, opt_spec(base), opt_spec(head), coverage_view(Some(coverage))),
{
    classify_spec_snapshot_pair_inner(spec_path, base, head, Some(coverage))
}

/// The prefixes whose tracked files the path coverage of a spec pair needs.
pub fn coverage_prefixes(spec_path: &str, base: Option<&SpecFile>, head: Option<&SpecFile>) -> (r: Vec<String>)
    ensures
        strictly_sorted(views(r@)),
        views(r@).to_set() == candidate_prefixes(
            spec_path@,
            bpath(match opt_spec(base) { Some(s) => s.boundaries, None => None }),
            bpath(match opt_spec(head) { Some(s) => s.boundaries, None => None }),
        ),
{
    let bp = match base {
        Some(s) => match &s.boundaries {
            Some(b) => trimmed_opt_exec(&b.path),
            None => None,
        },
        None => None,
    };
    let hp = match head {
        Some(s) => match &s.boundaries {
            Some(b) => trimmed_opt_exec(&b.path),
            None => None,
        },
        None => None,
    };
    candidate_path_prefixes(spec_path, as_opt_str(&bp), as_opt_str(&hp))
}

/// Whether a spec file pair has any change (without path coverage).
pub open spec fn pair_has_changes(p: SpecSnapshotPair) -> bool {
    pair_changes(p.spec_path@, p.base_spec, p.head_spec, None).len() > 0
}

pub open spec fn snapshot_diff_model(p: SpecSnapshotPair) -> (Seq<char>, Seq<char>, Multiset<FieldChangeModel>) {
    pair_diff_model(p.spec_path@, p.base_spec, p.head_spec, None)
}

/// Classifies every spec file pair and sorts the diffs of those with
/// changes.
pub fn classify_spec_snapshot_pairs(pairs: &[SpecSnapshotPair]) -> (r: Vec<ModulePolicyDiff>)
    ensures
        sorted_by_key(r@),
        forall|i: int| 0 <= i < r@.len() ==> sorted_by_key(#[trigger] r@[i].changes@),
        r@.map_values(|d: ModulePolicyDiff| diff_model(d)).to_multiset() == pairs@.filter(
            |p: SpecSnapshotPair| pair_has_changes(p),
        ).map_values(|p: SpecSnapshotPair| snapshot_diff_model(p)).to_multiset(),
{
    let mut diffs: Vec<ModulePolicyDiff> = Vec::new();
    let mut i: usize = 0;
    while i < pairs.len()
        invariant
            i <= pairs@.len(),
            diffs@.map_values(|d: ModulePolicyDiff| diff_model(d)) == pairs@.take(i as int).filter(
                |p: SpecSnapshotPair| pair_has_changes(p),
            ).map_values(|p: SpecSnapshotPair| snapshot_diff_model(p)),
        decreases pairs@.len() - i,
    {
        let pair = &pairs[i];
        let ghost prev = diffs@.map_values(|d: ModulePolicyDiff| diff_model(d));
        let ghost prevf = pairs@.take(i as int).filter(|p: SpecSnapshotPair| pair_has_changes(p));
        assert(pairs@.take(i + 1).drop_last() =~= pairs@.take(i as int));
        assert(pairs@.take(i + 1).last() == pairs@[i as int]);
        reveal(Seq::filter);
        let base = match &pair.base_spec {
            Some(b) => Some(b),
            None => None,
        };
        let head = match &pair.head_spec {
            Some(h) => Some(h),
            None => None,
        };
        match classify_spec_snapshot_pair_inner(pair.spec_path.as_str(), base, head, None) {
            Some(d) => {
                diffs.push(d);
                assert(pairs@.take(i + 1).filter(|p: SpecSnapshotPair| pair_has_changes(p)) =~= prevf.push(
                    pairs@[i as int],
                ));
                assert(diffs@.map_values(|d: ModulePolicyDiff| diff_model(d)) =~= prev.push(
                    snapshot_diff_model(pairs@[i as int]),
                ));
            },
            None => {
                assert(pairs@.take(i + 1).filter(|p: SpecSnapshotPair| pair_has_changes(p)) =~= prevf);
            },
        }
        i = i + 1;
    }
    assert(pairs@.take(i as int) =~= pairs@);
    sort_module_policy_diffs_deterministic(&mut diffs);
    diffs
}

/// The classification and detail of a fail-closed operation on a spec file.
pub open spec fn fail_closed_change(op: FailClosedSpecOperation) -> (ChangeClassification, Seq<char>) {
    match op {
        FailClosedSpecOperation::Deletion { path } => (
            ChangeClassification::Widening,
            "deletion of policy file "@ + path@,
        ),
        FailClosedSpecOperation::RenameOrCopy { status, from_path, to_path, semantic_pairing } => {
            let head = "rename/copy of policy file "@ + from_path@ + " -> "@ + to_path@ + " ("@ + status@ + ")"@;
            match semantic_pairing {
                RenameCopySemanticPairing::Equivalent => (
                    ChangeClassification::StructuralChange,
                    head + " is semantically equivalent after normalization"@,
                ),
                RenameCopySemanticPairing::Different => (
                    ChangeClassification::Widening,
                    head + " changed policy semantics and is treated as widening-risk"@,
                ),
                _ => (
                    ChangeClassification::Widening,
                    head + " could not be semantically paired and is treated as widening-risk"@,
                ),
            }
        },
    }
}

/// The module diff a fail-closed operation is reported as: a deletion
/// widens; a rename or copy is structural only when its meaning is kept.
pub open spec fn fail_closed_diff_model(op: FailClosedSpecOperation) -> (Seq<char>, Seq<char>, Multiset<FieldChangeModel>) {
    let (path, before, after) = match op {
        FailClosedSpecOperation::Deletion { path } => (path@, Some(JsonShape::Text(path@)), None),
        FailClosedSpecOperation::RenameOrCopy { from_path, to_path, .. } => (
            to_path@,
            Some(JsonShape::Text(from_path@)),
            Some(JsonShape::Text(to_path@)),
        ),
    };
    let module = module_hint(path);
    let change = (
        (module, path, ChangeScope::SpecFile, "spec_file"@),
        (fail_closed_change(op).0, before, after, fail_closed_change(op).1),
    );
    (module, path, seq![change].to_multiset())
}

fn fail_closed_diff(op: &FailClosedSpecOperation) -> (r: ModulePolicyDiff)
    ensures
        diff_model(r) == fail_closed_diff_model(*op),
        sorted_by_key(r.changes@),
{
    let mut changes: Vec<FieldChange> = Vec::new();
    let (path, module) = match op {
        FailClosedSpecOperation::Deletion { path } => {
            let module = module_hint_from_spec_path(path.as_str());
            let mut detail = owned("deletion of policy file ");
            push_str(&mut detail, path.as_str());
            push_change(
                &mut changes,
                &context(module.as_str(), path.as_str(), ChangeScope::SpecFile, "spec_file"),
                ChangeClassification::Widening,
                Some(JsonValue::text(path.clone())),
                None,
                detail,
            );
            (path.clone(), module)
        },
        FailClosedSpecOperation::RenameOrCopy { status, from_path, to_path, semantic_pairing } => {
            let module = module_hint_from_spec_path(to_path.as_str());
            let mut detail = owned("rename/copy of policy file ");
            push_str(&mut detail, from_path.as_str());
            push_str(&mut detail, " -> ");
            push_str(&mut detail, to_path.as_str());
            push_str(&mut detail, " (");
            push_str(&mut detail, status.as_str());
            push_str(&mut detail, ")");
            let classification = match semantic_pairing {
                RenameCopySemanticPairing::Equivalent => {
                    push_str(&mut detail, " is semantically equivalent after normalization");
                    ChangeClassification::StructuralChange
                },
                RenameCopySemanticPairing::Different => {
                    push_str(&mut detail, " changed policy semantics and is treated as widening-risk");
                    ChangeClassification::Widening
                },
                _ => {
                    push_str(&mut detail, " could not be semantically paired and is treated as widening-risk");
                    ChangeClassification::Widening
                },
            };
            push_change(
                &mut changes,
                &context(module.as_str(), to_path.as_str(), ChangeScope::SpecFile, "spec_file"),
                classification,
                Some(JsonValue::text(from_path.clone())),
                Some(JsonValue::text(to_path.clone())),
                detail,
            );
            (to_path.clone(), module)
        },
    };
    let ghost m = field_change_models(changes@);
    assert(m.len() == 1);
    assert(m =~= seq![m[0]]);
    let r = ModulePolicyDiff { module, spec_path: path, changes };
    assert(diff_model(r) =~~= fail_closed_diff_model(*op));
    r
}

/// Turns fail-closed spec operations into module diffs, sorted.
pub fn classify_fail_closed_operations(ops: &[FailClosedSpecOperation]) -> (r: Vec<ModulePolicyDiff>)
    ensures
        sorted_by_key(r@),
        forall|i: int| 0 <= i < r@.len() ==> sorted_by_key(#[trigger] r@[i].changes@),
        r@.map_values(|d: ModulePolicyDiff| diff_model(d)).to_multiset() == ops@.map_values(
            |op: FailClosedSpecOperation| fail_closed_diff_model(op),
        ).to_multiset(),
{
    let mut diffs: Vec<ModulePolicyDiff> = Vec::new();
    let mut i: usize = 0;
    while i < ops.len()
        invariant
            i <= ops@.len(),
            diffs@.map_values(|d: ModulePolicyDiff| diff_model(d)) == ops@.take(i as int).map_values(
                |op: FailClosedSpecOperation| fail_closed_diff_model(op),
            ),
        decreases ops@.len() - i,
    {
        let d = fail_closed_diff(&ops[i]);
        diffs.push(d);
        assert(ops@.take(i + 1).map_values(|op: FailClosedSpecOperation| fail_closed_diff_model(op)) =~= ops@.take(
            i as int,
        ).map_values(|op: FailClosedSpecOperation| fail_closed_diff_model(op)).push(fail_closed_diff_model(ops@[i as int])));
        assert(diffs@.map_values(|d: ModulePolicyDiff| diff_model(d)) =~= ops@.take(i + 1).map_values(
            |op: FailClosedSpecOperation| fail_closed_diff_model(op),
        ));
        i = i + 1;
    }
    assert(ops@.take(i as int) =~= ops@);
    sort_module_policy_diffs_deterministic(&mut diffs);
    diffs
}

/// `a` is more open than `b`: public modules are the most open, private ones
/// the least.
pub open spec fn more_open(a: Visibility, b: Visibility) -> bool {
    (a == Visibility::Public && b != Visibility::Public) || (a == Visibility::Internal && b
        == Visibility::Private)
}

proof fn lemma_concat_contains<A>(a: Seq<A>, b: Seq<A>, x: A)
    ensures
        (a.contains(x) || b.contains(x)) ==> (a + b).contains(x),
{
    if a.contains(x) {
        let i = choose|i: int| 0 <= i < a.len() && a[i] == x;
        assert((a + b)[i] == x);
    } else if b.contains(x) {
        let i = choose|i: int| 0 <= i < b.len() && b[i] == x;
        assert((a + b)[a.len() + i] == x);
    }
}

/// A visibility change between two refs is reported on
/// `boundaries.visibility` as narrowing when the module becomes less open
/// (public to internal or private, internal to private) and as widening when
/// it becomes more open, with the visibilities before and after.
pub proof fn law_visibility_change_direction(
    spec_path: Seq<char>,
    b: SpecFile,
    h: SpecFile,
    bb: Boundaries,
    hb: Boundaries,
    before: Visibility,
    after: Visibility,
    coverage: Option<(Result<Seq<Seq<char>>, Seq<char>>, Result<Seq<Seq<char>>, Seq<char>>)>,
)
    requires
        b.boundaries == Some(bb),
        h.boundaries == Some(hb),
        bb.visibility == Some(before),
        hb.visibility == Some(after),
        before != after,
    ensures
        pair_changes(spec_path, Some(b), Some(h), coverage).contains(
            (
                (h.module@, spec_path, ChangeScope::Boundaries, "boundaries.visibility"@),
                (
                    if more_open(before, after) {
                        ChangeClassification::Narrowing
                    } else {
                        ChangeClassification::Widening
                    },
                    Some(JsonShape::Text(visibility_json(before))),
                    Some(JsonShape::Text(visibility_json(after))),
                    "visibility changed: "@ + visibility_name(before) + " -> "@ + visibility_name(after),
                ),
            ),
        ),
{
    let module = h.module@;
    let site = bsite(module, spec_path, "boundaries.visibility"@);
    let elem = (
        site,
        (
            if more_open(before, after) {
                ChangeClassification::Narrowing
            } else {
                ChangeClassification::Widening
            },
            Some(JsonShape::Text(visibility_json(before))),
            Some(JsonShape::Text(visibility_json(after))),
            "visibility changed: "@ + visibility_name(before) + " -> "@ + visibility_name(after),
        ),
    );
    let v = visibility_changes(site, bvisibility(b.boundaries), bvisibility(h.boundaries));
    assert(v[0] == elem);
    assert(v.contains(elem));
    let x = set_field_changes(
        bsite(module, spec_path, "boundaries.allow_type_imports_from"@),
        bvec(b.boundaries, |q: Boundaries| q.allow_type_imports_from@),
        bvec(h.boundaries, |q: Boundaries| q.allow_type_imports_from@),
        ChangeClassification::Widening,
        ChangeClassification::Narrowing,
        false,
    );
    let y = allow_imported_by_changes(
        bsite(module, spec_path, "boundaries.allow_imported_by"@),
        bvec(b.boundaries, |q: Boundaries| q.allow_imported_by@),
        bvec(h.boundaries, |q: Boundaries| q.allow_imported_by@),
    );
    let z = set_field_changes(
        bsite(module, spec_path, "boundaries.deny_imported_by"@),
        bvec(b.boundaries, |q: Boundaries| q.deny_imported_by@),
        bvec(h.boundaries, |q: Boundaries| q.deny_imported_by@),
        ChangeClassification::Narrowing,
        ChangeClassification::Widening,
        false,
    );
    lemma_concat_contains(x, v, elem);
    lemma_concat_contains(x + v, y, elem);
    lemma_concat_contains(x + v + y, z, elem);
    let bsb = boundaries_changes_b(module, spec_path, b.boundaries, h.boundaries);
    assert(bsb == x + v + y + z);
    let ba = boundaries_changes_a(module, spec_path, b.boundaries, h.boundaries, coverage);
    let bc = boundaries_changes_c(module, spec_path, b.boundaries, h.boundaries);
    let bd = contracts_changes(module, spec_path, bcontracts(b.boundaries), bcontracts(h.boundaries));
    lemma_concat_contains(ba, bsb, elem);
    lemma_concat_contains(ba + bsb, bc, elem);
    lemma_concat_contains(ba + bsb + bc, bd, elem);
    let all_b = boundaries_changes(module, spec_path, b.boundaries, h.boundaries, coverage);
    assert(all_b == ba + bsb + bc + bd);
    let ids = identity_changes(module, spec_path, b, h);
    let cons = constraints_changes(module, spec_path, b.constraints@, h.constraints@);
    lemma_concat_contains(ids, all_b, elem);
    lemma_concat_contains(ids + all_b, cons, elem);
    assert(module_name_of(Some(b), Some(h), spec_path) == module);
    assert(pair_changes(spec_path, Some(b), Some(h), coverage) == ids + all_b + cons);
}


/// Some change in the list is on `field`, classified `class`, with a detail
/// that starts with `detail_start`.
pub open spec fn reports(
    changes: Seq<FieldChangeModel>,
    field: Seq<char>,
    class: ChangeClassification,
    detail_start: Seq<char>,
) -> bool {
    exists|k: int|
        0 <= k < changes.len() && (#[trigger] changes[k]).0.3 == field && changes[k].1.0 == class && has_prefix(
            changes[k].1.3,
            detail_start,
        )
}

proof fn lemma_reports_concat(
    a: Seq<FieldChangeModel>,
    b: Seq<FieldChangeModel>,
    field: Seq<char>,
    class: ChangeClassification,
    d: Seq<char>,
)
    ensures
        (reports(a, field, class, d) || reports(b, field, class, d)) ==> reports(a + b, field, class, d),
{
    if reports(a, field, class, d) {
        let k = choose|k: int|
            0 <= k < a.len() && (#[trigger] a[k]).0.3 == field && a[k].1.0 == class && has_prefix(a[k].1.3, d);
        assert((a + b)[k] == a[k]);
    } else if reports(b, field, class, d) {
        let k = choose|k: int|
            0 <= k < b.len() && (#[trigger] b[k]).0.3 == field && b[k].1.0 == class && has_prefix(b[k].1.3, d);
        assert((a + b)[a.len() + k] == b[k]);
    }
}

proof fn lemma_prefixed(p: Seq<char>, rest: Seq<char>)
    ensures
        has_prefix(p + rest, p),
{
    assert((p + rest).subrange(0, p.len() as int) =~= p);
}

proof fn lemma_set_field_reports(
    site: ChangeSite,
    base: Seq<String>,
    head: Seq<String>,
    added: ChangeClassification,
    removed: ChangeClassification,
    reorder_structural: bool,
    x: Seq<char>,
)
    ensures
        norm(head).contains(x) && !norm(base).contains(x) ==> reports(
            set_field_changes(site, base, head, added, removed, reorder_structural),
            site.3,
            added,
            "added "@,
        ),
        norm(base).contains(x) && !norm(head).contains(x) ==> reports(
            set_field_changes(site, base, head, added, removed, reorder_structural),
            site.3,
            removed,
            "removed "@,
        ),
{
    let nb = norm(base);
    let nh = norm(head);
    let additions = nh.filter(|y: Seq<char>| !nb.contains(y));
    let removals = nb.filter(|y: Seq<char>| !nh.contains(y));
    let d = set_delta(site, nb, nh, added, removed);
    if nh.contains(x) && !nb.contains(x) {
        let i = choose|i: int| 0 <= i < nh.len() && nh[i] == x;
        nh.lemma_filter_contains(|y: Seq<char>| !nb.contains(y), i);
        assert(additions.len() > 0);
        lemma_prefixed("added "@, join_text(additions, ", "@));
        assert(d[0].0.3 == site.3 && d[0].1.0 == added && has_prefix(d[0].1.3, "added "@));
        assert(set_field_changes(site, base, head, added, removed, reorder_structural) == d);
    }
    if nb.contains(x) && !nh.contains(x) {
        let i = choose|i: int| 0 <= i < nb.len() && nb[i] == x;
        nb.lemma_filter_contains(|y: Seq<char>| !nh.contains(y), i);
        assert(removals.len() > 0);
        lemma_prefixed("removed "@, join_text(removals, ", "@));
        let k: int = if additions.len() > 0 { 1 } else { 0 };
        assert(d[k].0.3 == site.3 && d[k].1.0 == removed && has_prefix(d[k].1.3, "removed "@));
        assert(set_field_changes(site, base, head, added, removed, reorder_structural) == d);
    }
}

proof fn lemma_flag_reports(
    site: ChangeSite,
    before: bool,
    after: bool,
    true_to_false: ChangeClassification,
    false_to_true: ChangeClassification,
)
    ensures
        !before && after ==> reports(
            bool_polarity_changes(site, before, after, true_to_false, false_to_true),
            site.3,
            false_to_true,
            "false -> true"@,
        ),
        before && !after ==> reports(
            bool_polarity_changes(site, before, after, true_to_false, false_to_true),
            site.3,
            true_to_false,
            "true -> false"@,
        ),
{
    reveal_strlit("false -> true");
    reveal_strlit("true -> false");
    reveal_strlit("false");
    reveal_strlit("true");
    reveal_strlit(" -> ");
    let c = bool_polarity_changes(site, before, after, true_to_false, false_to_true);
    if before != after {
        assert(c[0].1.3 =~= bool_text(before) + " -> "@ + bool_text(after));
        if before {
            assert(c[0].1.3 =~= "true -> false"@);
        } else {
            assert(c[0].1.3 =~= "false -> true"@);
        }
        lemma_prefixed(c[0].1.3, Seq::empty());
        assert(c[0].1.3 + Seq::<char>::empty() =~= c[0].1.3);
    }
}

proof fn lemma_reports_in_pair(
    spec_path: Seq<char>,
    b: SpecFile,
    h: SpecFile,
    coverage: Option<(Result<Seq<Seq<char>>, Seq<char>>, Result<Seq<Seq<char>>, Seq<char>>)>,
    field: Seq<char>,
    class: ChangeClassification,
    d: Seq<char>,
)
    ensures
        ({
            let module = h.module@;
            reports(boundaries_changes_a(module, spec_path, b.boundaries, h.boundaries, coverage), field, class, d)
                || reports(boundaries_changes_b(module, spec_path, b.boundaries, h.boundaries), field, class, d)
                || reports(boundaries_changes_c(module, spec_path, b.boundaries, h.boundaries), field, class, d)
        }) ==> reports(pair_changes(spec_path, Some(b), Some(h), coverage), field, class, d),
{
    let module = h.module@;
    let ba = boundaries_changes_a(module, spec_path, b.boundaries, h.boundaries, coverage);
    let bb = boundaries_changes_b(module, spec_path, b.boundaries, h.boundaries);
    let bc = boundaries_changes_c(module, spec_path, b.boundaries, h.boundaries);
    let bd = contracts_changes(module, spec_path, bcontracts(b.boundaries), bcontracts(h.boundaries));
    lemma_reports_concat(ba, bb, field, class, d);
    lemma_reports_concat(ba + bb, bc, field, class, d);
    lemma_reports_concat(ba + bb + bc, bd, field, class, d);
    let all_b = boundaries_changes(module, spec_path, b.boundaries, h.boundaries, coverage);
    assert(all_b == ba + bb + bc + bd);
    let ids = identity_changes(module, spec_path, b, h);
    let cons = constraints_changes(module, spec_path, b.constraints@, h.constraints@);
    lemma_reports_concat(ids, all_b, field, class, d);
    lemma_reports_concat(ids + all_b, cons, field, class, d);
    assert(module_name_of(Some(b), Some(h), spec_path) == module);
    assert(pair_changes(spec_path, Some(b), Some(h), coverage) == ids + all_b + cons);
}

proof fn lemma_reports_in_part_a(
    module: Seq<char>,
    spec_path: Seq<char>,
    base: Option<Boundaries>,
    head: Option<Boundaries>,
    coverage: Option<(Result<Seq<Seq<char>>, Seq<char>>, Result<Seq<Seq<char>>, Seq<char>>)>,
    field: Seq<char>,
    class: ChangeClassification,
    d: Seq<char>,
)
    ensures
        reports(path_changes(bsite(module, spec_path, "boundaries.path"@), bpath(base), bpath(head), path_change_result(spec_path, bpath(base), bpath(head), coverage)), field, class, d) ==> reports(boundaries_changes_a(module, spec_path, base, head, coverage), field, class, d),
        reports(set_field_changes(bsite(module, spec_path, "boundaries.public_api"@), bvec(base, |q: Boundaries| q.public_api@), bvec(head, |q: Boundaries| q.public_api@), ChangeClassification::Widening, ChangeClassification::Narrowing, true), field, class, d) ==> reports(boundaries_changes_a(module, spec_path, base, head, coverage), field, class, d),
        reports(allow_imports_from_changes(bsite(module, spec_path, "boundaries.allow_imports_from"@), ballow_from(base), ballow_from(head)), field, class, d) ==> reports(boundaries_changes_a(module, spec_path, base, head, coverage), field, class, d),
        reports(set_field_changes(bsite(module, spec_path, "boundaries.never_imports"@), bvec(base, |q: Boundaries| q.never_imports@), bvec(head, |q: Boundaries| q.never_imports@), ChangeClassification::Narrowing, ChangeClassification::Widening, false), field, class, d) ==> reports(boundaries_changes_a(module, spec_path, base, head, coverage), field, class, d),
{
    let t0 = path_changes(bsite(module, spec_path, "boundaries.path"@), bpath(base), bpath(head), path_change_result(spec_path, bpath(base), bpath(head), coverage));
    let t1 = set_field_changes(bsite(module, spec_path, "boundaries.public_api"@), bvec(base, |q: Boundaries| q.public_api@), bvec(head, |q: Boundaries| q.public_api@), ChangeClassification::Widening, ChangeClassification::Narrowing, true);
    let t2 = allow_imports_from_changes(bsite(module, spec_path, "boundaries.allow_imports_from"@), ballow_from(base), ballow_from(head));
    let t3 = set_field_changes(bsite(module, spec_path, "boundaries.never_imports"@), bvec(base, |q: Boundaries| q.never_imports@), bvec(head, |q: Boundaries| q.never_imports@), ChangeClassification::Narrowing, ChangeClassification::Widening, false);
    lemma_reports_concat(t0, t1, field, class, d);
    lemma_reports_concat(t0 + t1, t2, field, class, d);
    lemma_reports_concat(t0 + t1 + t2, t3, field, class, d);
    assert(boundaries_changes_a(module, spec_path, base, head, coverage) == t0 + t1 + t2 + t3);
}

proof fn lemma_reports_in_part_b(
    module: Seq<char>,
    spec_path: Seq<char>,
    base: Option<Boundaries>,
    head: Option<Boundaries>,
    field: Seq<char>,
    class: ChangeClassification,
    d: Seq<char>,
)
    ensures
        reports(set_field_changes(bsite(module, spec_path, "boundaries.allow_type_imports_from"@), bvec(base, |q: Boundaries| q.allow_type_imports_from@), bvec(head, |q: Boundaries| q.allow_type_imports_from@), ChangeClassification::Widening, ChangeClassification::Narrowing, false), field, class, d) ==> reports(boundaries_changes_b(module, spec_path, base, head), field, class, d),
        reports(visibility_changes(bsite(module, spec_path, "boundaries.visibility"@), bvisibility(base), bvisibility(head)), field, class, d) ==> reports(boundaries_changes_b(module, spec_path, base, head), field, class, d),
        reports(allow_imported_by_changes(bsite(module, spec_path, "boundaries.allow_imported_by"@), bvec(base, |q: Boundaries| q.allow_imported_by@), bvec(head, |q: Boundaries| q.allow_imported_by@)), field, class, d) ==> reports(boundaries_changes_b(module, spec_path, base, head), field, class, d),
        reports(set_field_changes(bsite(module, spec_path, "boundaries.deny_imported_by"@), bvec(base, |q: Boundaries| q.deny_imported_by@), bvec(head, |q: Boundaries| q.deny_imported_by@), ChangeClassification::Narrowing, ChangeClassification::Widening, false), field, class, d) ==> reports(boundaries_changes_b(module, spec_path, base, head), field, class, d),
{
    let t0 = set_field_changes(bsite(module, spec_path, "boundaries.allow_type_imports_from"@), bvec(base, |q: Boundaries| q.allow_type_imports_from@), bvec(head, |q: Boundaries| q.allow_type_imports_from@), ChangeClassification::Widening, ChangeClassification::Narrowing, false);
    let t1 = visibility_changes(bsite(module, spec_path, "boundaries.visibility"@), bvisibility(base), bvisibility(head));
    let t2 = allow_imported_by_changes(bsite(module, spec_path, "boundaries.allow_imported_by"@), bvec(base, |q: Boundaries| q.allow_imported_by@), bvec(head, |q: Boundaries| q.allow_imported_by@));
    let t3 = set_field_changes(bsite(module, spec_path, "boundaries.deny_imported_by"@), bvec(base, |q: Boundaries| q.deny_imported_by@), bvec(head, |q: Boundaries| q.deny_imported_by@), ChangeClassification::Narrowing, ChangeClassification::Widening, false);
    lemma_reports_concat(t0, t1, field, class, d);
    lemma_reports_concat(t0 + t1, t2, field, class, d);
    lemma_reports_concat(t0 + t1 + t2, t3, field, class, d);
    assert(boundaries_changes_b(module, spec_path, base, head) == t0 + t1 + t2 + t3);
}

proof fn lemma_reports_in_part_c(
    module: Seq<char>,
    spec_path: Seq<char>,
    base: Option<Boundaries>,
    head: Option<Boundaries>,
    field: Seq<char>,
    class: ChangeClassification,
    d: Seq<char>,
)
    ensures
        reports(set_field_changes(bsite(module, spec_path, "boundaries.friend_modules"@), bvec(base, |q: Boundaries| q.friend_modules@), bvec(head, |q: Boundaries| q.friend_modules@), ChangeClassification::Widening, ChangeClassification::Narrowing, false), field, class, d) ==> reports(boundaries_changes_c(module, spec_path, base, head), field, class, d),
        reports(bool_polarity_changes(bsite(module, spec_path, "boundaries.enforce_canonical_imports"@), bflag(base, |q: Boundaries| q.enforce_canonical_imports), bflag(head, |q: Boundaries| q.enforce_canonical_imports), ChangeClassification::Widening, ChangeClassification::Narrowing), field, class, d) ==> reports(boundaries_changes_c(module, spec_path, base, head), field, class, d),
        reports(set_field_changes(bsite(module, spec_path, "boundaries.allowed_dependencies"@), bvec(base, |q: Boundaries| q.allowed_dependencies@), bvec(head, |q: Boundaries| q.allowed_dependencies@), ChangeClassification::Widening, ChangeClassification::Narrowing, false), field, class, d) ==> reports(boundaries_changes_c(module, spec_path, base, head), field, class, d),
        reports(set_field_changes(bsite(module, spec_path, "boundaries.forbidden_dependencies"@), bvec(base, |q: Boundaries| q.forbidden_dependencies@), bvec(head, |q: Boundaries| q.forbidden_dependencies@), ChangeClassification::Narrowing, ChangeClassification::Widening, false), field, class, d) ==> reports(boundaries_changes_c(module, spec_path, base, head), field, class, d),
        reports(bool_polarity_changes(bsite(module, spec_path, "boundaries.enforce_in_tests"@), bflag(base, |q: Boundaries| q.enforce_in_tests), bflag(head, |q: Boundaries| q.enforce_in_tests), ChangeClassification::Widening, ChangeClassification::Narrowing), field, class, d) ==> reports(boundaries_changes_c(module, spec_path, base, head), field, class, d),
{
    let t0 = set_field_changes(bsite(module, spec_path, "boundaries.friend_modules"@), bvec(base, |q: Boundaries| q.friend_modules@), bvec(head, |q: Boundaries| q.friend_modules@), ChangeClassification::Widening, ChangeClassification::Narrowing, false);
    let t1 = bool_polarity_changes(bsite(module, spec_path, "boundaries.enforce_canonical_imports"@), bflag(base, |q: Boundaries| q.enforce_canonical_imports), bflag(head, |q: Boundaries| q.enforce_canonical_imports), ChangeClassification::Widening, ChangeClassification::Narrowing);
    let t2 = set_field_changes(bsite(module, spec_path, "boundaries.allowed_dependencies"@), bvec(base, |q: Boundaries| q.allowed_dependencies@), bvec(head, |q: Boundaries| q.allowed_dependencies@), ChangeClassification::Widening, ChangeClassification::Narrowing, false);
    let t3 = set_field_changes(bsite(module, spec_path, "boundaries.forbidden_dependencies"@), bvec(base, |q: Boundaries| q.forbidden_dependencies@), bvec(head, |q: Boundaries| q.forbidden_dependencies@), ChangeClassification::Narrowing, ChangeClassification::Widening, false);
    let t4 = bool_polarity_changes(bsite(module, spec_path, "boundaries.enforce_in_tests"@), bflag(base, |q: Boundaries| q.enforce_in_tests), bflag(head, |q: Boundaries| q.enforce_in_tests), ChangeClassification::Widening, ChangeClassification::Narrowing);
    lemma_reports_concat(t0, t1, field, class, d);
    lemma_reports_concat(t0 + t1, t2, field, class, d);
    lemma_reports_concat(t0 + t1 + t2, t3, field, class, d);
    lemma_reports_concat(t0 + t1 + t2 + t3, t4, field, class, d);
    assert(boundaries_changes_c(module, spec_path, base, head) == t0 + t1 + t2 + t3 + t4);
}

/// Adding an entry to `boundaries.public_api` between two refs widens the
/// policy; removing one narrows it (entries compared trimmed, without
/// empties or duplicates).
pub proof fn law_public_api_entry_direction(
    spec_path: Seq<char>,
    b: SpecFile,
    h: SpecFile,
    bb: Boundaries,
    hb: Boundaries,
    coverage: Option<(Result<Seq<Seq<char>>, Seq<char>>, Result<Seq<Seq<char>>, Seq<char>>)>,
    x: Seq<char>,
)
    requires
        b.boundaries == Some(bb),
        h.boundaries == Some(hb),
    ensures
        norm(hb.public_api@).contains(x) && !norm(bb.public_api@).contains(x) ==> reports(
            pair_changes(spec_path, Some(b), Some(h), coverage),
            "boundaries.public_api"@,
            ChangeClassification::Widening,
            "added "@,
        ),
        norm(bb.public_api@).contains(x) && !norm(hb.public_api@).contains(x) ==> reports(
            pair_changes(spec_path, Some(b), Some(h), coverage),
            "boundaries.public_api"@,
            ChangeClassification::Narrowing,
            "removed "@,
        ),
{
    let module = h.module@;
    lemma_set_field_reports(
        bsite(module, spec_path, "boundaries.public_api"@),
        bb.public_api@,
        hb.public_api@,
        ChangeClassification::Widening,
        ChangeClassification::Narrowing,
        true,
        x,
    );
    assert(bvec(b.boundaries, |q: Boundaries| q.public_api@) == bb.public_api@);
    assert(bvec(h.boundaries, |q: Boundaries| q.public_api@) == hb.public_api@);
    lemma_reports_in_part_a(module, spec_path, b.boundaries, h.boundaries, coverage, "boundaries.public_api"@, ChangeClassification::Widening, "added "@);
    lemma_reports_in_pair(spec_path, b, h, coverage, "boundaries.public_api"@, ChangeClassification::Widening, "added "@);
    lemma_reports_in_part_a(module, spec_path, b.boundaries, h.boundaries, coverage, "boundaries.public_api"@, ChangeClassification::Narrowing, "removed "@);
    lemma_reports_in_pair(spec_path, b, h, coverage, "boundaries.public_api"@, ChangeClassification::Narrowing, "removed "@);
}

/// Adding an entry to `boundaries.never_imports` between two refs narrows the
/// policy; removing one widens it (entries compared trimmed, without
/// empties or duplicates).
pub proof fn law_never_imports_entry_direction(
    spec_path: Seq<char>,
    b: SpecFile,
    h: SpecFile,
    bb: Boundaries,
    hb: Boundaries,
    coverage: Option<(Result<Seq<Seq<char>>, Seq<char>>, Result<Seq<Seq<char>>, Seq<char>>)>,
    x: Seq<char>,
)
    requires
        b.boundaries == Some(bb),
        h.boundaries == Some(hb),
    ensures
        norm(hb.never_imports@).contains(x) && !norm(bb.never_imports@).contains(x) ==> reports(
            pair_changes(spec_path, Some(b), Some(h), coverage),
            "boundaries.never_imports"@,
            ChangeClassification::Narrowing,
            "added "@,
        ),
        norm(bb.never_imports@).contains(x) && !norm(hb.never_imports@).contains(x) ==> reports(
            pair_changes(spec_path, Some(b), Some(h), coverage),
            "boundaries.never_imports"@,
            ChangeClassification::Widening,
            "removed "@,
        ),
{
    let module = h.module@;
    lemma_set_field_reports(
        bsite(module, spec_path, "boundaries.never_imports"@),
        bb.never_imports@,
        hb.never_imports@,
        ChangeClassification::Narrowing,
        ChangeClassification::Widening,
        false,
        x,
    );
    assert(bvec(b.boundaries, |q: Boundaries| q.never_imports@) == bb.never_imports@);
    assert(bvec(h.boundaries, |q: Boundaries| q.never_imports@) == hb.never_imports@);
    lemma_reports_in_part_a(module, spec_path, b.boundaries, h.boundaries, coverage, "boundaries.never_imports"@, ChangeClassification::Narrowing, "added "@);
    lemma_reports_in_pair(spec_path, b, h, coverage, "boundaries.never_imports"@, ChangeClassification::Narrowing, "added "@);
    lemma_reports_in_part_a(module, spec_path, b.boundaries, h.boundaries, coverage, "boundaries.never_imports"@, ChangeClassification::Widening, "removed "@);
    lemma_reports_in_pair(spec_path, b, h, coverage, "boundaries.never_imports"@, ChangeClassification::Widening, "removed "@);
}

/// Adding an entry to `boundaries.allow_type_imports_from` between two refs widens the
/// policy; removing one narrows it (entries compared trimmed, without
/// empties or duplicates).
pub proof fn law_allow_type_imports_from_entry_direction(
    spec_path: Seq<char>,
    b: SpecFile,
    h: SpecFile,
    bb: Boundaries,
    hb: Boundaries,
    coverage: Option<(Result<Seq<Seq<char>>, Seq<char>>, Result<Seq<Seq<char>>, Seq<char>>)>,
    x: Seq<char>,
)
    requires
        b.boundaries == Some(bb),
        h.boundaries == Some(hb),
    ensures
        norm(hb.allow_type_imports_from@).contains(x) && !norm(bb.allow_type_imports_from@).contains(x) ==> reports(
            pair_changes(spec_path, Some(b), Some(h), coverage),
            "boundaries.allow_type_imports_from"@,
            ChangeClassification::Widening,
            "added "@,
        ),
        norm(bb.allow_type_imports_from@).contains(x) && !norm(hb.allow_type_imports_from@).contains(x) ==> reports(
            pair_changes(spec_path, Some(b), Some(h), coverage),
            "boundaries.allow_type_imports_from"@,
            ChangeClassification::Narrowing,
            "removed "@,
        ),
{
    let module = h.module@;
    lemma_set_field_reports(
        bsite(module, spec_path, "boundaries.allow_type_imports_from"@),
        bb.allow_type_imports_from@,
        hb.allow_type_imports_from@,
        ChangeClassification::Widening,
        ChangeClassification::Narrowing,
        false,
        x,
    );
    assert(bvec(b.boundaries, |q: Boundaries| q.allow_type_imports_from@) == bb.allow_type_imports_from@);
    assert(bvec(h.boundaries, |q: Boundaries| q.allow_type_imports_from@) == hb.allow_type_imports_from@);
    lemma_reports_in_part_b(module, spec_path, b.boundaries, h.boundaries, "boundaries.allow_type_imports_from"@, ChangeClassification::Widening, "added "@);
    lemma_reports_in_pair(spec_path, b, h, coverage, "boundaries.allow_type_imports_from"@, ChangeClassification::Widening, "added "@);
    lemma_reports_in_part_b(module, spec_path, b.boundaries, h.boundaries, "boundaries.allow_type_imports_from"@, ChangeClassification::Narrowing, "removed "@);
    lemma_reports_in_pair(spec_path, b, h, coverage, "boundaries.allow_type_imports_from"@, ChangeClassification::Narrowing, "removed "@);
}

/// Adding an entry to `boundaries.deny_imported_by` between two refs narrows the
/// policy; removing one widens it (entries compared trimmed, without
/// empties or duplicates).
pub proof fn law_deny_imported_by_entry_direction(
    spec_path: Seq<char>,
    b: SpecFile,
    h: SpecFile,
    bb: Boundaries,
    hb: Boundaries,
    coverage: Option<(Result<Seq<Seq<char>>, Seq<char>>, Result<Seq<Seq<char>>, Seq<char>>)>,
    x: Seq<char>,
)
    requires
        b.boundaries == Some(bb),
        h.boundaries == Some(hb),
    ensures
        norm(hb.deny_imported_by@).contains(x) && !norm(bb.deny_imported_by@).contains(x) ==> reports(
            pair_changes(spec_path, Some(b), Some(h), coverage),
            "boundaries.deny_imported_by"@,
            ChangeClassification::Narrowing,
            "added "@,
        ),
        norm(bb.deny_imported_by@).contains(x) && !norm(hb.deny_imported_by@).contains(x) ==> reports(
            pair_changes(spec_path, Some(b), Some(h), coverage),
            "boundaries.deny_imported_by"@,
            ChangeClassification::Widening,
            "removed "@,
        ),
{
    let module = h.module@;
    lemma_set_field_reports(
        bsite(module, spec_path, "boundaries.deny_imported_by"@),
        bb.deny_imported_by@,
        hb.deny_imported_by@,
        ChangeClassification::Narrowing,
        ChangeClassification::Widening,
        false,
        x,
    );
    assert(bvec(b.boundaries, |q: Boundaries| q.deny_imported_by@) == bb.deny_imported_by@);
    assert(bvec(h.boundaries, |q: Boundaries| q.deny_imported_by@) == hb.deny_imported_by@);
    lemma_reports_in_part_b(module, spec_path, b.boundaries, h.boundaries, "boundaries.deny_imported_by"@, ChangeClassification::Narrowing, "added "@);
    lemma_reports_in_pair(spec_path, b, h, coverage, "boundaries.deny_imported_by"@, ChangeClassification::Narrowing, "added "@);
    lemma_reports_in_part_b(module, spec_path, b.boundaries, h.boundaries, "boundaries.deny_imported_by"@, ChangeClassification::Widening, "removed "@);
    lemma_reports_in_pair(spec_path, b, h, coverage, "boundaries.deny_imported_by"@, ChangeClassification::Widening, "removed "@);
}

/// Adding an entry to `boundaries.friend_modules` between two refs widens the
/// policy; removing one narrows it (entries compared trimmed, without
/// empties or duplicates).
pub proof fn law_friend_modules_entry_direction(
    spec_path: Seq<char>,
    b: SpecFile,
    h: SpecFile,
    bb: Boundaries,
    hb: Boundaries,
    coverage: Option<(Result<Seq<Seq<char>>, Seq<char>>, Result<Seq<Seq<char>>, Seq<char>>)>,
    x: Seq<char>,
)
    requires
        b.boundaries == Some(bb),
        h.boundaries == Some(hb),
    ensures
        norm(hb.friend_modules@).contains(x) && !norm(bb.friend_modules@).contains(x) ==> reports(
            pair_changes(spec_path, Some(b), Some(h), coverage),
            "boundaries.friend_modules"@,
            ChangeClassification::Widening,
            "added "@,
        ),
        norm(bb.friend_modules@).contains(x) && !norm(hb.friend_modules@).contains(x) ==> reports(
            pair_changes(spec_path, Some(b), Some(h), coverage),
            "boundaries.friend_modules"@,
            ChangeClassification::Narrowing,
            "removed "@,
        ),
{
    let module = h.module@;
    lemma_set_field_reports(
        bsite(module, spec_path, "boundaries.friend_modules"@),
        bb.friend_modules@,
        hb.friend_modules@,
        ChangeClassification::Widening,
        ChangeClassification::Narrowing,
        false,
        x,
    );
    assert(bvec(b.boundaries, |q: Boundaries| q.friend_modules@) == bb.friend_modules@);
    assert(bvec(h.boundaries, |q: Boundaries| q.friend_modules@) == hb.friend_modules@);
    lemma_reports_in_part_c(module, spec_path, b.boundaries, h.boundaries, "boundaries.friend_modules"@, ChangeClassification::Widening, "added "@);
    lemma_reports_in_pair(spec_path, b, h, coverage, "boundaries.friend_modules"@, ChangeClassification::Widening, "added "@);
    lemma_reports_in_part_c(module, spec_path, b.boundaries, h.boundaries, "boundaries.friend_modules"@, ChangeClassification::Narrowing, "removed "@);
    lemma_reports_in_pair(spec_path, b, h, coverage, "boundaries.friend_modules"@, ChangeClassification::Narrowing, "removed "@);
}

/// Turning `boundaries.enforce_canonical_imports` on between two refs is reported as narrowing
/// (`false -> true`), turning it off as widening (`true -> false`).
pub proof fn law_enforce_canonical_imports_flag_direction(
    spec_path: Seq<char>,
    b: SpecFile,
    h: SpecFile,
    bb: Boundaries,
    hb: Boundaries,
    coverage: Option<(Result<Seq<Seq<char>>, Seq<char>>, Result<Seq<Seq<char>>, Seq<char>>)>,
)
    requires
        b.boundaries == Some(bb),
        h.boundaries == Some(hb),
    ensures
        !bb.enforce_canonical_imports && hb.enforce_canonical_imports ==> reports(
            pair_changes(spec_path, Some(b), Some(h), coverage),
            "boundaries.enforce_canonical_imports"@,
            ChangeClassification::Narrowing,
            "false -> true"@,
        ),
        bb.enforce_canonical_imports && !hb.enforce_canonical_imports ==> reports(
            pair_changes(spec_path, Some(b), Some(h), coverage),
            "boundaries.enforce_canonical_imports"@,
            ChangeClassification::Widening,
            "true -> false"@,
        ),
{
    let module = h.module@;
    lemma_flag_reports(
        bsite(module, spec_path, "boundaries.enforce_canonical_imports"@),
        bb.enforce_canonical_imports,
        hb.enforce_canonical_imports,
        ChangeClassification::Widening,
        ChangeClassification::Narrowing,
    );
    lemma_reports_in_part_c(module, spec_path, b.boundaries, h.boundaries, "boundaries.enforce_canonical_imports"@, ChangeClassification::Narrowing, "false -> true"@);
    lemma_reports_in_pair(spec_path, b, h, coverage, "boundaries.enforce_canonical_imports"@, ChangeClassification::Narrowing, "false -> true"@);
    lemma_reports_in_part_c(module, spec_path, b.boundaries, h.boundaries, "boundaries.enforce_canonical_imports"@, ChangeClassification::Widening, "true -> false"@);
    lemma_reports_in_pair(spec_path, b, h, coverage, "boundaries.enforce_canonical_imports"@, ChangeClassification::Widening, "true -> false"@);
}

/// Adding an entry to `boundaries.allowed_dependencies` between two refs widens the
/// policy; removing one narrows it (entries compared trimmed, without
/// empties or duplicates).
pub proof fn law_allowed_dependencies_entry_direction(
    spec_path: Seq<char>,
    b: SpecFile,
    h: SpecFile,
    bb: Boundaries,
    hb: Boundaries,
    coverage: Option<(Result<Seq<Seq<char>>, Seq<char>>, Result<Seq<Seq<char>>, Seq<char>>)>,
    x: Seq<char>,
)
    requires
        b.boundaries == Some(bb),
        h.boundaries == Some(hb),
    ensures
        norm(hb.allowed_dependencies@).contains(x) && !norm(bb.allowed_dependencies@).contains(x) ==> reports(
            pair_changes(spec_path, Some(b), Some(h), coverage),
            "boundaries.allowed_dependencies"@,
            ChangeClassification::Widening,
            "added "@,
        ),
        norm(bb.allowed_dependencies@).contains(x) && !norm(hb.allowed_dependencies@).contains(x) ==> reports(
            pair_changes(spec_path, Some(b), Some(h), coverage),
            "boundaries.allowed_dependencies"@,
            ChangeClassification::Narrowing,
            "removed "@,
        ),
{
    let module = h.module@;
    lemma_set_field_reports(
        bsite(module, spec_path, "boundaries.allowed_dependencies"@),
        bb.allowed_dependencies@,
        hb.allowed_dependencies@,
        ChangeClassification::Widening,
        ChangeClassification::Narrowing,
        false,
        x,
    );
    assert(bvec(b.boundaries, |q: Boundaries| q.allowed_dependencies@) == bb.allowed_dependencies@);
    assert(bvec(h.boundaries, |q: Boundaries| q.allowed_dependencies@) == hb.allowed_dependencies@);
    lemma_reports_in_part_c(module, spec_path, b.boundaries, h.boundaries, "boundaries.allowed_dependencies"@, ChangeClassification::Widening, "added "@);
    lemma_reports_in_pair(spec_path, b, h, coverage, "boundaries.allowed_dependencies"@, ChangeClassification::Widening, "added "@);
    lemma_reports_in_part_c(module, spec_path, b.boundaries, h.boundaries, "boundaries.allowed_dependencies"@, ChangeClassification::Narrowing, "removed "@);
    lemma_reports_in_pair(spec_path, b, h, coverage, "boundaries.allowed_dependencies"@, ChangeClassification::Narrowing, "removed "@);
}

/// Adding an entry to `boundaries.forbidden_dependencies` between two refs narrows the
/// policy; removing one widens it (entries compared trimmed, without
/// empties or duplicates).
pub proof fn law_forbidden_dependencies_entry_direction(
    spec_path: Seq<char>,
    b: SpecFile,
    h: SpecFile,
    bb: Boundaries,
    hb: Boundaries,
    coverage: Option<(Result<Seq<Seq<char>>, Seq<char>>, Result<Seq<Seq<char>>, Seq<char>>)>,
    x: Seq<char>,
)
    requires
        b.boundaries == Some(bb),
        h.boundaries == Some(hb),
    ensures
        norm(hb.forbidden_dependencies@).contains(x) && !norm(bb.forbidden_dependencies@).contains(x) ==> reports(
            pair_changes(spec_path, Some(b), Some(h), coverage),
            "boundaries.forbidden_dependencies"@,
            ChangeClassification::Narrowing,
            "added "@,
        ),
        norm(bb.forbidden_dependencies@).contains(x) && !norm(hb.forbidden_dependencies@).contains(x) ==> reports(
            pair_changes(spec_path, Some(b), Some(h), coverage),
            "boundaries.forbidden_dependencies"@,
            ChangeClassification::Widening,
            "removed "@,
        ),
{
    let module = h.module@;
    lemma_set_field_reports(
        bsite(module, spec_path, "boundaries.forbidden_dependencies"@),
        bb.forbidden_dependencies@,
        hb.forbidden_dependencies@,
        ChangeClassification::Narrowing,
        ChangeClassification::Widening,
        false,
        x,
    );
    assert(bvec(b.boundaries, |q: Boundaries| q.forbidden_dependencies@) == bb.forbidden_dependencies@);
    assert(bvec(h.boundaries, |q: Boundaries| q.forbidden_dependencies@) == hb.forbidden_dependencies@);
    lemma_reports_in_part_c(module, spec_path, b.boundaries, h.boundaries, "boundaries.forbidden_dependencies"@, ChangeClassification::Narrowing, "added "@);
    lemma_reports_in_pair(spec_path, b, h, coverage, "boundaries.forbidden_dependencies"@, ChangeClassification::Narrowing, "added "@);
    lemma_reports_in_part_c(module, spec_path, b.boundaries, h.boundaries, "boundaries.forbidden_dependencies"@, ChangeClassification::Widening, "removed "@);
    lemma_reports_in_pair(spec_path, b, h, coverage, "boundaries.forbidden_dependencies"@, ChangeClassification::Widening, "removed "@);
}

/// Turning `boundaries.enforce_in_tests` on between two refs is reported as narrowing
/// (`false -> true`), turning it off as widening (`true -> false`).
pub proof fn law_enforce_in_tests_flag_direction(
    spec_path: Seq<char>,
    b: SpecFile,
    h: SpecFile,
    bb: Boundaries,
    hb: Boundaries,
    coverage: Option<(Result<Seq<Seq<char>>, Seq<char>>, Result<Seq<Seq<char>>, Seq<char>>)>,
)
    requires
        b.boundaries == Some(bb),
        h.boundaries == Some(hb),
    ensures
        !bb.enforce_in_tests && hb.enforce_in_tests ==> reports(
            pair_changes(spec_path, Some(b), Some(h), coverage),
            "boundaries.enforce_in_tests"@,
            ChangeClassification::Narrowing,
            "false -> true"@,
        ),
        bb.enforce_in_tests && !hb.enforce_in_tests ==> reports(
            pair_changes(spec_path, Some(b), Some(h), coverage),
            "boundaries.enforce_in_tests"@,
            ChangeClassification::Widening,
            "true -> false"@,
        ),
{
    let module = h.module@;
    lemma_flag_reports(
        bsite(module, spec_path, "boundaries.enforce_in_tests"@),
        bb.enforce_in_tests,
        hb.enforce_in_tests,
        ChangeClassification::Widening,
        ChangeClassification::Narrowing,
    );
    lemma_reports_in_part_c(module, spec_path, b.boundaries, h.boundaries, "boundaries.enforce_in_tests"@, ChangeClassification::Narrowing, "false -> true"@);
    lemma_reports_in_pair(spec_path, b, h, coverage, "boundaries.enforce_in_tests"@, ChangeClassification::Narrowing, "false -> true"@);
    lemma_reports_in_part_c(module, spec_path, b.boundaries, h.boundaries, "boundaries.enforce_in_tests"@, ChangeClassification::Widening, "true -> false"@);
    lemma_reports_in_pair(spec_path, b, h, coverage, "boundaries.enforce_in_tests"@, ChangeClassification::Widening, "true -> false"@);
}

/// Dropping the import allowlist (`allow_imports_from`) between two refs
/// widens the policy, introducing one narrows it.
pub proof fn law_allow_imports_from_restriction_direction(
    spec_path: Seq<char>,
    b: SpecFile,
    h: SpecFile,
    bb: Boundaries,
    hb: Boundaries,
    coverage: Option<(Result<Seq<Seq<char>>, Seq<char>>, Result<Seq<Seq<char>>, Seq<char>>)>,
)
    requires
        b.boundaries == Some(bb),
        h.boundaries == Some(hb),
    ensures
        bb.allow_imports_from is Some && hb.allow_imports_from is None ==> reports(
            pair_changes(spec_path, Some(b), Some(h), coverage),
            "boundaries.allow_imports_from"@,
            ChangeClassification::Widening,
            "allow_imports_from restricted -> unrestricted"@,
        ),
        bb.allow_imports_from is None && hb.allow_imports_from is Some ==> reports(
            pair_changes(spec_path, Some(b), Some(h), coverage),
            "boundaries.allow_imports_from"@,
            ChangeClassification::Narrowing,
            "allow_imports_from unrestricted -> restricted"@,
        ),
{
    let module = h.module@;
    let site = bsite(module, spec_path, "boundaries.allow_imports_from"@);
    let c = allow_imports_from_changes(site, ballow_from(b.boundaries), ballow_from(h.boundaries));
    if c.len() > 0 {
        lemma_prefixed(c[0].1.3, Seq::empty());
        assert(c[0].1.3 + Seq::<char>::empty() =~= c[0].1.3);
    }
    lemma_reports_in_part_a(module, spec_path, b.boundaries, h.boundaries, coverage, "boundaries.allow_imports_from"@, ChangeClassification::Widening, "allow_imports_from restricted -> unrestricted"@);
    lemma_reports_in_pair(spec_path, b, h, coverage, "boundaries.allow_imports_from"@, ChangeClassification::Widening, "allow_imports_from restricted -> unrestricted"@);
    lemma_reports_in_part_a(module, spec_path, b.boundaries, h.boundaries, coverage, "boundaries.allow_imports_from"@, ChangeClassification::Narrowing, "allow_imports_from unrestricted -> restricted"@);
    lemma_reports_in_pair(spec_path, b, h, coverage, "boundaries.allow_imports_from"@, ChangeClassification::Narrowing, "allow_imports_from unrestricted -> restricted"@);
}

/// Emptying the importer allowlist (`allow_imported_by`) between two refs
/// widens the policy, filling an empty one narrows it.
pub proof fn law_allow_imported_by_restriction_direction(
    spec_path: Seq<char>,
    b: SpecFile,
    h: SpecFile,
    bb: Boundaries,
    hb: Boundaries,
    coverage: Option<(Result<Seq<Seq<char>>, Seq<char>>, Result<Seq<Seq<char>>, Seq<char>>)>,
)
    requires
        b.boundaries == Some(bb),
        h.boundaries == Some(hb),
    ensures
        norm(bb.allow_imported_by@).len() > 0 && norm(hb.allow_imported_by@).len() == 0 ==> reports(
            pair_changes(spec_path, Some(b), Some(h), coverage),
            "boundaries.allow_imported_by"@,
            ChangeClassification::Widening,
            "allow_imported_by restricted -> unrestricted"@,
        ),
        norm(bb.allow_imported_by@).len() == 0 && norm(hb.allow_imported_by@).len() > 0 ==> reports(
            pair_changes(spec_path, Some(b), Some(h), coverage),
            "boundaries.allow_imported_by"@,
            ChangeClassification::Narrowing,
            "allow_imported_by unrestricted -> restricted"@,
        ),
{
    let module = h.module@;
    let site = bsite(module, spec_path, "boundaries.allow_imported_by"@);
    assert(bvec(b.boundaries, |q: Boundaries| q.allow_imported_by@) == bb.allow_imported_by@);
    assert(bvec(h.boundaries, |q: Boundaries| q.allow_imported_by@) == hb.allow_imported_by@);
    let c = allow_imported_by_changes(site, bb.allow_imported_by@, hb.allow_imported_by@);
    if c.len() > 0 {
        lemma_prefixed(c[0].1.3, Seq::empty());
        assert(c[0].1.3 + Seq::<char>::empty() =~= c[0].1.3);
    }
    lemma_reports_in_part_b(module, spec_path, b.boundaries, h.boundaries, "boundaries.allow_imported_by"@, ChangeClassification::Widening, "allow_imported_by restricted -> unrestricted"@);
    lemma_reports_in_pair(spec_path, b, h, coverage, "boundaries.allow_imported_by"@, ChangeClassification::Widening, "allow_imported_by restricted -> unrestricted"@);
    lemma_reports_in_part_b(module, spec_path, b.boundaries, h.boundaries, "boundaries.allow_imported_by"@, ChangeClassification::Narrowing, "allow_imported_by unrestricted -> restricted"@);
    lemma_reports_in_pair(spec_path, b, h, coverage, "boundaries.allow_imported_by"@, ChangeClassification::Narrowing, "allow_imported_by unrestricted -> restricted"@);
}

} // verus!
