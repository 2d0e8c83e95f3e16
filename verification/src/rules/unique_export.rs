//! Unique-export rule: configuration and report types.
use vstd::prelude::*;

use crate::graph::{DependencyGraph, FileAnalysis, ReExportInfo};
use crate::jsontext::{canonical_json, render_canonical_json};
use crate::order::{lemma_multiset_map, lemma_push_contains, sort_by_key, sorted_by_key, lemma_seq_order_facts, path_compare, path_order, then, KeyOrdered};
use crate::paths::repo_relative;
use crate::spec::types::{member_lookup, Constraint, JsonValue, SpecFile};
use crate::paths::{normalize_repo_relative, strings_contain};
use crate::strset::{
    lemma_sorted_seq_of, pair_insert, pair_views, pairs_strictly_sorted, set_insert, sorted_seq_of, strictly_sorted,
};
use crate::text::{
    decimal, decimal_string, join_text, join_text_exec, owned, push_str, seq_order, str_eq, str_order, trim, trim_str, views,
};

verus! {

/// Canonical rule id for the unique-export enforcement constraint.
pub const UNIQUE_EXPORT_RULE_ID: &'static str = "boundary.unique_export";

/// Parsed configuration for a `boundary.unique_export` constraint.
#[derive(Debug, Clone, PartialEq, Eq)]
pub struct UniqueExportConfig {
    /// Specific export names to guard. Empty means guard all exports.
    pub exports: Vec<String>,
}

/// A violation emitted by the unique-export rule.
#[derive(Debug, Clone, PartialEq, Eq)]
pub struct UniqueExportViolation {
    pub module: String,
    pub export_name: String,
    pub files: Vec<String>,
    pub message: String,
    pub fix_hint: String,
}

/// Config issues found during rule setup.
#[derive(Debug, Clone, PartialEq, Eq)]
pub struct UniqueExportConfigIssue {
    pub module: String,
    pub message: String,
}

/// Full report from the unique-export rule evaluation.
#[derive(Debug, Clone, PartialEq, Eq)]
pub struct UniqueExportReport {
    pub violations: Vec<UniqueExportViolation>,
    pub config_issues: Vec<UniqueExportConfigIssue>,
}

impl UniqueExportReport {
    /// No violations and no configuration issues.
    pub fn is_clean(&self) -> (r: bool)
        ensures
            r == (self.violations@.len() == 0 && self.config_issues@.len() == 0),
    {
        self.violations.len() == 0 && self.config_issues.len() == 0
    }
}

/// Parse error for unique-export constraint params.
#[derive(Debug, Clone, PartialEq, Eq)]
pub struct UniqueExportConfigParseError {
    pub message: String,
}

/// The names of a `boundary.unique_export` `exports` list, trimmed; an error
/// at the first item that is not a string or is blank.
pub open spec fn parse_export_names(items: Seq<JsonValue>) -> Result<Seq<Seq<char>>, Seq<char>>
    decreases items.len(),
{
    if items.len() == 0 {
        Ok(Seq::empty())
    } else {
        match parse_export_names(items.drop_last()) {
            Err(e) => Err(e),
            Ok(names) => match items.last() {
                JsonValue::Str(s) => if trim(s@).len() == 0 {
                    Err("params.exports for rule 'boundary.unique_export' cannot contain empty names"@)
                } else {
                    Ok(names.push(trim(s@)))
                },
                _ => Err("params.exports for rule 'boundary.unique_export' must contain only strings"@),
            },
        }
    }
}

/// What `boundary.unique_export` parameters configure: the guarded export
/// names (none: every export), or the error message.
pub open spec fn parse_unique_export(params: JsonValue) -> Result<Seq<Seq<char>>, Seq<char>> {
    match params {
        JsonValue::Object(m) => match member_lookup(m@, "exports"@) {
            None => Ok(Seq::empty()),
            Some(JsonValue::Array(items)) => parse_export_names(items@),
            Some(_) => Err("params.exports for rule 'boundary.unique_export' must be an array of strings"@),
        },
        _ => Err("params for rule 'boundary.unique_export' must be an object"@),
    }
}

pub open spec fn unique_export_parse_model(r: Result<UniqueExportConfig, UniqueExportConfigParseError>) -> Result<
    Seq<Seq<char>>,
    Seq<char>,
> {
    match r {
        Ok(c) => Ok(views(c.exports@)),
        Err(e) => Err(e.message@),
    }
}

fn parse_error(message: &str) -> (r: UniqueExportConfigParseError)
    ensures
        r.message@ == message@,
{
    UniqueExportConfigParseError { message: owned(message) }
}

/// Parses a `boundary.unique_export` constraint's params: `{}` guards every
/// export of the module, `{ "exports": [..] }` only the listed names.
pub fn parse_unique_export_config(params: &JsonValue) -> (r: Result<UniqueExportConfig, UniqueExportConfigParseError>)
    ensures
        unique_export_parse_model(r) == parse_unique_export(*params),
{
    let members = match params {
        JsonValue::Object(m) => m,
        _ => {
            return Err(parse_error("params for rule 'boundary.unique_export' must be an object"));
        },
    };
    let exports_value = match params.get("exports") {
        None => {
            let exports: Vec<String> = Vec::new();
            assert(views(exports@) =~= Seq::<Seq<char>>::empty());
            return Ok(UniqueExportConfig { exports });
        },
        Some(v) => v,
    };
    let items = match exports_value {
        JsonValue::Array(items) => items,
        _ => {
            return Err(parse_error("params.exports for rule 'boundary.unique_export' must be an array of strings"));
        },
    };
    let mut exports: Vec<String> = Vec::new();
    let mut i: usize = 0;
    assert(items@.take(0) =~= Seq::<JsonValue>::empty());
    assert(views(exports@) =~= Seq::<Seq<char>>::empty());
    assert(parse_unique_export(*params) == parse_export_names(items@));
    while i < items.len()
        invariant
            i <= items@.len(),
            parse_unique_export(*params) == parse_export_names(items@),
            parse_export_names(items@.take(i as int)) == Ok::<Seq<Seq<char>>, Seq<char>>(views(exports@)),
        decreases items@.len() - i,
    {
        assert(items@.take(i + 1).drop_last() =~= items@.take(i as int));
        assert(items@.take(i + 1).last() == items@[i as int]);
        match &items[i] {
            JsonValue::Str(name) => {
                let trimmed = trim_str(name.as_str());
                if trimmed.unicode_len() == 0 {
                    proof {
                        lemma_parse_names_error_sticks(items@, i as int + 1);
                    }
                    return Err(
                        parse_error("params.exports for rule 'boundary.unique_export' cannot contain empty names"),
                    );
                }
                let ghost before = views(exports@);
                exports.push(owned(trimmed));
                assert(views(exports@) =~= before.push(trimmed@));
            },
            _ => {
                proof {
                    lemma_parse_names_error_sticks(items@, i as int + 1);
                }
                return Err(parse_error("params.exports for rule 'boundary.unique_export' must contain only strings"));
            },
        }
        i = i + 1;
    }
    assert(items@.take(i as int) =~= items@);
    Ok(UniqueExportConfig { exports })
}

/// An error among the first `k` items is the error of the whole list.
proof fn lemma_parse_names_error_sticks(items: Seq<JsonValue>, k: int)
    requires
        0 <= k <= items.len(),
        parse_export_names(items.take(k)) is Err,
    ensures
        parse_export_names(items) == parse_export_names(items.take(k)),
    decreases items.len() - k,
{
    if k < items.len() {
        assert(items.take(k + 1).drop_last() =~= items.take(k));
        lemma_parse_names_error_sticks(items, k + 1);
    } else {
        assert(items.take(k) =~= items);
    }
}

/// Whether a named, non-star re-export among `rs` exports `name`.
pub open spec fn re_export_provides(rs: Seq<ReExportInfo>, name: Seq<char>) -> bool {
    exists|k: int| 0 <= k < rs.len() && !(#[trigger] rs[k]).is_star && views(rs[k].names@).contains(name)
}

/// Whether a file exports `name`: as a named export (its default export
/// does not count) or by a named re-export.
pub open spec fn file_provides(f: FileAnalysis, name: Seq<char>) -> bool {
    (name != "__default"@ && views(f.exports@).contains(name)) || re_export_provides(f.re_exports@, name)
}

/// Whether a configuration guards `name`: it lists it, or lists nothing.
pub open spec fn guarded(guard: Seq<Seq<char>>, name: Seq<char>) -> bool {
    guard.len() == 0 || guard.contains(name)
}

/// The guarded names a file exports.
pub open spec fn file_names(f: FileAnalysis, guard: Seq<Seq<char>>) -> Set<Seq<char>> {
    Set::new(|n: Seq<char>| guarded(guard, n) && file_provides(f, n))
}

/// Whether a file of the graph belongs to `module`.
pub open spec fn in_module(graph: DependencyGraph, module: Seq<char>, f: FileAnalysis) -> bool {
    graph.module_of(f.path@) == Some(module)
}

/// The guarded names the files of `module` among `files` export.
pub open spec fn module_names(graph: DependencyGraph, module: Seq<char>, files: Seq<FileAnalysis>, guard: Seq<Seq<char>>) -> Set<
    Seq<char>,
>
    decreases files.len(),
{
    if files.len() == 0 {
        Set::empty()
    } else {
        let rest = module_names(graph, module, files.drop_last(), guard);
        if in_module(graph, module, files.last()) {
            rest.union(file_names(files.last(), guard))
        } else {
            rest
        }
    }
}

/// Inserts a path into a list sorted in path order, unless a path with the
/// same components is already there.
pub open spec fn insert_path(s: Seq<Seq<char>>, p: Seq<char>) -> Seq<Seq<char>>
    decreases s.len(),
{
    if s.len() == 0 {
        seq![p]
    } else if path_order(s[0], p) == 0 {
        s
    } else if path_order(s[0], p) > 0 {
        seq![p] + s
    } else {
        seq![s[0]] + insert_path(s.drop_first(), p)
    }
}

/// The files of `module` among `files` that export `name`, sorted in path
/// order, the first of equal paths kept.
pub open spec fn providing_paths(graph: DependencyGraph, module: Seq<char>, files: Seq<FileAnalysis>, name: Seq<char>) -> Seq<
    Seq<char>,
>
    decreases files.len(),
{
    if files.len() == 0 {
        Seq::empty()
    } else {
        let rest = providing_paths(graph, module, files.drop_last(), name);
        if in_module(graph, module, files.last()) && file_provides(files.last(), name) {
            insert_path(rest, files.last().path@)
        } else {
            rest
        }
    }
}

/// A violation as plain values: module, export name, files, message, hint.
pub type UniqueViolationModel = (Seq<char>, Seq<char>, Seq<Seq<char>>, Seq<char>, Seq<char>);

pub open spec fn unique_violation_model(v: UniqueExportViolation) -> UniqueViolationModel {
    (v.module@, v.export_name@, views(v.files@), v.message@, v.fix_hint@)
}

pub open spec fn unique_violation_models(v: Seq<UniqueExportViolation>) -> Seq<UniqueViolationModel> {
    v.map_values(|x: UniqueExportViolation| unique_violation_model(x))
}

pub open spec fn duplicate_message(root: Seq<char>, module: Seq<char>, name: Seq<char>, files: Seq<Seq<char>>) -> Seq<char> {
    "duplicate export '"@ + name + "' in module '"@ + module + "' found in "@ + decimal(files.len()) + " files: "@
        + join_text(files.map_values(|f: Seq<char>| repo_relative(root, f)), ", "@)
}

pub open spec fn duplicate_fix_hint(module: Seq<char>, name: Seq<char>) -> Seq<char> {
    "Remove or rename the duplicate export '"@ + name + "' so each export name is unique within module '"@ + module
        + "'."@
}

/// The violations for the names, in order: a name exported by two or more
/// files of the module.
pub open spec fn names_violations(
    root: Seq<char>,
    graph: DependencyGraph,
    module: Seq<char>,
    names: Seq<Seq<char>>,
) -> Seq<UniqueViolationModel>
    decreases names.len(),
{
    if names.len() == 0 {
        Seq::empty()
    } else {
        let rest = names_violations(root, graph, module, names.drop_last());
        let name = names.last();
        let files = providing_paths(graph, module, graph.file_analyses@, name);
        if files.len() >= 2 {
            rest.push(
                (module, name, files, duplicate_message(root, module, name, files), duplicate_fix_hint(module, name)),
            )
        } else {
            rest
        }
    }
}

/// The violations of one configuration of `module`, by export name.
pub open spec fn config_violations(root: Seq<char>, graph: DependencyGraph, module: Seq<char>, guard: Seq<Seq<char>>) -> Seq<
    UniqueViolationModel,
> {
    names_violations(root, graph, module, sorted_seq_of(module_names(graph, module, graph.file_analyses@, guard)))
}

/// A configured constraint: module, canonical text of its params, index of
/// its spec, index of the constraint in the spec.
pub type ConstraintEntry = (Seq<char>, Seq<char>, int, int);

/// By module, then params text.
pub open spec fn entry_order(a: ConstraintEntry, b: ConstraintEntry) -> int {
    then(seq_order(a.0, b.0), seq_order(a.1, b.1))
}

/// Inserts an entry into a list sorted by module and params text, unless one
/// with the same module and text is already there.
pub open spec fn insert_entry(s: Seq<ConstraintEntry>, e: ConstraintEntry) -> Seq<ConstraintEntry>
    decreases s.len(),
{
    if s.len() == 0 {
        seq![e]
    } else if entry_order(s[0], e) == 0 {
        s
    } else if entry_order(s[0], e) > 0 {
        seq![e] + s
    } else {
        seq![s[0]] + insert_entry(s.drop_first(), e)
    }
}

/// The unique-export constraints of one spec, in order.
pub open spec fn spec_entries(spec: SpecFile, si: int, cs: Seq<Constraint>) -> Seq<ConstraintEntry>
    decreases cs.len(),
{
    if cs.len() == 0 {
        Seq::empty()
    } else {
        let rest = spec_entries(spec, si, cs.drop_last());
        let c = cs.last();
        if c.rule@ == UNIQUE_EXPORT_RULE_ID@ {
            rest.push((spec.module@, canonical_json(c.params), si, cs.len() - 1))
        } else {
            rest
        }
    }
}

/// The unique-export constraints of the specs, spec by spec.
pub open spec fn constraint_entries(specs: Seq<SpecFile>) -> Seq<ConstraintEntry>
    decreases specs.len(),
{
    if specs.len() == 0 {
        Seq::empty()
    } else {
        constraint_entries(specs.drop_last()) + spec_entries(
            specs.last(),
            specs.len() - 1,
            specs.last().constraints@,
        )
    }
}

/// The entries sorted by module and params text, one per module and text.
pub open spec fn insert_entries(es: Seq<ConstraintEntry>) -> Seq<ConstraintEntry>
    decreases es.len(),
{
    if es.len() == 0 {
        Seq::empty()
    } else {
        insert_entry(insert_entries(es.drop_last()), es.last())
    }
}

/// The distinct unique-export constraints, sorted by module and params text.
pub open spec fn unique_entries(specs: Seq<SpecFile>) -> Seq<ConstraintEntry> {
    insert_entries(constraint_entries(specs))
}

pub open spec fn entry_params(specs: Seq<SpecFile>, e: ConstraintEntry) -> JsonValue {
    specs[e.2].constraints@[e.3].params
}

/// The violations of the usable entries, entry by entry.
pub open spec fn entries_violations(
    root: Seq<char>,
    graph: DependencyGraph,
    specs: Seq<SpecFile>,
    es: Seq<ConstraintEntry>,
) -> Seq<UniqueViolationModel>
    decreases es.len(),
{
    if es.len() == 0 {
        Seq::empty()
    } else {
        entries_violations(root, graph, specs, es.drop_last()) + match parse_unique_export(
            entry_params(specs, es.last()),
        ) {
            Ok(guard) => config_violations(root, graph, es.last().0, guard),
            Err(_) => Seq::empty(),
        }
    }
}

/// The (module, message) of each entry whose params do not parse.
pub open spec fn entries_issues(specs: Seq<SpecFile>, es: Seq<ConstraintEntry>) -> Set<(Seq<char>, Seq<char>)> {
    Set::new(
        |p: (Seq<char>, Seq<char>)|
            exists|k: int|
                0 <= k < es.len() && (#[trigger] es[k]).0 == p.0 && parse_unique_export(entry_params(specs, es[k]))
                    == Err::<Seq<Seq<char>>, Seq<char>>(p.1),
    )
}

/// Inserts a path into a list kept in path order (see `insert_path`).
fn insert_path_exec(v: &mut Vec<String>, p: &str)
    ensures
        views(final(v)@) == insert_path(views(old(v)@), p@),
{
    let ghost s = views(v@);
    let mut i: usize = 0;
    assert(s.take(0) + s.skip(0) =~= s);
    while i < v.len() && path_compare(v[i].as_str(), p) < 0
        invariant
            i <= v@.len(),
            s == views(v@),
            insert_path(s, p@) == s.take(i as int) + insert_path(s.skip(i as int), p@),
        decreases v@.len() - i,
    {
        let ghost rest = s.skip(i as int);
        assert(rest[0] == s[i as int]);
        assert(rest.drop_first() =~= s.skip(i + 1));
        assert(s.take(i + 1) =~= s.take(i as int).push(s[i as int]));
        assert(insert_path(rest, p@) == seq![rest[0]] + insert_path(rest.drop_first(), p@));
        assert(s.take(i as int) + (seq![rest[0]] + insert_path(s.skip(i + 1), p@)) =~= s.take(i + 1) + insert_path(
            s.skip(i + 1),
            p@,
        ));
        i = i + 1;
    }
    if i < v.len() && path_compare(v[i].as_str(), p) == 0 {
        assert(s.skip(i as int)[0] == s[i as int]);
        assert(s.take(i as int) + s.skip(i as int) =~= s);
        return;
    }
    let ghost rest = s.skip(i as int);
    if i < v.len() {
        assert(rest[0] == s[i as int]);
    }
    v.insert(i, owned(p));
    assert(views(v@) =~= s.take(i as int) + (seq![p@] + rest));
}

/// A configured unique-export constraint: module, params text, where it stands.
struct ConstraintRef {
    module: String,
    text: String,
    spec: usize,
    index: usize,
}

spec fn ref_model(r: ConstraintRef) -> ConstraintEntry {
    (r.module@, r.text@, r.spec as int, r.index as int)
}

spec fn ref_models(v: Seq<ConstraintRef>) -> Seq<ConstraintEntry> {
    v.map_values(|r: ConstraintRef| ref_model(r))
}

proof fn lemma_entry_order_facts(a: ConstraintEntry, b: ConstraintEntry)
    ensures
        entry_order(a, b) == -entry_order(b, a),
{
    lemma_seq_order_facts(a.0, b.0, b.0);
    lemma_seq_order_facts(a.1, b.1, b.1);
}

/// Inserts a constraint into a list kept in module and params-text order
/// (see `insert_entry`).
fn insert_ref(v: &mut Vec<ConstraintRef>, x: ConstraintRef)
    ensures
        ref_models(final(v)@) == insert_entry(ref_models(old(v)@), ref_model(x)),
{
    let ghost s = ref_models(v@);
    let ghost e = ref_model(x);
    let mut i: usize = 0;
    assert(s.take(0) + s.skip(0) =~= s);
    loop
        invariant
            i <= v@.len(),
            s == ref_models(v@),
            e == ref_model(x),
            insert_entry(s, e) == s.take(i as int) + insert_entry(s.skip(i as int), e),
        ensures
            i <= v@.len(),
            s == ref_models(v@),
            e == ref_model(x),
            insert_entry(s, e) == s.take(i as int) + insert_entry(s.skip(i as int), e),
            i < v@.len() ==> entry_order(s[i as int], e) > 0,
        decreases v@.len() - i,
    {
        if i == v.len() {
            break;
        }
        let o1 = str_order(v[i].module.as_str(), x.module.as_str());
        let o = if o1 != 0 {
            o1
        } else {
            str_order(v[i].text.as_str(), x.text.as_str())
        };
        let ghost rest = s.skip(i as int);
        assert(rest[0] == s[i as int]);
        assert(o as int == entry_order(s[i as int], e));
        if o == 0 {
            assert(s.take(i as int) + s.skip(i as int) =~= s);
            return;
        }
        if o > 0 {
            break;
        }
        assert(rest.drop_first() =~= s.skip(i + 1));
        assert(s.take(i + 1) =~= s.take(i as int).push(s[i as int]));
        assert(s.take(i as int) + (seq![rest[0]] + insert_entry(s.skip(i + 1), e)) =~= s.take(i + 1) + insert_entry(
            s.skip(i + 1),
            e,
        ));
        i = i + 1;
    }
    let ghost rest = s.skip(i as int);
    if i < v.len() {
        assert(rest[0] == s[i as int]);
        assert(entry_order(rest[0], e) > 0);
    }
    v.insert(i, x);
    assert(ref_models(v@) =~= s.take(i as int) + (seq![e] + rest));
}

/// Every entry of an insertion is the inserted one or an old one.
proof fn lemma_insert_entry_members(s: Seq<ConstraintEntry>, e: ConstraintEntry)
    ensures
        forall|k: int| 0 <= k < insert_entry(s, e).len() ==> (#[trigger] insert_entry(s, e)[k] == e || s.contains(insert_entry(s, e)[k])),
    decreases s.len(),
{
    if s.len() > 0 && entry_order(s[0], e) < 0 {
        lemma_insert_entry_members(s.drop_first(), e);
        let r = insert_entry(s, e);
        assert forall|k: int| 0 <= k < r.len() implies (#[trigger] r[k] == e || s.contains(r[k])) by {
            if k == 0 {
                assert(s[0] == r[0]);
            } else {
                let t = insert_entry(s.drop_first(), e);
                assert(r[k] == t[k - 1]);
                if t[k - 1] != e {
                    let j = choose|j: int| 0 <= j < s.drop_first().len() && s.drop_first()[j] == t[k - 1];
                    assert(s[j + 1] == r[k]);
                }
            }
        }
    } else if s.len() > 0 && entry_order(s[0], e) > 0 {
        let r = insert_entry(s, e);
        assert forall|k: int| 0 <= k < r.len() implies (#[trigger] r[k] == e || s.contains(r[k])) by {
            if k > 0 {
                assert(s[k - 1] == r[k]);
            }
        }
    } else if s.len() > 0 {
        assert forall|k: int| 0 <= k < s.len() implies (#[trigger] s[k] == e || s.contains(s[k])) by {}
    }
}

/// The entries' indices point at constraints of the specs.
spec fn valid_entries(specs: Seq<SpecFile>, es: Seq<ConstraintEntry>) -> bool {
    forall|k: int|
        0 <= k < es.len() ==> 0 <= (#[trigger] es[k]).2 < specs.len() && 0 <= es[k].3 < specs[es[k].2].constraints@.len()
}

/// Whether a file exports `name` (see `file_provides`).
fn file_provides_exec(f: &FileAnalysis, name: &str) -> (r: bool)
    ensures
        r == file_provides(*f, name@),
{
    if !str_eq(name, "__default") && strings_contain(&f.exports, name) {
        return true;
    }
    let mut k: usize = 0;
    while k < f.re_exports.len()
        invariant
            k <= f.re_exports@.len(),
            forall|q: int| 0 <= q < k ==> !(!(#[trigger] f.re_exports@[q]).is_star && views(f.re_exports@[q].names@).contains(name@)),
        decreases f.re_exports@.len() - k,
    {
        if !f.re_exports[k].is_star && strings_contain(&f.re_exports[k].names, name) {
            assert(!f.re_exports@[k as int].is_star && views(f.re_exports@[k as int].names@).contains(name@));
            return true;
        }
        k = k + 1;
    }
    false
}

/// Whether the configuration guards `name`.
fn guarded_exec(guard: &Vec<String>, name: &str) -> (r: bool)
    ensures
        r == guarded(views(guard@), name@),
{
    guard.len() == 0 || strings_contain(guard, name)
}

/// Adds the guarded names a file exports to a sorted name set.
fn add_file_names(f: &FileAnalysis, guard: &Vec<String>, names: &mut Vec<String>)
    requires
        strictly_sorted(views(old(names)@)),
    ensures
        strictly_sorted(views(final(names)@)),
        views(final(names)@).to_set() == views(old(names)@).to_set().union(file_names(*f, views(guard@))),
{
    let ghost base = views(names@).to_set();
    let ghost g = views(guard@);
    let mut j: usize = 0;
    while j < f.exports.len()
        invariant
            j <= f.exports@.len(),
            g == views(guard@),
            strictly_sorted(views(names@)),
            views(names@).to_set() == base.union(
                Set::new(|n: Seq<char>| guarded(g, n) && n != "__default"@ && views(f.exports@).take(j as int).contains(n)),
            ),
        decreases f.exports@.len() - j,
    {
        let e = &f.exports[j];
        if !str_eq(e.as_str(), "__default") && guarded_exec(guard, e.as_str()) {
            set_insert(names, e.clone());
        }
        assert(views(f.exports@).take(j + 1) =~= views(f.exports@).take(j as int).push(e@));
        proof {
            lemma_push_contains(views(f.exports@).take(j as int), e@);
        }
        assert(views(names@).to_set() =~= base.union(
            Set::new(|n: Seq<char>| guarded(g, n) && n != "__default"@ && views(f.exports@).take(j + 1).contains(n)),
        ));
        j = j + 1;
    }
    assert(views(f.exports@).take(j as int) =~= views(f.exports@));
    let ghost after_exports = views(names@).to_set();
    let mut k: usize = 0;
    while k < f.re_exports.len()
        invariant
            k <= f.re_exports@.len(),
            g == views(guard@),
            strictly_sorted(views(names@)),
            views(names@).to_set() == after_exports.union(
                Set::new(|n: Seq<char>| guarded(g, n) && re_export_provides(f.re_exports@.take(k as int), n)),
            ),
        decreases f.re_exports@.len() - k,
    {
        let re = &f.re_exports[k];
        let ghost before = views(names@).to_set();
        if !re.is_star {
            let mut l: usize = 0;
            while l < re.names.len()
                invariant
                    l <= re.names@.len(),
                    g == views(guard@),
                    strictly_sorted(views(names@)),
                    views(names@).to_set() == before.union(
                        Set::new(|n: Seq<char>| guarded(g, n) && views(re.names@).take(l as int).contains(n)),
                    ),
                decreases re.names@.len() - l,
            {
                let name = &re.names[l];
                if guarded_exec(guard, name.as_str()) {
                    set_insert(names, name.clone());
                }
                assert(views(re.names@).take(l + 1) =~= views(re.names@).take(l as int).push(name@));
                proof {
                    lemma_push_contains(views(re.names@).take(l as int), name@);
                }
                assert(views(names@).to_set() =~= before.union(
                    Set::new(|n: Seq<char>| guarded(g, n) && views(re.names@).take(l + 1).contains(n)),
                ));
                l = l + 1;
            }
            assert(views(re.names@).take(l as int) =~= views(re.names@));
        }
        let ghost rs = f.re_exports@.take(k + 1);
        assert(rs.drop_last() =~= f.re_exports@.take(k as int));
        assert(views(names@).to_set() =~= after_exports.union(
            Set::new(|n: Seq<char>| guarded(g, n) && re_export_provides(f.re_exports@.take(k + 1), n)),
        )) by {
            assert forall|n: Seq<char>| re_export_provides(rs, n) <==> (re_export_provides(
                f.re_exports@.take(k as int),
                n,
            ) || (!re.is_star && views(re.names@).contains(n))) by {
                if re_export_provides(rs, n) {
                    let q = choose|q: int| 0 <= q < rs.len() && !(#[trigger] rs[q]).is_star && views(rs[q].names@).contains(n);
                    if q < k {
                        assert(f.re_exports@.take(k as int)[q] == rs[q]);
                    }
                }
                if re_export_provides(f.re_exports@.take(k as int), n) {
                    let q = choose|q: int| 0 <= q < k && !(#[trigger] f.re_exports@.take(k as int)[q]).is_star && views(
                        f.re_exports@.take(k as int)[q].names@,
                    ).contains(n);
                    assert(rs[q] == f.re_exports@.take(k as int)[q]);
                }
                if !re.is_star && views(re.names@).contains(n) {
                    assert(rs[k as int] == *re);
                }
            }
        }
        k = k + 1;
    }
    assert(f.re_exports@.take(k as int) =~= f.re_exports@);
    assert(views(names@).to_set() =~= base.union(file_names(*f, g)));
}

/// The guarded names the files of `module` export, sorted.
fn module_names_exec(graph: &DependencyGraph, module: &str, guard: &Vec<String>) -> (r: Vec<String>)
    ensures
        strictly_sorted(views(r@)),
        views(r@).to_set() == module_names(*graph, module@, graph.file_analyses@, views(guard@)),
{
    let mut names: Vec<String> = Vec::new();
    let mut i: usize = 0;
    assert(views(names@).to_set() =~= Set::<Seq<char>>::empty());
    assert(graph.file_analyses@.take(0) =~= Seq::<FileAnalysis>::empty());
    while i < graph.file_analyses.len()
        invariant
            i <= graph.file_analyses@.len(),
            strictly_sorted(views(names@)),
            views(names@).to_set() == module_names(*graph, module@, graph.file_analyses@.take(i as int), views(guard@)),
        decreases graph.file_analyses@.len() - i,
    {
        let f = &graph.file_analyses[i];
        assert(graph.file_analyses@.take(i + 1).drop_last() =~= graph.file_analyses@.take(i as int));
        assert(graph.file_analyses@.take(i + 1).last() == *f);
        let owner = graph.module_of_file(f.path.as_str());
        let belongs = match owner {
            Some(m) => str_eq(m, module),
            None => false,
        };
        if belongs {
            add_file_names(f, guard, &mut names);
        }
        i = i + 1;
    }
    assert(graph.file_analyses@.take(i as int) =~= graph.file_analyses@);
    names
}

/// The files of `module` that export `name`, in path order.
fn providing_paths_exec(graph: &DependencyGraph, module: &str, name: &str) -> (r: Vec<String>)
    ensures
        views(r@) == providing_paths(*graph, module@, graph.file_analyses@, name@),
{
    let mut files: Vec<String> = Vec::new();
    let mut i: usize = 0;
    assert(views(files@) =~= Seq::<Seq<char>>::empty());
    assert(graph.file_analyses@.take(0) =~= Seq::<FileAnalysis>::empty());
    while i < graph.file_analyses.len()
        invariant
            i <= graph.file_analyses@.len(),
            views(files@) == providing_paths(*graph, module@, graph.file_analyses@.take(i as int), name@),
        decreases graph.file_analyses@.len() - i,
    {
        let f = &graph.file_analyses[i];
        assert(graph.file_analyses@.take(i + 1).drop_last() =~= graph.file_analyses@.take(i as int));
        assert(graph.file_analyses@.take(i + 1).last() == *f);
        let owner = graph.module_of_file(f.path.as_str());
        let belongs = match owner {
            Some(m) => str_eq(m, module),
            None => false,
        };
        if belongs && file_provides_exec(f, name) {
            insert_path_exec(&mut files, f.path.as_str());
        }
        i = i + 1;
    }
    assert(graph.file_analyses@.take(i as int) =~= graph.file_analyses@);
    files
}

/// The message naming the files that export `name`.
fn duplicate_message_exec(root: &str, module: &str, name: &str, files: &Vec<String>) -> (r: String)
    ensures
        r@ == duplicate_message(root@, module@, name@, views(files@)),
{
    let mut rel: Vec<String> = Vec::new();
    let mut i: usize = 0;
    while i < files.len()
        invariant
            i <= files@.len(),
            views(rel@) == views(files@).take(i as int).map_values(|f: Seq<char>| repo_relative(root@, f)),
        decreases files@.len() - i,
    {
        rel.push(normalize_repo_relative(root, files[i].as_str()));
        assert(views(files@).take(i + 1).map_values(|f: Seq<char>| repo_relative(root@, f)) =~= views(files@).take(
            i as int,
        ).map_values(|f: Seq<char>| repo_relative(root@, f)).push(repo_relative(root@, files@[i as int]@)));
        assert(views(rel@) =~= views(files@).take(i + 1).map_values(|f: Seq<char>| repo_relative(root@, f)));
        i = i + 1;
    }
    assert(views(files@).take(i as int) =~= views(files@));
    let joined = join_text_exec(&rel, ", ");
    let mut m = owned("duplicate export '");
    push_str(&mut m, name);
    push_str(&mut m, "' in module '");
    push_str(&mut m, module);
    push_str(&mut m, "' found in ");
    let count = decimal_string(files.len() as u64);
    push_str(&mut m, count.as_str());
    push_str(&mut m, " files: ");
    push_str(&mut m, joined.as_str());
    m
}

/// Records the violations of one configuration of `module`.
fn push_config_violations(
    root: &str,
    graph: &DependencyGraph,
    module: &str,
    guard: &Vec<String>,
    out: &mut Vec<UniqueExportViolation>,
)
    ensures
        unique_violation_models(final(out)@) == unique_violation_models(old(out)@) + config_violations(
            root@,
            *graph,
            module@,
            views(guard@),
        ),
{
    let names = module_names_exec(graph, module, guard);
    proof {
        lemma_sorted_seq_of(views(names@));
    }
    let ghost ns = views(names@);
    let ghost base = unique_violation_models(out@);
    let mut k: usize = 0;
    assert(ns.take(0) =~= Seq::<Seq<char>>::empty());
    assert(unique_violation_models(out@) =~= base + names_violations(root@, *graph, module@, ns.take(0)));
    while k < names.len()
        invariant
            k <= names@.len(),
            ns == views(names@),
            unique_violation_models(out@) == base + names_violations(root@, *graph, module@, ns.take(k as int)),
        decreases names@.len() - k,
    {
        let name = names[k].as_str();
        assert(ns.take(k + 1).drop_last() =~= ns.take(k as int));
        assert(ns.take(k + 1).last() == name@);
        let files = providing_paths_exec(graph, module, name);
        if files.len() >= 2 {
            let message = duplicate_message_exec(root, module, name, &files);
            let mut hint = owned("Remove or rename the duplicate export '");
            push_str(&mut hint, name);
            push_str(&mut hint, "' so each export name is unique within module '");
            push_str(&mut hint, module);
            push_str(&mut hint, "'.");
            let v = UniqueExportViolation {
                module: owned(module),
                export_name: owned(name),
                files,
                message,
                fix_hint: hint,
            };
            let ghost before = out@;
            out.push(v);
            assert(unique_violation_models(out@) =~= unique_violation_models(before).push(unique_violation_model(v)));
        }
        assert(unique_violation_models(out@) =~= base + names_violations(root@, *graph, module@, ns.take(k + 1)));
        k = k + 1;
    }
    assert(ns.take(k as int) =~= ns);
}

impl KeyOrdered for UniqueExportViolation {
    /// By module, then export name.
    open spec fn key_order(a: Self, b: Self) -> int {
        then(seq_order(a.module@, b.module@), seq_order(a.export_name@, b.export_name@))
    }

    proof fn lemma_key_order(a: Self, b: Self, c: Self) {
        lemma_seq_order_facts(a.module@, b.module@, c.module@);
        lemma_seq_order_facts(a.export_name@, b.export_name@, c.export_name@);
    }

    fn key_compare(&self, other: &Self) -> (r: i8) {
        let o = str_order(self.module.as_str(), other.module.as_str());
        if o != 0 {
            return o;
        }
        str_order(self.export_name.as_str(), other.export_name.as_str())
    }
}

pub open spec fn issue_pairs(v: Seq<UniqueExportConfigIssue>) -> Seq<(Seq<char>, Seq<char>)> {
    v.map_values(|i: UniqueExportConfigIssue| (i.module@, i.message@))
}

/// The configured unique-export constraints, one per module and params
/// text, sorted by module and params text.
fn collect_constraint_refs(specs: &[SpecFile]) -> (r: Vec<ConstraintRef>)
    ensures
        ref_models(r@) == unique_entries(specs@),
        valid_entries(specs@, ref_models(r@)),
{
    let mut refs: Vec<ConstraintRef> = Vec::new();
    let mut i: usize = 0;
    assert(ref_models(refs@) =~= insert_entries(constraint_entries(specs@.take(0))));
    while i < specs.len()
        invariant
            i <= specs@.len(),
            ref_models(refs@) == insert_entries(constraint_entries(specs@.take(i as int))),
            valid_entries(specs@, ref_models(refs@)),
        decreases specs@.len() - i,
    {
        let spec = &specs[i];
        let ghost done = constraint_entries(specs@.take(i as int));
        let mut j: usize = 0;
        assert(done + spec_entries(*spec, i as int, spec.constraints@.take(0)) =~= done);
        while j < spec.constraints.len()
            invariant
                i < specs@.len(),
                *spec == specs@[i as int],
                j <= spec.constraints@.len(),
                ref_models(refs@) == insert_entries(done + spec_entries(*spec, i as int, spec.constraints@.take(j as int))),
                valid_entries(specs@, ref_models(refs@)),
            decreases spec.constraints@.len() - j,
        {
            let c = &spec.constraints[j];
            let ghost prev = done + spec_entries(*spec, i as int, spec.constraints@.take(j as int));
            assert(spec.constraints@.take(j + 1).drop_last() =~= spec.constraints@.take(j as int));
            assert(spec.constraints@.take(j + 1).last() == *c);
            if str_eq(c.rule.as_str(), UNIQUE_EXPORT_RULE_ID) {
                let x = ConstraintRef { module: spec.module.clone(), text: render_canonical_json(&c.params), spec: i, index: j };
                let ghost old_models = ref_models(refs@);
                insert_ref(&mut refs, x);
                proof {
                    lemma_insert_entry_members(old_models, ref_model(x));
                    assert(prev.push(ref_model(x)).drop_last() =~= prev);
                    assert(done + spec_entries(*spec, i as int, spec.constraints@.take(j + 1)) =~= prev.push(ref_model(x)));
                    assert forall|k: int| 0 <= k < ref_models(refs@).len() implies 0 <= (#[trigger] ref_models(refs@)[k]).2
                        < specs@.len() && 0 <= ref_models(refs@)[k].3 < specs@[ref_models(refs@)[k].2].constraints@.len() by {
                        if ref_models(refs@)[k] != ref_model(x) {
                            let q = choose|q: int| 0 <= q < old_models.len() && old_models[q] == ref_models(refs@)[k];
                            assert(0 <= old_models[q].2 < specs@.len());
                        }
                    }
                }
            } else {
                assert(done + spec_entries(*spec, i as int, spec.constraints@.take(j + 1)) =~= prev);
            }
            j = j + 1;
        }
        assert(spec.constraints@.take(j as int) =~= spec.constraints@);
        assert(specs@.take(i + 1).drop_last() =~= specs@.take(i as int));
        assert(specs@.take(i + 1).last() == *spec);
        i = i + 1;
    }
    assert(specs@.take(i as int) =~= specs@);
    refs
}

/// Evaluates the `boundary.unique_export` constraints: for each distinct
/// constraint (per module and parameters), the export names (the guarded
/// ones, or all) that two or more files of the module export, by name with
/// the files in path order; and a configuration issue for each constraint
/// whose parameters do not parse. Violations are sorted by module and export
/// name; issues by module and message, without repeats.
pub fn evaluate_unique_export(project_root: &str, specs: &[SpecFile], graph: &DependencyGraph) -> (r: UniqueExportReport)
    ensures
        sorted_by_key(r.violations@),
        unique_violation_models(r.violations@).to_multiset() == entries_violations(
            project_root@,
            *graph,
            specs@,
            unique_entries(specs@),
        ).to_multiset(),
        pairs_strictly_sorted(issue_pairs(r.config_issues@)),
        issue_pairs(r.config_issues@).to_set() == entries_issues(specs@, unique_entries(specs@)),
{
    let refs = collect_constraint_refs(specs);
    let ghost es = ref_models(refs@);
    let mut violations: Vec<UniqueExportViolation> = Vec::new();
    let mut issues: Vec<(String, String)> = Vec::new();
    let mut k: usize = 0;
    assert(es.take(0) =~= Seq::<ConstraintEntry>::empty());
    assert(unique_violation_models(violations@) =~= entries_violations(project_root@, *graph, specs@, es.take(0)));
    assert(pair_views(issues@).to_set() =~= entries_issues(specs@, es.take(0)));
    while k < refs.len()
        invariant
            k <= refs@.len(),
            es == ref_models(refs@),
            valid_entries(specs@, es),
            unique_violation_models(violations@) == entries_violations(project_root@, *graph, specs@, es.take(k as int)),
            pairs_strictly_sorted(pair_views(issues@)),
            pair_views(issues@).to_set() == entries_issues(specs@, es.take(k as int)),
        decreases refs@.len() - k,
    {
        let r = &refs[k];
        assert(es[k as int] == ref_model(*r));
        assert(0 <= es[k as int].2 < specs@.len());
        let params = &specs[r.spec].constraints[r.index].params;
        assert(*params == entry_params(specs@, es[k as int]));
        assert(es.take(k + 1).drop_last() =~= es.take(k as int));
        assert(es.take(k + 1).last() == es[k as int]);
        let ghost before_issues = pair_views(issues@).to_set();
        match parse_unique_export_config(params) {
            Ok(config) => {
                push_config_violations(project_root, graph, r.module.as_str(), &config.exports, &mut violations);
            },
            Err(error) => {
                pair_insert(&mut issues, (r.module.clone(), error.message));
            },
        }
        assert(pair_views(issues@).to_set() =~= entries_issues(specs@, es.take(k + 1))) by {
            let t = es.take(k + 1);
            assert forall|p: (Seq<char>, Seq<char>)| entries_issues(specs@, t).contains(p) <==> pair_views(
                issues@,
            ).to_set().contains(p) by {
                if entries_issues(specs@, t).contains(p) {
                    let q = choose|q: int|
                        0 <= q < t.len() && (#[trigger] t[q]).0 == p.0 && parse_unique_export(entry_params(specs@, t[q]))
                            == Err::<Seq<Seq<char>>, Seq<char>>(p.1);
                    if q < k {
                        assert(es.take(k as int)[q] == t[q]);
                        assert(entries_issues(specs@, es.take(k as int)).contains(p));
                    }
                }
                if before_issues.contains(p) {
                    let q = choose|q: int|
                        0 <= q < es.take(k as int).len() && (#[trigger] es.take(k as int)[q]).0 == p.0 && parse_unique_export(
                            entry_params(specs@, es.take(k as int)[q]),
                        ) == Err::<Seq<Seq<char>>, Seq<char>>(p.1);
                    assert(t[q] == es.take(k as int)[q]);
                }
                if pair_views(issues@).to_set().contains(p) && !before_issues.contains(p) {
                    assert(t[k as int] == es[k as int]);
                }
            }
        }
        k = k + 1;
    }
    assert(es.take(k as int) =~= es);
    let ghost unsorted = violations@;
    sort_by_key(&mut violations);
    proof {
        lemma_multiset_map(violations@, unsorted, |x: UniqueExportViolation| unique_violation_model(x));
        assert(unique_violation_models(violations@) == violations@.map_values(|x: UniqueExportViolation| unique_violation_model(x)));
        assert(unique_violation_models(unsorted) == unsorted.map_values(|x: UniqueExportViolation| unique_violation_model(x)));
    }
    let mut config_issues: Vec<UniqueExportConfigIssue> = Vec::new();
    let mut q: usize = 0;
    while q < issues.len()
        invariant
            q <= issues@.len(),
            issue_pairs(config_issues@) == pair_views(issues@).take(q as int),
        decreases issues@.len() - q,
    {
        let ghost before = config_issues@;
        let issue = UniqueExportConfigIssue { module: issues[q].0.clone(), message: issues[q].1.clone() };
        assert((issue.module@, issue.message@) == pair_views(issues@)[q as int]);
        config_issues.push(issue);
        assert(issue_pairs(config_issues@) =~= issue_pairs(before).push((issue.module@, issue.message@)));
        assert(pair_views(issues@).take(q + 1) =~= pair_views(issues@).take(q as int).push(pair_views(issues@)[q as int]));
        assert(issue_pairs(config_issues@) =~= pair_views(issues@).take(q + 1));
        q = q + 1;
    }
    assert(pair_views(issues@).take(q as int) =~= pair_views(issues@));
    UniqueExportReport { violations, config_issues }
}

proof fn lemma_insert_path_members(s: Seq<Seq<char>>, p: Seq<char>)
    ensures
        forall|k: int| 0 <= k < insert_path(s, p).len() ==> (#[trigger] insert_path(s, p)[k] == p || s.contains(insert_path(s, p)[k])),
    decreases s.len(),
{
    if s.len() > 0 && path_order(s[0], p) < 0 {
        lemma_insert_path_members(s.drop_first(), p);
        let r = insert_path(s, p);
        assert forall|k: int| 0 <= k < r.len() implies (#[trigger] r[k] == p || s.contains(r[k])) by {
            if k == 0 {
                assert(s[0] == r[0]);
            } else {
                let t = insert_path(s.drop_first(), p);
                assert(r[k] == t[k - 1]);
                if t[k - 1] != p {
                    let j = choose|j: int| 0 <= j < s.drop_first().len() && s.drop_first()[j] == t[k - 1];
                    assert(s[j + 1] == r[k]);
                }
            }
        }
    } else if s.len() > 0 && path_order(s[0], p) > 0 {
        let r = insert_path(s, p);
        assert forall|k: int| 0 <= k < r.len() implies (#[trigger] r[k] == p || s.contains(r[k])) by {
            if k > 0 {
                assert(s[k - 1] == r[k]);
            }
        }
    } else if s.len() > 0 {
        assert forall|k: int| 0 <= k < s.len() implies (#[trigger] s[k] == p || s.contains(s[k])) by {}
    }
}

/// A file of `module` among `files` exports `name` from path `p`.
pub open spec fn module_file_analyses(
    graph: DependencyGraph,
    module: Seq<char>,
    files: Seq<FileAnalysis>,
    name: Seq<char>,
    p: Seq<char>,
) -> bool {
    exists|i: int|
        0 <= i < files.len() && (#[trigger] files[i]).path@ == p && in_module(graph, module, files[i]) && file_provides(
            files[i],
            name,
        )
}

proof fn lemma_providing_paths_members(graph: DependencyGraph, module: Seq<char>, files: Seq<FileAnalysis>, name: Seq<char>)
    ensures
        forall|k: int|
            0 <= k < providing_paths(graph, module, files, name).len() ==> module_file_analyses(
                graph,
                module,
                files,
                name,
                #[trigger] providing_paths(graph, module, files, name)[k],
            ),
    decreases files.len(),
{
    if files.len() > 0 {
        let rest = providing_paths(graph, module, files.drop_last(), name);
        lemma_providing_paths_members(graph, module, files.drop_last(), name);
        let whole = providing_paths(graph, module, files, name);
        let last = files.last();
        if in_module(graph, module, last) && file_provides(last, name) {
            lemma_insert_path_members(rest, last.path@);
        }
        assert forall|k: int| 0 <= k < whole.len() implies module_file_analyses(
            graph,
            module,
            files,
            name,
            #[trigger] whole[k],
        ) by {
            if whole[k] == last.path@ && in_module(graph, module, last) && file_provides(last, name) {
                assert(files[files.len() - 1] == last);
            } else {
                let j = choose|j: int| 0 <= j < rest.len() && rest[j] == whole[k];
                assert(module_file_analyses(graph, module, files.drop_last(), name, rest[j]));
                let i = choose|i: int|
                    0 <= i < files.drop_last().len() && (#[trigger] files.drop_last()[i]).path@ == rest[j] && in_module(
                        graph,
                        module,
                        files.drop_last()[i],
                    ) && file_provides(files.drop_last()[i], name);
                assert(files[i] == files.drop_last()[i]);
            }
        }
    }
}

/// Export names are unique within a module only: a violation names its
/// module and two or more files, the files of that module that export the
/// name, and each of them belongs to the module and exports the name.
pub proof fn law_violations_stay_within_module(
    root: Seq<char>,
    graph: DependencyGraph,
    module: Seq<char>,
    names: Seq<Seq<char>>,
)
    ensures
        forall|k: int| 0 <= k < names_violations(root, graph, module, names).len() ==> {
            let x = #[trigger] names_violations(root, graph, module, names)[k];
            &&& x.0 == module
            &&& x.2.len() >= 2
            &&& x.2 == providing_paths(graph, module, graph.file_analyses@, x.1)
        },
        forall|name: Seq<char>, j: int|
            0 <= j < providing_paths(graph, module, graph.file_analyses@, name).len() ==> module_file_analyses(
                graph,
                module,
                graph.file_analyses@,
                name,
                #[trigger] providing_paths(graph, module, graph.file_analyses@, name)[j],
            ),
    decreases names.len(),
{
    if names.len() > 0 {
        law_violations_stay_within_module(root, graph, module, names.drop_last());
        let rest = names_violations(root, graph, module, names.drop_last());
        let whole = names_violations(root, graph, module, names);
        assert forall|k: int| 0 <= k < whole.len() implies {
            let x = #[trigger] whole[k];
            &&& x.0 == module
            &&& x.2.len() >= 2
            &&& x.2 == providing_paths(graph, module, graph.file_analyses@, x.1)
        } by {
            if k < rest.len() {
                assert(whole[k] == rest[k]);
            }
        }
    }
    assert forall|name: Seq<char>, j: int|
        0 <= j < providing_paths(graph, module, graph.file_analyses@, name).len() implies module_file_analyses(
        graph,
        module,
        graph.file_analyses@,
        name,
        #[trigger] providing_paths(graph, module, graph.file_analyses@, name)[j],
    ) by {
        lemma_providing_paths_members(graph, module, graph.file_analyses@, name);
    }
}

} // verus!
