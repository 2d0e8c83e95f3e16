//! Ownership of source files by specs: unclaimed and overlapping files,
//! duplicate module ids, and specs whose path glob claims nothing.
use vstd::prelude::*;

use crate::glob::globset_matches;
use crate::paths::{normalize_repo_relative, repo_relative, strings_contain};
use crate::rules::boundary::{sorted_spec_modules, spec_modules};
use crate::rules::{compile_optional_globset_strict, compiles, CompiledGlobSet};
use crate::spec::types::SpecFile;
use crate::strset::sorted_seq_of;
use crate::text::{owned, push_str, seq_order, str_eq, str_order, views};

verus! {

/// The outcome of checking which spec owns each source file.
#[derive(Debug, Clone, PartialEq, Eq)]
pub struct OwnershipReport {
    pub total_source_files: usize,
    pub claimed_files: usize,
    pub unclaimed_files: Vec<String>,
    pub overlapping_files: Vec<OverlapEntry>,
    pub duplicate_module_ids: Vec<DuplicateModule>,
    pub orphaned_specs: Vec<OrphanedSpec>,
}

/// A file claimed by more than one spec.
#[derive(Debug, Clone, PartialEq, Eq)]
pub struct OverlapEntry {
    pub file: String,
    pub claimed_by: Vec<String>,
}

/// A module id declared by more than one spec.
#[derive(Debug, Clone, PartialEq, Eq)]
pub struct DuplicateModule {
    pub module_id: String,
    pub spec_paths: Vec<String>,
}

/// A spec whose path glob claims no source file.
#[derive(Debug, Clone, PartialEq, Eq)]
pub struct OrphanedSpec {
    pub module_id: String,
    pub spec_path: String,
    pub path_glob: String,
}

/// Inserts `x` after every element not after it in string order.
pub open spec fn insert_text(s: Seq<Seq<char>>, x: Seq<char>) -> Seq<Seq<char>>
    decreases s.len(),
{
    if s.len() == 0 {
        seq![x]
    } else if seq_order(s[0], x) > 0 {
        seq![x] + s
    } else {
        seq![s[0]] + insert_text(s.drop_first(), x)
    }
}

/// The texts sorted (stably, by insertion).
pub open spec fn sort_texts(s: Seq<Seq<char>>) -> Seq<Seq<char>>
    decreases s.len(),
{
    if s.len() == 0 {
        Seq::empty()
    } else {
        insert_text(sort_texts(s.drop_last()), s.last())
    }
}

/// A spec with a compilable path glob: module, spec path (relative to the
/// root, or the module id), glob.
pub type Matcher = (Seq<char>, Seq<char>, Seq<char>);

/// The specs whose boundaries give a path glob that compiles, in order.
pub open spec fn spec_matchers(root: Seq<char>, specs: Seq<SpecFile>) -> Seq<Matcher>
    decreases specs.len(),
{
    if specs.len() == 0 {
        Seq::empty()
    } else {
        let rest = spec_matchers(root, specs.drop_last());
        let s = specs.last();
        match s.boundaries {
            Some(b) => match b.path {
                Some(p) => if compiles(seq![p@]) {
                    rest.push(
                        (
                            s.module@,
                            match s.spec_path {
                                Some(sp) => repo_relative(root, sp@),
                                None => s.module@,
                            },
                            p@,
                        ),
                    )
                } else {
                    rest
                },
                None => rest,
            },
            None => rest,
        }
    }
}

/// The modules of the matchers whose glob matches `rel`, in matcher order.
pub open spec fn claimants(ms: Seq<Matcher>, rel: Seq<char>) -> Seq<Seq<char>>
    decreases ms.len(),
{
    if ms.len() == 0 {
        Seq::empty()
    } else {
        let rest = claimants(ms.drop_last(), rel);
        if globset_matches(seq![ms.last().2], rel) {
            rest.push(ms.last().0)
        } else {
            rest
        }
    }
}

/// Inserts an overlap after every entry whose file is not after its file.
pub open spec fn insert_overlap(s: Seq<(Seq<char>, Seq<Seq<char>>)>, x: (Seq<char>, Seq<Seq<char>>)) -> Seq<
    (Seq<char>, Seq<Seq<char>>),
>
    decreases s.len(),
{
    if s.len() == 0 {
        seq![x]
    } else if seq_order(s[0].0, x.0) > 0 {
        seq![x] + s
    } else {
        seq![s[0]] + insert_overlap(s.drop_first(), x)
    }
}

/// The ownership of the files, file by file: (claimed count, unclaimed
/// files sorted, overlaps sorted by file).
pub open spec fn ownership_of(root: Seq<char>, ms: Seq<Matcher>, files: Seq<String>) -> (
    int,
    Seq<Seq<char>>,
    Seq<(Seq<char>, Seq<Seq<char>>)>,
)
    decreases files.len(),
{
    if files.len() == 0 {
        (0, Seq::empty(), Seq::empty())
    } else {
        let (claimed, unclaimed, overlaps) = ownership_of(root, ms, files.drop_last());
        let rel = repo_relative(root, files.last()@);
        let c = claimants(ms, rel);
        if c.len() == 0 {
            (claimed, insert_text(unclaimed, rel), overlaps)
        } else if c.len() == 1 {
            (claimed + 1, unclaimed, overlaps)
        } else {
            (claimed + 1, unclaimed, insert_overlap(overlaps, (rel, sort_texts(c))))
        }
    }
}

/// Whether some file is claimed by `module`.
pub open spec fn claimed_by_module(root: Seq<char>, ms: Seq<Matcher>, files: Seq<String>, module: Seq<char>) -> bool {
    exists|i: int| 0 <= i < files.len() && claimants(ms, repo_relative(root, (#[trigger] files[i])@)).contains(module)
}

/// The path glob of the first spec declaring `module` (empty when it has none).
pub open spec fn first_path_glob(specs: Seq<SpecFile>, module: Seq<char>) -> Seq<char>
    decreases specs.len(),
{
    if specs.len() == 0 {
        Seq::empty()
    } else if specs[0].module@ == module {
        match specs[0].boundaries {
            Some(b) => match b.path {
                Some(p) => p@,
                None => Seq::empty(),
            },
            None => Seq::empty(),
        }
    } else {
        first_path_glob(specs.drop_first(), module)
    }
}

/// An orphaned spec as plain values: module, spec path, path glob.
pub type OrphanModel = (Seq<char>, Seq<char>, Seq<char>);

/// Inserts an orphan after every entry whose module is not after its module.
pub open spec fn insert_orphan(s: Seq<OrphanModel>, x: OrphanModel) -> Seq<OrphanModel>
    decreases s.len(),
{
    if s.len() == 0 {
        seq![x]
    } else if seq_order(s[0].0, x.0) > 0 {
        seq![x] + s
    } else {
        seq![s[0]] + insert_orphan(s.drop_first(), x)
    }
}

/// The matchers whose module claims no file, sorted by module.
pub open spec fn orphans(root: Seq<char>, specs: Seq<SpecFile>, files: Seq<String>, ms: Seq<Matcher>) -> Seq<OrphanModel>
    decreases ms.len(),
{
    if ms.len() == 0 {
        Seq::empty()
    } else {
        let rest = orphans(root, specs, files, ms.drop_last());
        let m = ms.last();
        if claimed_by_module(root, spec_matchers(root, specs), files, m.0) {
            rest
        } else {
            insert_orphan(rest, (m.0, m.1, first_path_glob(specs, m.0)))
        }
    }
}

/// The spec paths of the specs declaring `module`, in order: the path as
/// given, or `<module>`.
pub open spec fn module_spec_paths(specs: Seq<SpecFile>, module: Seq<char>) -> Seq<Seq<char>>
    decreases specs.len(),
{
    if specs.len() == 0 {
        Seq::empty()
    } else {
        let rest = module_spec_paths(specs.drop_last(), module);
        let s = specs.last();
        if s.module@ == module {
            rest.push(
                match s.spec_path {
                    Some(p) => p@,
                    None => "<"@ + module + ">"@,
                },
            )
        } else {
            rest
        }
    }
}

/// The modules declared by two or more specs, with their spec paths sorted.
pub open spec fn duplicates_of(specs: Seq<SpecFile>, modules: Seq<Seq<char>>) -> Seq<(Seq<char>, Seq<Seq<char>>)>
    decreases modules.len(),
{
    if modules.len() == 0 {
        Seq::empty()
    } else {
        let rest = duplicates_of(specs, modules.drop_last());
        let m = modules.last();
        let paths = module_spec_paths(specs, m);
        if paths.len() >= 2 {
            rest.push((m, sort_texts(paths)))
        } else {
            rest
        }
    }
}

pub open spec fn overlap_views(v: Seq<OverlapEntry>) -> Seq<(Seq<char>, Seq<Seq<char>>)> {
    v.map_values(|e: OverlapEntry| (e.file@, views(e.claimed_by@)))
}

pub open spec fn duplicate_views(v: Seq<DuplicateModule>) -> Seq<(Seq<char>, Seq<Seq<char>>)> {
    v.map_values(|e: DuplicateModule| (e.module_id@, views(e.spec_paths@)))
}

pub open spec fn orphan_views(v: Seq<OrphanedSpec>) -> Seq<OrphanModel> {
    v.map_values(|e: OrphanedSpec| (e.module_id@, e.spec_path@, e.path_glob@))
}

/// Inserts a text into a sorted list (see `insert_text`).
fn insert_text_exec(v: &mut Vec<String>, x: String)
    ensures
        views(final(v)@) == insert_text(views(old(v)@), x@),
{
    let ghost s = views(v@);
    let mut i: usize = 0;
    assert(s.take(0) + s.skip(0) =~= s);
    while i < v.len() && str_order(v[i].as_str(), x.as_str()) <= 0
        invariant
            i <= v@.len(),
            s == views(v@),
            insert_text(s, x@) == s.take(i as int) + insert_text(s.skip(i as int), x@),
        decreases v@.len() - i,
    {
        let ghost rest = s.skip(i as int);
        assert(rest[0] == s[i as int]);
        assert(rest.drop_first() =~= s.skip(i + 1));
        assert(s.take(i as int) + (seq![rest[0]] + insert_text(s.skip(i + 1), x@)) =~= s.take(i + 1) + insert_text(
            s.skip(i + 1),
            x@,
        ));
        i = i + 1;
    }
    let ghost rest = s.skip(i as int);
    if i < v.len() {
        assert(rest[0] == s[i as int]);
    }
    let ghost xv = x@;
    v.insert(i, x);
    assert(views(v@) =~= s.take(i as int) + (seq![xv] + rest));
}

/// The texts sorted stably (see `sort_texts`).
fn sort_texts_exec(v: &Vec<String>) -> (r: Vec<String>)
    ensures
        views(r@) == sort_texts(views(v@)),
{
    let mut out: Vec<String> = Vec::new();
    let mut i: usize = 0;
    assert(views(v@).take(0) =~= Seq::<Seq<char>>::empty());
    assert(views(out@) =~= sort_texts(views(v@).take(0)));
    while i < v.len()
        invariant
            i <= v@.len(),
            views(out@) == sort_texts(views(v@).take(i as int)),
        decreases v@.len() - i,
    {
        assert(views(v@).take(i + 1).drop_last() =~= views(v@).take(i as int));
        assert(views(v@).take(i + 1).last() == v@[i as int]@);
        insert_text_exec(&mut out, v[i].clone());
        i = i + 1;
    }
    assert(views(v@).take(i as int) =~= views(v@));
    out
}

/// Inserts an overlap into a list sorted by file (see `insert_overlap`).
fn insert_overlap_exec(v: &mut Vec<OverlapEntry>, x: OverlapEntry)
    ensures
        overlap_views(final(v)@) == insert_overlap(overlap_views(old(v)@), (x.file@, views(x.claimed_by@))),
{
    let ghost s = overlap_views(v@);
    let ghost xv = (x.file@, views(x.claimed_by@));
    let mut i: usize = 0;
    assert(s.take(0) + s.skip(0) =~= s);
    while i < v.len() && str_order(v[i].file.as_str(), x.file.as_str()) <= 0
        invariant
            i <= v@.len(),
            s == overlap_views(v@),
            xv == (x.file@, views(x.claimed_by@)),
            insert_overlap(s, xv) == s.take(i as int) + insert_overlap(s.skip(i as int), xv),
        decreases v@.len() - i,
    {
        let ghost rest = s.skip(i as int);
        assert(rest[0] == s[i as int]);
        assert(rest.drop_first() =~= s.skip(i + 1));
        assert(s.take(i as int) + (seq![rest[0]] + insert_overlap(s.skip(i + 1), xv)) =~= s.take(i + 1)
            + insert_overlap(s.skip(i + 1), xv));
        i = i + 1;
    }
    let ghost rest = s.skip(i as int);
    if i < v.len() {
        assert(rest[0] == s[i as int]);
    }
    v.insert(i, x);
    assert(overlap_views(v@) =~= s.take(i as int) + (seq![xv] + rest));
}

/// Inserts an orphan into a list sorted by module (see `insert_orphan`).
fn insert_orphan_exec(v: &mut Vec<OrphanedSpec>, x: OrphanedSpec)
    ensures
        orphan_views(final(v)@) == insert_orphan(orphan_views(old(v)@), (x.module_id@, x.spec_path@, x.path_glob@)),
{
    let ghost s = orphan_views(v@);
    let ghost xv = (x.module_id@, x.spec_path@, x.path_glob@);
    let mut i: usize = 0;
    assert(s.take(0) + s.skip(0) =~= s);
    while i < v.len() && str_order(v[i].module_id.as_str(), x.module_id.as_str()) <= 0
        invariant
            i <= v@.len(),
            s == orphan_views(v@),
            xv == (x.module_id@, x.spec_path@, x.path_glob@),
            insert_orphan(s, xv) == s.take(i as int) + insert_orphan(s.skip(i as int), xv),
        decreases v@.len() - i,
    {
        let ghost rest = s.skip(i as int);
        assert(rest[0] == s[i as int]);
        assert(rest.drop_first() =~= s.skip(i + 1));
        assert(s.take(i as int) + (seq![rest[0]] + insert_orphan(s.skip(i + 1), xv)) =~= s.take(i + 1)
            + insert_orphan(s.skip(i + 1), xv));
        i = i + 1;
    }
    let ghost rest = s.skip(i as int);
    if i < v.len() {
        assert(rest[0] == s[i as int]);
    }
    v.insert(i, x);
    assert(orphan_views(v@) =~= s.take(i as int) + (seq![xv] + rest));
}

/// A spec with a compiled path glob.
struct SpecMatcher {
    module: String,
    spec_path: String,
    glob: String,
    set: CompiledGlobSet,
}

spec fn matcher_ok(m: SpecMatcher) -> bool {
    m.set.ready() && views(m.set.patterns@) == seq![m.glob@]
}

spec fn matcher_models(v: Seq<SpecMatcher>) -> Seq<Matcher> {
    v.map_values(|m: SpecMatcher| (m.module@, m.spec_path@, m.glob@))
}

/// The specs with a path glob that compiles (see `spec_matchers`).
fn build_matchers(root: &str, specs: &[SpecFile]) -> (r: Vec<SpecMatcher>)
    ensures
        matcher_models(r@) == spec_matchers(root@, specs@),
        forall|k: int| 0 <= k < r@.len() ==> matcher_ok(#[trigger] r@[k]),
{
    let mut out: Vec<SpecMatcher> = Vec::new();
    let mut i: usize = 0;
    assert(matcher_models(out@) =~= spec_matchers(root@, specs@.take(0)));
    while i < specs.len()
        invariant
            i <= specs@.len(),
            matcher_models(out@) == spec_matchers(root@, specs@.take(i as int)),
            forall|k: int| 0 <= k < out@.len() ==> matcher_ok(#[trigger] out@[k]),
        decreases specs@.len() - i,
    {
        let spec = &specs[i];
        assert(specs@.take(i + 1).drop_last() =~= specs@.take(i as int));
        assert(specs@.take(i + 1).last() == *spec);
        if let Some(b) = &spec.boundaries {
            if let Some(p) = &b.path {
                let pats = vec![p.clone()];
                assert(views(pats@) =~= seq![p@]);
                match compile_optional_globset_strict(&pats) {
                    Ok(Some(set)) => {
                        let spec_path = match &spec.spec_path {
                            Some(sp) => normalize_repo_relative(root, sp.as_str()),
                            None => spec.module.clone(),
                        };
                        let m = SpecMatcher { module: spec.module.clone(), spec_path, glob: p.clone(), set };
                        let ghost before = out@;
                        out.push(m);
                        assert(matcher_models(out@) =~= matcher_models(before).push((m.module@, m.spec_path@, m.glob@)));
                    },
                    Ok(None) => {},
                    Err(_) => {
                        proof {
                            crate::rules::lemma_failed_compile_does_not_compile(views(pats@));
                        }
                    },
                }
            }
        }
        i = i + 1;
    }
    assert(specs@.take(i as int) =~= specs@);
    out
}

/// The modules whose glob matches `rel` (see `claimants`).
fn claimants_exec(ms: &Vec<SpecMatcher>, rel: &str) -> (r: Vec<String>)
    requires
        forall|k: int| 0 <= k < ms@.len() ==> matcher_ok(#[trigger] ms@[k]),
    ensures
        views(r@) == claimants(matcher_models(ms@), rel@),
{
    let ghost models = matcher_models(ms@);
    let mut out: Vec<String> = Vec::new();
    let mut i: usize = 0;
    assert(models.take(0) =~= Seq::<Matcher>::empty());
    assert(views(out@) =~= claimants(models.take(0), rel@));
    while i < ms.len()
        invariant
            i <= ms@.len(),
            models == matcher_models(ms@),
            forall|k: int| 0 <= k < ms@.len() ==> matcher_ok(#[trigger] ms@[k]),
            views(out@) == claimants(models.take(i as int), rel@),
        decreases ms@.len() - i,
    {
        assert(models.take(i + 1).drop_last() =~= models.take(i as int));
        assert(models.take(i + 1).last() == models[i as int]);
        assert(matcher_ok(ms@[i as int]));
        if ms[i].set.is_match(rel) {
            let ghost before = views(out@);
            out.push(ms[i].module.clone());
            assert(views(out@) =~= before.push(ms@[i as int].module@));
        }
        i = i + 1;
    }
    assert(models.take(i as int) =~= models);
    out
}

/// The path glob of the first spec declaring `module` (see `first_path_glob`).
fn first_path_glob_exec(specs: &[SpecFile], module: &str) -> (r: String)
    ensures
        r@ == first_path_glob(specs@, module@),
{
    let mut i: usize = 0;
    assert(specs@.skip(0) =~= specs@);
    while i < specs.len()
        invariant
            i <= specs@.len(),
            first_path_glob(specs@, module@) == first_path_glob(specs@.skip(i as int), module@),
        decreases specs@.len() - i,
    {
        let ghost rest = specs@.skip(i as int);
        assert(rest[0] == specs@[i as int]);
        if str_eq(specs[i].module.as_str(), module) {
            return match &specs[i].boundaries {
                Some(b) => match &b.path {
                    Some(p) => p.clone(),
                    None => String::new(),
                },
                None => String::new(),
            };
        }
        assert(rest.drop_first() =~= specs@.skip(i + 1));
        i = i + 1;
    }
    String::new()
}

/// The spec paths of the specs declaring `module` (see `module_spec_paths`).
fn module_spec_paths_exec(specs: &[SpecFile], module: &str) -> (r: Vec<String>)
    ensures
        views(r@) == module_spec_paths(specs@, module@),
{
    let mut out: Vec<String> = Vec::new();
    let mut i: usize = 0;
    assert(views(out@) =~= module_spec_paths(specs@.take(0), module@));
    while i < specs.len()
        invariant
            i <= specs@.len(),
            views(out@) == module_spec_paths(specs@.take(i as int), module@),
        decreases specs@.len() - i,
    {
        let spec = &specs[i];
        assert(specs@.take(i + 1).drop_last() =~= specs@.take(i as int));
        assert(specs@.take(i + 1).last() == *spec);
        if str_eq(spec.module.as_str(), module) {
            let path = match &spec.spec_path {
                Some(p) => p.clone(),
                None => {
                    let mut t = owned("<");
                    push_str(&mut t, module);
                    push_str(&mut t, ">");
                    t
                },
            };
            let ghost before = views(out@);
            out.push(path);
            assert(views(out@) =~= before.push(path@));
        }
        i = i + 1;
    }
    assert(specs@.take(i as int) =~= specs@);
    out
}

/// The modules declared by two or more specs (see `duplicates_of`).
fn detect_duplicate_module_ids(specs: &[SpecFile]) -> (r: Vec<DuplicateModule>)
    ensures
        duplicate_views(r@) == duplicates_of(specs@, sorted_seq_of(spec_modules(specs@))),
{
    let modules = sorted_spec_modules(specs);
    let ghost ms = views(modules@);
    let mut out: Vec<DuplicateModule> = Vec::new();
    let mut k: usize = 0;
    assert(ms.take(0) =~= Seq::<Seq<char>>::empty());
    assert(duplicate_views(out@) =~= duplicates_of(specs@, ms.take(0)));
    while k < modules.len()
        invariant
            k <= modules@.len(),
            ms == views(modules@),
            duplicate_views(out@) == duplicates_of(specs@, ms.take(k as int)),
        decreases modules@.len() - k,
    {
        assert(ms.take(k + 1).drop_last() =~= ms.take(k as int));
        assert(ms.take(k + 1).last() == modules@[k as int]@);
        let paths = module_spec_paths_exec(specs, modules[k].as_str());
        if paths.len() >= 2 {
            let entry = DuplicateModule { module_id: modules[k].clone(), spec_paths: sort_texts_exec(&paths) };
            let ghost before = out@;
            out.push(entry);
            assert(duplicate_views(out@) =~= duplicate_views(before).push((entry.module_id@, views(entry.spec_paths@))));
        }
        k = k + 1;
    }
    assert(ms.take(k as int) =~= ms);
    out
}

/// Validates ownership of source files across specs: which files no spec's
/// path glob claims, which several claim (claimants sorted), module ids
/// declared twice, and specs whose glob claims no file. Paths are reported
/// relative to `project_root`.
pub fn validate_ownership(project_root: &str, specs: &[SpecFile], source_files: &[String]) -> (r: OwnershipReport)
    ensures
        r.total_source_files == source_files@.len(),
        (r.claimed_files as int, views(r.unclaimed_files@), overlap_views(r.overlapping_files@)) == ownership_of(
            project_root@,
            spec_matchers(project_root@, specs@),
            source_files@,
        ),
        duplicate_views(r.duplicate_module_ids@) == duplicates_of(specs@, sorted_seq_of(spec_modules(specs@))),
        orphan_views(r.orphaned_specs@) == orphans(
            project_root@,
            specs@,
            source_files@,
            spec_matchers(project_root@, specs@),
        ),
{
    let duplicate_module_ids = detect_duplicate_module_ids(specs);
    let matchers = build_matchers(project_root, specs);
    let ghost ms = matcher_models(matchers@);
    let mut claimed: usize = 0;
    let mut unclaimed: Vec<String> = Vec::new();
    let mut overlapping: Vec<OverlapEntry> = Vec::new();
    let mut claims: Vec<Vec<String>> = Vec::new();
    let mut i: usize = 0;
    assert(source_files@.take(0) =~= Seq::<String>::empty());
    assert(views(unclaimed@) =~= Seq::<Seq<char>>::empty());
    assert(overlap_views(overlapping@) =~= Seq::<(Seq<char>, Seq<Seq<char>>)>::empty());
    while i < source_files.len()
        invariant
            i <= source_files@.len(),
            ms == matcher_models(matchers@),
            ms == spec_matchers(project_root@, specs@),
            forall|k: int| 0 <= k < matchers@.len() ==> matcher_ok(#[trigger] matchers@[k]),
            claimed <= i,
            claims@.len() == i,
            forall|q: int|
                0 <= q < i ==> views((#[trigger] claims@[q])@) == claimants(ms, repo_relative(project_root@, source_files@[q]@)),
            (claimed as int, views(unclaimed@), overlap_views(overlapping@)) == ownership_of(
                project_root@,
                ms,
                source_files@.take(i as int),
            ),
        decreases source_files@.len() - i,
    {
        assert(source_files@.take(i + 1).drop_last() =~= source_files@.take(i as int));
        assert(source_files@.take(i + 1).last() == source_files@[i as int]);
        let rel = normalize_repo_relative(project_root, source_files[i].as_str());
        let c = claimants_exec(&matchers, rel.as_str());
        if c.len() == 0 {
            insert_text_exec(&mut unclaimed, rel);
        } else if c.len() == 1 {
            claimed = claimed + 1;
        } else {
            claimed = claimed + 1;
            let sorted = sort_texts_exec(&c);
            insert_overlap_exec(&mut overlapping, OverlapEntry { file: rel, claimed_by: sorted });
        }
        claims.push(c);
        i = i + 1;
    }
    assert(source_files@.take(i as int) =~= source_files@);
    let mut orphaned: Vec<OrphanedSpec> = Vec::new();
    let mut k: usize = 0;
    assert(ms.take(0) =~= Seq::<Matcher>::empty());
    assert(orphan_views(orphaned@) =~= orphans(project_root@, specs@, source_files@, ms.take(0)));
    while k < matchers.len()
        invariant
            k <= matchers@.len(),
            ms == matcher_models(matchers@),
            ms == spec_matchers(project_root@, specs@),
            claims@.len() == source_files@.len(),
            forall|q: int|
                0 <= q < source_files@.len() ==> views((#[trigger] claims@[q])@) == claimants(
                    ms,
                    repo_relative(project_root@, source_files@[q]@),
                ),
            orphan_views(orphaned@) == orphans(project_root@, specs@, source_files@, ms.take(k as int)),
        decreases matchers@.len() - k,
    {
        let m = &matchers[k];
        assert(ms.take(k + 1).drop_last() =~= ms.take(k as int));
        assert(ms.take(k + 1).last() == ms[k as int]);
        let mut found = false;
        let mut q: usize = 0;
        while q < claims.len()
            invariant
                q <= claims@.len(),
                claims@.len() == source_files@.len(),
                forall|j: int|
                    0 <= j < source_files@.len() ==> views((#[trigger] claims@[j])@) == claimants(
                        ms,
                        repo_relative(project_root@, source_files@[j]@),
                    ),
                found == exists|j: int|
                    0 <= j < q && claimants(ms, repo_relative(project_root@, (#[trigger] source_files@[j])@)).contains(
                        m.module@,
                    ),
            decreases claims@.len() - q,
        {
            if strings_contain(&claims[q], m.module.as_str()) {
                found = true;
            }
            assert(views(claims@[q as int]@) == claimants(ms, repo_relative(project_root@, source_files@[q as int]@)));
            q = q + 1;
        }
        assert(found == claimed_by_module(project_root@, ms, source_files@, m.module@));
        if !found {
            let glob = first_path_glob_exec(specs, m.module.as_str());
            insert_orphan_exec(
                &mut orphaned,
                OrphanedSpec { module_id: m.module.clone(), spec_path: m.spec_path.clone(), path_glob: glob },
            );
        }
        k = k + 1;
    }
    assert(ms.take(k as int) =~= ms);
    OwnershipReport {
        total_source_files: source_files.len(),
        claimed_files: claimed,
        unclaimed_files: unclaimed,
        overlapping_files: overlapping,
        duplicate_module_ids,
        orphaned_specs: orphaned,
    }
}

proof fn lemma_insert_text_len(s: Seq<Seq<char>>, x: Seq<char>)
    ensures
        insert_text(s, x).len() == s.len() + 1,
    decreases s.len(),
{
    if s.len() > 0 && seq_order(s[0], x) <= 0 {
        lemma_insert_text_len(s.drop_first(), x);
    }
}

/// Every source file is counted once: claimed, or listed as unclaimed.
pub proof fn law_every_file_claimed_or_unclaimed(root: Seq<char>, ms: Seq<Matcher>, files: Seq<String>)
    ensures
        ownership_of(root, ms, files).0 + ownership_of(root, ms, files).1.len() == files.len(),
    decreases files.len(),
{
    if files.len() > 0 {
        law_every_file_claimed_or_unclaimed(root, ms, files.drop_last());
        let (claimed, unclaimed, overlaps) = ownership_of(root, ms, files.drop_last());
        lemma_insert_text_len(unclaimed, repo_relative(root, files.last()@));
    }
}

} // verus!
