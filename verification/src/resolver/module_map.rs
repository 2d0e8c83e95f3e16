//! Module membership: which module each project file belongs to, by the
//! module globs of the specs, and the files that several modules claim.
use vstd::prelude::*;

use super::ModuleMapOverlap;
use crate::glob::{
    all_path_globs_build, build_literal_globset, globset_literal, globset_patterns, literal_globset_error,
    literal_globset_matched, literal_globset_set_matches, path_glob_build_error, path_glob_error,
};
use crate::order::{
    first_after, insert_stable, lemma_comps_order_facts, lemma_first_after_bounds, lemma_seq_order_facts,
    path_compare, path_order, sort_by_key, stable_sort, KeyOrdered,
};
use crate::paths::path_components;
use crate::spec::types::SpecFile;
use crate::text::{owned, push_str, seq_order, str_eq, str_order, trim_slashes, trim_slashes_str, views};

verus! {

/// Why the module map could not be built.
#[derive(Debug, Clone, PartialEq, Eq)]
pub enum ResolverError {
    /// A module's glob is invalid.
    InvalidModuleGlob { module: String, pattern: String, message: String },
    /// The set of module globs does not build.
    InvalidModuleGlobSet { message: String },
}

pub ghost enum ResolverIssue {
    InvalidModuleGlob { module: Seq<char>, pattern: Seq<char>, message: Seq<char> },
    InvalidModuleGlobSet { message: Seq<char> },
}

impl View for ResolverError {
    type V = ResolverIssue;

    open spec fn view(&self) -> ResolverIssue {
        match self {
            ResolverError::InvalidModuleGlob { module, pattern, message } => ResolverIssue::InvalidModuleGlob {
                module: module@,
                pattern: pattern@,
                message: message@,
            },
            ResolverError::InvalidModuleGlobSet { message } => ResolverIssue::InvalidModuleGlobSet {
                message: message@,
            },
        }
    }
}

/// A file found under the project root: its path as walked, its path
/// relative to the root with forward slashes, and its canonical path.
#[derive(Debug, Clone, PartialEq, Eq)]
pub struct ProjectFile {
    pub path: String,
    pub relative: String,
    pub canonical: String,
}

impl KeyOrdered for ProjectFile {
    /// By walked path, component by component.
    open spec fn key_order(a: Self, b: Self) -> int {
        path_order(a.path@, b.path@)
    }

    proof fn lemma_key_order(a: Self, b: Self, c: Self) {
        lemma_comps_order_facts(path_components(a.path@), path_components(b.path@), path_components(c.path@));
    }

    fn key_compare(&self, other: &Self) -> (r: i8) {
        path_compare(self.path.as_str(), other.path.as_str())
    }
}

/// A module and its glob.
#[derive(Debug, Clone)]
pub struct ModuleGlob {
    pub module: String,
    pub pattern: String,
}

impl KeyOrdered for ModuleGlob {
    /// By module.
    open spec fn key_order(a: Self, b: Self) -> int {
        seq_order(a.module@, b.module@)
    }

    proof fn lemma_key_order(a: Self, b: Self, c: Self) {
        lemma_seq_order_facts(a.module@, b.module@, c.module@);
    }

    fn key_compare(&self, other: &Self) -> (r: i8) {
        str_order(self.module.as_str(), other.module.as_str())
    }
}

pub type GlobModel = (Seq<char>, Seq<char>);

pub open spec fn glob_model(g: ModuleGlob) -> GlobModel {
    (g.module@, g.pattern@)
}

pub open spec fn glob_models(v: Seq<ModuleGlob>) -> Seq<GlobModel> {
    v.map_values(|g: ModuleGlob| glob_model(g))
}

/// A spec's module glob: its boundary path, or every file under the
/// directory named by the module (slashes around it removed).
pub open spec fn spec_module_glob(s: SpecFile) -> Seq<char> {
    let default = trim_slashes(s.module@) + "/**/*"@;
    match s.boundaries {
        Some(b) => match b.path {
            Some(p) => p@,
            None => default,
        },
        None => default,
    }
}

pub open spec fn glob_first_after(s: Seq<GlobModel>, x: GlobModel) -> int
    decreases s.len(),
{
    if s.len() == 0 {
        0
    } else if seq_order(s[0].0, x.0) > 0 {
        0
    } else {
        1 + glob_first_after(s.drop_first(), x)
    }
}

/// Module globs sorted stably by module: specs of one module keep their order.
pub open spec fn sort_globs_by_module(s: Seq<GlobModel>) -> Seq<GlobModel>
    decreases s.len(),
{
    if s.len() == 0 {
        Seq::empty()
    } else {
        let t = sort_globs_by_module(s.drop_last());
        let p = glob_first_after(t, s.last());
        t.take(p).push(s.last()) + t.skip(p)
    }
}

/// The module globs of the specs, sorted by module.
pub open spec fn module_globs(specs: Seq<SpecFile>) -> Seq<GlobModel> {
    sort_globs_by_module(specs.map_values(|s: SpecFile| (s.module@, spec_module_glob(s))))
}

proof fn lemma_glob_first_after(t: Seq<ModuleGlob>, x: ModuleGlob)
    ensures
        first_after(t, x) == glob_first_after(glob_models(t), glob_model(x)),
    decreases t.len(),
{
    if t.len() > 0 {
        assert(glob_models(t).drop_first() =~= glob_models(t.drop_first()));
        lemma_glob_first_after(t.drop_first(), x);
    }
}

proof fn lemma_sort_globs(s: Seq<ModuleGlob>)
    ensures
        glob_models(stable_sort(s)) == sort_globs_by_module(glob_models(s)),
    decreases s.len(),
{
    if s.len() > 0 {
        lemma_sort_globs(s.drop_last());
        assert(glob_models(s).drop_last() =~= glob_models(s.drop_last()));
        let t = stable_sort(s.drop_last());
        lemma_glob_first_after(t, s.last());
        lemma_first_after_bounds(t, s.last());
        let p = first_after(t, s.last());
        assert(glob_models(insert_stable(t, s.last())) =~= glob_models(t).take(p).push(glob_model(s.last()))
            + glob_models(t).skip(p));
    } else {
        assert(glob_models(s) =~= Seq::<GlobModel>::empty());
    }
}

/// The patterns of sorted module globs.
pub open spec fn glob_patterns(g: Seq<GlobModel>) -> Seq<Seq<char>> {
    g.map_values(|m: GlobModel| m.1)
}

/// The error of the first module glob that does not build.
pub open spec fn first_glob_issue(g: Seq<GlobModel>) -> Option<ResolverIssue>
    decreases g.len(),
{
    if g.len() == 0 {
        None
    } else if path_glob_error(g[0].1) is Some {
        Some(
            ResolverIssue::InvalidModuleGlob {
                module: g[0].0,
                pattern: g[0].1,
                message: path_glob_error(g[0].1)->0,
            },
        )
    } else {
        first_glob_issue(g.drop_first())
    }
}

/// Consecutive repeats removed (`Vec::dedup`).
pub open spec fn dedup_runs(s: Seq<Seq<char>>) -> Seq<Seq<char>>
    decreases s.len(),
{
    if s.len() == 0 {
        Seq::empty()
    } else {
        let r = dedup_runs(s.drop_last());
        if r.len() > 0 && r.last() == s.last() {
            r
        } else {
            r.push(s.last())
        }
    }
}

/// The sequence numbers of the globs that match a path, increasing.
pub open spec fn matched_indices(g: Seq<GlobModel>, path: Seq<char>) -> Seq<int> {
    Seq::new(g.len(), |i: int| i).filter(|i: int| literal_globset_matched(glob_patterns(g), path).contains(i))
}

/// An overlap as contracts describe it: file, selected module, matched modules.
pub type OverlapModel = (Seq<char>, Seq<char>, Seq<Seq<char>>);

pub open spec fn overlap_model(o: ModuleMapOverlap) -> OverlapModel {
    (o.file@, o.selected_module@, views(o.matched_modules@))
}

/// The module map and overlaps after the files in order: a file that some
/// glob matches belongs to the module of the first glob that matches it (a
/// later file with the same canonical path replaces it); a file whose matches
/// name more than one module (repeats in a row removed) is an overlap.
pub open spec fn assign_files(g: Seq<GlobModel>, files: Seq<ProjectFile>) -> (Map<Seq<char>, Seq<char>>, Seq<OverlapModel>)
    decreases files.len(),
{
    if files.len() == 0 {
        (Map::empty(), Seq::empty())
    } else {
        let acc = assign_files(g, files.drop_last());
        let f = files.last();
        let idx = matched_indices(g, f.relative@);
        if idx.len() == 0 {
            acc
        } else {
            let selected = g[idx[0]].0;
            let mods = dedup_runs(idx.map_values(|i: int| g[i].0));
            (
                acc.0.insert(f.canonical@, selected),
                if idx.len() > 1 && mods.len() > 1 {
                    acc.1.push((f.canonical@, selected, mods))
                } else {
                    acc.1
                },
            )
        }
    }
}

/// The module map of the project: the specs' module globs sorted by module,
/// the first invalid glob or a set that does not build as the error, else the
/// files in path order assigned as `assign_files` says.
pub open spec fn module_map_of(specs: Seq<SpecFile>, files: Seq<ProjectFile>) -> Result<
    (Map<Seq<char>, Seq<char>>, Seq<OverlapModel>),
    ResolverIssue,
> {
    let g = module_globs(specs);
    match first_glob_issue(g) {
        Some(e) => Err(e),
        None => match literal_globset_error(glob_patterns(g)) {
            Some(m) => Err(ResolverIssue::InvalidModuleGlobSet { message: m }),
            None => Ok(assign_files(g, stable_sort(files))),
        },
    }
}

/// File-to-module assignments, later ones replacing earlier ones.
pub open spec fn entries_map(e: Seq<(String, String)>) -> Map<Seq<char>, Seq<char>>
    decreases e.len(),
{
    if e.len() == 0 {
        Map::empty()
    } else {
        entries_map(e.drop_last()).insert(e.last().0@, e.last().1@)
    }
}

/// The module of each file and the overlaps found.
#[derive(Debug)]
pub struct ModuleMap {
    pub entries: Vec<(String, String)>,
    pub overlaps: Vec<ModuleMapOverlap>,
}

impl ModuleMap {
    /// The module a file (by canonical path) belongs to.
    pub fn module_for_file(&self, canonical: &str) -> (r: Option<&str>)
        ensures
            match r {
                Some(m) => entries_map(self.entries@).contains_key(canonical@) && entries_map(
                    self.entries@,
                )[canonical@] == m@,
                None => !entries_map(self.entries@).contains_key(canonical@),
            },
    {
        let mut i: usize = self.entries.len();
        while i > 0
            invariant
                i <= self.entries@.len(),
                forall|k: int| i <= k < self.entries@.len() ==> self.entries@[k].0@ != canonical@,
            decreases i,
        {
            if str_eq(self.entries[i - 1].0.as_str(), canonical) {
                proof {
                    lemma_entries_last(self.entries@, (i - 1) as int, canonical@);
                }
                return Some(self.entries[i - 1].1.as_str());
            }
            i = i - 1;
        }
        proof {
            lemma_entries_absent(self.entries@, canonical@);
        }
        None
    }

    /// The overlap diagnostics.
    pub fn module_map_overlaps(&self) -> (r: &[ModuleMapOverlap])
        ensures
            r@ == self.overlaps@,
    {
        self.overlaps.as_slice()
    }
}

proof fn lemma_entries_last(e: Seq<(String, String)>, k: int, key: Seq<char>)
    requires
        0 <= k < e.len(),
        e[k].0@ == key,
        forall|j: int| k < j < e.len() ==> e[j].0@ != key,
    ensures
        entries_map(e).contains_key(key),
        entries_map(e)[key] == e[k].1@,
    decreases e.len(),
{
    if k < e.len() - 1 {
        lemma_entries_last(e.drop_last(), k, key);
    }
}

proof fn lemma_entries_absent(e: Seq<(String, String)>, key: Seq<char>)
    requires
        forall|j: int| 0 <= j < e.len() ==> e[j].0@ != key,
    ensures
        !entries_map(e).contains_key(key),
    decreases e.len(),
{
    if e.len() > 0 {
        lemma_entries_absent(e.drop_last(), key);
    }
}

fn module_glob_of(s: &SpecFile) -> (r: ModuleGlob)
    ensures
        glob_model(r) == (s.module@, spec_module_glob(*s)),
{
    let mut default = owned(trim_slashes_str(s.module.as_str()));
    push_str(&mut default, "/**/*");
    let pattern = match &s.boundaries {
        Some(b) => match &b.path {
            Some(p) => p.clone(),
            None => default,
        },
        None => default,
    };
    ModuleGlob { module: s.module.clone(), pattern }
}

/// The first glob that does not build, or `None`.
fn first_invalid_glob(g: &Vec<ModuleGlob>) -> (r: Option<ResolverError>)
    ensures
        match r {
            Some(e) => first_glob_issue(glob_models(g@)) == Some(e@),
            None => first_glob_issue(glob_models(g@)) is None && all_path_globs_build(
                glob_patterns(glob_models(g@)),
            ),
        },
{
    let ghost gm = glob_models(g@);
    let mut i: usize = 0;
    assert(gm.skip(0) =~= gm);
    while i < g.len()
        invariant
            gm == glob_models(g@),
            i <= g@.len(),
            first_glob_issue(gm) == first_glob_issue(gm.skip(i as int)),
            forall|k: int| 0 <= k < i ==> path_glob_error(#[trigger] gm[k].1) is None,
        decreases g@.len() - i,
    {
        assert(gm.skip(i as int)[0] == gm[i as int]);
        match path_glob_build_error(g[i].pattern.as_str()) {
            Some(message) => {
                return Some(
                    ResolverError::InvalidModuleGlob {
                        module: g[i].module.clone(),
                        pattern: g[i].pattern.clone(),
                        message,
                    },
                );
            },
            None => {},
        }
        assert(gm.skip(i as int).drop_first() =~= gm.skip(i + 1));
        i = i + 1;
    }
    assert forall|k: int| 0 <= k < glob_patterns(gm).len() implies path_glob_error(
        #[trigger] glob_patterns(gm)[k],
    ) is None by {
        assert(glob_patterns(gm)[k] == gm[k].1);
    }
    None
}

fn contains_index(v: &Vec<usize>, x: usize) -> (r: bool)
    ensures
        r == v@.map_values(|i: usize| i as int).to_set().contains(x as int),
{
    let mut k: usize = 0;
    while k < v.len()
        invariant
            k <= v@.len(),
            forall|j: int| 0 <= j < k ==> v@[j] != x,
        decreases v@.len() - k,
    {
        if v[k] == x {
            assert(v@.map_values(|i: usize| i as int)[k as int] == x as int);
            return true;
        }
        k = k + 1;
    }
    let ghost vm = v@.map_values(|i: usize| i as int);
    assert(!vm.contains(x as int)) by {
        if vm.contains(x as int) {
            let j = choose|j: int| 0 <= j < vm.len() && #[trigger] vm[j] == x as int;
            assert(v@[j] == x);
        }
    }
    false
}

/// Assigns one file (see `assign_files`).
fn assign_file(
    g: &Vec<ModuleGlob>,
    patterns: &Vec<String>,
    set: &globset::GlobSet,
    f: &ProjectFile,
    entries: &mut Vec<(String, String)>,
    overlaps: &mut Vec<ModuleMapOverlap>,
    Ghost(before): Ghost<Seq<ProjectFile>>,
)
    requires
        views(patterns@) == glob_patterns(glob_models(g@)),
        all_path_globs_build(views(patterns@)),
        literal_globset_error(views(patterns@)) is None,
        globset_literal(*set),
        globset_patterns(*set) == views(patterns@),
        (entries_map(old(entries)@), old(overlaps)@.map_values(|o: ModuleMapOverlap| overlap_model(o)))
            == assign_files(glob_models(g@), before),
    ensures
        (entries_map(final(entries)@), final(overlaps)@.map_values(|o: ModuleMapOverlap| overlap_model(o)))
            == assign_files(glob_models(g@), before.push(*f)),
{
    let ghost gm = glob_models(g@);
    let ghost matched = literal_globset_matched(glob_patterns(gm), f.relative@);
    assert(before.push(*f).drop_last() =~= before);
    let found = literal_globset_set_matches(set, f.relative.as_str());
    let mut idx: Vec<usize> = Vec::new();
    let mut i: usize = 0;
    while i < g.len()
        invariant
            gm == glob_models(g@),
            matched == literal_globset_matched(glob_patterns(gm), f.relative@),
            found@.map_values(|x: usize| x as int).to_set() == matched,
            i <= g@.len(),
            idx@.map_values(|x: usize| x as int) == Seq::new(i as nat, |k: int| k).filter(|k: int| matched.contains(k)),
            forall|k: int| 0 <= k < idx@.len() ==> (#[trigger] idx@[k]) < i,
        decreases g@.len() - i,
    {
        let ghost prev = Seq::new(i as nat, |k: int| k);
        let ghost nxt = Seq::new((i + 1) as nat, |k: int| k);
        assert(nxt.drop_last() =~= prev);
        assert(nxt.last() == i as int);
        reveal(Seq::filter);
        assert(nxt.filter(|k: int| matched.contains(k)) == if matched.contains(i as int) {
            prev.filter(|k: int| matched.contains(k)).push(i as int)
        } else {
            prev.filter(|k: int| matched.contains(k))
        });
        if contains_index(&found, i) {
            let ghost old_idx = idx@;
            idx.push(i);
            assert(idx@.map_values(|x: usize| x as int) =~= old_idx.map_values(|x: usize| x as int).push(i as int));
        }
        i = i + 1;
    }
    assert(Seq::new(g@.len() as nat, |k: int| k) =~= Seq::new(gm.len(), |k: int| k));
    let ghost im = idx@.map_values(|x: usize| x as int);
    assert(im == matched_indices(gm, f.relative@));
    if idx.len() == 0 {
        return;
    }
    let selected = g[idx[0]].module.clone();
    assert(selected@ == gm[im[0]].0);
    let mut modules: Vec<String> = Vec::new();
    let mut j: usize = 0;
    while j < idx.len()
        invariant
            gm == glob_models(g@),
            im == idx@.map_values(|x: usize| x as int),
            forall|k: int| 0 <= k < idx@.len() ==> (#[trigger] idx@[k]) < g@.len(),
            j <= idx@.len(),
            views(modules@) == dedup_runs(im.take(j as int).map_values(|k: int| gm[k].0)),
        decreases idx@.len() - j,
    {
        let m = &g[idx[j]].module;
        let ghost ms = im.take(j + 1).map_values(|k: int| gm[k].0);
        assert(ms.drop_last() =~= im.take(j as int).map_values(|k: int| gm[k].0));
        assert(ms.last() == m@);
        let n = modules.len();
        if n > 0 && str_eq(modules[n - 1].as_str(), m.as_str()) {
            assert(views(modules@).last() == modules@[n - 1]@);
        } else {
            let ghost old_m = views(modules@);
            modules.push(m.clone());
            assert(views(modules@) =~= old_m.push(m@));
        }
        j = j + 1;
    }
    assert(im.take(idx@.len() as int) =~= im);
    let ghost old_entries = entries@;
    entries.push((f.canonical.clone(), selected.clone()));
    assert(entries@.drop_last() =~= old_entries);
    if idx.len() > 1 && modules.len() > 1 {
        let ghost old_ov = overlaps@;
        overlaps.push(
            ModuleMapOverlap { file: f.canonical.clone(), selected_module: selected, matched_modules: modules },
        );
        assert(overlaps@.map_values(|o: ModuleMapOverlap| overlap_model(o)) =~= old_ov.map_values(
            |o: ModuleMapOverlap| overlap_model(o),
        ).push(overlap_model(overlaps@.last())));
    }
}

/// Builds the module map (see `module_map_of`): which module each file
/// belongs to, and the files that several modules claim.
pub fn build_module_map(specs: &[SpecFile], files: &[ProjectFile]) -> (r: Result<ModuleMap, ResolverError>)
    ensures
        match r {
            Ok(m) => module_map_of(specs@, files@) == Ok::<_, ResolverIssue>(
                (entries_map(m.entries@), m.overlaps@.map_values(|o: ModuleMapOverlap| overlap_model(o))),
            ),
            Err(e) => module_map_of(specs@, files@) == Err::<(Map<Seq<char>, Seq<char>>, Seq<OverlapModel>), _>(
                e@,
            ),
        },
{
    let mut globs: Vec<ModuleGlob> = Vec::new();
    let mut i: usize = 0;
    while i < specs.len()
        invariant
            i <= specs@.len(),
            glob_models(globs@) == specs@.take(i as int).map_values(|s: SpecFile| (s.module@, spec_module_glob(s))),
        decreases specs@.len() - i,
    {
        let gl = module_glob_of(&specs[i]);
        let ghost before = globs@;
        globs.push(gl);
        assert(glob_models(globs@) =~= glob_models(before).push(glob_model(gl)));
        assert(specs@.take(i + 1).map_values(|s: SpecFile| (s.module@, spec_module_glob(s))) =~= specs@.take(
            i as int,
        ).map_values(|s: SpecFile| (s.module@, spec_module_glob(s))).push((specs@[i as int].module@, spec_module_glob(specs@[i as int]))));
        i = i + 1;
    }
    assert(specs@.take(specs@.len() as int) =~= specs@);
    let ghost unsorted = globs@;
    sort_by_key(&mut globs);
    proof {
        lemma_sort_globs(unsorted);
    }
    let ghost gm = glob_models(globs@);
    assert(gm == module_globs(specs@));
    match first_invalid_glob(&globs) {
        Some(e) => {
            return Err(e);
        },
        None => {},
    }
    let mut patterns: Vec<String> = Vec::new();
    let mut k: usize = 0;
    while k < globs.len()
        invariant
            gm == glob_models(globs@),
            k <= globs@.len(),
            views(patterns@) == glob_patterns(gm).take(k as int),
        decreases globs@.len() - k,
    {
        let ghost before = views(patterns@);
        patterns.push(globs[k].pattern.clone());
        assert(glob_patterns(gm)[k as int] == globs@[k as int].pattern@);
        assert(glob_patterns(gm).take(k + 1) =~= glob_patterns(gm).take(k as int).push(globs@[k as int].pattern@));
        assert(views(patterns@) =~= before.push(globs@[k as int].pattern@));
        k = k + 1;
    }
    assert(glob_patterns(gm).take(k as int) =~= glob_patterns(gm));
    let set = match build_literal_globset(&patterns) {
        Err(message) => {
            return Err(ResolverError::InvalidModuleGlobSet { message });
        },
        Ok(set) => set,
    };
    let mut sorted_files: Vec<ProjectFile> = Vec::new();
    let mut c: usize = 0;
    while c < files.len()
        invariant
            c <= files@.len(),
            sorted_files@ == files@.take(c as int),
        decreases files@.len() - c,
    {
        let f = &files[c];
        sorted_files.push(
            ProjectFile { path: f.path.clone(), relative: f.relative.clone(), canonical: f.canonical.clone() },
        );
        assert(sorted_files@ =~= files@.take(c + 1));
        c = c + 1;
    }
    assert(files@.take(c as int) =~= files@);
    sort_by_key(&mut sorted_files);
    let mut entries: Vec<(String, String)> = Vec::new();
    let mut overlaps: Vec<ModuleMapOverlap> = Vec::new();
    let mut q: usize = 0;
    assert(overlaps@.map_values(|o: ModuleMapOverlap| overlap_model(o)) =~= Seq::<OverlapModel>::empty());
    while q < sorted_files.len()
        invariant
            gm == glob_models(globs@),
            views(patterns@) == glob_patterns(gm),
            all_path_globs_build(views(patterns@)),
            literal_globset_error(views(patterns@)) is None,
            globset_literal(set),
            globset_patterns(set) == views(patterns@),
            q <= sorted_files@.len(),
            (entries_map(entries@), overlaps@.map_values(|o: ModuleMapOverlap| overlap_model(o))) == assign_files(
                gm,
                sorted_files@.take(q as int),
            ),
        decreases sorted_files@.len() - q,
    {
        assert(sorted_files@.take(q + 1) =~= sorted_files@.take(q as int).push(sorted_files@[q as int]));
        assign_file(&globs, &patterns, &set, &sorted_files[q], &mut entries, &mut overlaps, Ghost(sorted_files@.take(q as int)));
        q = q + 1;
    }
    assert(sorted_files@.take(q as int) =~= sorted_files@);
    Ok(ModuleMap { entries, overlaps })
}

} // verus!
