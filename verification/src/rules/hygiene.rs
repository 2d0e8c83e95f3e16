//! Import hygiene: rule identifiers and package-name parsing.
use vstd::prelude::*;

use super::boundary::{set_patterns, spec_for_module, spec_index_for_module, test_globs};
use super::{
    compile_optional_globset_strict, compiles, glob_compile_outcome, is_test_file, lemma_failed_compile_does_not_compile,
    matches_test_file, push_violation, rule_violation_model, rule_violation_models, sort_violations_stable, CompiledGlobSet,
    GlobCompileError, RuleContext, RuleViolation, RuleViolationModel,
};
use crate::order::{lemma_multiset_map, sorted_by_key};
use crate::paths::normalize_repo_relative;
use crate::glob::{glob_is_match, glob_matches, glob_new_error, glob_new_error_text, globset_matches};
use crate::graph::{DependencyGraph, FileAnalysis, GraphEdge, ImportInfo, ReExportInfo, SpecifierSite};
use crate::paths::repo_relative;
use crate::resolver::classify::{package_name_of, without_node_prefix};
use crate::text::has_prefix;
use crate::spec::config::{DenyDeepImportEntry, ImportHygieneConfig, TestBoundaryMode};
use crate::spec::types::{ModuleDenyDeepImportEntry, ModuleImportHygiene, Severity, SpecFile};
use crate::text::{
    copy_strings, decimal, decimal_string, find_char, index_of, owned, push_str, slice_chars, split_char, split_on, str_eq, views,
};

verus! {

pub const HYGIENE_DEEP_THIRD_PARTY_RULE_ID: &'static str = "hygiene.deep_third_party_import";

pub const HYGIENE_TEST_IN_PRODUCTION_RULE_ID: &'static str = "hygiene.test_in_production";

pub const HYGIENE_CONFIG_ERROR_RULE_ID: &'static str = "hygiene.config_error";

pub const HYGIENE_UNRESOLVED_IMPORT_RULE_ID: &'static str = "hygiene.unresolved_import";

/// Position of the separator between a package name and its subpath: the
/// second `/` of a scoped (`@`) specifier, the first `/` otherwise; -1 when
/// there is none.
pub open spec fn package_split(s: Seq<char>) -> int {
    if s.len() > 0 && s[0] == '@' {
        let first = index_of(s, '/');
        if first < 0 {
            -1
        } else {
            let second = index_of(s.skip(first + 1), '/');
            if second < 0 {
                -1
            } else {
                first + 1 + second
            }
        }
    } else {
        index_of(s, '/')
    }
}

/// The package name `parse_package_name` splits off.
pub open spec fn package_part(s: Seq<char>) -> Seq<char> {
    if package_split(s) < 0 {
        s
    } else {
        s.take(package_split(s))
    }
}

/// For a specifier without the `node:` prefix, the package name that
/// `parse_package_name` splits off is the one `extract_package_name` gives.
pub proof fn law_package_split_agrees_with_package_name(s: Seq<char>)
    requires
        !has_prefix(s, "node:"@),
    ensures
        package_part(s) == package_name_of(s),
{
    assert(without_node_prefix(s) == s);
}

/// Splits a bare specifier into its package name and the subpath after it.
///
/// - `express/lib/router` -> (`express`, `lib/router`)
/// - `express` -> (`express`, none)
/// - `@org/pkg/internal` -> (`@org/pkg`, `internal`)
/// - `@org/pkg` -> (`@org/pkg`, none)
pub fn parse_package_name(specifier: &str) -> (r: (&str, Option<&str>))
    ensures
        package_split(specifier@) < 0 ==> r.0@ == specifier@ && r.1 is None,
        package_split(specifier@) >= 0 ==> {
            let k = package_split(specifier@);
            &&& r.0@ == specifier@.take(k)
            &&& r.1 matches Some(rest) && rest@ == specifier@.skip(k + 1)
        },
{
    let n = specifier.unicode_len();
    proof {
        crate::text::lemma_index_of(specifier@, '/');
    }
    let scoped = n > 0 && specifier.get_char(0) == '@';
    let split: Option<usize> = if scoped {
        match find_char(specifier, '/') {
            None => None,
            Some(first) => {
                let rest = slice_chars(specifier, first + 1, n);
                assert(rest@ =~= specifier@.skip(first + 1));
                proof {
                    crate::text::lemma_index_of(rest@, '/');
                }
                match find_char(rest, '/') {
                    None => None,
                    Some(second) => Some(first + 1 + second),
                }
            },
        }
    } else {
        find_char(specifier, '/')
    };
    match split {
        None => (specifier, None),
        Some(k) => {
            let name = slice_chars(specifier, 0, k);
            let tail = slice_chars(specifier, k + 1, n);
            assert(name@ =~= specifier@.take(k as int));
            assert(tail@ =~= specifier@.skip(k + 1));
            (name, Some(tail))
        },
    }
}

/// A specifier split into its package name and the subpath after it.
pub open spec fn package_of(s: Seq<char>) -> (Seq<char>, Option<Seq<char>>) {
    let k = package_split(s);
    if k < 0 {
        (s, None)
    } else {
        (s.take(k), Some(s.skip(k + 1)))
    }
}

/// Whether a deep-import pattern covers a specifier: it names the package or
/// the specifier, or it is a glob matching either.
pub open spec fn pattern_covers(pattern: Seq<char>, specifier: Seq<char>, package: Seq<char>) -> bool {
    pattern == package || pattern == specifier || (glob_new_error(pattern) is None && (glob_matches(pattern, specifier)
        || glob_matches(pattern, package)))
}

/// The first configured entry covering the specifier.
pub open spec fn first_config_entry(entries: Seq<DenyDeepImportEntry>, specifier: Seq<char>, package: Seq<char>) -> Option<
    DenyDeepImportEntry,
>
    decreases entries.len(),
{
    if entries.len() == 0 {
        None
    } else if pattern_covers(entries[0].pattern@, specifier, package) {
        Some(entries[0])
    } else {
        first_config_entry(entries.drop_first(), specifier, package)
    }
}

/// The first module entry covering the specifier.
pub open spec fn first_module_entry(
    entries: Seq<ModuleDenyDeepImportEntry>,
    specifier: Seq<char>,
    package: Seq<char>,
) -> Option<ModuleDenyDeepImportEntry>
    decreases entries.len(),
{
    if entries.len() == 0 {
        None
    } else if pattern_covers(entries[0].pattern@, specifier, package) {
        Some(entries[0])
    } else {
        first_module_entry(entries.drop_first(), specifier, package)
    }
}

pub open spec fn entry_severity(e: DenyDeepImportEntry) -> Severity {
    match e.severity {
        Some(s) => s,
        None => Severity::Warning,
    }
}

/// The deep-import policy for a specifier with a subpath: the module's entry
/// decides (allowing it, or setting the depth, the configuration's depth and
/// severity filling in), else the configuration's entry: (package, max
/// depth, severity).
pub open spec fn deep_import_decision(
    specifier: Seq<char>,
    module_entries: Seq<ModuleDenyDeepImportEntry>,
    config_entries: Seq<DenyDeepImportEntry>,
) -> Option<(Seq<char>, int, Severity)> {
    let (package, sub) = package_of(specifier);
    if sub is None {
        None
    } else {
        let config = first_config_entry(config_entries, specifier, package);
        match first_module_entry(module_entries, specifier, package) {
            Some(m) => if m.allow {
                None
            } else {
                Some(
                    (
                        package,
                        match m.max_depth {
                            Some(d) => d as int,
                            None => match config {
                                Some(c) => c.max_depth as int,
                                None => 0,
                            },
                        },
                        match config {
                            Some(c) => entry_severity(c),
                            None => Severity::Warning,
                        },
                    ),
                )
            },
            None => match config {
                Some(c) => Some((package, c.max_depth as int, entry_severity(c))),
                None => None,
            },
        }
    }
}

/// The number of non-empty `/`-separated segments.
pub open spec fn nonempty_segments(segs: Seq<Seq<char>>) -> int
    decreases segs.len(),
{
    if segs.len() == 0 {
        0
    } else {
        nonempty_segments(segs.drop_last()) + if segs.last().len() > 0 { 1int } else { 0int }
    }
}

pub open spec fn subpath_depth(sub: Seq<char>) -> int {
    nonempty_segments(split_on(sub, '/'))
}

/// A hygiene violation: rule, severity, message, source and target files, position.
pub open spec fn hygiene_violation(
    rule: Seq<char>,
    severity: Severity,
    message: Seq<char>,
    from_file: Seq<char>,
    to_file: Option<Seq<char>>,
    pos: Option<(u32, u32)>,
) -> RuleViolationModel {
    (
        (rule, Some(severity), message),
        (from_file, to_file, None, None),
        (
            match pos {
                Some(p) => Some(p.0),
                None => None,
            },
            match pos {
                Some(p) => Some(p.1),
                None => None,
            },
        ),
    )
}

/// The violation for a specifier that imports deeper into a package than
/// its policy allows.
pub open spec fn deep_import_violation(
    specifier: Seq<char>,
    module_entries: Seq<ModuleDenyDeepImportEntry>,
    config_entries: Seq<DenyDeepImportEntry>,
    from_file: Seq<char>,
    pos: (u32, u32),
) -> Option<RuleViolationModel> {
    match package_of(specifier).1 {
        None => None,
        Some(sub) => match deep_import_decision(specifier, module_entries, config_entries) {
            None => None,
            Some((package, max, severity)) => if subpath_depth(sub) <= max {
                None
            } else {
                Some(
                    hygiene_violation(
                        HYGIENE_DEEP_THIRD_PARTY_RULE_ID@,
                        severity,
                        if max == 0 {
                            "deep import into '"@ + package + "' is not allowed: '"@ + specifier + "'"@
                        } else {
                            "deep import into '"@ + package + "' exceeds max depth "@ + decimal(max as nat) + ": '"@
                                + specifier + "'"@
                        },
                        from_file,
                        None,
                        Some(pos),
                    ),
                )
            },
        },
    }
}

/// A specifier at a position.
pub type Site = (Seq<char>, u32, u32);

pub open spec fn import_sites(v: Seq<ImportInfo>) -> Seq<Site> {
    v.map_values(|i: ImportInfo| (i.specifier@, i.line, i.column))
}

pub open spec fn re_export_sites(v: Seq<ReExportInfo>) -> Seq<Site> {
    v.map_values(|i: ReExportInfo| (i.specifier@, i.line, i.column))
}

pub open spec fn specifier_sites(v: Seq<SpecifierSite>) -> Seq<Site> {
    v.map_values(|i: SpecifierSite| (i.specifier@, i.line, i.column))
}

/// Every specifier a file references: its imports, re-exports, `require`
/// calls and dynamic imports, in that order.
pub open spec fn file_sites(graph: DependencyGraph, a: FileAnalysis) -> Seq<Site> {
    import_sites(graph.imports_of(a.path@)) + re_export_sites(a.re_exports@) + specifier_sites(a.require_calls@)
        + specifier_sites(a.dynamic_imports@)
}

/// The deep-import violations of the sites, in order.
pub open spec fn deep_import_violations(
    sites: Seq<Site>,
    module_entries: Seq<ModuleDenyDeepImportEntry>,
    config_entries: Seq<DenyDeepImportEntry>,
    from_file: Seq<char>,
) -> Seq<RuleViolationModel>
    decreases sites.len(),
{
    if sites.len() == 0 {
        Seq::empty()
    } else {
        let rest = deep_import_violations(sites.drop_last(), module_entries, config_entries, from_file);
        let s = sites.last();
        match deep_import_violation(s.0, module_entries, config_entries, from_file, (s.1, s.2)) {
            Some(v) => rest.push(v),
            None => rest,
        }
    }
}

/// The module-level hygiene overrides of the spec of a file's module.
pub open spec fn module_hygiene(specs: Seq<SpecFile>, module: Option<Seq<char>>) -> Option<ModuleImportHygiene> {
    match module {
        Some(m) => match spec_for_module(specs, m) {
            Some(s) => match s.boundaries {
                Some(b) => b.import_hygiene,
                None => None,
            },
            None => None,
        },
        None => None,
    }
}

pub open spec fn module_deep_entries(h: Option<ModuleImportHygiene>) -> Seq<ModuleDenyDeepImportEntry> {
    match h {
        Some(x) => x.deny_deep_imports@,
        None => Seq::empty(),
    }
}

/// The test boundary mode of a file: its module's override, else the configured one.
pub open spec fn file_test_mode(h: Option<ModuleImportHygiene>, config_mode: TestBoundaryMode) -> TestBoundaryMode {
    match h {
        Some(x) => match x.test_boundary {
            Some(o) => o.mode,
            None => config_mode,
        },
        None => config_mode,
    }
}

/// The public API globs of a module's spec, when they compile.
pub open spec fn module_public_api(specs: Seq<SpecFile>, module: Seq<char>) -> Option<Seq<Seq<char>>> {
    match spec_for_module(specs, module) {
        Some(s) => match s.boundaries {
            Some(b) => if compiles(views(b.public_api@)) {
                Some(views(b.public_api@))
            } else {
                None
            },
            None => None,
        },
        None => None,
    }
}

/// The test boundary check of one edge of file `a`: a production file may
/// not import a test file; in bidirectional mode, a test file may import
/// another module only through that module's public API.
pub open spec fn edge_test_violation(
    specs: Seq<SpecFile>,
    graph: DependencyGraph,
    root: Seq<char>,
    canonical_root: Seq<char>,
    tests: Option<Seq<Seq<char>>>,
    mode: TestBoundaryMode,
    a: FileAnalysis,
    e: GraphEdge,
) -> Option<RuleViolationModel> {
    let pos = match (e.line, e.column) {
        (Some(l), Some(c)) => Some((l, c)),
        _ => None,
    };
    if !is_test_file(root, a.path@, tests) {
        if is_test_file(root, e.to@, tests) {
            Some(
                hygiene_violation(
                    HYGIENE_TEST_IN_PRODUCTION_RULE_ID@,
                    Severity::Error,
                    "production file imports from test file '"@ + repo_relative(canonical_root, e.to@) + "'"@,
                    a.path@,
                    Some(e.to@),
                    pos,
                ),
            )
        } else {
            None
        }
    } else if mode != TestBoundaryMode::Bidirectional {
        None
    } else {
        match graph.module_of(e.to@) {
            None => None,
            Some(tm) => if graph.module_of(a.path@) == Some(tm) {
                None
            } else {
                match module_public_api(specs, tm) {
                    None => None,
                    Some(globs) => if globset_matches(globs, repo_relative(canonical_root, e.to@)) {
                        None
                    } else {
                        Some(
                            hygiene_violation(
                                HYGIENE_TEST_IN_PRODUCTION_RULE_ID@,
                                Severity::Error,
                                "test file imports non-public file '"@ + repo_relative(canonical_root, e.to@)
                                    + "' from module '"@ + tm + "'"@,
                                a.path@,
                                Some(e.to@),
                                pos,
                            ),
                        )
                    },
                }
            },
        }
    }
}

/// The test boundary violations of the edges from file `a`, in order.
pub open spec fn test_boundary_violations(
    specs: Seq<SpecFile>,
    graph: DependencyGraph,
    root: Seq<char>,
    canonical_root: Seq<char>,
    tests: Option<Seq<Seq<char>>>,
    mode: TestBoundaryMode,
    a: FileAnalysis,
    edges: Seq<GraphEdge>,
) -> Seq<RuleViolationModel>
    decreases edges.len(),
{
    if edges.len() == 0 {
        Seq::empty()
    } else {
        let rest = test_boundary_violations(specs, graph, root, canonical_root, tests, mode, a, edges.drop_last());
        let e = edges.last();
        if e.from@ == a.path@ {
            match edge_test_violation(specs, graph, root, canonical_root, tests, mode, a, e) {
                Some(v) => rest.push(v),
                None => rest,
            }
        } else {
            rest
        }
    }
}

/// The violations of one file: its deep imports, then (unless its test
/// boundary mode is off) its test boundary violations.
pub open spec fn file_hygiene_violations(
    specs: Seq<SpecFile>,
    graph: DependencyGraph,
    root: Seq<char>,
    canonical_root: Seq<char>,
    tests: Option<Seq<Seq<char>>>,
    config: ImportHygieneConfig,
    a: FileAnalysis,
) -> Seq<RuleViolationModel> {
    let h = module_hygiene(specs, graph.module_of(a.path@));
    let deep = deep_import_violations(file_sites(graph, a), module_deep_entries(h), config.deny_deep_imports@, a.path@);
    let mode = file_test_mode(h, if config.test_boundary.enabled { config.test_boundary.mode } else { TestBoundaryMode::Off });
    if mode == TestBoundaryMode::Off {
        deep
    } else {
        deep + test_boundary_violations(specs, graph, root, canonical_root, tests, mode, a, graph.edges@)
    }
}

/// The violations of the files, file by file.
pub open spec fn files_hygiene_violations(
    specs: Seq<SpecFile>,
    graph: DependencyGraph,
    root: Seq<char>,
    canonical_root: Seq<char>,
    tests: Option<Seq<Seq<char>>>,
    config: ImportHygieneConfig,
    files: Seq<FileAnalysis>,
) -> Seq<RuleViolationModel>
    decreases files.len(),
{
    if files.len() == 0 {
        Seq::empty()
    } else {
        files_hygiene_violations(specs, graph, root, canonical_root, tests, config, files.drop_last())
            + file_hygiene_violations(specs, graph, root, canonical_root, tests, config, files.last())
    }
}

/// The project's configuration file.
pub open spec fn config_file_path(root: Seq<char>) -> Seq<char> {
    if root.len() == 0 {
        "specgate.config.yml"@
    } else if root.last() == '/' {
        root + "specgate.config.yml"@
    } else {
        root + "/specgate.config.yml"@
    }
}

/// The test globs: the configured ones, then the test boundary's own.
pub open spec fn hygiene_test_patterns(test_patterns: Seq<String>, config: ImportHygieneConfig) -> Seq<String> {
    test_patterns + config.test_boundary.test_patterns@
}

/// An error when the test globs do not compile.
pub open spec fn hygiene_config_violations(root: Seq<char>, patterns: Seq<String>) -> Seq<RuleViolationModel> {
    match glob_compile_outcome(views(patterns)) {
        Err(err) => seq![
            hygiene_violation(
                HYGIENE_CONFIG_ERROR_RULE_ID@,
                Severity::Error,
                match err.0 {
                    Some(p) => "invalid test pattern glob: pattern '"@ + p + "' is invalid: "@ + err.1,
                    None => "invalid test pattern glob: failed to build matcher: "@ + err.1,
                },
                config_file_path(root),
                None,
                None,
            ),
        ],
        _ => Seq::empty(),
    }
}

/// Everything the hygiene rules report: a configuration error, then the
/// violations of each analysed file.
pub open spec fn expected_hygiene_violations(
    root: Seq<char>,
    test_patterns: Seq<String>,
    config: ImportHygieneConfig,
    specs: Seq<SpecFile>,
    graph: DependencyGraph,
    canonical_root: Seq<char>,
) -> Seq<RuleViolationModel> {
    let patterns = hygiene_test_patterns(test_patterns, config);
    hygiene_config_violations(root, patterns) + files_hygiene_violations(
        specs,
        graph,
        root,
        canonical_root,
        test_globs(patterns),
        config,
        graph.file_analyses@,
    )
}

/// Whether a deep-import pattern covers a specifier (see `pattern_covers`).
fn pattern_matches_specifier(pattern: &str, specifier: &str, package: &str) -> (r: bool)
    ensures
        r == pattern_covers(pattern@, specifier@, package@),
{
    if str_eq(pattern, package) || str_eq(pattern, specifier) {
        return true;
    }
    match glob_new_error_text(pattern) {
        Some(_) => false,
        None => glob_is_match(pattern, specifier) || glob_is_match(pattern, package),
    }
}

/// The first configured entry covering the specifier.
fn config_entry_for_specifier<'a>(specifier: &str, package: &str, entries: &'a Vec<DenyDeepImportEntry>) -> (r: Option<
    &'a DenyDeepImportEntry,
>)
    ensures
        match r {
            Some(e) => first_config_entry(entries@, specifier@, package@) == Some(*e),
            None => first_config_entry(entries@, specifier@, package@) is None,
        },
{
    let mut i: usize = 0;
    assert(entries@.skip(0) =~= entries@);
    while i < entries.len()
        invariant
            i <= entries@.len(),
            first_config_entry(entries@, specifier@, package@) == first_config_entry(entries@.skip(i as int), specifier@, package@),
        decreases entries@.len() - i,
    {
        let ghost rest = entries@.skip(i as int);
        assert(rest[0] == entries@[i as int]);
        if pattern_matches_specifier(entries[i].pattern.as_str(), specifier, package) {
            return Some(&entries[i]);
        }
        assert(rest.drop_first() =~= entries@.skip(i + 1));
        i = i + 1;
    }
    None
}

/// The first module entry covering the specifier.
fn module_entry_for_specifier<'a>(specifier: &str, package: &str, entries: &'a [ModuleDenyDeepImportEntry]) -> (r: Option<
    &'a ModuleDenyDeepImportEntry,
>)
    ensures
        match r {
            Some(e) => first_module_entry(entries@, specifier@, package@) == Some(*e),
            None => first_module_entry(entries@, specifier@, package@) is None,
        },
{
    let mut i: usize = 0;
    assert(entries@.skip(0) =~= entries@);
    while i < entries.len()
        invariant
            i <= entries@.len(),
            first_module_entry(entries@, specifier@, package@) == first_module_entry(entries@.skip(i as int), specifier@, package@),
        decreases entries@.len() - i,
    {
        let ghost rest = entries@.skip(i as int);
        assert(rest[0] == entries@[i as int]);
        if pattern_matches_specifier(entries[i].pattern.as_str(), specifier, package) {
            return Some(&entries[i]);
        }
        assert(rest.drop_first() =~= entries@.skip(i + 1));
        i = i + 1;
    }
    None
}

/// The number of non-empty segments of a subpath.
fn subpath_depth_exec(sub: &str) -> (r: usize)
    ensures
        r as int == subpath_depth(sub@),
{
    let segs = split_char(sub, '/');
    let mut count: usize = 0;
    let mut i: usize = 0;
    assert(views(segs@).take(0) =~= Seq::<Seq<char>>::empty());
    while i < segs.len()
        invariant
            i <= segs@.len(),
            count <= i,
            count as int == nonempty_segments(views(segs@).take(i as int)),
        decreases segs@.len() - i,
    {
        assert(views(segs@).take(i + 1).drop_last() =~= views(segs@).take(i as int));
        assert(views(segs@).take(i + 1).last() == segs@[i as int]@);
        if segs[i].as_str().unicode_len() > 0 {
            count = count + 1;
        }
        i = i + 1;
    }
    assert(views(segs@).take(i as int) =~= views(segs@));
    count
}

/// The package and subpath of a specifier (see `package_of`).
fn package_of_exec(specifier: &str) -> (r: (&str, Option<&str>))
    ensures
        package_of(specifier@) == (
            r.0@,
            match r.1 {
                Some(s) => Some(s@),
                None => None,
            },
        ),
{
    parse_package_name(specifier)
}

/// The deep-import policy for a specifier (see `deep_import_decision`).
fn effective_deep_import_decision<'a>(
    specifier: &'a str,
    module_entries: &[ModuleDenyDeepImportEntry],
    config_entries: &Vec<DenyDeepImportEntry>,
) -> (r: Option<(&'a str, usize, Severity)>)
    ensures
        match r {
            Some((p, d, s)) => deep_import_decision(specifier@, module_entries@, config_entries@) == Some(
                (p@, d as int, s),
            ),
            None => deep_import_decision(specifier@, module_entries@, config_entries@) is None,
        },
{
    let (package, sub) = package_of_exec(specifier);
    if sub.is_none() {
        return None;
    }
    let config = config_entry_for_specifier(specifier, package, config_entries);
    match module_entry_for_specifier(specifier, package, module_entries) {
        Some(m) => {
            if m.allow {
                return None;
            }
            let depth = match m.max_depth {
                Some(d) => d,
                None => match config {
                    Some(c) => c.max_depth,
                    None => 0,
                },
            };
            let severity = match config {
                Some(c) => c.effective_severity(),
                None => Severity::Warning,
            };
            Some((package, depth, severity))
        },
        None => match config {
            Some(c) => Some((package, c.max_depth, c.effective_severity())),
            None => None,
        },
    }
}

/// A hygiene violation.
fn build_violation(
    rule: &str,
    severity: Severity,
    message: String,
    from_file: &str,
    to_file: Option<&str>,
    pos: Option<(u32, u32)>,
) -> (r: RuleViolation)
    ensures
        rule_violation_model(r) == hygiene_violation(
            rule@,
            severity,
            message@,
            from_file@,
            match to_file {
                Some(t) => Some(t@),
                None => None,
            },
            pos,
        ),
{
    RuleViolation {
        rule: owned(rule),
        severity: Some(severity),
        message,
        from_file: owned(from_file),
        to_file: match to_file {
            Some(t) => Some(owned(t)),
            None => None,
        },
        from_module: None,
        to_module: None,
        line: match pos {
            Some(p) => Some(p.0),
            None => None,
        },
        column: match pos {
            Some(p) => Some(p.1),
            None => None,
        },
    }
}

/// The violation for a deep import (see `deep_import_violation`).
fn deep_import_violation_exec(
    specifier: &str,
    module_entries: &[ModuleDenyDeepImportEntry],
    config_entries: &Vec<DenyDeepImportEntry>,
    from_file: &str,
    pos: (u32, u32),
) -> (r: Option<RuleViolation>)
    ensures
        match r {
            Some(v) => deep_import_violation(specifier@, module_entries@, config_entries@, from_file@, pos) == Some(
                rule_violation_model(v),
            ),
            None => deep_import_violation(specifier@, module_entries@, config_entries@, from_file@, pos) is None,
        },
{
    let (_, sub) = package_of_exec(specifier);
    let sub = match sub {
        Some(s) => s,
        None => {
            return None;
        },
    };
    let (package, max, severity) = match effective_deep_import_decision(specifier, module_entries, config_entries) {
        Some(d) => d,
        None => {
            return None;
        },
    };
    let depth = subpath_depth_exec(sub);
    if depth <= max {
        return None;
    }
    let mut m = owned("deep import into '");
    push_str(&mut m, package);
    if max == 0 {
        push_str(&mut m, "' is not allowed: '");
    } else {
        push_str(&mut m, "' exceeds max depth ");
        let shown = decimal_string(max as u64);
        push_str(&mut m, shown.as_str());
        push_str(&mut m, ": '");
    }
    push_str(&mut m, specifier);
    push_str(&mut m, "'");
    Some(build_violation(HYGIENE_DEEP_THIRD_PARTY_RULE_ID, severity, m, from_file, None, Some(pos)))
}

pub open spec fn site_views(v: Seq<(String, u32, u32)>) -> Seq<Site> {
    v.map_values(|s: (String, u32, u32)| (s.0@, s.1, s.2))
}

/// Every specifier a file references (see `file_sites`).
fn collect_sites(graph: &DependencyGraph, a: &FileAnalysis) -> (r: Vec<(String, u32, u32)>)
    ensures
        site_views(r@) == file_sites(*graph, *a),
{
    let mut out: Vec<(String, u32, u32)> = Vec::new();
    let imports = graph.imports_of_file(a.path.as_str());
    let mut i: usize = 0;
    assert(site_views(out@) =~= import_sites(imports@).take(0));
    while i < imports.len()
        invariant
            i <= imports@.len(),
            site_views(out@) == import_sites(imports@).take(i as int),
        decreases imports@.len() - i,
    {
        let x = (imports[i].specifier.clone(), imports[i].line, imports[i].column);
        let ghost before = out@;
        out.push(x);
        assert(site_views(out@) =~= site_views(before).push((x.0@, x.1, x.2)));
        assert(import_sites(imports@).take(i + 1) =~= import_sites(imports@).take(i as int).push((x.0@, x.1, x.2)));
        assert(site_views(out@) =~= import_sites(imports@).take(i + 1));
        i = i + 1;
    }
    assert(import_sites(imports@).take(i as int) =~= import_sites(imports@));
    let ghost p1 = site_views(out@);
    i = 0;
    assert(site_views(out@) =~= p1 + re_export_sites(a.re_exports@).take(0));
    while i < a.re_exports.len()
        invariant
            i <= a.re_exports@.len(),
            site_views(out@) == p1 + re_export_sites(a.re_exports@).take(i as int),
        decreases a.re_exports@.len() - i,
    {
        let x = (a.re_exports[i].specifier.clone(), a.re_exports[i].line, a.re_exports[i].column);
        let ghost before = out@;
        out.push(x);
        assert(site_views(out@) =~= site_views(before).push((x.0@, x.1, x.2)));
        assert(re_export_sites(a.re_exports@).take(i + 1) =~= re_export_sites(a.re_exports@).take(i as int).push((x.0@, x.1, x.2)));
        assert(site_views(out@) =~= p1 + re_export_sites(a.re_exports@).take(i + 1));
        i = i + 1;
    }
    assert(re_export_sites(a.re_exports@).take(i as int) =~= re_export_sites(a.re_exports@));
    let ghost p2 = site_views(out@);
    i = 0;
    assert(site_views(out@) =~= p2 + specifier_sites(a.require_calls@).take(0));
    while i < a.require_calls.len()
        invariant
            i <= a.require_calls@.len(),
            site_views(out@) == p2 + specifier_sites(a.require_calls@).take(i as int),
        decreases a.require_calls@.len() - i,
    {
        let x = (a.require_calls[i].specifier.clone(), a.require_calls[i].line, a.require_calls[i].column);
        let ghost before = out@;
        out.push(x);
        assert(site_views(out@) =~= site_views(before).push((x.0@, x.1, x.2)));
        assert(specifier_sites(a.require_calls@).take(i + 1) =~= specifier_sites(a.require_calls@).take(i as int).push((x.0@, x.1, x.2)));
        assert(site_views(out@) =~= p2 + specifier_sites(a.require_calls@).take(i + 1));
        i = i + 1;
    }
    assert(specifier_sites(a.require_calls@).take(i as int) =~= specifier_sites(a.require_calls@));
    let ghost p3 = site_views(out@);
    i = 0;
    assert(site_views(out@) =~= p3 + specifier_sites(a.dynamic_imports@).take(0));
    while i < a.dynamic_imports.len()
        invariant
            i <= a.dynamic_imports@.len(),
            site_views(out@) == p3 + specifier_sites(a.dynamic_imports@).take(i as int),
        decreases a.dynamic_imports@.len() - i,
    {
        let x = (a.dynamic_imports[i].specifier.clone(), a.dynamic_imports[i].line, a.dynamic_imports[i].column);
        let ghost before = out@;
        out.push(x);
        assert(site_views(out@) =~= site_views(before).push((x.0@, x.1, x.2)));
        assert(specifier_sites(a.dynamic_imports@).take(i + 1) =~= specifier_sites(a.dynamic_imports@).take(i as int).push((x.0@, x.1, x.2)));
        assert(site_views(out@) =~= p3 + specifier_sites(a.dynamic_imports@).take(i + 1));
        i = i + 1;
    }
    assert(specifier_sites(a.dynamic_imports@).take(i as int) =~= specifier_sites(a.dynamic_imports@));
    assert(site_views(out@) =~= file_sites(*graph, *a));
    out
}

/// The module-level hygiene overrides of the spec of a file's module.
fn module_hygiene_exec<'a>(specs: &'a [SpecFile], module: Option<&str>) -> (r: Option<&'a ModuleImportHygiene>)
    ensures
        match r {
            Some(h) => module_hygiene(specs@, opt_str_view(module)) == Some(*h),
            None => module_hygiene(specs@, opt_str_view(module)) is None,
        },
{
    let m = match module {
        Some(m) => m,
        None => {
            return None;
        },
    };
    let i = match spec_index_for_module(specs, m) {
        Some(i) => i,
        None => {
            return None;
        },
    };
    match &specs[i].boundaries {
        Some(b) => match &b.import_hygiene {
            Some(h) => Some(h),
            None => None,
        },
        None => None,
    }
}

pub open spec fn opt_str_view(o: Option<&str>) -> Option<Seq<char>> {
    match o {
        Some(s) => Some(s@),
        None => None,
    }
}

/// The public API globs of a module's spec, compiled (see `module_public_api`).
fn module_public_api_exec(specs: &[SpecFile], module: &str) -> (r: Option<CompiledGlobSet>)
    ensures
        match r {
            Some(set) => set.ready() && module_public_api(specs@, module@) == Some(views(set.patterns@)),
            None => module_public_api(specs@, module@) is None,
        },
{
    let i = match spec_index_for_module(specs, module) {
        Some(i) => i,
        None => {
            return None;
        },
    };
    match &specs[i].boundaries {
        Some(b) => match compile_optional_globset_strict(&b.public_api) {
            Ok(Some(set)) => Some(set),
            Ok(None) => None,
            Err(_) => {
                proof {
                    lemma_failed_compile_does_not_compile(views(b.public_api@));
                }
                None
            },
        },
        None => None,
    }
}

/// Records the test boundary violation of one edge, if any.
fn check_test_edge(
    ctx: &RuleContext,
    canonical_root: &str,
    tests: Option<&CompiledGlobSet>,
    mode: TestBoundaryMode,
    a: &FileAnalysis,
    importer_is_test: bool,
    e: &GraphEdge,
    violations: &mut Vec<RuleViolation>,
)
    requires
        tests matches Some(t) ==> t.ready(),
        importer_is_test == is_test_file(ctx.project_root@, a.path@, set_patterns(tests)),
    ensures
        rule_violation_models(final(violations)@) == rule_violation_models(old(violations)@) + match edge_test_violation(
            ctx.specs@,
            *ctx.graph,
            ctx.project_root@,
            canonical_root@,
            set_patterns(tests),
            mode,
            *a,
            *e,
        ) {
            Some(v) => seq![v],
            None => Seq::empty(),
        },
{
    let ghost before = rule_violation_models(violations@);
    let ghost expected = edge_test_violation(
        ctx.specs@,
        *ctx.graph,
        ctx.project_root@,
        canonical_root@,
        set_patterns(tests),
        mode,
        *a,
        *e,
    );
    let pos = match (e.line, e.column) {
        (Some(l), Some(c)) => Some((l, c)),
        _ => None,
    };
    if !importer_is_test {
        if matches_test_file(ctx.project_root, e.to.as_str(), tests) {
            let mut m = owned("production file imports from test file '");
            let rel = normalize_repo_relative(canonical_root, e.to.as_str());
            push_str(&mut m, rel.as_str());
            push_str(&mut m, "'");
            push_violation(
                violations,
                build_violation(HYGIENE_TEST_IN_PRODUCTION_RULE_ID, Severity::Error, m, a.path.as_str(), Some(e.to.as_str()), pos),
            );
        }
        assert(rule_violation_models(violations@) =~= before + match expected {
            Some(v) => seq![v],
            None => Seq::<RuleViolationModel>::empty(),
        });
        return;
    }
    let bidirectional = match mode {
        TestBoundaryMode::Bidirectional => true,
        _ => false,
    };
    if !bidirectional {
        assert(rule_violation_models(violations@) =~= before + Seq::<RuleViolationModel>::empty());
        return;
    }
    let target = match ctx.graph.module_of_file(e.to.as_str()) {
        Some(t) => t,
        None => {
            assert(rule_violation_models(violations@) =~= before + Seq::<RuleViolationModel>::empty());
            return;
        },
    };
    let same = match ctx.graph.module_of_file(a.path.as_str()) {
        Some(m) => str_eq(m, target),
        None => false,
    };
    if same {
        assert(rule_violation_models(violations@) =~= before + Seq::<RuleViolationModel>::empty());
        return;
    }
    let matcher = match module_public_api_exec(ctx.specs, target) {
        Some(set) => set,
        None => {
            assert(rule_violation_models(violations@) =~= before + Seq::<RuleViolationModel>::empty());
            return;
        },
    };
    let rel = normalize_repo_relative(canonical_root, e.to.as_str());
    if matcher.is_match(rel.as_str()) {
        assert(rule_violation_models(violations@) =~= before + Seq::<RuleViolationModel>::empty());
        return;
    }
    let mut m = owned("test file imports non-public file '");
    push_str(&mut m, rel.as_str());
    push_str(&mut m, "' from module '");
    push_str(&mut m, target);
    push_str(&mut m, "'");
    push_violation(
        violations,
        build_violation(HYGIENE_TEST_IN_PRODUCTION_RULE_ID, Severity::Error, m, a.path.as_str(), Some(e.to.as_str()), pos),
    );
}

/// Records the violations of one analysed file.
fn check_file(
    ctx: &RuleContext,
    canonical_root: &str,
    tests: Option<&CompiledGlobSet>,
    a: &FileAnalysis,
    violations: &mut Vec<RuleViolation>,
)
    requires
        tests matches Some(t) ==> t.ready(),
    ensures
        rule_violation_models(final(violations)@) == rule_violation_models(old(violations)@) + file_hygiene_violations(
            ctx.specs@,
            *ctx.graph,
            ctx.project_root@,
            canonical_root@,
            set_patterns(tests),
            ctx.config.import_hygiene,
            *a,
        ),
{
    let ghost base = rule_violation_models(violations@);
    let hygiene = &ctx.config.import_hygiene;
    let owner = ctx.graph.module_of_file(a.path.as_str());
    let h = module_hygiene_exec(ctx.specs, owner);
    let no_entries: Vec<ModuleDenyDeepImportEntry> = Vec::new();
    let module_entries: &[ModuleDenyDeepImportEntry] = match h {
        Some(x) => x.deny_deep_imports.as_slice(),
        None => no_entries.as_slice(),
    };
    assert(module_entries@ == module_deep_entries(module_hygiene(ctx.specs@, ctx.graph.module_of(a.path@))));
    let sites = collect_sites(ctx.graph, a);
    let ghost sv = site_views(sites@);
    let mut i: usize = 0;
    assert(sv.take(0) =~= Seq::<Site>::empty());
    assert(rule_violation_models(violations@) =~= base + deep_import_violations(
        sv.take(0),
        module_entries@,
        hygiene.deny_deep_imports@,
        a.path@,
    ));
    while i < sites.len()
        invariant
            i <= sites@.len(),
            sv == site_views(sites@),
            rule_violation_models(violations@) == base + deep_import_violations(
                sv.take(i as int),
                module_entries@,
                hygiene.deny_deep_imports@,
                a.path@,
            ),
        decreases sites@.len() - i,
    {
        assert(sv.take(i + 1).drop_last() =~= sv.take(i as int));
        assert(sv.take(i + 1).last() == (sites@[i as int].0@, sites@[i as int].1, sites@[i as int].2));
        let ghost mid = rule_violation_models(violations@);
        match deep_import_violation_exec(
            sites[i].0.as_str(),
            module_entries,
            &hygiene.deny_deep_imports,
            a.path.as_str(),
            (sites[i].1, sites[i].2),
        ) {
            Some(v) => {
                push_violation(violations, v);
            },
            None => {},
        }
        assert(rule_violation_models(violations@) =~= base + deep_import_violations(
            sv.take(i + 1),
            module_entries@,
            hygiene.deny_deep_imports@,
            a.path@,
        ));
        i = i + 1;
    }
    assert(sv.take(i as int) =~= sv);
    let ghost after_deep = rule_violation_models(violations@);
    let config_mode = hygiene.test_boundary.effective_mode();
    let mode = match h {
        Some(x) => match &x.test_boundary {
            Some(o) => o.mode,
            None => config_mode,
        },
        None => config_mode,
    };
    if let TestBoundaryMode::Off = mode {
        return;
    }
    let importer_is_test = matches_test_file(ctx.project_root, a.path.as_str(), tests);
    let ghost edges = ctx.graph.edges@;
    let mut k: usize = 0;
    assert(edges.take(0) =~= Seq::<GraphEdge>::empty());
    assert(rule_violation_models(violations@) =~= after_deep + test_boundary_violations(
        ctx.specs@,
        *ctx.graph,
        ctx.project_root@,
        canonical_root@,
        set_patterns(tests),
        mode,
        *a,
        edges.take(0),
    ));
    while k < ctx.graph.edges.len()
        invariant
            k <= edges.len(),
            edges == ctx.graph.edges@,
            tests matches Some(t) ==> t.ready(),
            importer_is_test == is_test_file(ctx.project_root@, a.path@, set_patterns(tests)),
            rule_violation_models(violations@) == after_deep + test_boundary_violations(
                ctx.specs@,
                *ctx.graph,
                ctx.project_root@,
                canonical_root@,
                set_patterns(tests),
                mode,
                *a,
                edges.take(k as int),
            ),
        decreases edges.len() - k,
    {
        let e = &ctx.graph.edges[k];
        assert(edges.take(k + 1).drop_last() =~= edges.take(k as int));
        assert(edges.take(k + 1).last() == *e);
        let ghost mid = rule_violation_models(violations@);
        if str_eq(e.from.as_str(), a.path.as_str()) {
            check_test_edge(ctx, canonical_root, tests, mode, a, importer_is_test, e, violations);
        }
        assert(rule_violation_models(violations@) =~= after_deep + test_boundary_violations(
            ctx.specs@,
            *ctx.graph,
            ctx.project_root@,
            canonical_root@,
            set_patterns(tests),
            mode,
            *a,
            edges.take(k + 1),
        ));
        k = k + 1;
    }
    assert(edges.take(k as int) =~= edges);
}

/// The project's configuration file path.
fn config_file_path_exec(root: &str) -> (r: String)
    ensures
        r@ == config_file_path(root@),
{
    let n = root.unicode_len();
    if n == 0 {
        owned("specgate.config.yml")
    } else if root.get_char(n - 1) == '/' {
        let mut p = owned(root);
        push_str(&mut p, "specgate.config.yml");
        p
    } else {
        let mut p = owned(root);
        push_str(&mut p, "/specgate.config.yml");
        p
    }
}

/// Evaluates the import hygiene rules: deep imports into third-party
/// packages against the configured and per-module policies, and the
/// test/production boundary (production files may not import test files;
/// in bidirectional mode test files may import other modules only through
/// their public API); sorted deterministically. `canonical_root` is the
/// project root as the file system resolves it.
pub fn evaluate_hygiene_rules(ctx: &RuleContext, canonical_root: &str) -> (r: Vec<RuleViolation>)
    ensures
        sorted_by_key(r@),
        rule_violation_models(r@).to_multiset() == expected_hygiene_violations(
            ctx.project_root@,
            ctx.config.test_patterns@,
            ctx.config.import_hygiene,
            ctx.specs@,
            *ctx.graph,
            canonical_root@,
        ).to_multiset(),
{
    let hygiene = &ctx.config.import_hygiene;
    let mut violations: Vec<RuleViolation> = Vec::new();
    let mut patterns = copy_strings(ctx.config.test_patterns.as_slice());
    let extra = copy_strings(hygiene.test_boundary.test_patterns.as_slice());
    let mut j: usize = 0;
    let ghost first = views(patterns@);
    assert(views(patterns@) =~= first + views(extra@).take(0));
    while j < extra.len()
        invariant
            j <= extra@.len(),
            views(patterns@) == first + views(extra@).take(j as int),
        decreases extra@.len() - j,
    {
        let ghost before = views(patterns@);
        patterns.push(extra[j].clone());
        assert(views(patterns@) =~= before.push(extra@[j as int]@));
        assert(views(extra@).take(j + 1) =~= views(extra@).take(j as int).push(extra@[j as int]@));
        j = j + 1;
    }
    assert(views(extra@).take(j as int) =~= views(extra@));
    let ghost combined = hygiene_test_patterns(ctx.config.test_patterns@, *hygiene);
    assert(views(patterns@) =~= views(combined));
    let tests = match compile_optional_globset_strict(&patterns) {
        Ok(m) => m,
        Err(error) => {
            proof {
                lemma_failed_compile_does_not_compile(views(patterns@));
            }
            let message = match &error {
                GlobCompileError::InvalidPattern { pattern, message } => {
                    let mut m = owned("invalid test pattern glob: pattern '");
                    push_str(&mut m, pattern.as_str());
                    push_str(&mut m, "' is invalid: ");
                    push_str(&mut m, message.as_str());
                    m
                },
                GlobCompileError::Build { message } => {
                    let mut m = owned("invalid test pattern glob: failed to build matcher: ");
                    push_str(&mut m, message.as_str());
                    m
                },
            };
            let path = config_file_path_exec(ctx.project_root);
            push_violation(
                &mut violations,
                build_violation(HYGIENE_CONFIG_ERROR_RULE_ID, Severity::Error, message, path.as_str(), None, None),
            );
            None
        },
    };
    let ghost config_part = rule_violation_models(violations@);
    assert(config_part =~= hygiene_config_violations(ctx.project_root@, combined));
    let test_ref = match &tests {
        Some(t) => Some(t),
        None => None,
    };
    assert(set_patterns(test_ref) == test_globs(combined));
    let ghost files = ctx.graph.file_analyses@;
    let mut i: usize = 0;
    assert(files.take(0) =~= Seq::<FileAnalysis>::empty());
    assert(rule_violation_models(violations@) =~= config_part + files_hygiene_violations(
        ctx.specs@,
        *ctx.graph,
        ctx.project_root@,
        canonical_root@,
        set_patterns(test_ref),
        *hygiene,
        files.take(0),
    ));
    while i < ctx.graph.file_analyses.len()
        invariant
            i <= files.len(),
            files == ctx.graph.file_analyses@,
            *hygiene == ctx.config.import_hygiene,
            test_ref matches Some(t) ==> t.ready(),
            rule_violation_models(violations@) == config_part + files_hygiene_violations(
                ctx.specs@,
                *ctx.graph,
                ctx.project_root@,
                canonical_root@,
                set_patterns(test_ref),
                *hygiene,
                files.take(i as int),
            ),
        decreases files.len() - i,
    {
        assert(files.take(i + 1).drop_last() =~= files.take(i as int));
        assert(files.take(i + 1).last() == files[i as int]);
        assert(files_hygiene_violations(
            ctx.specs@,
            *ctx.graph,
            ctx.project_root@,
            canonical_root@,
            set_patterns(test_ref),
            *hygiene,
            files.take(i + 1),
        ) == files_hygiene_violations(
            ctx.specs@,
            *ctx.graph,
            ctx.project_root@,
            canonical_root@,
            set_patterns(test_ref),
            *hygiene,
            files.take(i as int),
        ) + file_hygiene_violations(
            ctx.specs@,
            *ctx.graph,
            ctx.project_root@,
            canonical_root@,
            set_patterns(test_ref),
            *hygiene,
            files[i as int],
        ));
        check_file(ctx, canonical_root, test_ref, &ctx.graph.file_analyses[i], &mut violations);
        assert(rule_violation_models(violations@) =~= config_part + files_hygiene_violations(
            ctx.specs@,
            *ctx.graph,
            ctx.project_root@,
            canonical_root@,
            set_patterns(test_ref),
            *hygiene,
            files.take(i + 1),
        ));
        i = i + 1;
    }
    assert(files.take(i as int) =~= files);
    let ghost unsorted = violations@;
    sort_violations_stable(&mut violations);
    proof {
        lemma_multiset_map(violations@, unsorted, |v: RuleViolation| rule_violation_model(v));
        assert(rule_violation_models(violations@) == violations@.map_values(|v: RuleViolation| rule_violation_model(v)));
        assert(rule_violation_models(unsorted) == unsorted.map_values(|v: RuleViolation| rule_violation_model(v)));
    }
    violations
}

/// A module entry that allows a package silences deep imports into it,
/// whatever the configuration says.
pub proof fn law_module_allow_suppresses_deep_imports(
    specifier: Seq<char>,
    module_entries: Seq<ModuleDenyDeepImportEntry>,
    config_entries: Seq<DenyDeepImportEntry>,
    from_file: Seq<char>,
    pos: (u32, u32),
)
    requires
        first_module_entry(module_entries, specifier, package_of(specifier).0) matches Some(m) && m.allow,
    ensures
        deep_import_violation(specifier, module_entries, config_entries, from_file, pos) is None,
{
}

/// Imports no deeper than the policy's maximum depth are fine.
pub proof fn law_shallow_imports_pass(
    specifier: Seq<char>,
    module_entries: Seq<ModuleDenyDeepImportEntry>,
    config_entries: Seq<DenyDeepImportEntry>,
    from_file: Seq<char>,
    pos: (u32, u32),
)
    requires
        package_of(specifier).1 matches Some(sub) && deep_import_decision(specifier, module_entries, config_entries)
            matches Some(d) && subpath_depth(sub) <= d.1,
    ensures
        deep_import_violation(specifier, module_entries, config_entries, from_file, pos) is None,
{
}

/// A production file that imports a test file is always reported (when the
/// test boundary is checked at all).
pub proof fn law_production_importing_tests_is_reported(
    specs: Seq<SpecFile>,
    graph: DependencyGraph,
    root: Seq<char>,
    canonical_root: Seq<char>,
    tests: Option<Seq<Seq<char>>>,
    mode: TestBoundaryMode,
    a: FileAnalysis,
    e: GraphEdge,
)
    requires
        !is_test_file(root, a.path@, tests),
        is_test_file(root, e.to@, tests),
    ensures
        edge_test_violation(specs, graph, root, canonical_root, tests, mode, a, e) matches Some(v) && v.0.0
            == HYGIENE_TEST_IN_PRODUCTION_RULE_ID@ && v.0.1 == Some(Severity::Error),
{
}

/// With the test boundary off for a file, only its deep imports are checked.
pub proof fn law_test_boundary_off_checks_deep_imports_only(
    specs: Seq<SpecFile>,
    graph: DependencyGraph,
    root: Seq<char>,
    canonical_root: Seq<char>,
    tests: Option<Seq<Seq<char>>>,
    config: ImportHygieneConfig,
    a: FileAnalysis,
)
    requires
        file_test_mode(
            module_hygiene(specs, graph.module_of(a.path@)),
            if config.test_boundary.enabled { config.test_boundary.mode } else { TestBoundaryMode::Off },
        ) == TestBoundaryMode::Off,
    ensures
        file_hygiene_violations(specs, graph, root, canonical_root, tests, config, a) == deep_import_violations(
            file_sites(graph, a),
            module_deep_entries(module_hygiene(specs, graph.module_of(a.path@))),
            config.deny_deep_imports@,
            a.path@,
        ),
{
}

} // verus!
