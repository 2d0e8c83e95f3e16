//! Boundary rules: what an importing module may import, and who a providing
//! module lets import it.
use vstd::prelude::*;

use super::{
    compile_optional_globset_strict, compiles, glob_compile_outcome, is_test_file, lemma_failed_compile_does_not_compile,
    matches_test_file,
    render_glob_error, rule_violation_model, rule_violation_models, sort_violations_stable, CompiledGlobSet,
    RuleContext, RuleViolation, RuleViolationModel,
};
use crate::glob::globset_matches;
use crate::graph::{DependencyGraph, EdgeKind, GraphEdge, ImportInfo};
use crate::order::{lemma_multiset_map, sorted_by_key};
use crate::paths::{normalize_repo_relative, repo_relative, strings_contain};
use crate::spec::types::{Boundaries, SpecFile, Visibility};
use crate::strset::{lemma_sorted_seq_of, set_insert, sorted_seq_of, strictly_sorted};
use crate::text::{debug_list, debug_strings, has_prefix, owned, push_str, str_eq, str_starts_with, views};

verus! {

/// Rule id for canonical import enforcement.
pub const BOUNDARY_CANONICAL_IMPORT_RULE_ID: &'static str = "boundary.canonical_import";

/// Accepted alias of the canonical import rule id.
pub const BOUNDARY_CANONICAL_IMPORTS_RULE_ID_ALIAS: &'static str = "boundary.canonical_imports";

/// Rule id for contract version mismatches.
pub const BOUNDARY_CONTRACT_VERSION_MISMATCH_RULE_ID: &'static str = "boundary.contract_version_mismatch";

/// Boundary rule engine for importer/provider constraints.
#[derive(Debug, Default, Clone, Copy)]
pub struct BoundaryRule;

/// Whether `rule_id` names the canonical import rule, by its id or its alias.
pub fn is_canonical_import_rule_id(rule_id: &str) -> (r: bool)
    ensures
        r == (rule_id@ == BOUNDARY_CANONICAL_IMPORT_RULE_ID@ || rule_id@ == BOUNDARY_CANONICAL_IMPORTS_RULE_ID_ALIAS@),
{
    str_eq(rule_id, BOUNDARY_CANONICAL_IMPORT_RULE_ID) || str_eq(rule_id, BOUNDARY_CANONICAL_IMPORTS_RULE_ID_ALIAS)
}

/// The last of `specs` declaring `module` (a later declaration replaces an earlier one).
pub open spec fn spec_for_module(specs: Seq<SpecFile>, module: Seq<char>) -> Option<SpecFile>
    decreases specs.len(),
{
    if specs.len() == 0 {
        None
    } else if specs.last().module@ == module {
        Some(specs.last())
    } else {
        spec_for_module(specs.drop_last(), module)
    }
}

/// Boundaries with every policy at its default: no lists, no flags.
pub open spec fn is_default_boundaries(b: Boundaries) -> bool {
    &&& b.public_api@.len() == 0
    &&& b.allow_imports_from is None
    &&& b.never_imports@.len() == 0
    &&& b.allow_type_imports_from@.len() == 0
    &&& b.visibility is None
    &&& b.allow_imported_by@.len() == 0
    &&& b.deny_imported_by@.len() == 0
    &&& b.friend_modules@.len() == 0
    &&& !b.enforce_canonical_imports
    &&& !b.enforce_in_tests
    &&& b.allowed_dependencies@.len() == 0
    &&& b.forbidden_dependencies@.len() == 0
}

/// The boundaries a spec declares, or the default ones.
pub open spec fn boundaries_or_default(o: Option<Boundaries>) -> Boundaries {
    match o {
        Some(b) => b,
        None => choose|b: Boundaries| is_default_boundaries(b),
    }
}

/// The edge's span is the span of the import statement.
pub open spec fn same_span(e: GraphEdge, i: ImportInfo) -> bool {
    e.span_start == Some(i.span_start) && e.span_end == Some(i.span_end)
}

/// The position of the first import statement with the edge's specifier and span.
pub open spec fn matching_import_position(e: GraphEdge, imports: Seq<ImportInfo>) -> Option<(u32, u32)>
    decreases imports.len(),
{
    if imports.len() == 0 {
        None
    } else if imports[0].specifier@ == e.specifier@ && same_span(e, imports[0]) {
        Some((imports[0].line, imports[0].column))
    } else {
        matching_import_position(e, imports.drop_first())
    }
}

/// Where a violation about an edge is reported: the edge's own position, else
/// that of its import statement.
pub open spec fn edge_position(e: GraphEdge, imports: Seq<ImportInfo>) -> Option<(u32, u32)> {
    match (e.line, e.column) {
        (Some(l), Some(c)) => Some((l, c)),
        _ => matching_import_position(e, imports),
    }
}

/// An import edge is ignored when an ignore comment covers the edge or its
/// import statement (same specifier and span).
pub open spec fn edge_ignored(e: GraphEdge, imports: Seq<ImportInfo>) -> bool {
    &&& (e.kind == EdgeKind::RuntimeImport || e.kind == EdgeKind::TypeOnlyImport)
    &&& (e.ignored_by_comment || exists|i: int|
        0 <= i < imports.len() && (#[trigger] imports[i]).ignore_comment is Some && imports[i].specifier@
            == e.specifier@ && same_span(e, imports[i]))
}

/// A boundary violation about an edge from module `im` to module `pm`.
pub open spec fn boundary_violation(
    rule: Seq<char>,
    message: Seq<char>,
    e: GraphEdge,
    im: Seq<char>,
    pm: Seq<char>,
    pos: Option<(u32, u32)>,
) -> RuleViolationModel {
    (
        (rule, None, message),
        (e.from@, Some(e.to@), Some(im), Some(pm)),
        (
            match pos {
                Some(p) => Some(p.0),
                None => None,
            },
            match pos {
                Some(p) => Some(p.1),
                None => None,
            },
        ),
    )
}

/// The public API globs of a provider when they compile into a set.
pub open spec fn public_api_globs(b: Boundaries) -> Option<Seq<Seq<char>>> {
    if compiles(views(b.public_api@)) {
        Some(views(b.public_api@))
    } else {
        None
    }
}

/// The importer-side check of an edge, in order of precedence: never
/// imports, the import allowlist (type-only imports may use their own
/// allowlist), then the provider's public API.
pub open spec fn importer_violation(
    e: GraphEdge,
    im: Seq<char>,
    ib: Boundaries,
    pm: Seq<char>,
    public_api: Option<Seq<Seq<char>>>,
    canonical_root: Seq<char>,
    pos: Option<(u32, u32)>,
) -> Option<RuleViolationModel> {
    if views(ib.never_imports@).contains(pm) {
        Some(
            boundary_violation(
                "boundary.never_imports"@,
                "module '"@ + im + "' may never import from '"@ + pm + "'"@,
                e,
                im,
                pm,
                pos,
            ),
        )
    } else if ib.allow_imports_from matches Some(a) && !views(a@).contains(pm) && !(e.kind
        == EdgeKind::TypeOnlyImport && views(ib.allow_type_imports_from@).contains(pm)) {
        Some(
            boundary_violation(
                "boundary.allow_imports_from"@,
                "module '"@ + im + "' is not allowed to import from '"@ + pm + "'"@,
                e,
                im,
                pm,
                pos,
            ),
        )
    } else {
        match public_api {
            Some(globs) => if !globset_matches(globs, repo_relative(canonical_root, e.to@)) {
                Some(
                    boundary_violation(
                        "boundary.public_api"@,
                        "module '"@ + im + "' imported non-public file '"@ + repo_relative(canonical_root, e.to@)
                            + "' from '"@ + pm + "'"@,
                        e,
                        im,
                        pm,
                        pos,
                    ),
                )
            } else {
                None
            },
            None => None,
        }
    }
}

/// The canonical import check: a provider that enforces canonical imports
/// rejects relative specifiers from other modules.
pub open spec fn canonical_violation(
    e: GraphEdge,
    im: Seq<char>,
    pm: Seq<char>,
    pb: Boundaries,
    pos: Option<(u32, u32)>,
) -> Option<RuleViolationModel> {
    if pb.enforce_canonical_imports && (has_prefix(e.specifier@, "./"@) || has_prefix(e.specifier@, "../"@)) {
        Some(
            boundary_violation(
                BOUNDARY_CANONICAL_IMPORT_RULE_ID@,
                "module '"@ + pm + "' requires canonical imports; cross-module relative specifier '"@
                    + e.specifier@ + "' is not allowed"@,
                e,
                im,
                pm,
                pos,
            ),
        )
    } else {
        None
    }
}

/// The provider-side check of an edge, in order of precedence: denied
/// importers, the importer allowlist, visibility (internal modules admit
/// their friends, private ones nobody), then canonical imports.
pub open spec fn provider_violation(
    e: GraphEdge,
    im: Seq<char>,
    pm: Seq<char>,
    pb: Boundaries,
    pos: Option<(u32, u32)>,
) -> Option<RuleViolationModel> {
    if views(pb.deny_imported_by@).contains(im) {
        Some(
            boundary_violation(
                "boundary.deny_imported_by"@,
                "module '"@ + pm + "' denies imports from '"@ + im + "'"@,
                e,
                im,
                pm,
                pos,
            ),
        )
    } else if pb.allow_imported_by@.len() > 0 && !views(pb.allow_imported_by@).contains(im) {
        Some(
            boundary_violation(
                "boundary.allow_imported_by"@,
                "module '"@ + pm + "' only allows imports from "@ + debug_list(views(pb.allow_imported_by@)),
                e,
                im,
                pm,
                pos,
            ),
        )
    } else {
        match pb.visibility {
            Some(Visibility::Internal) => if !views(pb.friend_modules@).contains(im) {
                Some(
                    boundary_violation(
                        "boundary.visibility.internal"@,
                        "module '"@ + pm + "' is internal and not visible to '"@ + im + "'"@,
                        e,
                        im,
                        pm,
                        pos,
                    ),
                )
            } else {
                canonical_violation(e, im, pm, pb, pos)
            },
            Some(Visibility::Private) => Some(
                boundary_violation(
                    "boundary.visibility.private"@,
                    "module '"@ + pm + "' is private and cannot be imported by '"@ + im + "'"@,
                    e,
                    im,
                    pm,
                    pos,
                ),
            ),
            _ => canonical_violation(e, im, pm, pb, pos),
        }
    }
}

pub open spec fn opt_seq(o: Option<RuleViolationModel>) -> Seq<RuleViolationModel> {
    match o {
        Some(v) => seq![v],
        None => Seq::empty(),
    }
}

/// The test globs, when they compile into a set.
pub open spec fn test_globs(patterns: Seq<String>) -> Option<Seq<Seq<char>>> {
    if compiles(views(patterns)) {
        Some(views(patterns))
    } else {
        None
    }
}

/// The violations of one edge between two modules with specs: the
/// importer-side one, then the provider-side one. Edges within a module,
/// from or to files of no module or of a module without a spec, and ignored
/// imports give none; from test files, a side is checked only when its
/// module enforces boundaries in tests.
pub open spec fn edge_boundary_violations(
    specs: Seq<SpecFile>,
    graph: DependencyGraph,
    root: Seq<char>,
    canonical_root: Seq<char>,
    tests: Option<Seq<Seq<char>>>,
    e: GraphEdge,
) -> Seq<RuleViolationModel> {
    match graph.module_of(e.from@) {
        None => Seq::empty(),
        Some(im) => match spec_for_module(specs, im) {
            None => Seq::empty(),
            Some(ispec) => match graph.module_of(e.to@) {
                None => Seq::empty(),
                Some(pm) => if pm == im {
                    Seq::empty()
                } else {
                    match spec_for_module(specs, pm) {
                        None => Seq::empty(),
                        Some(pspec) => {
                            let imports = graph.imports_of(e.from@);
                            if edge_ignored(e, imports) {
                                Seq::empty()
                            } else {
                                let ib = boundaries_or_default(ispec.boundaries);
                                let pb = boundaries_or_default(pspec.boundaries);
                                let pos = edge_position(e, imports);
                                let test = is_test_file(root, e.from@, tests);
                                let importer = if !test || ib.enforce_in_tests {
                                    importer_violation(e, im, ib, pm, public_api_globs(pb), canonical_root, pos)
                                } else {
                                    None
                                };
                                let provider = if !test || pb.enforce_in_tests {
                                    provider_violation(e, im, pm, pb, pos)
                                } else {
                                    None
                                };
                                opt_seq(importer) + opt_seq(provider)
                            }
                        },
                    }
                },
            },
        },
    }
}

/// The violations of the edges, edge by edge.
pub open spec fn edges_boundary_violations(
    specs: Seq<SpecFile>,
    graph: DependencyGraph,
    root: Seq<char>,
    canonical_root: Seq<char>,
    tests: Option<Seq<Seq<char>>>,
    edges: Seq<GraphEdge>,
) -> Seq<RuleViolationModel>
    decreases edges.len(),
{
    if edges.len() == 0 {
        Seq::empty()
    } else {
        edges_boundary_violations(specs, graph, root, canonical_root, tests, edges.drop_last())
            + edge_boundary_violations(specs, graph, root, canonical_root, tests, edges.last())
    }
}

/// The text of a glob compilation error.
pub open spec fn glob_outcome_error_text(err: (Option<Seq<char>>, Seq<char>)) -> Seq<char> {
    match err.0 {
        Some(p) => "'"@ + p + "' ("@ + err.1 + ")"@,
        None => "<globset> ("@ + err.1 + ")"@,
    }
}

/// A configuration violation: no target, no position.
pub open spec fn config_violation(
    rule: Seq<char>,
    message: Seq<char>,
    from_file: Seq<char>,
    from_module: Option<Seq<char>>,
) -> RuleViolationModel {
    ((rule, None, message), (from_file, None, from_module, None), (None, None))
}

/// A violation when the configured test globs do not compile.
pub open spec fn test_glob_violations(root: Seq<char>, patterns: Seq<String>) -> Seq<RuleViolationModel> {
    match glob_compile_outcome(views(patterns)) {
        Err(err) => seq![
            config_violation(
                "boundary.config.invalid_test_glob"@,
                "invalid config.test_patterns glob pattern: "@ + glob_outcome_error_text(err),
                root,
                None,
            ),
        ],
        _ => Seq::empty(),
    }
}

/// A violation when a module's public API globs do not compile, reported at
/// its spec file (or the project root).
pub open spec fn public_api_glob_violation(root: Seq<char>, module: Seq<char>, spec: SpecFile) -> Seq<
    RuleViolationModel,
> {
    let b = boundaries_or_default(spec.boundaries);
    if b.public_api@.len() == 0 {
        Seq::empty()
    } else {
        match glob_compile_outcome(views(b.public_api@)) {
            Err(err) => seq![
                config_violation(
                    "boundary.config.invalid_public_api_glob"@,
                    "module '"@ + module + "' has invalid boundaries.public_api glob pattern: "@
                        + glob_outcome_error_text(err),
                    match spec.spec_path {
                        Some(p) => p@,
                        None => root,
                    },
                    Some(module),
                ),
            ],
            _ => Seq::empty(),
        }
    }
}

/// The modules that have a spec.
pub open spec fn spec_modules(specs: Seq<SpecFile>) -> Set<Seq<char>> {
    Set::new(|m: Seq<char>| exists|i: int| 0 <= i < specs.len() && #[trigger] specs[i].module@ == m)
}

/// Public API glob violations of the given modules, in order.
pub open spec fn public_api_glob_violations(root: Seq<char>, specs: Seq<SpecFile>, modules: Seq<Seq<char>>) -> Seq<
    RuleViolationModel,
>
    decreases modules.len(),
{
    if modules.len() == 0 {
        Seq::empty()
    } else {
        public_api_glob_violations(root, specs, modules.drop_last()) + match spec_for_module(
            specs,
            modules.last(),
        ) {
            Some(s) => public_api_glob_violation(root, modules.last(), s),
            None => Seq::empty(),
        }
    }
}

/// Everything the boundary rules report: configuration problems (test
/// globs, then each module's public API globs by module name), then the
/// violations of the edges.
pub open spec fn expected_boundary_violations(
    root: Seq<char>,
    test_patterns: Seq<String>,
    specs: Seq<SpecFile>,
    graph: DependencyGraph,
    canonical_root: Seq<char>,
) -> Seq<RuleViolationModel> {
    test_glob_violations(root, test_patterns) + public_api_glob_violations(
        root,
        specs,
        sorted_seq_of(spec_modules(specs)),
    ) + edges_boundary_violations(specs, graph, root, canonical_root, test_globs(test_patterns), graph.edges@)
}

/// The index of the last of `specs` declaring `module`.
pub(crate) fn spec_index_for_module(specs: &[SpecFile], module: &str) -> (r: Option<usize>)
    ensures
        match r {
            Some(k) => k < specs@.len() && spec_for_module(specs@, module@) == Some(specs@[k as int]),
            None => spec_for_module(specs@, module@) is None,
        },
{
    let mut i: usize = specs.len();
    assert(specs@.take(i as int) =~= specs@);
    while i > 0
        invariant
            i <= specs@.len(),
            spec_for_module(specs@, module@) == spec_for_module(specs@.take(i as int), module@),
        decreases i,
    {
        let j = i - 1;
        assert(specs@.take(i as int).drop_last() =~= specs@.take(j as int));
        assert(specs@.take(i as int).last() == specs@[j as int]);
        if str_eq(specs[j].module.as_str(), module) {
            return Some(j);
        }
        i = j;
    }
    None
}

/// Two boundary values that apply the same policy: equal, or both default.
pub open spec fn same_policy(a: Boundaries, b: Boundaries) -> bool {
    a == b || (is_default_boundaries(a) && is_default_boundaries(b))
}

proof fn lemma_same_policy(a: Boundaries, b: Boundaries, e: GraphEdge, im: Seq<char>, pm: Seq<char>, pa: Option<Seq<Seq<char>>>, cr: Seq<char>, pos: Option<(u32, u32)>)
    requires
        same_policy(a, b),
    ensures
        importer_violation(e, im, a, pm, pa, cr, pos) == importer_violation(e, im, b, pm, pa, cr, pos),
        provider_violation(e, im, pm, a, pos) == provider_violation(e, im, pm, b, pos),
        public_api_globs(a) == public_api_globs(b),
        a.enforce_in_tests == b.enforce_in_tests,
{
    if a != b {
        assert(views(a.never_imports@) =~= views(b.never_imports@));
        assert(views(a.deny_imported_by@) =~= views(b.deny_imported_by@));
        assert(views(a.public_api@) =~= views(b.public_api@));
    }
}

/// The boundaries of a spec, or `default` (the default boundaries) when it declares none.
fn effective_boundaries<'a>(spec: &'a SpecFile, default: &'a Boundaries) -> (r: &'a Boundaries)
    requires
        is_default_boundaries(*default),
    ensures
        same_policy(*r, boundaries_or_default(spec.boundaries)),
{
    match &spec.boundaries {
        Some(b) => b,
        None => default,
    }
}

/// Whether an import edge is covered by an ignore comment.
fn import_is_ignored(e: &GraphEdge, imports: &[ImportInfo]) -> (r: bool)
    ensures
        r == edge_ignored(*e, imports@),
{
    if let EdgeKind::DynamicImport = e.kind {
        return false;
    }
    assert(e.kind == EdgeKind::RuntimeImport || e.kind == EdgeKind::TypeOnlyImport);
    if e.ignored_by_comment {
        return true;
    }
    let mut i: usize = 0;
    while i < imports.len()
        invariant
            i <= imports@.len(),
            !e.ignored_by_comment,
            e.kind == EdgeKind::RuntimeImport || e.kind == EdgeKind::TypeOnlyImport,
            forall|k: int|
                0 <= k < i ==> !((#[trigger] imports@[k]).ignore_comment is Some && imports@[k].specifier@
                    == e.specifier@ && same_span(*e, imports@[k])),
        decreases imports@.len() - i,
    {
        let imp = &imports[i];
        let spans = match e.span_start {
            Some(s) => match e.span_end {
                Some(t) => s == imp.span_start && t == imp.span_end,
                None => false,
            },
            None => false,
        };
        assert(spans == same_span(*e, imports@[i as int]));
        if imp.ignore_comment.is_some() && str_eq(imp.specifier.as_str(), e.specifier.as_str()) && spans {
            assert(imports@[i as int].ignore_comment is Some && imports@[i as int].specifier@ == e.specifier@
                && same_span(*e, imports@[i as int]));
            return true;
        }
        i = i + 1;
    }
    false
}

/// Where to report a violation about an edge.
fn import_position(e: &GraphEdge, imports: &[ImportInfo]) -> (r: Option<(u32, u32)>)
    ensures
        r == edge_position(*e, imports@),
{
    match (e.line, e.column) {
        (Some(l), Some(c)) => {
            return Some((l, c));
        },
        _ => {},
    }
    let mut i: usize = 0;
    assert(imports@.skip(0) =~= imports@);
    while i < imports.len()
        invariant
            i <= imports@.len(),
            edge_position(*e, imports@) == matching_import_position(*e, imports@.skip(i as int)),
        decreases imports@.len() - i,
    {
        let imp = &imports[i];
        let ghost rest = imports@.skip(i as int);
        assert(rest[0] == imports@[i as int]);
        let spans = match e.span_start {
            Some(s) => match e.span_end {
                Some(t) => s == imp.span_start && t == imp.span_end,
                None => false,
            },
            None => false,
        };
        if str_eq(imp.specifier.as_str(), e.specifier.as_str()) && spans {
            return Some((imp.line, imp.column));
        }
        assert(rest.drop_first() =~= imports@.skip(i + 1));
        i = i + 1;
    }
    None
}

/// A violation about an edge from module `im` to module `pm`.
fn build_violation(rule: &str, message: String, e: &GraphEdge, im: &str, pm: &str, pos: Option<(u32, u32)>) -> (r:
    RuleViolation)
    ensures
        rule_violation_model(r) == boundary_violation(rule@, message@, *e, im@, pm@, pos),
{
    RuleViolation {
        rule: owned(rule),
        severity: None,
        message,
        from_file: e.from.clone(),
        to_file: Some(e.to.clone()),
        from_module: Some(owned(im)),
        to_module: Some(owned(pm)),
        line: match pos {
            Some(p) => Some(p.0),
            None => None,
        },
        column: match pos {
            Some(p) => Some(p.1),
            None => None,
        },
    }
}

pub open spec fn set_patterns(o: Option<&CompiledGlobSet>) -> Option<Seq<Seq<char>>> {
    match o {
        Some(s) => Some(views(s.patterns@)),
        None => None,
    }
}

/// Records the importer-side violation of an edge, if any.
fn check_importer_side(
    e: &GraphEdge,
    im: &str,
    ib: &Boundaries,
    pm: &str,
    public_api: Option<&CompiledGlobSet>,
    canonical_root: &str,
    pos: Option<(u32, u32)>,
    violations: &mut Vec<RuleViolation>,
)
    requires
        public_api matches Some(s) ==> s.ready(),
    ensures
        rule_violation_models(final(violations)@) == rule_violation_models(old(violations)@) + opt_seq(
            importer_violation(*e, im@, *ib, pm@, set_patterns(public_api), canonical_root@, pos),
        ),
{
    let ghost before = rule_violation_models(violations@);
    let ghost expected = importer_violation(*e, im@, *ib, pm@, set_patterns(public_api), canonical_root@, pos);
    if strings_contain(&ib.never_imports, pm) {
        let mut m = owned("module '");
        push_str(&mut m, im);
        push_str(&mut m, "' may never import from '");
        push_str(&mut m, pm);
        push_str(&mut m, "'");
        super::push_violation(violations, build_violation("boundary.never_imports", m, e, im, pm, pos));
        assert(rule_violation_models(violations@) =~= before + opt_seq(expected));
        return;
    }
    if let Some(allow) = &ib.allow_imports_from {
        if !strings_contain(allow, pm) {
            let type_carve_out = match e.kind {
                EdgeKind::TypeOnlyImport => strings_contain(&ib.allow_type_imports_from, pm),
                _ => false,
            };
            if !type_carve_out {
                let mut m = owned("module '");
                push_str(&mut m, im);
                push_str(&mut m, "' is not allowed to import from '");
                push_str(&mut m, pm);
                push_str(&mut m, "'");
                super::push_violation(violations, build_violation("boundary.allow_imports_from", m, e, im, pm, pos));
                assert(rule_violation_models(violations@) =~= before + opt_seq(expected));
                return;
            }
        }
    }
    if let Some(matcher) = public_api {
        let target_rel = normalize_repo_relative(canonical_root, e.to.as_str());
        if !matcher.is_match(target_rel.as_str()) {
            let mut m = owned("module '");
            push_str(&mut m, im);
            push_str(&mut m, "' imported non-public file '");
            push_str(&mut m, target_rel.as_str());
            push_str(&mut m, "' from '");
            push_str(&mut m, pm);
            push_str(&mut m, "'");
            super::push_violation(violations, build_violation("boundary.public_api", m, e, im, pm, pos));
            assert(rule_violation_models(violations@) =~= before + opt_seq(expected));
            return;
        }
    }
    assert(rule_violation_models(violations@) =~= before + opt_seq(expected));
}

/// Whether a specifier is relative (`./` or `../`).
fn is_cross_module_relative(specifier: &str) -> (r: bool)
    ensures
        r == (has_prefix(specifier@, "./"@) || has_prefix(specifier@, "../"@)),
{
    str_starts_with(specifier, "./") || str_starts_with(specifier, "../")
}

/// Records the provider-side violation of an edge, if any.
fn check_provider_side(
    e: &GraphEdge,
    im: &str,
    pm: &str,
    pb: &Boundaries,
    pos: Option<(u32, u32)>,
    violations: &mut Vec<RuleViolation>,
)
    ensures
        rule_violation_models(final(violations)@) == rule_violation_models(old(violations)@) + opt_seq(
            provider_violation(*e, im@, pm@, *pb, pos),
        ),
{
    let ghost before = rule_violation_models(violations@);
    let ghost expected = provider_violation(*e, im@, pm@, *pb, pos);
    if strings_contain(&pb.deny_imported_by, im) {
        let mut m = owned("module '");
        push_str(&mut m, pm);
        push_str(&mut m, "' denies imports from '");
        push_str(&mut m, im);
        push_str(&mut m, "'");
        super::push_violation(violations, build_violation("boundary.deny_imported_by", m, e, im, pm, pos));
        assert(rule_violation_models(violations@) =~= before + opt_seq(expected));
        return;
    }
    if pb.allow_imported_by.len() > 0 && !strings_contain(&pb.allow_imported_by, im) {
        let mut m = owned("module '");
        push_str(&mut m, pm);
        push_str(&mut m, "' only allows imports from ");
        let listed = debug_strings(&pb.allow_imported_by);
        push_str(&mut m, listed.as_str());
        super::push_violation(violations, build_violation("boundary.allow_imported_by", m, e, im, pm, pos));
        assert(rule_violation_models(violations@) =~= before + opt_seq(expected));
        return;
    }
    match pb.visibility_or_default() {
        Visibility::Public => {},
        Visibility::Internal => {
            if !strings_contain(&pb.friend_modules, im) {
                let mut m = owned("module '");
                push_str(&mut m, pm);
                push_str(&mut m, "' is internal and not visible to '");
                push_str(&mut m, im);
                push_str(&mut m, "'");
                super::push_violation(violations, build_violation("boundary.visibility.internal", m, e, im, pm, pos));
                assert(rule_violation_models(violations@) =~= before + opt_seq(expected));
                return;
            }
        },
        Visibility::Private => {
            let mut m = owned("module '");
            push_str(&mut m, pm);
            push_str(&mut m, "' is private and cannot be imported by '");
            push_str(&mut m, im);
            push_str(&mut m, "'");
            super::push_violation(violations, build_violation("boundary.visibility.private", m, e, im, pm, pos));
            assert(rule_violation_models(violations@) =~= before + opt_seq(expected));
            return;
        },
    }
    if pb.enforce_canonical_imports && is_cross_module_relative(e.specifier.as_str()) {
        let mut m = owned("module '");
        push_str(&mut m, pm);
        push_str(&mut m, "' requires canonical imports; cross-module relative specifier '");
        push_str(&mut m, e.specifier.as_str());
        push_str(&mut m, "' is not allowed");
        super::push_violation(violations, build_violation(BOUNDARY_CANONICAL_IMPORT_RULE_ID, m, e, im, pm, pos));
    }
    assert(rule_violation_models(violations@) =~= before + opt_seq(expected));
}

/// The compiled public API globs of each spec, where they compile.
pub open spec fn api_sets_match(specs: Seq<SpecFile>, sets: Seq<Option<CompiledGlobSet>>) -> bool {
    &&& sets.len() == specs.len()
    &&& forall|k: int|
        0 <= k < sets.len() ==> match #[trigger] sets[k] {
            Some(s) => s.ready() && Some(views(s.patterns@)) == public_api_globs(
                boundaries_or_default(specs[k].boundaries),
            ),
            None => public_api_globs(boundaries_or_default(specs[k].boundaries)) is None,
        }
}

/// Records the violations of one edge.
fn check_edge(
    ctx: &RuleContext,
    canonical_root: &str,
    test_matcher: Option<&CompiledGlobSet>,
    api_sets: &Vec<Option<CompiledGlobSet>>,
    default: &Boundaries,
    e: &GraphEdge,
    violations: &mut Vec<RuleViolation>,
)
    requires
        is_default_boundaries(*default),
        test_matcher matches Some(s) ==> s.ready(),
        set_patterns(test_matcher) == test_globs(ctx.config.test_patterns@),
        api_sets_match(ctx.specs@, api_sets@),
    ensures
        rule_violation_models(final(violations)@) == rule_violation_models(old(violations)@)
            + edge_boundary_violations(
            ctx.specs@,
            *ctx.graph,
            ctx.project_root@,
            canonical_root@,
            test_globs(ctx.config.test_patterns@),
            *e,
        ),
{
    let ghost before = rule_violation_models(violations@);
    let ghost expected = edge_boundary_violations(
        ctx.specs@,
        *ctx.graph,
        ctx.project_root@,
        canonical_root@,
        test_globs(ctx.config.test_patterns@),
        *e,
    );
    let im = match ctx.graph.module_of_file(e.from.as_str()) {
        Some(m) => m,
        None => {
            assert(rule_violation_models(violations@) =~= before + expected);
            return;
        },
    };
    let ii = match spec_index_for_module(ctx.specs, im) {
        Some(i) => i,
        None => {
            assert(rule_violation_models(violations@) =~= before + expected);
            return;
        },
    };
    let pm = match ctx.graph.module_of_file(e.to.as_str()) {
        Some(m) => m,
        None => {
            assert(rule_violation_models(violations@) =~= before + expected);
            return;
        },
    };
    if str_eq(pm, im) {
        assert(rule_violation_models(violations@) =~= before + expected);
        return;
    }
    let pi = match spec_index_for_module(ctx.specs, pm) {
        Some(i) => i,
        None => {
            assert(rule_violation_models(violations@) =~= before + expected);
            return;
        },
    };
    let imports = ctx.graph.imports_of_file(e.from.as_str());
    if import_is_ignored(e, imports) {
        assert(rule_violation_models(violations@) =~= before + expected);
        return;
    }
    let ib = effective_boundaries(&ctx.specs[ii], default);
    let pb = effective_boundaries(&ctx.specs[pi], default);
    let pos = import_position(e, imports);
    let test = matches_test_file(ctx.project_root, e.from.as_str(), test_matcher);
    let ghost ib_spec = boundaries_or_default(ctx.specs@[ii as int].boundaries);
    let ghost pb_spec = boundaries_or_default(ctx.specs@[pi as int].boundaries);
    let public_api = match &api_sets[pi] {
        Some(s) => Some(s),
        None => None,
    };
    proof {
        lemma_same_policy(*ib, ib_spec, *e, im@, pm@, set_patterns(public_api), canonical_root@, pos);
        lemma_same_policy(*pb, pb_spec, *e, im@, pm@, set_patterns(public_api), canonical_root@, pos);
        assert(set_patterns(public_api) == public_api_globs(pb_spec));
    }
    if !test || ib.enforce_in_tests {
        check_importer_side(e, im, ib, pm, public_api, canonical_root, pos, violations);
    }
    let ghost mid = rule_violation_models(violations@);
    if !test || pb.enforce_in_tests {
        check_provider_side(e, im, pm, pb, pos, violations);
    }
    assert(rule_violation_models(violations@) =~= before + expected);
}

/// A configuration violation.
fn build_config_violation(rule: &str, message: String, from_file: &str, from_module: Option<&str>) -> (r: RuleViolation)
    ensures
        rule_violation_model(r) == config_violation(
            rule@,
            message@,
            from_file@,
            match from_module {
                Some(m) => Some(m@),
                None => None,
            },
        ),
{
    RuleViolation {
        rule: owned(rule),
        severity: None,
        message,
        from_file: owned(from_file),
        to_file: None,
        from_module: match from_module {
            Some(m) => Some(owned(m)),
            None => None,
        },
        to_module: None,
        line: None,
        column: None,
    }
}

/// The modules that have a spec, sorted.
pub(crate) fn sorted_spec_modules(specs: &[SpecFile]) -> (r: Vec<String>)
    ensures
        views(r@) == sorted_seq_of(spec_modules(specs@)),
{
    let mut out: Vec<String> = Vec::new();
    let mut i: usize = 0;
    assert(views(out@).to_set() =~= spec_modules(specs@.take(0)));
    while i < specs.len()
        invariant
            i <= specs@.len(),
            strictly_sorted(views(out@)),
            views(out@).to_set() == spec_modules(specs@.take(i as int)),
        decreases specs@.len() - i,
    {
        set_insert(&mut out, specs[i].module.clone());
        let ghost prev = specs@.take(i as int);
        let ghost next = specs@.take(i + 1);
        assert(views(out@).to_set() =~= spec_modules(next)) by {
            assert forall|m: Seq<char>| spec_modules(next).contains(m) <==> spec_modules(prev).insert(
                specs@[i as int].module@,
            ).contains(m) by {
                if spec_modules(next).contains(m) {
                    let j = choose|j: int| 0 <= j < next.len() && #[trigger] next[j].module@ == m;
                    if j < i {
                        assert(prev[j].module@ == m);
                    }
                }
                if spec_modules(prev).contains(m) {
                    let j = choose|j: int| 0 <= j < prev.len() && #[trigger] prev[j].module@ == m;
                    assert(next[j].module@ == m);
                }
                if m == specs@[i as int].module@ {
                    assert(next[i as int].module@ == m);
                }
            }
        }
        i = i + 1;
    }
    assert(specs@.take(i as int) =~= specs@);
    proof {
        lemma_sorted_seq_of(views(out@));
    }
    out
}

/// Records the configuration violations and compiles the globs the rules
/// use: the test globs (returned) and each spec's public API globs.
fn compile_boundary_globs(ctx: &RuleContext, default: &Boundaries, violations: &mut Vec<RuleViolation>) -> (r: (
    Option<CompiledGlobSet>,
    Vec<Option<CompiledGlobSet>>,
))
    requires
        is_default_boundaries(*default),
    ensures
        rule_violation_models(final(violations)@) == rule_violation_models(old(violations)@)
            + test_glob_violations(ctx.project_root@, ctx.config.test_patterns@) + public_api_glob_violations(
            ctx.project_root@,
            ctx.specs@,
            sorted_seq_of(spec_modules(ctx.specs@)),
        ),
        r.0 matches Some(s) ==> s.ready(),
        set_patterns(
            match &r.0 {
                Some(s) => Some(s),
                None => None,
            },
        ) == test_globs(ctx.config.test_patterns@),
        api_sets_match(ctx.specs@, r.1@),
{
    let ghost before = rule_violation_models(violations@);
    let test_matcher = match compile_optional_globset_strict(&ctx.config.test_patterns) {
        Ok(m) => m,
        Err(error) => {
            proof {
                lemma_failed_compile_does_not_compile(views(ctx.config.test_patterns@));
            }
            let mut m = owned("invalid config.test_patterns glob pattern: ");
            let rendered = render_glob_error(&error);
            push_str(&mut m, rendered.as_str());
            super::push_violation(
                violations,
                build_config_violation("boundary.config.invalid_test_glob", m, ctx.project_root, None),
            );
            None
        },
    };
    assert(rule_violation_models(violations@) =~= before + test_glob_violations(
        ctx.project_root@,
        ctx.config.test_patterns@,
    ));
    let ghost after_test = rule_violation_models(violations@);
    let modules = sorted_spec_modules(ctx.specs);
    let ghost names = views(modules@);
    let mut k: usize = 0;
    assert(names.take(0) =~= Seq::<Seq<char>>::empty());
    while k < modules.len()
        invariant
            k <= modules@.len(),
            names == views(modules@),
            is_default_boundaries(*default),
            rule_violation_models(violations@) == after_test + public_api_glob_violations(
                ctx.project_root@,
                ctx.specs@,
                names.take(k as int),
            ),
        decreases modules@.len() - k,
    {
        let module = modules[k].as_str();
        assert(names.take(k + 1).drop_last() =~= names.take(k as int));
        assert(names.take(k + 1).last() == module@);
        let ghost mid = rule_violation_models(violations@);
        if let Some(si) = spec_index_for_module(ctx.specs, module) {
            let spec = &ctx.specs[si];
            let b = effective_boundaries(spec, default);
            if b.public_api.len() > 0 {
                match compile_optional_globset_strict(&b.public_api) {
                    Err(error) => {
                        let mut m = owned("module '");
                        push_str(&mut m, module);
                        push_str(&mut m, "' has invalid boundaries.public_api glob pattern: ");
                        let rendered = render_glob_error(&error);
                        push_str(&mut m, rendered.as_str());
                        let from = match &spec.spec_path {
                            Some(p) => p.as_str(),
                            None => ctx.project_root,
                        };
                        super::push_violation(
                            violations,
                            build_config_violation("boundary.config.invalid_public_api_glob", m, from, Some(module)),
                        );
                    },
                    Ok(_) => {},
                }
            }
            assert(views(b.public_api@) =~= views(boundaries_or_default(spec.boundaries).public_api@));
        }
        assert(rule_violation_models(violations@) =~= after_test + public_api_glob_violations(
            ctx.project_root@,
            ctx.specs@,
            names.take(k + 1),
        ));
        k = k + 1;
    }
    assert(names.take(k as int) =~= names);
    let mut sets: Vec<Option<CompiledGlobSet>> = Vec::new();
    let mut j: usize = 0;
    while j < ctx.specs.len()
        invariant
            j <= ctx.specs@.len(),
            sets@.len() == j,
            is_default_boundaries(*default),
            forall|q: int|
                0 <= q < j ==> match #[trigger] sets@[q] {
                    Some(s) => s.ready() && Some(views(s.patterns@)) == public_api_globs(
                        boundaries_or_default(ctx.specs@[q].boundaries),
                    ),
                    None => public_api_globs(boundaries_or_default(ctx.specs@[q].boundaries)) is None,
                },
        decreases ctx.specs@.len() - j,
    {
        let b = effective_boundaries(&ctx.specs[j], default);
        let ghost bs = boundaries_or_default(ctx.specs@[j as int].boundaries);
        assert(views(b.public_api@) =~= views(bs.public_api@));
        let compiled = match compile_optional_globset_strict(&b.public_api) {
            Ok(Some(set)) => Some(set),
            Ok(None) => None,
            Err(_) => {
                proof {
                    lemma_failed_compile_does_not_compile(views(b.public_api@));
                }
                None
            },
        };
        sets.push(compiled);
        j = j + 1;
    }
    (test_matcher, sets)
}

/// Evaluates the boundary rules over the dependency graph: configuration
/// problems with the globs, then for each edge between two modules with
/// specs the importer-side and provider-side violations; sorted
/// deterministically. `canonical_root` is the project root as the file
/// system resolves it; public API globs match provider files relative to it.
pub fn evaluate_boundary_rules(ctx: &RuleContext, canonical_root: &str) -> (r: Vec<RuleViolation>)
    ensures
        sorted_by_key(r@),
        rule_violation_models(r@).to_multiset() == expected_boundary_violations(
            ctx.project_root@,
            ctx.config.test_patterns@,
            ctx.specs@,
            *ctx.graph,
            canonical_root@,
        ).to_multiset(),
{
    let default = Boundaries::default();
    let mut violations: Vec<RuleViolation> = Vec::new();
    assert(rule_violation_models(violations@) =~= Seq::<RuleViolationModel>::empty());
    let (test_matcher, api_sets) = compile_boundary_globs(ctx, &default, &mut violations);
    let ghost config = rule_violation_models(violations@);
    let test_ref = match &test_matcher {
        Some(s) => Some(s),
        None => None,
    };
    let ghost tests = test_globs(ctx.config.test_patterns@);
    let ghost edges = ctx.graph.edges@;
    let mut i: usize = 0;
    assert(edges.take(0) =~= Seq::<GraphEdge>::empty());
    while i < ctx.graph.edges.len()
        invariant
            i <= edges.len(),
            edges == ctx.graph.edges@,
            is_default_boundaries(default),
            test_ref matches Some(s) ==> s.ready(),
            set_patterns(test_ref) == tests,
            tests == test_globs(ctx.config.test_patterns@),
            api_sets_match(ctx.specs@, api_sets@),
            rule_violation_models(violations@) == config + edges_boundary_violations(
                ctx.specs@,
                *ctx.graph,
                ctx.project_root@,
                canonical_root@,
                tests,
                edges.take(i as int),
            ),
        decreases edges.len() - i,
    {
        assert(edges.take(i + 1).drop_last() =~= edges.take(i as int));
        assert(edges.take(i + 1).last() == edges[i as int]);
        check_edge(ctx, canonical_root, test_ref, &api_sets, &default, &ctx.graph.edges[i], &mut violations);
        assert(rule_violation_models(violations@) =~= config + edges_boundary_violations(
            ctx.specs@,
            *ctx.graph,
            ctx.project_root@,
            canonical_root@,
            tests,
            edges.take(i + 1),
        ));
        i = i + 1;
    }
    assert(edges.take(i as int) =~= edges);
    let ghost unsorted = violations@;
    sort_violations_stable(&mut violations);
    proof {
        lemma_multiset_map(violations@, unsorted, |v: RuleViolation| rule_violation_model(v));
        assert(rule_violation_models(violations@) == violations@.map_values(|v: RuleViolation| rule_violation_model(v)));
        assert(rule_violation_models(unsorted) == unsorted.map_values(|v: RuleViolation| rule_violation_model(v)));
    }
    violations
}

/// A specifier that starts with `./` or `../`.
pub open spec fn starts_relative(s: Seq<char>) -> bool {
    (s.len() >= 2 && s[0] == '.' && s[1] == '/') || (s.len() >= 3 && s[0] == '.' && s[1] == '.' && s[2] == '/')
}

/// A provider that enforces canonical imports rejects, for every kind of
/// edge (static, type-only or dynamic), a relative specifier (`./`, `../`)
/// from another module that passes its other provider-side checks; a
/// specifier that is not relative passes.
pub proof fn law_canonical_imports_reject_relative_specifiers(
    e: GraphEdge,
    im: Seq<char>,
    pm: Seq<char>,
    pb: Boundaries,
    pos: Option<(u32, u32)>,
)
    requires
        pb.enforce_canonical_imports,
        !views(pb.deny_imported_by@).contains(im),
        pb.allow_imported_by@.len() == 0 || views(pb.allow_imported_by@).contains(im),
        pb.visibility is None || pb.visibility == Some(Visibility::Public) || (pb.visibility == Some(
            Visibility::Internal,
        ) && views(pb.friend_modules@).contains(im)),
    ensures
        starts_relative(e.specifier@) ==> provider_violation(e, im, pm, pb, pos) == Some(
            boundary_violation(
                "boundary.canonical_import"@,
                "module '"@ + pm + "' requires canonical imports; cross-module relative specifier '"@
                    + e.specifier@ + "' is not allowed"@,
                e,
                im,
                pm,
                pos,
            ),
        ),
        !starts_relative(e.specifier@) ==> provider_violation(e, im, pm, pb, pos) is None,
{
    reveal_strlit("./");
    reveal_strlit("../");
    reveal_strlit("boundary.canonical_import");
    let s = e.specifier@;
    if starts_relative(s) {
        if s.len() >= 2 && s[0] == '.' && s[1] == '/' {
            assert(s.subrange(0, 2) =~= "./"@);
        } else {
            assert(s.subrange(0, 3) =~= "../"@);
        }
    } else {
        if has_prefix(s, "./"@) {
            assert(s.subrange(0, 2)[0] == s[0]);
            assert(s.subrange(0, 2)[1] == s[1]);
        }
        if has_prefix(s, "../"@) {
            assert(s.subrange(0, 3)[0] == s[0]);
            assert(s.subrange(0, 3)[1] == s[1]);
            assert(s.subrange(0, 3)[2] == s[2]);
        }
    }
}

/// Every provider-side violation of an edge between two modules with specs,
/// from a file that is not a test file and not ignored, is reported for that
/// edge, whatever the edge's kind.
pub proof fn law_provider_side_is_reported(
    specs: Seq<SpecFile>,
    graph: DependencyGraph,
    root: Seq<char>,
    canonical_root: Seq<char>,
    tests: Option<Seq<Seq<char>>>,
    e: GraphEdge,
    im: Seq<char>,
    pm: Seq<char>,
    ispec: SpecFile,
    pspec: SpecFile,
    v: RuleViolationModel,
)
    requires
        graph.module_of(e.from@) == Some(im),
        graph.module_of(e.to@) == Some(pm),
        im != pm,
        spec_for_module(specs, im) == Some(ispec),
        spec_for_module(specs, pm) == Some(pspec),
        !edge_ignored(e, graph.imports_of(e.from@)),
        !is_test_file(root, e.from@, tests),
        provider_violation(
            e,
            im,
            pm,
            boundaries_or_default(pspec.boundaries),
            edge_position(e, graph.imports_of(e.from@)),
        ) == Some(v),
    ensures
        edge_boundary_violations(specs, graph, root, canonical_root, tests, e).contains(v),
{
    let ib = boundaries_or_default(ispec.boundaries);
    let pos = edge_position(e, graph.imports_of(e.from@));
    let importer = importer_violation(e, im, ib, pm, public_api_globs(boundaries_or_default(pspec.boundaries)), canonical_root, pos);
    let all = edge_boundary_violations(specs, graph, root, canonical_root, tests, e);
    assert(all == opt_seq(importer) + seq![v]);
    assert(all[opt_seq(importer).len() as int] == v);
}

/// Imports within one module are always allowed: an edge whose two files
/// belong to the same module yields no boundary violation.
pub proof fn law_same_module_imports_allowed(
    specs: Seq<SpecFile>,
    graph: DependencyGraph,
    root: Seq<char>,
    canonical_root: Seq<char>,
    tests: Option<Seq<Seq<char>>>,
    e: GraphEdge,
)
    requires
        graph.module_of(e.from@) == graph.module_of(e.to@),
    ensures
        edge_boundary_violations(specs, graph, root, canonical_root, tests, e) == Seq::<RuleViolationModel>::empty(),
{
}

/// An import covered by an ignore comment yields no boundary violation.
pub proof fn law_ignored_imports_are_silent(
    specs: Seq<SpecFile>,
    graph: DependencyGraph,
    root: Seq<char>,
    canonical_root: Seq<char>,
    tests: Option<Seq<Seq<char>>>,
    e: GraphEdge,
)
    requires
        edge_ignored(e, graph.imports_of(e.from@)),
    ensures
        edge_boundary_violations(specs, graph, root, canonical_root, tests, e) == Seq::<RuleViolationModel>::empty(),
{
}

/// Test files are exempt from the boundary rules unless a module enforces
/// them in tests.
pub proof fn law_test_files_exempt(
    specs: Seq<SpecFile>,
    graph: DependencyGraph,
    root: Seq<char>,
    canonical_root: Seq<char>,
    tests: Option<Seq<Seq<char>>>,
    e: GraphEdge,
)
    requires
        is_test_file(root, e.from@, tests),
        forall|i: int| 0 <= i < specs.len() ==> !boundaries_or_default(#[trigger] specs[i].boundaries).enforce_in_tests,
    ensures
        edge_boundary_violations(specs, graph, root, canonical_root, tests, e) == Seq::<RuleViolationModel>::empty(),
{
    match graph.module_of(e.from@) {
        Some(im) => match graph.module_of(e.to@) {
            Some(pm) => {
                lemma_spec_for_module_member(specs, im);
                lemma_spec_for_module_member(specs, pm);
                assert(opt_seq(None) =~= Seq::<RuleViolationModel>::empty());
            },
            None => {},
        },
        None => {},
    }
}

proof fn lemma_spec_for_module_member(specs: Seq<SpecFile>, module: Seq<char>)
    ensures
        spec_for_module(specs, module) matches Some(s) ==> exists|i: int| 0 <= i < specs.len() && specs[i] == s,
    decreases specs.len(),
{
    if specs.len() > 0 {
        lemma_spec_for_module_member(specs.drop_last(), module);
        if specs.last().module@ != module {
            if let Some(s) = spec_for_module(specs, module) {
                let i = choose|i: int| 0 <= i < specs.drop_last().len() && specs.drop_last()[i] == s;
                assert(specs[i] == s);
            }
        } else {
            assert(specs[specs.len() - 1] == specs.last());
        }
    }
}

/// `never_imports` takes precedence on the importer side: an importer that
/// may never import from the provider is told so, whatever its allowlists.
pub proof fn law_never_imports_takes_precedence(
    e: GraphEdge,
    im: Seq<char>,
    ib: Boundaries,
    pm: Seq<char>,
    public_api: Option<Seq<Seq<char>>>,
    canonical_root: Seq<char>,
    pos: Option<(u32, u32)>,
)
    requires
        views(ib.never_imports@).contains(pm),
    ensures
        importer_violation(e, im, ib, pm, public_api, canonical_root, pos) matches Some(v) && v.0.0
            == "boundary.never_imports"@,
{
}

/// Without an import allowlist, an importer that is not denied the
/// provider and imports a provider without public API globs is allowed.
pub proof fn law_omitted_allowlist_allows(
    e: GraphEdge,
    im: Seq<char>,
    ib: Boundaries,
    pm: Seq<char>,
    canonical_root: Seq<char>,
    pos: Option<(u32, u32)>,
)
    requires
        ib.allow_imports_from is None,
        !views(ib.never_imports@).contains(pm),
    ensures
        importer_violation(e, im, ib, pm, None, canonical_root, pos) is None,
{
}

/// An empty import allowlist denies every other module (type-only imports
/// aside, which may use their own allowlist).
pub proof fn law_empty_allowlist_denies(
    e: GraphEdge,
    im: Seq<char>,
    ib: Boundaries,
    pm: Seq<char>,
    public_api: Option<Seq<Seq<char>>>,
    canonical_root: Seq<char>,
    pos: Option<(u32, u32)>,
)
    requires
        ib.allow_imports_from matches Some(a) && a@.len() == 0,
        !views(ib.never_imports@).contains(pm),
        e.kind != EdgeKind::TypeOnlyImport,
    ensures
        importer_violation(e, im, ib, pm, public_api, canonical_root, pos) matches Some(v) && v.0.0
            == "boundary.allow_imports_from"@,
{
}

/// `deny_imported_by` takes precedence on the provider side, over the
/// importer allowlist and visibility.
pub proof fn law_deny_imported_by_takes_precedence(
    e: GraphEdge,
    im: Seq<char>,
    pm: Seq<char>,
    pb: Boundaries,
    pos: Option<(u32, u32)>,
)
    requires
        views(pb.deny_imported_by@).contains(im),
    ensures
        provider_violation(e, im, pm, pb, pos) matches Some(v) && v.0.0 == "boundary.deny_imported_by"@,
{
}

/// A private module admits no importer, friends included, once the deny
/// list and the importer allowlist let the import through.
pub proof fn law_private_admits_no_importer(
    e: GraphEdge,
    im: Seq<char>,
    pm: Seq<char>,
    pb: Boundaries,
    pos: Option<(u32, u32)>,
)
    requires
        pb.visibility == Some(Visibility::Private),
        !views(pb.deny_imported_by@).contains(im),
        pb.allow_imported_by@.len() == 0 || views(pb.allow_imported_by@).contains(im),
    ensures
        provider_violation(e, im, pm, pb, pos) matches Some(v) && v.0.0 == "boundary.visibility.private"@,
{
}

/// An internal module admits its friends (up to canonical imports).
pub proof fn law_internal_admits_friends(
    e: GraphEdge,
    im: Seq<char>,
    pm: Seq<char>,
    pb: Boundaries,
    pos: Option<(u32, u32)>,
)
    requires
        pb.visibility == Some(Visibility::Internal),
        !views(pb.deny_imported_by@).contains(im),
        pb.allow_imported_by@.len() == 0 || views(pb.allow_imported_by@).contains(im),
        views(pb.friend_modules@).contains(im),
        !pb.enforce_canonical_imports,
    ensures
        provider_violation(e, im, pm, pb, pos) is None,
{
}

} // verus!
