//! Third-party dependency policy: which package imports a module's
//! boundaries forbid or do not allow.
use vstd::prelude::*;

use super::boundary::{boundaries_or_default, is_default_boundaries, set_patterns, spec_for_module, spec_index_for_module, test_globs};
use super::{
    compile_optional_globset_strict, compiles, glob_compile_outcome, is_test_file, matches_test_file, rule_violation_model,
    sort_violations_stable, CompiledGlobSet, GlobCompileError, RuleViolation, RuleViolationModel,
};
use crate::order::{
    comps_order, int_order, lemma_comps_order_facts, lemma_int_order_facts, lemma_multiset_map, lemma_seq_order_facts,
    path_compare, sort_by_key, sorted_by_key, then, u8_order, KeyOrdered,
};
use crate::paths::path_components;
use crate::spec::config::SpecConfig;
use crate::paths::strings_contain;
use crate::spec::types::{trimmed_nonempty, Boundaries, SpecFile};
use crate::strset::{normalized_set, strictly_sorted};
use crate::text::{owned, push_str, seq_order, str_order, views};
use crate::policy::types::opt_view;

verus! {

pub const DEPENDENCY_FORBIDDEN_RULE_ID: &'static str = "dependency.forbidden";

pub const DEPENDENCY_NOT_ALLOWED_RULE_ID: &'static str = "dependency.not_allowed";

/// Why a dependency import is reported.
#[derive(Debug, Clone, Copy, PartialEq, Eq, PartialOrd, Ord, Hash, Structural)]
pub enum DependencyViolationKind {
    ForbiddenDependency,
    DependencyNotAllowed,
}

/// A reported third-party import.
#[derive(Debug, Clone, PartialEq, Eq)]
pub struct DependencyViolation {
    pub module_id: String,
    pub file: String,
    pub specifier: String,
    pub package_name: String,
    pub kind: DependencyViolationKind,
    pub is_test_file: bool,
}

/// Dependency policy rule bridge.
#[derive(Debug, Default, Clone, Copy)]
pub struct DependencyRule;

/// A module's dependency policy: forbidden and allowed package names
/// (trimmed, non-empty, sorted sets) and whether tests are held to the
/// allowlist.
#[derive(Debug, Clone, PartialEq, Eq)]
pub struct DependencyPolicy {
    pub forbidden_dependencies: Vec<String>,
    pub allowed_dependencies: Vec<String>,
    pub enforce_in_tests: bool,
}

impl DependencyPolicy {
    /// The policy that a module's boundaries declare.
    pub fn from_boundaries(boundaries: &Boundaries) -> (r: Self)
        ensures
            strictly_sorted(views(r.forbidden_dependencies@)),
            strictly_sorted(views(r.allowed_dependencies@)),
            views(r.forbidden_dependencies@).to_set() == trimmed_nonempty(views(boundaries.forbidden_dependencies@)),
            views(r.allowed_dependencies@).to_set() == trimmed_nonempty(views(boundaries.allowed_dependencies@)),
            r.enforce_in_tests == boundaries.enforce_in_tests,
    {
        DependencyPolicy {
            forbidden_dependencies: normalized_set(&boundaries.forbidden_dependencies),
            allowed_dependencies: normalized_set(&boundaries.allowed_dependencies),
            enforce_in_tests: boundaries.enforce_in_tests,
        }
    }
}

/// The verdict of a policy on one imported package: forbidden packages are
/// always reported (also in tests); a non-empty allowlist denies every other
/// package, in tests only when `enforce_in_tests` is set.
pub open spec fn dependency_kind(
    forbidden: Set<Seq<char>>,
    allowed: Set<Seq<char>>,
    enforce_in_tests: bool,
    package: Seq<char>,
    is_test: bool,
) -> Option<DependencyViolationKind> {
    if forbidden.contains(package) {
        Some(DependencyViolationKind::ForbiddenDependency)
    } else if allowed == Set::<Seq<char>>::empty() {
        None
    } else if is_test && !enforce_in_tests {
        None
    } else if !allowed.contains(package) {
        Some(DependencyViolationKind::DependencyNotAllowed)
    } else {
        None
    }
}

/// Deny precedence: a forbidden package is reported as forbidden whatever
/// the allowlist says, in tests too.
pub proof fn law_forbidden_dependency_takes_precedence(
    forbidden: Set<Seq<char>>,
    allowed: Set<Seq<char>>,
    enforce_in_tests: bool,
    package: Seq<char>,
    is_test: bool,
)
    requires
        forbidden.contains(package),
    ensures
        dependency_kind(forbidden, allowed, enforce_in_tests, package, is_test) == Some(
            DependencyViolationKind::ForbiddenDependency,
        ),
{
}

/// An empty allowlist denies nothing that is not forbidden.
pub proof fn law_empty_allowlist_allows_unforbidden(
    forbidden: Set<Seq<char>>,
    enforce_in_tests: bool,
    package: Seq<char>,
    is_test: bool,
)
    requires
        !forbidden.contains(package),
    ensures
        dependency_kind(forbidden, Set::empty(), enforce_in_tests, package, is_test) is None,
{
}

/// A non-empty allowlist denies every unlisted, unforbidden package, except
/// in test files when it is not enforced in tests.
pub proof fn law_allowlist_denies_unlisted(
    forbidden: Set<Seq<char>>,
    allowed: Set<Seq<char>>,
    enforce_in_tests: bool,
    package: Seq<char>,
    is_test: bool,
)
    requires
        !forbidden.contains(package),
        !allowed.contains(package),
        allowed != Set::<Seq<char>>::empty(),
    ensures
        dependency_kind(forbidden, allowed, enforce_in_tests, package, is_test) == if is_test && !enforce_in_tests {
            None
        } else {
            Some(DependencyViolationKind::DependencyNotAllowed)
        },
{
}

/// Decides whether importing `package_name` breaks `policy`.
pub fn dependency_violation_kind(policy: &DependencyPolicy, package_name: &str, is_test: bool) -> (r: Option<
    DependencyViolationKind,
>)
    ensures
        r == dependency_kind(
            views(policy.forbidden_dependencies@).to_set(),
            views(policy.allowed_dependencies@).to_set(),
            policy.enforce_in_tests,
            package_name@,
            is_test,
        ),
{
    let ghost allowed = views(policy.allowed_dependencies@);
    if strings_contain(&policy.forbidden_dependencies, package_name) {
        return Some(DependencyViolationKind::ForbiddenDependency);
    }
    if policy.allowed_dependencies.len() == 0 {
        assert(allowed.to_set() =~= Set::<Seq<char>>::empty());
        return None;
    }
    assert(allowed.to_set().contains(allowed[0]));
    assert(allowed.to_set() != Set::<Seq<char>>::empty());
    if is_test && !policy.enforce_in_tests {
        return None;
    }
    if !strings_contain(&policy.allowed_dependencies, package_name) {
        return Some(DependencyViolationKind::DependencyNotAllowed);
    }
    None
}

/// The rule id and message of a dependency violation.
pub open spec fn dependency_rule_text(v: DependencyViolation) -> (Seq<char>, Seq<char>) {
    match v.kind {
        DependencyViolationKind::ForbiddenDependency => (
            DEPENDENCY_FORBIDDEN_RULE_ID@,
            "module '"@ + v.module_id@ + "' forbids dependency '"@ + v.package_name@ + "' (import '"@ + v.specifier@
                + "')"@,
        ),
        DependencyViolationKind::DependencyNotAllowed => (
            DEPENDENCY_NOT_ALLOWED_RULE_ID@,
            "module '"@ + v.module_id@ + "' does not allow dependency '"@ + v.package_name@ + "' (import '"@
                + v.specifier@ + "')"@,
        ),
    }
}

/// The rule violation a dependency violation becomes.
pub open spec fn dependency_rule_model(v: DependencyViolation) -> RuleViolationModel {
    (
        (dependency_rule_text(v).0, None, dependency_rule_text(v).1),
        (v.file@, None, Some(v.module_id@), None),
        (None, None),
    )
}

fn dependency_rule_violation(v: DependencyViolation) -> (r: RuleViolation)
    ensures
        rule_violation_model(r) == dependency_rule_model(v),
{
    let forbidden = match v.kind {
        DependencyViolationKind::ForbiddenDependency => true,
        DependencyViolationKind::DependencyNotAllowed => false,
    };
    let mut message = owned("module '");
    push_str(&mut message, v.module_id.as_str());
    if forbidden {
        push_str(&mut message, "' forbids dependency '");
    } else {
        push_str(&mut message, "' does not allow dependency '");
    }
    push_str(&mut message, v.package_name.as_str());
    push_str(&mut message, "' (import '");
    push_str(&mut message, v.specifier.as_str());
    push_str(&mut message, "')");
    let rule = if forbidden {
        owned(DEPENDENCY_FORBIDDEN_RULE_ID)
    } else {
        owned(DEPENDENCY_NOT_ALLOWED_RULE_ID)
    };
    assert(message@ =~= dependency_rule_text(v).1);
    RuleViolation {
        rule,
        severity: None,
        message,
        from_file: v.file,
        to_file: None,
        from_module: Some(v.module_id),
        to_module: None,
        line: None,
        column: None,
    }
}

/// Turns dependency violations into rule violations, sorted deterministically.
pub fn typed_violations_to_rule_violations(typed: Vec<DependencyViolation>) -> (r: Vec<RuleViolation>)
    ensures
        sorted_by_key(r@),
        r@.map_values(|v: RuleViolation| rule_violation_model(v)).to_multiset() == typed@.map_values(
            |v: DependencyViolation| dependency_rule_model(v),
        ).to_multiset(),
{
    let ghost input = typed@;
    let mut out: Vec<RuleViolation> = Vec::new();
    let mut rest = typed;
    let n = rest.len();
    let mut i: usize = 0;
    while rest.len() > 0
        invariant
            input.len() == n,
            i + rest@.len() == input.len(),
            rest@ == input.skip(i as int),
            out@.len() == i,
            forall|k: int| 0 <= k < i ==> rule_violation_model(#[trigger] out@[k]) == dependency_rule_model(input[k]),
        decreases rest@.len(),
    {
        let ghost before = rest@;
        let v = rest.remove(0);
        assert(rest@ =~= input.skip(i + 1));
        assert(v == input[i as int]);
        out.push(dependency_rule_violation(v));
        i = i + 1;
    }
    let ghost unsorted = out@;
    assert(unsorted.map_values(|v: RuleViolation| rule_violation_model(v)) =~= input.map_values(
        |v: DependencyViolation| dependency_rule_model(v),
    ));
    sort_violations_stable(&mut out);
    proof {
        lemma_multiset_map(out@, unsorted, |v: RuleViolation| rule_violation_model(v));
    }
    out
}

/// Why the dependency rules could not run: the project's files could not
/// be discovered or parsed, or a test glob is invalid.
#[derive(Debug, Clone, PartialEq, Eq)]
pub enum DependencyRuleError {
    Discovery { message: String },
    Parse { message: String },
    InvalidTestGlob { pattern: String, message: String },
}

/// A specifier a file imports, with the third-party package it resolves to
/// (`None` when it resolves to a project file, a builtin or nothing).
#[derive(Debug, Clone, PartialEq, Eq)]
pub struct ResolvedSpecifier {
    pub specifier: String,
    pub package: Option<String>,
}

/// A source file of the project: its module (if any) and the dependency
/// specifiers it imports, resolved.
#[derive(Debug, Clone, PartialEq, Eq)]
pub struct ResolvedFile {
    pub path: String,
    pub module: Option<String>,
    pub imports: Vec<ResolvedSpecifier>,
}

/// The boundaries of the last spec declaring `module` (default ones when it
/// declares none); `None` when no spec declares it.
pub open spec fn module_boundaries(specs: Seq<SpecFile>, module: Seq<char>) -> Option<Boundaries> {
    match spec_for_module(specs, module) {
        Some(s) => Some(boundaries_or_default(s.boundaries)),
        None => None,
    }
}

/// A dependency violation as plain values: module, file, specifier,
/// package, kind, whether the file is a test file.
pub type DependencyModel = (Seq<char>, Seq<char>, Seq<char>, Seq<char>, DependencyViolationKind, bool);

pub open spec fn dependency_model(v: DependencyViolation) -> DependencyModel {
    (v.module_id@, v.file@, v.specifier@, v.package_name@, v.kind, v.is_test_file)
}

pub open spec fn dependency_models(v: Seq<DependencyViolation>) -> Seq<DependencyModel> {
    v.map_values(|x: DependencyViolation| dependency_model(x))
}

/// The violations of the imports of one file under a module's boundaries.
pub open spec fn import_violations(
    module: Seq<char>,
    b: Boundaries,
    file: Seq<char>,
    is_test: bool,
    imports: Seq<ResolvedSpecifier>,
) -> Seq<DependencyModel>
    decreases imports.len(),
{
    if imports.len() == 0 {
        Seq::empty()
    } else {
        let rest = import_violations(module, b, file, is_test, imports.drop_last());
        let i = imports.last();
        match i.package {
            Some(p) => match dependency_kind(
                trimmed_nonempty(views(b.forbidden_dependencies@)),
                trimmed_nonempty(views(b.allowed_dependencies@)),
                b.enforce_in_tests,
                p@,
                is_test,
            ) {
                Some(k) => rest.push((module, file, i.specifier@, p@, k, is_test)),
                None => rest,
            },
            None => rest,
        }
    }
}

/// The violations of one file: none unless its module has a spec with a
/// dependency policy.
pub open spec fn file_dependency_violations(
    root: Seq<char>,
    specs: Seq<SpecFile>,
    tests: Option<Seq<Seq<char>>>,
    f: ResolvedFile,
) -> Seq<DependencyModel> {
    match f.module {
        None => Seq::empty(),
        Some(m) => match module_boundaries(specs, m@) {
            None => Seq::empty(),
            Some(b) => if trimmed_nonempty(views(b.forbidden_dependencies@)) == Set::<Seq<char>>::empty()
                && trimmed_nonempty(views(b.allowed_dependencies@)) == Set::<Seq<char>>::empty() {
                Seq::empty()
            } else {
                import_violations(m@, b, f.path@, is_test_file(root, f.path@, tests), f.imports@)
            },
        },
    }
}

/// The violations of the files, file by file.
pub open spec fn files_dependency_violations(
    root: Seq<char>,
    specs: Seq<SpecFile>,
    tests: Option<Seq<Seq<char>>>,
    files: Seq<ResolvedFile>,
) -> Seq<DependencyModel>
    decreases files.len(),
{
    if files.len() == 0 {
        Seq::empty()
    } else {
        files_dependency_violations(root, specs, tests, files.drop_last()) + file_dependency_violations(
            root,
            specs,
            tests,
            files.last(),
        )
    }
}

/// Forbidden dependencies before not-allowed ones.
pub open spec fn kind_rank(k: DependencyViolationKind) -> int {
    match k {
        DependencyViolationKind::ForbiddenDependency => 0,
        DependencyViolationKind::DependencyNotAllowed => 1,
    }
}

fn kind_rank_exec(k: DependencyViolationKind) -> (r: u8)
    ensures
        r as int == kind_rank(k),
{
    match k {
        DependencyViolationKind::ForbiddenDependency => 0,
        DependencyViolationKind::DependencyNotAllowed => 1,
    }
}

pub open spec fn bool_rank(b: bool) -> int {
    if b { 1 } else { 0 }
}

impl KeyOrdered for DependencyViolation {
    /// By module, file (as a path), kind, package, specifier, test flag.
    open spec fn key_order(a: Self, b: Self) -> int {
        then(
            seq_order(a.module_id@, b.module_id@),
            then(
                comps_order(path_components(a.file@), path_components(b.file@)),
                then(
                    int_order(kind_rank(a.kind), kind_rank(b.kind)),
                    then(
                        seq_order(a.package_name@, b.package_name@),
                        then(seq_order(a.specifier@, b.specifier@), int_order(bool_rank(a.is_test_file), bool_rank(b.is_test_file))),
                    ),
                ),
            ),
        )
    }

    proof fn lemma_key_order(a: Self, b: Self, c: Self) {
        lemma_seq_order_facts(a.module_id@, b.module_id@, c.module_id@);
        lemma_comps_order_facts(path_components(a.file@), path_components(b.file@), path_components(c.file@));
        lemma_int_order_facts(kind_rank(a.kind), kind_rank(b.kind), kind_rank(c.kind));
        lemma_seq_order_facts(a.package_name@, b.package_name@, c.package_name@);
        lemma_seq_order_facts(a.specifier@, b.specifier@, c.specifier@);
        lemma_int_order_facts(bool_rank(a.is_test_file), bool_rank(b.is_test_file), bool_rank(c.is_test_file));
    }

    fn key_compare(&self, other: &Self) -> (r: i8) {
        let o = str_order(self.module_id.as_str(), other.module_id.as_str());
        if o != 0 {
            return o;
        }
        let o = path_compare(self.file.as_str(), other.file.as_str());
        if o != 0 {
            return o;
        }
        let o = u8_order(kind_rank_exec(self.kind), kind_rank_exec(other.kind));
        if o != 0 {
            return o;
        }
        let o = str_order(self.package_name.as_str(), other.package_name.as_str());
        if o != 0 {
            return o;
        }
        let o = str_order(self.specifier.as_str(), other.specifier.as_str());
        if o != 0 {
            return o;
        }
        u8_order(if self.is_test_file { 1 } else { 0 }, if other.is_test_file { 1 } else { 0 })
    }
}

/// The error for test globs that do not compile.
pub open spec fn test_glob_error(err: (Option<Seq<char>>, Seq<char>)) -> (Seq<char>, Seq<char>) {
    match err.0 {
        Some(p) => (p, err.1),
        None => ("<globset>"@, err.1),
    }
}

/// Records the violations of one file.
fn check_file_dependencies(
    root: &str,
    specs: &[SpecFile],
    tests: Option<&CompiledGlobSet>,
    default: &Boundaries,
    f: &ResolvedFile,
    out: &mut Vec<DependencyViolation>,
)
    requires
        is_default_boundaries(*default),
        tests matches Some(t) ==> t.ready(),
    ensures
        dependency_models(final(out)@) == dependency_models(old(out)@) + file_dependency_violations(
            root@,
            specs@,
            set_patterns(tests),
            *f,
        ),
{
    let ghost base = dependency_models(out@);
    let module = match &f.module {
        Some(m) => m,
        None => {
            assert(dependency_models(out@) =~= base + Seq::<DependencyModel>::empty());
            return;
        },
    };
    let si = match spec_index_for_module(specs, module.as_str()) {
        Some(i) => i,
        None => {
            assert(dependency_models(out@) =~= base + Seq::<DependencyModel>::empty());
            return;
        },
    };
    let b = match &specs[si].boundaries {
        Some(b) => b,
        None => default,
    };
    let ghost bs = boundaries_or_default(specs@[si as int].boundaries);
    let policy = DependencyPolicy::from_boundaries(b);
    proof {
        if specs@[si as int].boundaries is None {
            assert(views(b.forbidden_dependencies@) =~= views(bs.forbidden_dependencies@));
            assert(views(b.allowed_dependencies@) =~= views(bs.allowed_dependencies@));
        }
    }
    let ghost forbidden = trimmed_nonempty(views(bs.forbidden_dependencies@));
    let ghost allowed = trimmed_nonempty(views(bs.allowed_dependencies@));
    if policy.forbidden_dependencies.len() == 0 && policy.allowed_dependencies.len() == 0 {
        assert(views(policy.forbidden_dependencies@).to_set() =~= Set::<Seq<char>>::empty());
        assert(views(policy.allowed_dependencies@).to_set() =~= Set::<Seq<char>>::empty());
        assert(dependency_models(out@) =~= base + Seq::<DependencyModel>::empty());
        return;
    }
    proof {
        if policy.forbidden_dependencies@.len() > 0 {
            assert(views(policy.forbidden_dependencies@).to_set().contains(views(policy.forbidden_dependencies@)[0]));
        } else {
            assert(views(policy.allowed_dependencies@).to_set().contains(views(policy.allowed_dependencies@)[0]));
        }
    }
    let is_test = matches_test_file(root, f.path.as_str(), tests);
    let mut i: usize = 0;
    assert(f.imports@.take(0) =~= Seq::<ResolvedSpecifier>::empty());
    assert(dependency_models(out@) =~= base + import_violations(module@, bs, f.path@, is_test, f.imports@.take(0)));
    while i < f.imports.len()
        invariant
            i <= f.imports@.len(),
            views(policy.forbidden_dependencies@).to_set() == trimmed_nonempty(views(bs.forbidden_dependencies@)),
            views(policy.allowed_dependencies@).to_set() == trimmed_nonempty(views(bs.allowed_dependencies@)),
            policy.enforce_in_tests == bs.enforce_in_tests,
            dependency_models(out@) == base + import_violations(module@, bs, f.path@, is_test, f.imports@.take(i as int)),
        decreases f.imports@.len() - i,
    {
        let imp = &f.imports[i];
        assert(f.imports@.take(i + 1).drop_last() =~= f.imports@.take(i as int));
        assert(f.imports@.take(i + 1).last() == *imp);
        if let Some(package) = &imp.package {
            match dependency_violation_kind(&policy, package.as_str(), is_test) {
                Some(kind) => {
                    let v = DependencyViolation {
                        module_id: module.clone(),
                        file: f.path.clone(),
                        specifier: imp.specifier.clone(),
                        package_name: package.clone(),
                        kind,
                        is_test_file: is_test,
                    };
                    let ghost before = out@;
                    out.push(v);
                    assert(dependency_models(out@) =~= dependency_models(before).push(dependency_model(v)));
                },
                None => {},
            }
        }
        assert(dependency_models(out@) =~= base + import_violations(module@, bs, f.path@, is_test, f.imports@.take(i + 1)));
        i = i + 1;
    }
    assert(f.imports@.take(i as int) =~= f.imports@);
}

/// Evaluates the third-party dependency policies over the project's files:
/// `forbidden_dependencies` is enforced first (also in test files), a
/// non-empty `allowed_dependencies` denies every other package (in test
/// files only when `enforce_in_tests`); sorted by module, file, kind,
/// package, specifier. Fails when the test globs do not compile. `files`
/// are the project's source files with their imports resolved.
pub fn evaluate_dependency_rules(
    project_root: &str,
    specs: &[SpecFile],
    config: &SpecConfig,
    files: &[ResolvedFile],
) -> (r: Result<Vec<DependencyViolation>, DependencyRuleError>)
    ensures
        match r {
            Ok(v) => glob_compile_outcome(views(config.test_patterns@)) is Ok && sorted_by_key(v@)
                && dependency_models(v@).to_multiset() == files_dependency_violations(
                project_root@,
                specs@,
                test_globs(config.test_patterns@),
                files@,
            ).to_multiset(),
            Err(DependencyRuleError::InvalidTestGlob { pattern, message }) => glob_compile_outcome(
                views(config.test_patterns@),
            ) matches Err(err) && test_glob_error(err) == (pattern@, message@),
            Err(_) => false,
        },
{
    let tests = match compile_optional_globset_strict(&config.test_patterns) {
        Ok(t) => t,
        Err(GlobCompileError::InvalidPattern { pattern, message }) => {
            return Err(DependencyRuleError::InvalidTestGlob { pattern, message });
        },
        Err(GlobCompileError::Build { message }) => {
            return Err(DependencyRuleError::InvalidTestGlob { pattern: owned("<globset>"), message });
        },
    };
    let test_ref = match &tests {
        Some(t) => Some(t),
        None => None,
    };
    assert(set_patterns(test_ref) == test_globs(config.test_patterns@));
    let default = Boundaries::default();
    let mut out: Vec<DependencyViolation> = Vec::new();
    let mut i: usize = 0;
    assert(files@.take(0) =~= Seq::<ResolvedFile>::empty());
    assert(dependency_models(out@) =~= files_dependency_violations(project_root@, specs@, set_patterns(test_ref), files@.take(0)));
    while i < files.len()
        invariant
            i <= files@.len(),
            is_default_boundaries(default),
            test_ref matches Some(t) ==> t.ready(),
            dependency_models(out@) == files_dependency_violations(
                project_root@,
                specs@,
                set_patterns(test_ref),
                files@.take(i as int),
            ),
        decreases files@.len() - i,
    {
        assert(files@.take(i + 1).drop_last() =~= files@.take(i as int));
        assert(files@.take(i + 1).last() == files@[i as int]);
        check_file_dependencies(project_root, specs, test_ref, &default, &files[i], &mut out);
        i = i + 1;
    }
    assert(files@.take(i as int) =~= files@);
    let ghost unsorted = out@;
    sort_by_key(&mut out);
    proof {
        lemma_multiset_map(out@, unsorted, |x: DependencyViolation| dependency_model(x));
        assert(dependency_models(out@) == out@.map_values(|x: DependencyViolation| dependency_model(x)));
        assert(dependency_models(unsorted) == unsorted.map_values(|x: DependencyViolation| dependency_model(x)));
    }
    Ok(out)
}

} // verus!
