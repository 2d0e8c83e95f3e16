//! Circular dependency constraints: scope parameter and violations.
use vstd::prelude::*;

use crate::graph::CycleComponent;
use crate::order::{
    comps_list_order, dedup_sorted, int_order, key_covered, lemma_comps_list_order_facts, lemma_int_order_facts,
    lemma_multiset_map, lemma_seq_order_facts, lemma_strs_order_facts, path_comps_of, paths_compare, sort_by_key,
    strictly_sorted_by_key, strs_compare, strs_order, then, u8_order, KeyOrdered,
};
use crate::paths::{normalize_repo_relative, repo_relative};
use crate::spec::types::{json_lookup, Constraint, JsonValue, SpecFile};
use crate::spec::Severity;
use crate::text::{
    copy_strings, join_text, join_text_exec, owned, push_char, push_str, seq_order, str_eq, str_order, trim, trim_str,
    views,
};

verus! {

pub const NO_CIRCULAR_DEPS_RULE_ID: &'static str = "no-circular-deps";

/// Which cycles a `no-circular-deps` constraint covers.
#[derive(Debug, Clone, Copy, PartialEq, Eq, PartialOrd, Ord, Structural)]
pub enum CircularScopeParam {
    Internal,
    External,
    Both,
}

/// The `scope` parameter was not one of `internal`, `external`, `both`.
#[derive(Debug, Clone, Copy, PartialEq, Eq, Structural)]
pub struct InvalidCircularScope;

/// ASCII letters lowered, other characters kept.
pub open spec fn ascii_lower(s: Seq<char>) -> Seq<char> {
    s.map_values(|c: char| if 'A' <= c && c <= 'Z' { ((c as u32) + 32) as char } else { c })
}

fn ascii_lowercase(s: &str) -> (r: String)
    ensures
        r@ == ascii_lower(s@),
{
    let mut out = String::new();
    let n = s.unicode_len();
    let mut i: usize = 0;
    while i < n
        invariant
            n == s@.len(),
            i <= n,
            out@ == ascii_lower(s@.take(i as int)),
        decreases n - i,
    {
        let c = s.get_char(i);
        let l = if 'A' <= c && c <= 'Z' {
            ((c as u8) + 32) as char
        } else {
            c
        };
        push_char(&mut out, l);
        assert(ascii_lower(s@.take(i + 1)) =~= ascii_lower(s@.take(i as int)).push(l));
        i = i + 1;
    }
    assert(s@.take(i as int) =~= s@);
    out
}

/// The scope a text names, after trimming and ASCII lowercasing.
pub open spec fn scope_named(text: Seq<char>) -> Result<CircularScopeParam, InvalidCircularScope> {
    let t = ascii_lower(trim(text));
    if t == "internal"@ {
        Ok(CircularScopeParam::Internal)
    } else if t == "external"@ {
        Ok(CircularScopeParam::External)
    } else if t == "both"@ {
        Ok(CircularScopeParam::Both)
    } else {
        Err(InvalidCircularScope)
    }
}

/// The scope given by constraint parameters: `both` unless a string `scope`
/// member names one.
pub open spec fn scope_of_params(params: JsonValue) -> Result<CircularScopeParam, InvalidCircularScope> {
    match json_lookup(params, "scope"@) {
        Some(JsonValue::Str(s)) => scope_named(s@),
        _ => Ok(CircularScopeParam::Both),
    }
}

pub open spec fn scope_text(s: CircularScopeParam) -> Seq<char> {
    match s {
        CircularScopeParam::Internal => "internal"@,
        CircularScopeParam::External => "external"@,
        CircularScopeParam::Both => "both"@,
    }
}

impl CircularScopeParam {
    /// Reads the `scope` parameter.
    pub fn parse(params: &JsonValue) -> (r: Result<Self, InvalidCircularScope>)
        ensures
            r == scope_of_params(*params),
    {
        match params.get("scope") {
            Some(JsonValue::Str(s)) => {
                let t = ascii_lowercase(trim_str(s.as_str()));
                if str_eq(t.as_str(), "internal") {
                    Ok(CircularScopeParam::Internal)
                } else if str_eq(t.as_str(), "external") {
                    Ok(CircularScopeParam::External)
                } else if str_eq(t.as_str(), "both") {
                    Ok(CircularScopeParam::Both)
                } else {
                    Err(InvalidCircularScope)
                }
            },
            _ => Ok(CircularScopeParam::Both),
        }
    }

    /// The lowercase name of the scope.
    pub fn as_str(self) -> (r: &'static str)
        ensures
            r@ == scope_text(self),
    {
        match self {
            CircularScopeParam::Internal => "internal",
            CircularScopeParam::External => "external",
            CircularScopeParam::Both => "both",
        }
    }
}

/// One cyclic component reported for a `no-circular-deps` constraint.
#[derive(Debug, Clone, PartialEq, Eq)]
pub struct CircularDependencyViolation {
    /// Module that declared the `no-circular-deps` constraint.
    pub module: String,
    pub rule: String,
    pub severity: Severity,
    pub message: String,
    pub scope: CircularScopeParam,
    /// Deterministically sorted file members of the cyclic component.
    pub component_files: Vec<String>,
    /// Deterministically sorted module members of the cyclic component.
    pub component_modules: Vec<String>,
}

/// Whether a cycle falls under a scope.
pub open spec fn in_scope(scope: CircularScopeParam, c: CycleComponent) -> bool {
    match scope {
        CircularScopeParam::Internal => c.internal(),
        CircularScopeParam::External => c.external(),
        CircularScopeParam::Both => true,
    }
}

/// The cycles under a scope, in order.
pub open spec fn cycles_in_scope(scope: CircularScopeParam, cycles: Seq<CycleComponent>) -> Seq<CycleComponent>
    decreases cycles.len(),
{
    if cycles.len() == 0 {
        Seq::empty()
    } else {
        let rest = cycles_in_scope(scope, cycles.drop_last());
        if in_scope(scope, cycles.last()) {
            rest.push(cycles.last())
        } else {
            rest
        }
    }
}

/// A violation as plain values: module, severity, message, scope, the
/// components of each file, the modules.
pub type CircularModel = (Seq<char>, Severity, Seq<char>, CircularScopeParam, Seq<Seq<Seq<char>>>, Seq<Seq<char>>);

pub open spec fn circular_model(v: CircularDependencyViolation) -> CircularModel {
    (v.module@, v.severity, v.message@, v.scope, path_comps_of(v.component_files@), views(v.component_modules@))
}

/// The files of a cycle relative to the project root, joined with `, `.
pub open spec fn listed_files(files: Seq<String>, root: Seq<char>) -> Seq<char> {
    join_text(files.map_values(|f: String| repo_relative(root, f@)), ", "@)
}

/// The message of a violation: the constraint's own, or one naming the
/// scope and the cycle's files.
pub open spec fn circular_message(
    custom: Option<String>,
    scope: CircularScopeParam,
    comp: CycleComponent,
    root: Seq<char>,
) -> Seq<char> {
    match custom {
        Some(m) => m@,
        None => "Detected circular dependency component (scope: "@ + scope_text(scope) + ") across files: "@
            + listed_files(comp.files@, root),
    }
}

/// The violation a constraint of `module` gives for one cycle.
pub open spec fn cycle_violation(
    module: Seq<char>,
    c: Constraint,
    scope: CircularScopeParam,
    comp: CycleComponent,
    root: Seq<char>,
) -> CircularModel {
    (
        module,
        c.severity,
        circular_message(c.message, scope, comp, root),
        scope,
        path_comps_of(comp.files@),
        views(comp.modules@),
    )
}

/// The violations a constraint of `module` gives for the cycles, in order.
pub open spec fn cycles_violations(
    module: Seq<char>,
    c: Constraint,
    scope: CircularScopeParam,
    comps: Seq<CycleComponent>,
    root: Seq<char>,
) -> Seq<CircularModel>
    decreases comps.len(),
{
    if comps.len() == 0 {
        Seq::empty()
    } else {
        cycles_violations(module, c, scope, comps.drop_last(), root).push(
            cycle_violation(module, c, scope, comps.last(), root),
        )
    }
}

/// The violations one constraint of `module` gives: one per cycle in its
/// scope; none for another rule or an invalid scope.
pub open spec fn constraint_cycle_violations(
    module: Seq<char>,
    c: Constraint,
    cycles: Seq<CycleComponent>,
    root: Seq<char>,
) -> Seq<CircularModel> {
    if c.rule@ == NO_CIRCULAR_DEPS_RULE_ID@ {
        match scope_of_params(c.params) {
            Ok(scope) => cycles_violations(module, c, scope, cycles_in_scope(scope, cycles), root),
            Err(_) => Seq::empty(),
        }
    } else {
        Seq::empty()
    }
}

/// The violations of the constraints of one module, in order.
pub open spec fn module_cycle_violations(
    module: Seq<char>,
    cs: Seq<Constraint>,
    cycles: Seq<CycleComponent>,
    root: Seq<char>,
) -> Seq<CircularModel>
    decreases cs.len(),
{
    if cs.len() == 0 {
        Seq::empty()
    } else {
        module_cycle_violations(module, cs.drop_last(), cycles, root) + constraint_cycle_violations(
            module,
            cs.last(),
            cycles,
            root,
        )
    }
}

/// The violations of all constraints, spec by spec.
pub open spec fn all_cycle_violations(specs: Seq<SpecFile>, cycles: Seq<CycleComponent>, root: Seq<char>) -> Seq<
    CircularModel,
>
    decreases specs.len(),
{
    if specs.len() == 0 {
        Seq::empty()
    } else {
        all_cycle_violations(specs.drop_last(), cycles, root) + module_cycle_violations(
            specs.last().module@,
            specs.last().constraints@,
            cycles,
            root,
        )
    }
}

/// Rank of a scope by its name: `both`, `external`, `internal`.
pub open spec fn scope_rank(s: CircularScopeParam) -> int {
    match s {
        CircularScopeParam::Both => 0,
        CircularScopeParam::External => 1,
        CircularScopeParam::Internal => 2,
    }
}

fn scope_rank_exec(s: CircularScopeParam) -> (r: u8)
    ensures
        r as int == scope_rank(s),
{
    match s {
        CircularScopeParam::Both => 0,
        CircularScopeParam::External => 1,
        CircularScopeParam::Internal => 2,
    }
}

/// Errors before warnings.
pub open spec fn severity_rank(s: Severity) -> int {
    match s {
        Severity::Error => 0,
        Severity::Warning => 1,
    }
}

fn severity_rank_exec(s: Severity) -> (r: u8)
    ensures
        r as int == severity_rank(s),
{
    match s {
        Severity::Error => 0,
        Severity::Warning => 1,
    }
}

impl KeyOrdered for CircularDependencyViolation {
    /// By module, scope name, component files (as paths), component
    /// modules, severity, message, rule.
    open spec fn key_order(a: Self, b: Self) -> int {
        then(
            seq_order(a.module@, b.module@),
            then(
                int_order(scope_rank(a.scope), scope_rank(b.scope)),
                then(
                    comps_list_order(path_comps_of(a.component_files@), path_comps_of(b.component_files@)),
                    then(
                        strs_order(views(a.component_modules@), views(b.component_modules@)),
                        then(
                            int_order(severity_rank(a.severity), severity_rank(b.severity)),
                            then(seq_order(a.message@, b.message@), seq_order(a.rule@, b.rule@)),
                        ),
                    ),
                ),
            ),
        )
    }

    proof fn lemma_key_order(a: Self, b: Self, c: Self) {
        lemma_seq_order_facts(a.module@, b.module@, c.module@);
        lemma_int_order_facts(scope_rank(a.scope), scope_rank(b.scope), scope_rank(c.scope));
        lemma_comps_list_order_facts(
            path_comps_of(a.component_files@),
            path_comps_of(b.component_files@),
            path_comps_of(c.component_files@),
        );
        lemma_strs_order_facts(views(a.component_modules@), views(b.component_modules@), views(c.component_modules@));
        lemma_int_order_facts(severity_rank(a.severity), severity_rank(b.severity), severity_rank(c.severity));
        lemma_seq_order_facts(a.message@, b.message@, c.message@);
        lemma_seq_order_facts(a.rule@, b.rule@, c.rule@);
    }

    fn key_compare(&self, other: &Self) -> (r: i8) {
        let o = str_order(self.module.as_str(), other.module.as_str());
        if o != 0 {
            return o;
        }
        let o = u8_order(scope_rank_exec(self.scope), scope_rank_exec(other.scope));
        if o != 0 {
            return o;
        }
        let o = paths_compare(&self.component_files, &other.component_files);
        if o != 0 {
            return o;
        }
        let o = strs_compare(&self.component_modules, &other.component_modules);
        if o != 0 {
            return o;
        }
        let o = u8_order(severity_rank_exec(self.severity), severity_rank_exec(other.severity));
        if o != 0 {
            return o;
        }
        let o = str_order(self.message.as_str(), other.message.as_str());
        if o != 0 {
            return o;
        }
        str_order(self.rule.as_str(), other.rule.as_str())
    }
}

/// Equal keys mean equal violations.
proof fn lemma_equal_keys(a: CircularDependencyViolation, b: CircularDependencyViolation)
    requires
        CircularDependencyViolation::key_order(a, b) == 0,
    ensures
        circular_model(a) == circular_model(b),
        a.rule@ == b.rule@,
{
    lemma_seq_order_facts(a.module@, b.module@, b.module@);
    lemma_int_order_facts(scope_rank(a.scope), scope_rank(b.scope), scope_rank(b.scope));
    lemma_comps_list_order_facts(
        path_comps_of(a.component_files@),
        path_comps_of(b.component_files@),
        path_comps_of(b.component_files@),
    );
    lemma_strs_order_facts(views(a.component_modules@), views(b.component_modules@), views(b.component_modules@));
    lemma_int_order_facts(severity_rank(a.severity), severity_rank(b.severity), severity_rank(b.severity));
    lemma_seq_order_facts(a.message@, b.message@, b.message@);
    lemma_seq_order_facts(a.rule@, b.rule@, b.rule@);
}

/// The message of a violation about `comp`.
fn circular_message_exec(custom: &Option<String>, scope: CircularScopeParam, comp: &CycleComponent, root: &str) -> (r:
    String)
    ensures
        r@ == circular_message(*custom, scope, *comp, root@),
{
    match custom {
        Some(m) => m.clone(),
        None => {
            let mut rel: Vec<String> = Vec::new();
            let mut i: usize = 0;
            while i < comp.files.len()
                invariant
                    i <= comp.files@.len(),
                    views(rel@) == comp.files@.take(i as int).map_values(|f: String| repo_relative(root@, f@)),
                decreases comp.files@.len() - i,
            {
                rel.push(normalize_repo_relative(root, comp.files[i].as_str()));
                assert(comp.files@.take(i + 1).map_values(|f: String| repo_relative(root@, f@)) =~= comp.files@.take(
                    i as int,
                ).map_values(|f: String| repo_relative(root@, f@)).push(repo_relative(root@, comp.files@[i as int]@)));
                assert(views(rel@) =~= comp.files@.take(i + 1).map_values(|f: String| repo_relative(root@, f@)));
                i = i + 1;
            }
            assert(comp.files@.take(i as int) =~= comp.files@);
            let joined = join_text_exec(&rel, ", ");
            let mut m = owned("Detected circular dependency component (scope: ");
            push_str(&mut m, scope.as_str());
            push_str(&mut m, ") across files: ");
            push_str(&mut m, joined.as_str());
            m
        },
    }
}

pub open spec fn circular_models(v: Seq<CircularDependencyViolation>) -> Seq<CircularModel> {
    v.map_values(|x: CircularDependencyViolation| circular_model(x))
}

/// Records the violations one constraint gives.
fn push_constraint_violations(
    module: &str,
    c: &Constraint,
    cycles: &[CycleComponent],
    root: &str,
    out: &mut Vec<CircularDependencyViolation>,
)
    requires
        forall|k: int| 0 <= k < old(out)@.len() ==> (#[trigger] old(out)@[k]).rule@ == NO_CIRCULAR_DEPS_RULE_ID@,
    ensures
        circular_models(final(out)@) == circular_models(old(out)@) + constraint_cycle_violations(
            module@,
            *c,
            cycles@,
            root@,
        ),
        forall|k: int| 0 <= k < final(out)@.len() ==> (#[trigger] final(out)@[k]).rule@ == NO_CIRCULAR_DEPS_RULE_ID@,
{
    let ghost base = circular_models(out@);
    if !str_eq(c.rule.as_str(), NO_CIRCULAR_DEPS_RULE_ID) {
        assert(circular_models(out@) =~= base + constraint_cycle_violations(module@, *c, cycles@, root@));
        return;
    }
    let scope = match CircularScopeParam::parse(&c.params) {
        Ok(s) => s,
        Err(_) => {
            assert(circular_models(out@) =~= base + constraint_cycle_violations(module@, *c, cycles@, root@));
            return;
        },
    };
    let mut i: usize = 0;
    assert(cycles_in_scope(scope, cycles@.take(0)) =~= Seq::<CycleComponent>::empty());
    assert(circular_models(out@) =~= base + cycles_violations(
        module@,
        *c,
        scope,
        cycles_in_scope(scope, cycles@.take(0)),
        root@,
    ));
    while i < cycles.len()
        invariant
            i <= cycles@.len(),
            circular_models(out@) == base + cycles_violations(
                module@,
                *c,
                scope,
                cycles_in_scope(scope, cycles@.take(i as int)),
                root@,
            ),
            forall|k: int| 0 <= k < out@.len() ==> (#[trigger] out@[k]).rule@ == NO_CIRCULAR_DEPS_RULE_ID@,
        decreases cycles@.len() - i,
    {
        let comp = &cycles[i];
        let ghost prev = cycles_in_scope(scope, cycles@.take(i as int));
        assert(cycles@.take(i + 1).drop_last() =~= cycles@.take(i as int));
        assert(cycles@.take(i + 1).last() == cycles@[i as int]);
        let take = match scope {
            CircularScopeParam::Internal => comp.is_internal(),
            CircularScopeParam::External => comp.is_external(),
            CircularScopeParam::Both => true,
        };
        assert(take == in_scope(scope, cycles@[i as int]));
        if take {
            let v = CircularDependencyViolation {
                module: owned(module),
                rule: owned(NO_CIRCULAR_DEPS_RULE_ID),
                severity: c.severity,
                message: circular_message_exec(&c.message, scope, comp, root),
                scope,
                component_files: copy_strings(comp.files.as_slice()),
                component_modules: copy_strings(comp.modules.as_slice()),
            };
            assert(views(v.component_files@) == views(comp.files@));
            assert(path_comps_of(v.component_files@) =~= path_comps_of(comp.files@)) by {
                assert forall|q: int| 0 <= q < comp.files@.len() implies path_comps_of(v.component_files@)[q]
                    == path_comps_of(comp.files@)[q] by {
                    assert(views(v.component_files@)[q] == v.component_files@[q]@);
                    assert(views(comp.files@)[q] == comp.files@[q]@);
                }
            }
            assert(circular_model(v) == cycle_violation(module@, *c, scope, *comp, root@));
            let ghost before = out@;
            out.push(v);
            assert(prev.push(*comp).drop_last() =~= prev);
            assert(circular_models(out@) =~= circular_models(before).push(circular_model(v)));
        }
        assert(circular_models(out@) =~= base + cycles_violations(
            module@,
            *c,
            scope,
            cycles_in_scope(scope, cycles@.take(i + 1)),
            root@,
        ));
        i = i + 1;
    }
    assert(cycles@.take(i as int) =~= cycles@);
}

proof fn lemma_same_multiset_same_set<A>(a: Seq<A>, b: Seq<A>)
    requires
        a.to_multiset() == b.to_multiset(),
    ensures
        a.to_set() == b.to_set(),
{
    broadcast use vstd::seq_lib::group_to_multiset_ensures;
    assert forall|x: A| a.to_set().contains(x) <==> b.to_set().contains(x) by {
        assert(a.contains(x) <==> a.to_multiset().count(x) > 0);
        assert(b.contains(x) <==> b.to_multiset().count(x) > 0);
    }
    assert(a.to_set() =~= b.to_set());
}

proof fn lemma_sorted_same_violations(sorted: Seq<CircularDependencyViolation>, unsorted: Seq<CircularDependencyViolation>)
    requires
        sorted.to_multiset() == unsorted.to_multiset(),
        forall|k: int| 0 <= k < unsorted.len() ==> (#[trigger] unsorted[k]).rule@ == NO_CIRCULAR_DEPS_RULE_ID@,
    ensures
        circular_models(sorted).to_set() == circular_models(unsorted).to_set(),
        forall|k: int| 0 <= k < sorted.len() ==> (#[trigger] sorted[k]).rule@ == NO_CIRCULAR_DEPS_RULE_ID@,
{
    lemma_multiset_map(sorted, unsorted, |x: CircularDependencyViolation| circular_model(x));
    lemma_same_multiset_same_set(circular_models(sorted), circular_models(unsorted));
    assert forall|k: int| 0 <= k < sorted.len() implies (#[trigger] sorted[k]).rule@ == NO_CIRCULAR_DEPS_RULE_ID@ by {
        broadcast use vstd::seq_lib::group_to_multiset_ensures;
        assert(sorted.contains(sorted[k]));
        assert(sorted.to_multiset().count(sorted[k]) > 0);
        assert(unsorted.contains(sorted[k]));
    }
}

#[verifier::rlimit(40)]
#[verifier::spinoff_prover]
proof fn lemma_dedup_same_violations(sorted: Seq<CircularDependencyViolation>, r: Seq<CircularDependencyViolation>)
    requires
        forall|k: int| 0 <= k < r.len() ==> sorted.contains(#[trigger] r[k]),
        forall|j: int| 0 <= j < sorted.len() ==> key_covered(r, #[trigger] sorted[j]),
        forall|k: int| 0 <= k < sorted.len() ==> (#[trigger] sorted[k]).rule@ == NO_CIRCULAR_DEPS_RULE_ID@,
    ensures
        circular_models(r).to_set() == circular_models(sorted).to_set(),
        forall|k: int| 0 <= k < r.len() ==> (#[trigger] r[k]).rule@ == NO_CIRCULAR_DEPS_RULE_ID@,
{
    assert forall|x: CircularModel| circular_models(r).to_set().contains(x) <==> circular_models(sorted).to_set().contains(x) by {
        if circular_models(r).contains(x) {
            let k = choose|k: int| 0 <= k < circular_models(r).len() && circular_models(r)[k] == x;
            assert(sorted.contains(r[k]));
            let j = choose|j: int| 0 <= j < sorted.len() && sorted[j] == r[k];
            assert(circular_models(sorted)[j] == x);
        }
        if circular_models(sorted).contains(x) {
            let j = choose|j: int| 0 <= j < circular_models(sorted).len() && circular_models(sorted)[j] == x;
            assert(key_covered(r, sorted[j]));
            let k = choose|k: int| 0 <= k < r.len() && CircularDependencyViolation::key_order(#[trigger] r[k], sorted[j]) == 0;
            lemma_equal_keys(r[k], sorted[j]);
            assert(circular_models(r)[k] == x);
        }
    }
    assert(circular_models(r).to_set() =~= circular_models(sorted).to_set());
    assert forall|k: int| 0 <= k < r.len() implies (#[trigger] r[k]).rule@ == NO_CIRCULAR_DEPS_RULE_ID@ by {
        assert(sorted.contains(r[k]));
    }
}

/// Evaluates all `no-circular-deps` constraints: each constraint reports
/// every cycle in its scope (`internal`: within one module, `external`:
/// across modules, `both`), with the constraint's severity and message or a
/// message listing the cycle's files relative to `project_root`. Equal
/// violations are reported once; the result is sorted by module, scope,
/// files, modules, severity and message. `cycles` are the cyclic strongly
/// connected components of the file graph.
pub fn evaluate_no_circular_deps(specs: &[SpecFile], cycles: &[CycleComponent], project_root: &str) -> (r: Vec<
    CircularDependencyViolation,
>)
    ensures
        strictly_sorted_by_key(r@),
        circular_models(r@).to_set() == all_cycle_violations(specs@, cycles@, project_root@).to_set(),
        forall|k: int| 0 <= k < r@.len() ==> (#[trigger] r@[k]).rule@ == NO_CIRCULAR_DEPS_RULE_ID@,
{
    let mut out: Vec<CircularDependencyViolation> = Vec::new();
    let mut i: usize = 0;
    assert(circular_models(out@) =~= all_cycle_violations(specs@.take(0), cycles@, project_root@));
    while i < specs.len()
        invariant
            i <= specs@.len(),
            circular_models(out@) == all_cycle_violations(specs@.take(i as int), cycles@, project_root@),
            forall|k: int| 0 <= k < out@.len() ==> (#[trigger] out@[k]).rule@ == NO_CIRCULAR_DEPS_RULE_ID@,
        decreases specs@.len() - i,
    {
        let spec = &specs[i];
        let ghost before = circular_models(out@);
        let mut j: usize = 0;
        assert(module_cycle_violations(spec.module@, spec.constraints@.take(0), cycles@, project_root@) =~= Seq::<
            CircularModel,
        >::empty());
        assert(before =~= before + module_cycle_violations(spec.module@, spec.constraints@.take(0), cycles@, project_root@));
        while j < spec.constraints.len()
            invariant
                j <= spec.constraints@.len(),
                circular_models(out@) == before + module_cycle_violations(
                    spec.module@,
                    spec.constraints@.take(j as int),
                    cycles@,
                    project_root@,
                ),
                forall|k: int| 0 <= k < out@.len() ==> (#[trigger] out@[k]).rule@ == NO_CIRCULAR_DEPS_RULE_ID@,
            decreases spec.constraints@.len() - j,
        {
            assert(spec.constraints@.take(j + 1).drop_last() =~= spec.constraints@.take(j as int));
            assert(spec.constraints@.take(j + 1).last() == spec.constraints@[j as int]);
            push_constraint_violations(spec.module.as_str(), &spec.constraints[j], cycles, project_root, &mut out);
            assert(circular_models(out@) =~= before + module_cycle_violations(
                spec.module@,
                spec.constraints@.take(j + 1),
                cycles@,
                project_root@,
            ));
            j = j + 1;
        }
        assert(spec.constraints@.take(j as int) =~= spec.constraints@);
        assert(specs@.take(i + 1).drop_last() =~= specs@.take(i as int));
        assert(specs@.take(i + 1).last() == specs@[i as int]);
        i = i + 1;
    }
    assert(specs@.take(i as int) =~= specs@);
    let ghost unsorted = out@;
    sort_by_key(&mut out);
    let ghost sorted = out@;
    proof {
        lemma_sorted_same_violations(sorted, unsorted);
    }
    let r = dedup_sorted(out);
    proof {
        lemma_dedup_same_violations(sorted, r@);
    }
    r
}

proof fn lemma_cycles_in_scope_members(scope: CircularScopeParam, cycles: Seq<CycleComponent>)
    ensures
        forall|k: int|
            0 <= k < cycles_in_scope(scope, cycles).len() ==> in_scope(scope, #[trigger] cycles_in_scope(scope, cycles)[k]),
    decreases cycles.len(),
{
    if cycles.len() > 0 {
        lemma_cycles_in_scope_members(scope, cycles.drop_last());
        let rest = cycles_in_scope(scope, cycles.drop_last());
        assert forall|k: int| 0 <= k < cycles_in_scope(scope, cycles).len() implies in_scope(
            scope,
            #[trigger] cycles_in_scope(scope, cycles)[k],
        ) by {
            if k < rest.len() {
                assert(cycles_in_scope(scope, cycles)[k] == rest[k]);
            }
        }
    }
}

proof fn lemma_cycles_violations_index(
    module: Seq<char>,
    c: Constraint,
    scope: CircularScopeParam,
    comps: Seq<CycleComponent>,
    root: Seq<char>,
)
    ensures
        cycles_violations(module, c, scope, comps, root).len() == comps.len(),
        forall|k: int|
            0 <= k < comps.len() ==> #[trigger] cycles_violations(module, c, scope, comps, root)[k] == cycle_violation(
                module,
                c,
                scope,
                comps[k],
                root,
            ),
    decreases comps.len(),
{
    if comps.len() > 0 {
        lemma_cycles_violations_index(module, c, scope, comps.drop_last(), root);
    }
}

/// A constraint with an invalid scope reports nothing (it does not widen to
/// `both`).
pub proof fn law_invalid_scope_reports_nothing(
    module: Seq<char>,
    c: Constraint,
    cycles: Seq<CycleComponent>,
    root: Seq<char>,
)
    requires
        scope_of_params(c.params) is Err,
    ensures
        constraint_cycle_violations(module, c, cycles, root) == Seq::<CircularModel>::empty(),
{
}

/// An `internal` constraint reports only cycles within one module, an
/// `external` one only cycles across modules.
pub proof fn law_scope_selects_cycles(module: Seq<char>, c: Constraint, cycles: Seq<CycleComponent>, root: Seq<char>)
    ensures
        forall|k: int|
            0 <= k < constraint_cycle_violations(module, c, cycles, root).len() ==> {
                let x = #[trigger] constraint_cycle_violations(module, c, cycles, root)[k];
                &&& x.3 == CircularScopeParam::Internal ==> x.5.len() == 1
                &&& x.3 == CircularScopeParam::External ==> x.5.len() > 1
            },
{
    if c.rule@ == NO_CIRCULAR_DEPS_RULE_ID@ {
        if let Ok(scope) = scope_of_params(c.params) {
            let comps = cycles_in_scope(scope, cycles);
            lemma_cycles_in_scope_members(scope, cycles);
            lemma_cycles_violations_index(module, c, scope, comps, root);
            assert forall|k: int| 0 <= k < constraint_cycle_violations(module, c, cycles, root).len() implies {
                let x = #[trigger] constraint_cycle_violations(module, c, cycles, root)[k];
                &&& x.3 == CircularScopeParam::Internal ==> x.5.len() == 1
                &&& x.3 == CircularScopeParam::External ==> x.5.len() > 1
            } by {
                assert(in_scope(scope, comps[k]));
                assert(views(comps[k].modules@).len() == comps[k].modules@.len());
            }
        }
    }
}

proof fn lemma_constraint_within_module(
    module: Seq<char>,
    cs: Seq<Constraint>,
    j: int,
    cycles: Seq<CycleComponent>,
    root: Seq<char>,
)
    requires
        0 <= j < cs.len(),
    ensures
        constraint_cycle_violations(module, cs[j], cycles, root).to_set().subset_of(
            module_cycle_violations(module, cs, cycles, root).to_set(),
        ),
    decreases cs.len(),
{
    let whole = module_cycle_violations(module, cs, cycles, root);
    let rest = module_cycle_violations(module, cs.drop_last(), cycles, root);
    let own = constraint_cycle_violations(module, cs[j], cycles, root);
    if j < cs.len() - 1 {
        lemma_constraint_within_module(module, cs.drop_last(), j, cycles, root);
        assert(cs.drop_last()[j] == cs[j]);
        assert forall|x: CircularModel| own.to_set().contains(x) implies whole.to_set().contains(x) by {
            assert(rest.to_set().contains(x));
            let k = choose|k: int| 0 <= k < rest.len() && rest[k] == x;
            assert(whole[k] == x);
        }
    } else {
        assert forall|x: CircularModel| own.to_set().contains(x) implies whole.to_set().contains(x) by {
            let k = choose|k: int| 0 <= k < own.len() && own[k] == x;
            assert(whole[rest.len() + k] == x);
        }
    }
}

/// Repeating a constraint a module already declares adds no violation.
pub proof fn law_repeated_constraints_add_nothing(
    module: Seq<char>,
    cs: Seq<Constraint>,
    c: Constraint,
    cycles: Seq<CycleComponent>,
    root: Seq<char>,
)
    requires
        cs.contains(c),
    ensures
        module_cycle_violations(module, cs.push(c), cycles, root).to_set() == module_cycle_violations(
            module,
            cs,
            cycles,
            root,
        ).to_set(),
{
    let j = choose|j: int| 0 <= j < cs.len() && cs[j] == c;
    lemma_constraint_within_module(module, cs, j, cycles, root);
    assert(cs.push(c).drop_last() =~= cs);
    let before = module_cycle_violations(module, cs, cycles, root);
    let own = constraint_cycle_violations(module, c, cycles, root);
    let after = module_cycle_violations(module, cs.push(c), cycles, root);
    assert(after == before + own);
    assert forall|x: CircularModel| after.to_set().contains(x) <==> before.to_set().contains(x) by {
        if after.contains(x) {
            let k = choose|k: int| 0 <= k < after.len() && after[k] == x;
            if k >= before.len() {
                assert(own[k - before.len()] == x);
                assert(own.to_set().contains(x));
            } else {
                assert(before[k] == x);
            }
        }
        if before.contains(x) {
            let k = choose|k: int| 0 <= k < before.len() && before[k] == x;
            assert(after[k] == x);
        }
    }
    assert(after.to_set() =~= before.to_set());
}

} // verus!
