//! Contract rules: contract files that are missing or empty, match globs that
//! resolve to no file, and cross-module contract references that are
//! malformed or point nowhere.
use vstd::prelude::*;

use super::{rule_violation_model, RuleViolation, RuleViolationModel};
use crate::glob::{path_glob_build_error, path_glob_error, path_glob_matches, PathGlob};
use crate::order::{
    comps_order, lemma_comps_order_facts, lemma_multiset_map, lemma_seq_order_facts, path_compare,
    sort_by_key, sorted_by_key, stable_sort, then, KeyOrdered,
};
use crate::paths::{path_components, strings_contain};
use crate::text::{
    debug_list, debug_strings, join_text, join_text_exec, owned, push_char, push_str, seq_order,
    split_char, split_on, str_eq, str_order, views,
};

verus! {

pub const BOUNDARY_CONTRACT_MISSING_RULE_ID: &'static str = "boundary.contract_missing";

pub const BOUNDARY_CONTRACT_EMPTY_RULE_ID: &'static str = "boundary.contract_empty";

pub const BOUNDARY_MATCH_UNRESOLVED_RULE_ID: &'static str = "boundary.match_unresolved";

pub const BOUNDARY_CONTRACT_REF_INVALID_RULE_ID: &'static str = "boundary.contract_ref_invalid";

/// A contract rule violation with remediation hint and contract context.
#[derive(Debug, Clone, PartialEq, Eq)]
pub struct ContractRuleViolation {
    /// The underlying rule violation.
    pub violation: RuleViolation,
    /// Human-readable remediation hint.
    pub remediation_hint: String,
    /// The contract ID that triggered this violation.
    pub contract_id: String,
}

impl ContractRuleViolation {
    /// Creates a contract rule violation.
    pub fn new(violation: RuleViolation, remediation_hint: String, contract_id: String) -> (r: Self)
        ensures
            r.violation == violation,
            r.remediation_hint == remediation_hint,
            r.contract_id == contract_id,
    {
        ContractRuleViolation { violation, remediation_hint, contract_id }
    }
}

/// A boundary contract as the contract rules read it: its id, the path of its
/// contract file relative to the project root, the globs (`match.files`) of
/// the files it covers, and the `module:contract_id` references it imports.
#[derive(Debug, Clone, PartialEq, Eq)]
pub struct ContractDeclaration {
    pub id: String,
    pub contract: String,
    pub match_files: Vec<String>,
    pub imports_contract: Vec<String>,
}

/// The part of a spec file that the contract rules read: its module, the path
/// it was loaded from, and its boundary contracts.
#[derive(Debug, Clone, PartialEq, Eq)]
pub struct ContractSpec {
    pub module: String,
    pub spec_path: Option<String>,
    pub contracts: Vec<ContractDeclaration>,
}

/// What the disk says of a contract file: the path as the contract declares
/// it, whether it exists under the project root, and its length in bytes
/// (`None` when the length could not be read).
#[derive(Debug, Clone, PartialEq, Eq)]
pub struct ContractFileFacts {
    pub path: String,
    pub exists: bool,
    pub byte_len: Option<u64>,
}

/// A contract violation as plain values: the rule violation, the remediation
/// hint and the contract id.
pub type ContractViolationModel = (RuleViolationModel, Seq<char>, Seq<char>);

pub open spec fn contract_violation_model(v: ContractRuleViolation) -> ContractViolationModel {
    (rule_violation_model(v.violation), v.remediation_hint@, v.contract_id@)
}

pub open spec fn contract_violation_models(v: Seq<ContractRuleViolation>) -> Seq<ContractViolationModel> {
    v.map_values(|x: ContractRuleViolation| contract_violation_model(x))
}

pub open spec fn opt_contract_model(o: Option<ContractRuleViolation>) -> Option<ContractViolationModel> {
    match o {
        Some(v) => Some(contract_violation_model(v)),
        None => None,
    }
}

pub open spec fn opt_seq<A>(o: Option<A>) -> Seq<A> {
    match o {
        Some(x) => seq![x],
        None => Seq::empty(),
    }
}

/// `Path::join` on Unix, as text: an absolute `rel` replaces `base`; otherwise
/// `rel` follows `base` after a `/` unless `base` is empty or ends in one.
pub open spec fn path_join(base: Seq<char>, rel: Seq<char>) -> Seq<char> {
    if rel.len() > 0 && rel[0] == '/' {
        rel
    } else if base.len() == 0 {
        rel
    } else if base.last() == '/' {
        base + rel
    } else {
        base + seq!['/'] + rel
    }
}

/// The file a spec's violations are reported against: its own path, or the
/// project root when it has none.
pub open spec fn spec_source(root: Seq<char>, spec: ContractSpec) -> Seq<char> {
    match spec.spec_path {
        Some(p) => p@,
        None => root,
    }
}

/// A contract violation of `spec`'s module, with no target module and no
/// position.
pub open spec fn contract_finding(
    rule: Seq<char>,
    message: Seq<char>,
    from: Seq<char>,
    to: Option<Seq<char>>,
    module: Seq<char>,
    remediation: Seq<char>,
    id: Seq<char>,
) -> ContractViolationModel {
    (((rule, None, message), (from, to, Some(module), None), (None, None)), remediation, id)
}

/// The first facts recorded for a contract path.
pub open spec fn facts_for(facts: Seq<ContractFileFacts>, path: Seq<char>) -> Option<ContractFileFacts>
    decreases facts.len(),
{
    if facts.len() == 0 {
        None
    } else if facts[0].path@ == path {
        Some(facts[0])
    } else {
        facts_for(facts.drop_first(), path)
    }
}

pub open spec fn missing_message(c: Seq<char>, id: Seq<char>, m: Seq<char>) -> Seq<char> {
    "Contract file '"@ + c + "' not found for contract '"@ + id + "' in module '"@ + m + "'"@
}

pub open spec fn missing_hint(c: Seq<char>) -> Seq<char> {
    "Create the contract file at '"@ + c
        + "' (relative to project root), or update `boundaries.contracts[].contract` to the correct existing path"@
}

pub open spec fn empty_message(c: Seq<char>, id: Seq<char>, m: Seq<char>) -> Seq<char> {
    "Contract file '"@ + c + "' is empty for contract '"@ + id + "' in module '"@ + m + "'"@
}

pub open spec fn empty_hint(c: Seq<char>) -> Seq<char> {
    "Add schema/content to '"@ + c
        + "' so the contract is non-empty, or remove the contract entry if it is no longer needed"@
}

/// The contract file check: missing when no facts say the file exists, empty
/// when it exists with length zero, and nothing otherwise (a length that
/// could not be read included).
pub open spec fn file_finding(
    root: Seq<char>,
    facts: Seq<ContractFileFacts>,
    spec: ContractSpec,
    c: ContractDeclaration,
) -> Option<ContractViolationModel> {
    let missing = contract_finding(
        BOUNDARY_CONTRACT_MISSING_RULE_ID@,
        missing_message(c.contract@, c.id@, spec.module@),
        spec_source(root, spec),
        None,
        spec.module@,
        missing_hint(c.contract@),
        c.id@,
    );
    let empty = contract_finding(
        BOUNDARY_CONTRACT_EMPTY_RULE_ID@,
        empty_message(c.contract@, c.id@, spec.module@),
        spec_source(root, spec),
        Some(path_join(root, c.contract@)),
        spec.module@,
        empty_hint(c.contract@),
        c.id@,
    );
    match facts_for(facts, c.contract@) {
        None => Some(missing),
        Some(f) => if !f.exists {
            Some(missing)
        } else if f.byte_len == Some(0u64) {
            Some(empty)
        } else {
            None
        },
    }
}

/// A glob resolves when it builds (with literal separators) and matches a
/// project file.
pub open spec fn pattern_resolves(p: Seq<char>, files: Seq<Seq<char>>) -> bool {
    path_glob_error(p) is None && exists|i: int| 0 <= i < files.len() && path_glob_matches(p, #[trigger] files[i])
}

pub open spec fn unresolved_message(id: Seq<char>, m: Seq<char>, patterns: Seq<Seq<char>>) -> Seq<char> {
    "Match patterns for contract '"@ + id + "' in module '"@ + m + "' did not resolve to any files: "@
        + debug_list(patterns)
}

pub open spec fn unresolved_hint(id: Seq<char>) -> Seq<char> {
    "Update `match.files` globs for contract '"@ + id
        + "' so at least one path resolves, or add files that satisfy the declared glob patterns"@
}

/// The match check: a violation when the contract lists globs and none of
/// them resolves; the message lists them all, since all of them failed.
pub open spec fn match_finding(
    root: Seq<char>,
    spec: ContractSpec,
    c: ContractDeclaration,
    files: Seq<Seq<char>>,
) -> Option<ContractViolationModel> {
    let ps = views(c.match_files@);
    if ps.len() > 0 && !(exists|j: int| 0 <= j < ps.len() && pattern_resolves(#[trigger] ps[j], files)) {
        Some(
            contract_finding(
                BOUNDARY_MATCH_UNRESOLVED_RULE_ID@,
                unresolved_message(c.id@, spec.module@, ps),
                spec_source(root, spec),
                None,
                spec.module@,
                unresolved_hint(c.id@),
                c.id@,
            ),
        )
    } else {
        None
    }
}

/// A reference has the form `module:contract_id`: exactly one colon, with
/// text on both sides.
pub open spec fn ref_well_formed(r: Seq<char>) -> bool {
    let parts = split_on(r, ':');
    parts.len() == 2 && parts[0].len() > 0 && parts[1].len() > 0
}

/// The registry key of a contract: `module:contract_id`.
pub open spec fn contract_key(m: Seq<char>, id: Seq<char>) -> Seq<char> {
    m + seq![':'] + id
}

/// Some spec declares a contract whose registry key is `r`.
pub open spec fn registered(all: Seq<ContractSpec>, r: Seq<char>) -> bool {
    exists|i: int, j: int|
        0 <= i < all.len() && 0 <= j < all[i].contracts@.len() && #[trigger] contract_key(
            all[i].module@,
            all[i].contracts@[j].id@,
        ) == r
}

pub open spec fn ref_detail(r: Seq<char>, reason: Seq<char>) -> Seq<char> {
    "'"@ + r + "' ("@ + reason + ")"@
}

/// Each invalid reference, in order, with why it is invalid.
pub open spec fn invalid_ref_details(all: Seq<ContractSpec>, refs: Seq<Seq<char>>) -> Seq<Seq<char>>
    decreases refs.len(),
{
    if refs.len() == 0 {
        Seq::empty()
    } else {
        let rest = invalid_ref_details(all, refs.drop_last());
        let r = refs.last();
        if !ref_well_formed(r) {
            rest.push(ref_detail(r, "invalid format (expected 'module:contract_id')"@))
        } else if !registered(all, r) {
            rest.push(ref_detail(r, "contract not found in target module"@))
        } else {
            rest
        }
    }
}

pub open spec fn ref_message(id: Seq<char>, m: Seq<char>, details: Seq<Seq<char>>) -> Seq<char> {
    "Invalid imports_contract references for contract '"@ + id + "' in module '"@ + m + "': "@
        + join_text(details, ", "@)
}

/// The reference check: one violation listing every invalid reference, when
/// there is one.
pub open spec fn ref_finding(
    root: Seq<char>,
    all: Seq<ContractSpec>,
    spec: ContractSpec,
    c: ContractDeclaration,
) -> Option<ContractViolationModel> {
    let details = invalid_ref_details(all, views(c.imports_contract@));
    if details.len() > 0 {
        Some(
            contract_finding(
                BOUNDARY_CONTRACT_REF_INVALID_RULE_ID@,
                ref_message(c.id@, spec.module@, details),
                spec_source(root, spec),
                None,
                spec.module@,
                "Use valid `module:contract_id` references in `imports_contract`, or define the referenced contract ids in the target modules"@,
                c.id@,
            ),
        )
    } else {
        None
    }
}

/// The findings of one contract: file check, match check, reference check.
pub open spec fn contract_findings(
    root: Seq<char>,
    facts: Seq<ContractFileFacts>,
    files: Seq<Seq<char>>,
    all: Seq<ContractSpec>,
    spec: ContractSpec,
    c: ContractDeclaration,
) -> Seq<ContractViolationModel> {
    opt_seq(file_finding(root, facts, spec, c)) + opt_seq(match_finding(root, spec, c, files)) + opt_seq(
        ref_finding(root, all, spec, c),
    )
}

/// The findings of a spec's contracts, in order.
pub open spec fn spec_contract_findings(
    root: Seq<char>,
    facts: Seq<ContractFileFacts>,
    files: Seq<Seq<char>>,
    all: Seq<ContractSpec>,
    spec: ContractSpec,
    cs: Seq<ContractDeclaration>,
) -> Seq<ContractViolationModel>
    decreases cs.len(),
{
    if cs.len() == 0 {
        Seq::empty()
    } else {
        spec_contract_findings(root, facts, files, all, spec, cs.drop_last()) + contract_findings(
            root,
            facts,
            files,
            all,
            spec,
            cs.last(),
        )
    }
}

/// A module is evaluated when no set of affected modules is given, or when
/// the set names it.
pub open spec fn in_scope(affected: Option<Seq<Seq<char>>>, m: Seq<char>) -> bool {
    match affected {
        None => true,
        Some(a) => a.contains(m),
    }
}

pub open spec fn findings_over(
    root: Seq<char>,
    facts: Seq<ContractFileFacts>,
    files: Seq<Seq<char>>,
    all: Seq<ContractSpec>,
    specs: Seq<ContractSpec>,
    affected: Option<Seq<Seq<char>>>,
) -> Seq<ContractViolationModel>
    decreases specs.len(),
{
    if specs.len() == 0 {
        Seq::empty()
    } else {
        findings_over(root, facts, files, all, specs.drop_last(), affected) + if in_scope(
            affected,
            specs.last().module@,
        ) {
            spec_contract_findings(root, facts, files, all, specs.last(), specs.last().contracts@)
        } else {
            Seq::empty()
        }
    }
}

/// Every contract rule finding, spec by spec and contract by contract, before
/// sorting; references are resolved against the contracts of all specs.
pub open spec fn contract_rule_findings(
    root: Seq<char>,
    specs: Seq<ContractSpec>,
    facts: Seq<ContractFileFacts>,
    files: Seq<Seq<char>>,
    affected: Option<Seq<Seq<char>>>,
) -> Seq<ContractViolationModel> {
    findings_over(root, facts, files, specs, specs, affected)
}

pub open spec fn affected_view(o: Option<&Vec<String>>) -> Option<Seq<Seq<char>>> {
    match o {
        Some(v) => Some(views(v@)),
        None => None,
    }
}

/// The source module a finding is reported for.
pub open spec fn finding_module(f: ContractViolationModel) -> Option<Seq<char>> {
    f.0.1.2
}

proof fn lemma_spec_findings_module(
    root: Seq<char>,
    facts: Seq<ContractFileFacts>,
    files: Seq<Seq<char>>,
    all: Seq<ContractSpec>,
    spec: ContractSpec,
    cs: Seq<ContractDeclaration>,
)
    ensures
        forall|k: int|
            0 <= k < spec_contract_findings(root, facts, files, all, spec, cs).len() ==> finding_module(
                #[trigger] spec_contract_findings(root, facts, files, all, spec, cs)[k],
            ) == Some(spec.module@),
    decreases cs.len(),
{
    if cs.len() > 0 {
        lemma_spec_findings_module(root, facts, files, all, spec, cs.drop_last());
        let rest = spec_contract_findings(root, facts, files, all, spec, cs.drop_last());
        let step = contract_findings(root, facts, files, all, spec, cs.last());
        assert forall|k: int| 0 <= k < step.len() implies finding_module(#[trigger] step[k]) == Some(
            spec.module@,
        ) by {
            let a = opt_seq(file_finding(root, facts, spec, cs.last()));
            let b = opt_seq(match_finding(root, spec, cs.last(), files));
            let c = opt_seq(ref_finding(root, all, spec, cs.last()));
            assert(step == a + b + c);
            if k < a.len() {
                assert(step[k] == a[k]);
            } else if k < a.len() + b.len() {
                assert(step[k] == b[k - a.len()]);
            } else {
                assert(step[k] == c[k - a.len() - b.len()]);
            }
        }
        assert forall|k: int| 0 <= k < (rest + step).len() implies finding_module(#[trigger] (rest + step)[k])
            == Some(spec.module@) by {
            if k < rest.len() {
                assert((rest + step)[k] == rest[k]);
            } else {
                assert((rest + step)[k] == step[k - rest.len()]);
            }
        }
    }
}

proof fn lemma_findings_over_modules(
    root: Seq<char>,
    facts: Seq<ContractFileFacts>,
    files: Seq<Seq<char>>,
    all: Seq<ContractSpec>,
    specs: Seq<ContractSpec>,
    affected: Seq<Seq<char>>,
)
    ensures
        forall|k: int|
            0 <= k < findings_over(root, facts, files, all, specs, Some(affected)).len() ==> {
                let m = finding_module(#[trigger] findings_over(root, facts, files, all, specs, Some(affected))[k]);
                m is Some && affected.contains(m->0)
            },
    decreases specs.len(),
{
    if specs.len() > 0 {
        lemma_findings_over_modules(root, facts, files, all, specs.drop_last(), affected);
        let rest = findings_over(root, facts, files, all, specs.drop_last(), Some(affected));
        let last = specs.last();
        let step = if in_scope(Some(affected), last.module@) {
            spec_contract_findings(root, facts, files, all, last, last.contracts@)
        } else {
            Seq::empty()
        };
        lemma_spec_findings_module(root, facts, files, all, last, last.contracts@);
        assert forall|k: int| 0 <= k < (rest + step).len() implies {
            let m = finding_module(#[trigger] (rest + step)[k]);
            m is Some && affected.contains(m->0)
        } by {
            if k < rest.len() {
                assert((rest + step)[k] == rest[k]);
            } else {
                assert((rest + step)[k] == step[k - rest.len()]);
            }
        }
    }
}

/// When a set of affected modules is given, every contract finding is
/// reported for one of those modules; with an empty set there is none.
pub proof fn law_affected_modules_bound_contract_findings(
    root: Seq<char>,
    specs: Seq<ContractSpec>,
    facts: Seq<ContractFileFacts>,
    files: Seq<Seq<char>>,
    affected: Seq<Seq<char>>,
)
    ensures
        forall|k: int|
            0 <= k < contract_rule_findings(root, specs, facts, files, Some(affected)).len() ==> {
                let m = finding_module(#[trigger] contract_rule_findings(root, specs, facts, files, Some(affected))[k]);
                m is Some && affected.contains(m->0)
            },
        affected.len() == 0 ==> contract_rule_findings(root, specs, facts, files, Some(affected)).len() == 0,
{
    lemma_findings_over_modules(root, facts, files, specs, specs, affected);
    let f = contract_rule_findings(root, specs, facts, files, Some(affected));
    if affected.len() == 0 && f.len() > 0 {
        let m = finding_module(f[0]);
        assert(affected.contains(m->0));
    }
}

proof fn lemma_findings_over_all_in_scope(
    root: Seq<char>,
    facts: Seq<ContractFileFacts>,
    files: Seq<Seq<char>>,
    all: Seq<ContractSpec>,
    specs: Seq<ContractSpec>,
    affected: Seq<Seq<char>>,
)
    requires
        forall|i: int| 0 <= i < specs.len() ==> affected.contains(#[trigger] specs[i].module@),
    ensures
        findings_over(root, facts, files, all, specs, Some(affected)) == findings_over(
            root,
            facts,
            files,
            all,
            specs,
            None,
        ),
    decreases specs.len(),
{
    if specs.len() > 0 {
        assert forall|i: int| 0 <= i < specs.drop_last().len() implies affected.contains(
            #[trigger] specs.drop_last()[i].module@,
        ) by {
            assert(specs.drop_last()[i] == specs[i]);
        }
        lemma_findings_over_all_in_scope(root, facts, files, all, specs.drop_last(), affected);
        assert(affected.contains(specs[specs.len() - 1].module@));
    }
}

/// Naming every module of the specs as affected evaluates the same contracts
/// as naming no set at all.
pub proof fn law_all_modules_affected_is_unscoped(
    root: Seq<char>,
    specs: Seq<ContractSpec>,
    facts: Seq<ContractFileFacts>,
    files: Seq<Seq<char>>,
    affected: Seq<Seq<char>>,
)
    requires
        forall|i: int| 0 <= i < specs.len() ==> affected.contains(#[trigger] specs[i].module@),
    ensures
        contract_rule_findings(root, specs, facts, files, Some(affected)) == contract_rule_findings(
            root,
            specs,
            facts,
            files,
            None,
        ),
{
    lemma_findings_over_all_in_scope(root, facts, files, specs, specs, affected);
}

/// Some glob of the list builds (with literal separators) and matches one of
/// the files.
pub open spec fn some_glob_hits(globs: Seq<Seq<char>>, files: Seq<Seq<char>>) -> bool {
    exists|j: int, i: int|
        0 <= j < globs.len() && 0 <= i < files.len() && path_glob_error(#[trigger] globs[j]) is None
            && path_glob_matches(globs[j], #[trigger] files[i])
}

/// The findings of a contract name the unresolved-match rule.
pub open spec fn has_unresolved_finding(fs: Seq<ContractViolationModel>) -> bool {
    exists|k: int| 0 <= k < fs.len() && (#[trigger] fs[k]).0.0.0 == "boundary.match_unresolved"@
}

/// A contract's match globs are unresolved exactly when it lists some and
/// none of them matches a project file: one glob that matches is enough to
/// report nothing for them, and a contract without globs never reports it.
pub proof fn law_match_unresolved_iff_no_glob_hits(
    root: Seq<char>,
    facts: Seq<ContractFileFacts>,
    files: Seq<Seq<char>>,
    all: Seq<ContractSpec>,
    spec: ContractSpec,
    c: ContractDeclaration,
)
    ensures
        has_unresolved_finding(contract_findings(root, facts, files, all, spec, c)) <==> (c.match_files@.len() > 0
            && !some_glob_hits(views(c.match_files@), files)),
{
    reveal_strlit("boundary.match_unresolved");
    reveal_strlit("boundary.contract_missing");
    reveal_strlit("boundary.contract_empty");
    reveal_strlit("boundary.contract_ref_invalid");
    let ps = views(c.match_files@);
    let a = opt_seq(file_finding(root, facts, spec, c));
    let m = opt_seq(match_finding(root, spec, c, files));
    let r = opt_seq(ref_finding(root, all, spec, c));
    let fs = contract_findings(root, facts, files, all, spec, c);
    assert(fs == a + m + r);
    assert("boundary.contract_missing"@ != "boundary.match_unresolved"@) by {
        assert("boundary.contract_missing"@[9] != "boundary.match_unresolved"@[9]);
    }
    assert("boundary.contract_empty"@ != "boundary.match_unresolved"@) by {
        assert("boundary.contract_empty"@.len() != "boundary.match_unresolved"@.len());
    }
    assert("boundary.contract_ref_invalid"@ != "boundary.match_unresolved"@) by {
        assert("boundary.contract_ref_invalid"@.len() != "boundary.match_unresolved"@.len());
    }
    assert forall|k: int| 0 <= k < a.len() implies (#[trigger] a[k]).0.0.0 != "boundary.match_unresolved"@ by {}
    assert forall|k: int| 0 <= k < r.len() implies (#[trigger] r[k]).0.0.0 != "boundary.match_unresolved"@ by {}
    let resolves = exists|j: int| 0 <= j < ps.len() && pattern_resolves(#[trigger] ps[j], files);
    if some_glob_hits(ps, files) {
        let (j, i) = choose|j: int, i: int|
            0 <= j < ps.len() && 0 <= i < files.len() && path_glob_error(#[trigger] ps[j]) is None
                && path_glob_matches(ps[j], #[trigger] files[i]);
        assert(pattern_resolves(ps[j], files));
    }
    if resolves {
        let j = choose|j: int| 0 <= j < ps.len() && pattern_resolves(#[trigger] ps[j], files);
        let i = choose|i: int| 0 <= i < files.len() && path_glob_matches(ps[j], #[trigger] files[i]);
        assert(some_glob_hits(ps, files));
    }
    if has_unresolved_finding(fs) {
        let k = choose|k: int| 0 <= k < fs.len() && (#[trigger] fs[k]).0.0.0 == "boundary.match_unresolved"@;
        if k < a.len() {
            assert(fs[k] == a[k]);
        } else if k < a.len() + m.len() {
            assert(fs[k] == m[k - a.len()]);
        } else {
            assert(fs[k] == r[k - a.len() - m.len()]);
        }
    }
    if ps.len() > 0 && !resolves {
        assert(fs[a.len() as int] == m[0]);
    }
}

impl KeyOrdered for ContractRuleViolation {
    /// By source file (as a path), contract id, rule.
    open spec fn key_order(a: Self, b: Self) -> int {
        then(
            comps_order(path_components(a.violation.from_file@), path_components(b.violation.from_file@)),
            then(seq_order(a.contract_id@, b.contract_id@), seq_order(a.violation.rule@, b.violation.rule@)),
        )
    }

    proof fn lemma_key_order(a: Self, b: Self, c: Self) {
        lemma_comps_order_facts(
            path_components(a.violation.from_file@),
            path_components(b.violation.from_file@),
            path_components(c.violation.from_file@),
        );
        lemma_seq_order_facts(a.contract_id@, b.contract_id@, c.contract_id@);
        lemma_seq_order_facts(a.violation.rule@, b.violation.rule@, c.violation.rule@);
    }

    fn key_compare(&self, other: &Self) -> (r: i8) {
        let o = path_compare(self.violation.from_file.as_str(), other.violation.from_file.as_str());
        if o != 0 {
            return o;
        }
        let o = str_order(self.contract_id.as_str(), other.contract_id.as_str());
        if o != 0 {
            return o;
        }
        str_order(self.violation.rule.as_str(), other.violation.rule.as_str())
    }
}

/// `Path::join` on Unix, as text.
pub fn join_path(base: &str, rel: &str) -> (r: String)
    ensures
        r@ == path_join(base@, rel@),
{
    let n = rel.unicode_len();
    if n > 0 && rel.get_char(0) == '/' {
        return owned(rel);
    }
    let b = base.unicode_len();
    if b == 0 {
        return owned(rel);
    }
    let mut out = owned(base);
    if base.get_char(b - 1) != '/' {
        push_char(&mut out, '/');
    }
    push_str(&mut out, rel);
    out
}

/// The position of the first facts recorded for `path`.
fn find_facts(facts: &[ContractFileFacts], path: &str) -> (r: Option<usize>)
    ensures
        match r {
            None => facts_for(facts@, path@) is None,
            Some(k) => k < facts@.len() && facts_for(facts@, path@) == Some(facts@[k as int]),
        },
{
    let mut i: usize = 0;
    assert(facts@.subrange(0, facts@.len() as int) =~= facts@);
    while i < facts.len()
        invariant
            i <= facts@.len(),
            facts_for(facts@, path@) == facts_for(facts@.subrange(i as int, facts@.len() as int), path@),
        decreases facts@.len() - i,
    {
        let ghost rest = facts@.subrange(i as int, facts@.len() as int);
        assert(rest[0] == facts@[i as int]);
        if str_eq(facts[i].path.as_str(), path) {
            return Some(i);
        }
        assert(rest.drop_first() =~= facts@.subrange(i + 1, facts@.len() as int));
        i = i + 1;
    }
    None
}

fn source_of(project_root: &str, spec: &ContractSpec) -> (r: String)
    ensures
        r@ == spec_source(project_root@, *spec),
{
    match &spec.spec_path {
        Some(p) => owned(p.as_str()),
        None => owned(project_root),
    }
}

fn finding(
    rule: &str,
    message: String,
    from: String,
    to: Option<String>,
    module: &str,
    remediation: String,
    id: &str,
) -> (r: ContractRuleViolation)
    ensures
        contract_violation_model(r) == contract_finding(
            rule@,
            message@,
            from@,
            match to {
                Some(t) => Some(t@),
                None => None,
            },
            module@,
            remediation@,
            id@,
        ),
{
    ContractRuleViolation {
        violation: RuleViolation {
            rule: owned(rule),
            severity: None,
            message,
            from_file: from,
            to_file: to,
            from_module: Some(owned(module)),
            to_module: None,
            line: None,
            column: None,
        },
        remediation_hint: remediation,
        contract_id: owned(id),
    }
}

/// The contract file check of one contract.
fn check_contract_file(
    project_root: &str,
    facts: &[ContractFileFacts],
    spec: &ContractSpec,
    c: &ContractDeclaration,
) -> (r: Option<ContractRuleViolation>)
    ensures
        opt_contract_model(r) == file_finding(project_root@, facts@, *spec, *c),
{
    let (exists, empty) = match find_facts(facts, c.contract.as_str()) {
        None => (false, false),
        Some(k) => (facts[k].exists, facts[k].byte_len == Some(0u64)),
    };
    if !exists {
        let mut msg = owned("Contract file '");
        push_str(&mut msg, c.contract.as_str());
        push_str(&mut msg, "' not found for contract '");
        push_str(&mut msg, c.id.as_str());
        push_str(&mut msg, "' in module '");
        push_str(&mut msg, spec.module.as_str());
        push_str(&mut msg, "'");
        let mut hint = owned("Create the contract file at '");
        push_str(&mut hint, c.contract.as_str());
        push_str(
            &mut hint,
            "' (relative to project root), or update `boundaries.contracts[].contract` to the correct existing path",
        );
        let from = source_of(project_root, spec);
        return Some(
            finding(
                BOUNDARY_CONTRACT_MISSING_RULE_ID,
                msg,
                from,
                None,
                spec.module.as_str(),
                hint,
                c.id.as_str(),
            ),
        );
    }
    if empty {
        let mut msg = owned("Contract file '");
        push_str(&mut msg, c.contract.as_str());
        push_str(&mut msg, "' is empty for contract '");
        push_str(&mut msg, c.id.as_str());
        push_str(&mut msg, "' in module '");
        push_str(&mut msg, spec.module.as_str());
        push_str(&mut msg, "'");
        let mut hint = owned("Add schema/content to '");
        push_str(&mut hint, c.contract.as_str());
        push_str(
            &mut hint,
            "' so the contract is non-empty, or remove the contract entry if it is no longer needed",
        );
        let from = source_of(project_root, spec);
        let to = join_path(project_root, c.contract.as_str());
        return Some(
            finding(
                BOUNDARY_CONTRACT_EMPTY_RULE_ID,
                msg,
                from,
                Some(to),
                spec.module.as_str(),
                hint,
                c.id.as_str(),
            ),
        );
    }
    None
}

/// Whether a glob builds and matches one of the project files.
fn pattern_resolves_exec(p: &str, files: &[String]) -> (r: bool)
    ensures
        r == pattern_resolves(p@, views(files@)),
{
    if path_glob_build_error(p).is_some() {
        return false;
    }
    let glob = PathGlob::new(p);
    let mut i: usize = 0;
    while i < files.len()
        invariant
            i <= files@.len(),
            path_glob_error(p@) is None,
            glob.pattern() == p@,
            forall|j: int| 0 <= j < i ==> !path_glob_matches(p@, #[trigger] views(files@)[j]),
        decreases files@.len() - i,
    {
        assert(views(files@)[i as int] == files@[i as int]@);
        if glob.is_match(files[i].as_str()) {
            return true;
        }
        i = i + 1;
    }
    false
}

/// The match check of one contract.
fn check_match_patterns(
    project_root: &str,
    spec: &ContractSpec,
    c: &ContractDeclaration,
    files: &[String],
) -> (r: Option<ContractRuleViolation>)
    ensures
        opt_contract_model(r) == match_finding(project_root@, *spec, *c, views(files@)),
{
    let n = c.match_files.len();
    if n == 0 {
        return None;
    }
    let ghost ps = views(c.match_files@);
    let mut j: usize = 0;
    while j < n
        invariant
            j <= n,
            n == c.match_files@.len(),
            ps == views(c.match_files@),
            forall|k: int| 0 <= k < j ==> !pattern_resolves(#[trigger] ps[k], views(files@)),
        decreases n - j,
    {
        assert(ps[j as int] == c.match_files@[j as int]@);
        if pattern_resolves_exec(c.match_files[j].as_str(), files) {
            return None;
        }
        j = j + 1;
    }
    let mut msg = owned("Match patterns for contract '");
    push_str(&mut msg, c.id.as_str());
    push_str(&mut msg, "' in module '");
    push_str(&mut msg, spec.module.as_str());
    push_str(&mut msg, "' did not resolve to any files: ");
    let listed = debug_strings(&c.match_files);
    push_str(&mut msg, listed.as_str());
    let mut hint = owned("Update `match.files` globs for contract '");
    push_str(&mut hint, c.id.as_str());
    push_str(&mut hint, "' so at least one path resolves, or add files that satisfy the declared glob patterns");
    let from = source_of(project_root, spec);
    Some(
        finding(
            BOUNDARY_MATCH_UNRESOLVED_RULE_ID,
            msg,
            from,
            None,
            spec.module.as_str(),
            hint,
            c.id.as_str(),
        ),
    )
}

/// Whether a reference has the form `module:contract_id`.
fn ref_well_formed_exec(r: &str) -> (b: bool)
    ensures
        b == ref_well_formed(r@),
{
    let parts = split_char(r, ':');
    assert(views(parts@).len() == parts@.len());
    if parts.len() != 2 {
        return false;
    }
    assert(views(parts@)[0] == parts@[0]@);
    assert(views(parts@)[1] == parts@[1]@);
    parts[0].unicode_len() > 0 && parts[1].unicode_len() > 0
}

/// Whether some spec declares a contract whose registry key is `r`.
fn registered_exec(all: &[ContractSpec], r: &str) -> (b: bool)
    ensures
        b == registered(all@, r@),
{
    let mut i: usize = 0;
    while i < all.len()
        invariant
            i <= all@.len(),
            forall|a: int, k: int|
                0 <= a < i && 0 <= k < all@[a].contracts@.len() ==> #[trigger] contract_key(
                    all@[a].module@,
                    all@[a].contracts@[k].id@,
                ) != r@,
        decreases all@.len() - i,
    {
        let cs = &all[i].contracts;
        let mut k: usize = 0;
        while k < cs.len()
            invariant
                i < all@.len(),
                cs == all@[i as int].contracts,
                k <= cs@.len(),
                forall|a: int, kk: int|
                    0 <= a < i && 0 <= kk < all@[a].contracts@.len() ==> #[trigger] contract_key(
                        all@[a].module@,
                        all@[a].contracts@[kk].id@,
                    ) != r@,
                forall|kk: int|
                    0 <= kk < k ==> #[trigger] contract_key(all@[i as int].module@, cs@[kk].id@) != r@,
            decreases cs@.len() - k,
        {
            let mut key = owned(all[i].module.as_str());
            push_char(&mut key, ':');
            push_str(&mut key, cs[k].id.as_str());
            assert(key@ =~= contract_key(all@[i as int].module@, cs@[k as int].id@));
            if str_eq(key.as_str(), r) {
                return true;
            }
            k = k + 1;
        }
        i = i + 1;
    }
    false
}

/// The invalid references of a contract, each with why it is invalid.
fn invalid_refs(all: &[ContractSpec], refs: &Vec<String>) -> (d: Vec<String>)
    ensures
        views(d@) == invalid_ref_details(all@, views(refs@)),
{
    let mut out: Vec<String> = Vec::new();
    let mut i: usize = 0;
    assert(views(refs@).take(0) =~= Seq::<Seq<char>>::empty());
    assert(views(out@) =~= Seq::<Seq<char>>::empty());
    while i < refs.len()
        invariant
            i <= refs@.len(),
            views(out@) == invalid_ref_details(all@, views(refs@).take(i as int)),
        decreases refs@.len() - i,
    {
        let ghost prefix = views(refs@).take(i + 1);
        assert(prefix.drop_last() =~= views(refs@).take(i as int));
        assert(prefix.last() == refs@[i as int]@);
        let r = refs[i].as_str();
        let reason: Option<&str> = if !ref_well_formed_exec(r) {
            Some("invalid format (expected 'module:contract_id')")
        } else if !registered_exec(all, r) {
            Some("contract not found in target module")
        } else {
            None
        };
        match reason {
            Some(why) => {
                let mut detail = owned("'");
                push_str(&mut detail, r);
                push_str(&mut detail, "' (");
                push_str(&mut detail, why);
                push_str(&mut detail, ")");
                let ghost before = out@;
                out.push(detail);
                assert(views(out@) =~= views(before).push(detail@));
            },
            None => {},
        }
        i = i + 1;
    }
    assert(views(refs@).take(i as int) =~= views(refs@));
    out
}

/// The reference check of one contract.
fn check_contract_refs(
    project_root: &str,
    all: &[ContractSpec],
    spec: &ContractSpec,
    c: &ContractDeclaration,
) -> (r: Option<ContractRuleViolation>)
    ensures
        opt_contract_model(r) == ref_finding(project_root@, all@, *spec, *c),
{
    let details = invalid_refs(all, &c.imports_contract);
    assert(views(details@).len() == details@.len());
    if details.len() == 0 {
        return None;
    }
    let mut msg = owned("Invalid imports_contract references for contract '");
    push_str(&mut msg, c.id.as_str());
    push_str(&mut msg, "' in module '");
    push_str(&mut msg, spec.module.as_str());
    push_str(&mut msg, "': ");
    let joined = join_text_exec(&details, ", ");
    push_str(&mut msg, joined.as_str());
    let hint = owned(
        "Use valid `module:contract_id` references in `imports_contract`, or define the referenced contract ids in the target modules",
    );
    let from = source_of(project_root, spec);
    Some(
        finding(
            BOUNDARY_CONTRACT_REF_INVALID_RULE_ID,
            msg,
            from,
            None,
            spec.module.as_str(),
            hint,
            c.id.as_str(),
        ),
    )
}

fn push_found(out: &mut Vec<ContractRuleViolation>, v: Option<ContractRuleViolation>)
    ensures
        contract_violation_models(final(out)@) == contract_violation_models(old(out)@) + opt_seq(
            opt_contract_model(v),
        ),
{
    match v {
        Some(x) => {
            let ghost before = out@;
            out.push(x);
            assert(contract_violation_models(out@) =~= contract_violation_models(before) + seq![
                contract_violation_model(x),
            ]);
        },
        None => {
            assert(contract_violation_models(out@) =~= contract_violation_models(out@) + Seq::<
                ContractViolationModel,
            >::empty());
        },
    }
}

/// Evaluates the contract rules over the specs' boundary contracts.
///
/// `contract_files` holds what the disk says of each contract file, keyed by
/// the path the contract declares; `project_files` holds every file under the
/// project root, relative to it with `/` separators. When `affected_modules`
/// is given, only the contracts of those modules are evaluated (references
/// are still resolved against every spec). The violations come sorted by
/// source file, contract id and rule.
pub fn evaluate_contract_rules(
    project_root: &str,
    specs: &[ContractSpec],
    contract_files: &[ContractFileFacts],
    project_files: &[String],
    affected_modules: Option<&Vec<String>>,
) -> (r: Vec<ContractRuleViolation>)
    ensures
        sorted_by_key(r@),
        contract_violation_models(r@).to_multiset() == contract_rule_findings(
            project_root@,
            specs@,
            contract_files@,
            views(project_files@),
            affected_view(affected_modules),
        ).to_multiset(),
        exists|u: Seq<ContractRuleViolation>|
            contract_violation_models(u) == contract_rule_findings(
                project_root@,
                specs@,
                contract_files@,
                views(project_files@),
                affected_view(affected_modules),
            ) && r@ == stable_sort(u),
{
    let ghost root = project_root@;
    let ghost facts = contract_files@;
    let ghost files = views(project_files@);
    let ghost affected = affected_view(affected_modules);
    let mut out: Vec<ContractRuleViolation> = Vec::new();
    let mut i: usize = 0;
    assert(specs@.take(0) =~= Seq::<ContractSpec>::empty());
    assert(contract_violation_models(out@) =~= Seq::<ContractViolationModel>::empty());
    while i < specs.len()
        invariant
            i <= specs@.len(),
            root == project_root@,
            facts == contract_files@,
            files == views(project_files@),
            affected == affected_view(affected_modules),
            contract_violation_models(out@) == findings_over(
                root,
                facts,
                files,
                specs@,
                specs@.take(i as int),
                affected,
            ),
        decreases specs@.len() - i,
    {
        let spec = &specs[i];
        let ghost prefix = specs@.take(i + 1);
        assert(prefix.drop_last() =~= specs@.take(i as int));
        assert(prefix.last() == specs@[i as int]);
        let selected = match affected_modules {
            None => true,
            Some(mods) => strings_contain(mods, spec.module.as_str()),
        };
        if selected {
            let ghost base = contract_violation_models(out@);
            let cs = &spec.contracts;
            let mut k: usize = 0;
            assert(cs@.take(0) =~= Seq::<ContractDeclaration>::empty());
            assert(base + Seq::<ContractViolationModel>::empty() =~= base);
            while k < cs.len()
                invariant
                    i < specs@.len(),
                    spec == specs@[i as int],
                    cs == spec.contracts,
                    k <= cs@.len(),
                    root == project_root@,
                    facts == contract_files@,
                    files == views(project_files@),
                    contract_violation_models(out@) == base + spec_contract_findings(
                        root,
                        facts,
                        files,
                        specs@,
                        *spec,
                        cs@.take(k as int),
                    ),
                decreases cs@.len() - k,
            {
                let c = &cs[k];
                let ghost cprefix = cs@.take(k + 1);
                assert(cprefix.drop_last() =~= cs@.take(k as int));
                assert(cprefix.last() == cs@[k as int]);
                let f = check_contract_file(project_root, contract_files, spec, c);
                push_found(&mut out, f);
                let m = check_match_patterns(project_root, spec, c, project_files);
                push_found(&mut out, m);
                let rf = check_contract_refs(project_root, specs, spec, c);
                push_found(&mut out, rf);
                let ghost step = contract_findings(root, facts, files, specs@, *spec, *c);
                assert(contract_violation_models(out@) =~= base + spec_contract_findings(
                    root,
                    facts,
                    files,
                    specs@,
                    *spec,
                    cs@.take(k as int),
                ) + step);
                k = k + 1;
            }
            assert(cs@.take(k as int) =~= cs@);
        } else {
            assert(contract_violation_models(out@) =~= contract_violation_models(out@) + Seq::<
                ContractViolationModel,
            >::empty());
        }
        i = i + 1;
    }
    assert(specs@.take(i as int) =~= specs@);
    let ghost unsorted = out@;
    sort_by_key(&mut out);
    proof {
        lemma_multiset_map(out@, unsorted, |x: ContractRuleViolation| contract_violation_model(x));
        assert(contract_violation_models(unsorted) == contract_rule_findings(
            project_root@,
            specs@,
            contract_files@,
            views(project_files@),
            affected_view(affected_modules),
        ) && out@ == stable_sort(unsorted));
    }
    out
}

} // verus!
