//! Validation findings about loaded specs.
use vstd::prelude::*;

use crate::glob::{glob_new_fails, glob_rejected};
use crate::policy::types::opt_view;
use crate::rules::boundary::{
    BOUNDARY_CANONICAL_IMPORTS_RULE_ID_ALIAS, BOUNDARY_CANONICAL_IMPORT_RULE_ID, BOUNDARY_CONTRACT_VERSION_MISMATCH_RULE_ID,
};
use crate::spec::types::{declared_import_ids, trimmed_nonempty, Boundaries, Constraint, SpecFile, SUPPORTED_SPEC_VERSIONS};
use crate::strset::{lemma_sorted_seq_of, set_insert, sorted_seq_of, strictly_sorted};
use crate::paths::strings_contain;
use crate::text::{debug_list, debug_opt, debug_opt_string, debug_strings, owned, push_str, split_char, split_on, str_eq, trim, trim_str, views};

verus! {

/// Severity of a validation finding.
#[derive(Debug, Clone, Copy, PartialEq, Eq, Structural)]
pub enum ValidationLevel {
    Error,
    Warning,
}

/// One validation finding.
#[derive(Debug, Clone, PartialEq, Eq)]
pub struct ValidationIssue {
    pub level: ValidationLevel,
    pub module: String,
    pub message: String,
    pub spec_path: Option<String>,
}

/// All validation findings, in the order they were found.
#[derive(Debug, Clone, Default)]
pub struct ValidationReport {
    pub issues: Vec<ValidationIssue>,
}

/// The issues of the given level, in order.
pub open spec fn issues_at(issues: Seq<ValidationIssue>, level: ValidationLevel) -> Seq<ValidationIssue>
    decreases issues.len(),
{
    if issues.len() == 0 {
        Seq::empty()
    } else {
        let rest = issues_at(issues.drop_last(), level);
        if issues.last().level == level {
            rest.push(issues.last())
        } else {
            rest
        }
    }
}

fn issues_with_level(issues: &Vec<ValidationIssue>, level: ValidationLevel) -> (r: Vec<&ValidationIssue>)
    ensures
        r@.len() == issues_at(issues@, level).len(),
        forall|i: int| 0 <= i < r@.len() ==> *r@[i] == issues_at(issues@, level)[i],
{
    let mut out: Vec<&ValidationIssue> = Vec::new();
    let mut i: usize = 0;
    while i < issues.len()
        invariant
            i <= issues@.len(),
            out@.len() == issues_at(issues@.take(i as int), level).len(),
            forall|k: int| 0 <= k < out@.len() ==> *out@[k] == issues_at(issues@.take(i as int), level)[k],
        decreases issues@.len() - i,
    {
        assert(issues@.take(i + 1).drop_last() =~= issues@.take(i as int));
        assert(issues@.take(i + 1).last() == issues@[i as int]);
        if issues[i].level == level {
            out.push(&issues[i]);
        }
        i = i + 1;
    }
    assert(issues@.take(i as int) =~= issues@);
    out
}

impl ValidationReport {
    /// The error-level issues, in order.
    pub fn errors(&self) -> (r: Vec<&ValidationIssue>)
        ensures
            r@.len() == issues_at(self.issues@, ValidationLevel::Error).len(),
            forall|i: int| 0 <= i < r@.len() ==> *r@[i] == issues_at(self.issues@, ValidationLevel::Error)[i],
    {
        issues_with_level(&self.issues, ValidationLevel::Error)
    }

    /// The warning-level issues, in order.
    pub fn warnings(&self) -> (r: Vec<&ValidationIssue>)
        ensures
            r@.len() == issues_at(self.issues@, ValidationLevel::Warning).len(),
            forall|i: int| 0 <= i < r@.len() ==> *r@[i] == issues_at(self.issues@, ValidationLevel::Warning)[i],
    {
        issues_with_level(&self.issues, ValidationLevel::Warning)
    }

    /// Whether any issue is an error.
    pub fn has_errors(&self) -> (r: bool)
        ensures
            r == exists|i: int| 0 <= i < self.issues@.len() && self.issues@[i].level == ValidationLevel::Error,
    {
        let mut i: usize = 0;
        while i < self.issues.len()
            invariant
                i <= self.issues@.len(),
                forall|k: int| 0 <= k < i ==> self.issues@[k].level != ValidationLevel::Error,
            decreases self.issues@.len() - i,
        {
            if self.issues[i].level == ValidationLevel::Error {
                return true;
            }
            i = i + 1;
        }
        false
    }

    fn push(&mut self, level: ValidationLevel, module: String, message: String, spec_path: Option<String>)
        ensures
            final(self).issues@ == old(self).issues@.push(
                ValidationIssue { level, module, message, spec_path },
            ),
    {
        self.issues.push(ValidationIssue { level, module, message, spec_path });
    }

    /// Records an error about `spec`.
    pub fn push_error(&mut self, spec: &SpecFile, message: String)
        ensures
            final(self).issues@.len() == old(self).issues@.len() + 1,
            final(self).issues@.drop_last() == old(self).issues@,
            final(self).issues@.last().level == ValidationLevel::Error,
            final(self).issues@.last().module@ == spec.module@,
            final(self).issues@.last().message@ == message@,
            final(self).issues@.last().spec_path is Some <==> spec.spec_path is Some,
            spec.spec_path matches Some(p) ==> final(self).issues@.last().spec_path.unwrap()@ == p@,
            issue_models(final(self).issues@) == issue_models(old(self).issues@).push(
                about(*spec, ValidationLevel::Error, message@),
            ),
    {
        let path = match &spec.spec_path {
            Some(p) => Some(p.clone()),
            None => None,
        };
        let ghost before = self.issues@;
        self.push(ValidationLevel::Error, spec.module.clone(), message, path);
        assert(issue_models(self.issues@) =~= issue_models(before).push(
            about(*spec, ValidationLevel::Error, message@),
        ));
    }

    /// Records a warning about `spec`.
    pub fn push_warning(&mut self, spec: &SpecFile, message: String)
        ensures
            final(self).issues@.len() == old(self).issues@.len() + 1,
            final(self).issues@.drop_last() == old(self).issues@,
            final(self).issues@.last().level == ValidationLevel::Warning,
            final(self).issues@.last().module@ == spec.module@,
            final(self).issues@.last().message@ == message@,
            final(self).issues@.last().spec_path is Some <==> spec.spec_path is Some,
            spec.spec_path matches Some(p) ==> final(self).issues@.last().spec_path.unwrap()@ == p@,
            issue_models(final(self).issues@) == issue_models(old(self).issues@).push(
                about(*spec, ValidationLevel::Warning, message@),
            ),
    {
        let path = match &spec.spec_path {
            Some(p) => Some(p.clone()),
            None => None,
        };
        let ghost before = self.issues@;
        self.push(ValidationLevel::Warning, spec.module.clone(), message, path);
        assert(issue_models(self.issues@) =~= issue_models(before).push(
            about(*spec, ValidationLevel::Warning, message@),
        ));
    }
}

/// Why an `imports_contract` reference (`module:contract_id`) is malformed, if it is.
pub open spec fn imports_contract_error(s: Seq<char>) -> Option<Seq<char>> {
    let parts = split_on(s, ':');
    if parts.len() != 2 {
        Some(
            "imports_contract '"@ + s
                + "' must contain exactly one colon separating module and contract id"@,
        )
    } else if parts[0].len() == 0 {
        Some("imports_contract '"@ + s + "' has empty module segment"@)
    } else if parts[1].len() == 0 {
        Some("imports_contract '"@ + s + "' has empty contract id segment"@)
    } else {
        None
    }
}

/// Checks the `module:contract_id` shape of an `imports_contract` reference.
pub fn validate_imports_contract_format(imports_contract: &str) -> (r: Result<(), String>)
    ensures
        match r {
            Ok(()) => imports_contract_error(imports_contract@) is None,
            Err(m) => imports_contract_error(imports_contract@) == Some(m@),
        },
{
    let parts = split_char(imports_contract, ':');
    assert(views(parts@).len() == parts@.len());
    if parts.len() != 2 {
        let mut m = owned("imports_contract '");
        push_str(&mut m, imports_contract);
        push_str(&mut m, "' must contain exactly one colon separating module and contract id");
        return Err(m);
    }
    assert(views(parts@)[0] == parts@[0]@);
    assert(views(parts@)[1] == parts@[1]@);
    if parts[0].as_str().unicode_len() == 0 {
        let mut m = owned("imports_contract '");
        push_str(&mut m, imports_contract);
        push_str(&mut m, "' has empty module segment");
        return Err(m);
    }
    if parts[1].as_str().unicode_len() == 0 {
        let mut m = owned("imports_contract '");
        push_str(&mut m, imports_contract);
        push_str(&mut m, "' has empty contract id segment");
        return Err(m);
    }
    Ok(())
}

/// The rule ids a constraint may name.
pub open spec fn known_rules() -> Seq<Seq<char>> {
    seq![
        "no-circular-deps"@,
        "enforce-layer"@,
        "boundary.never_imports"@,
        "boundary.allow_imports_from"@,
        "boundary.public_api"@,
        "boundary.deny_imported_by"@,
        "boundary.allow_imported_by"@,
        "boundary.visibility.internal"@,
        "boundary.visibility.private"@,
        BOUNDARY_CANONICAL_IMPORT_RULE_ID@,
        BOUNDARY_CANONICAL_IMPORTS_RULE_ID_ALIAS@,
        "boundary.contract_missing"@,
        "boundary.contract_empty"@,
        "boundary.match_unresolved"@,
        "boundary.contract_ref_invalid"@,
        BOUNDARY_CONTRACT_VERSION_MISMATCH_RULE_ID@,
        "boundary.envelope_missing"@,
    ]
}

fn known_rule_names() -> (r: Vec<String>)
    ensures
        views(r@) == known_rules(),
{
    let names: Vec<&str> = vec![
        "no-circular-deps",
        "enforce-layer",
        "boundary.never_imports",
        "boundary.allow_imports_from",
        "boundary.public_api",
        "boundary.deny_imported_by",
        "boundary.allow_imported_by",
        "boundary.visibility.internal",
        "boundary.visibility.private",
        BOUNDARY_CANONICAL_IMPORT_RULE_ID,
        BOUNDARY_CANONICAL_IMPORTS_RULE_ID_ALIAS,
        "boundary.contract_missing",
        "boundary.contract_empty",
        "boundary.match_unresolved",
        "boundary.contract_ref_invalid",
        BOUNDARY_CONTRACT_VERSION_MISMATCH_RULE_ID,
        "boundary.envelope_missing",
    ];
    let mut out: Vec<String> = Vec::new();
    let mut i: usize = 0;
    while i < names.len()
        invariant
            names@.map_values(|s: &str| s@) == known_rules(),
            i <= names@.len(),
            views(out@) == known_rules().take(i as int),
        decreases names@.len() - i,
    {
        out.push(owned(names[i]));
        assert(known_rules().take(i + 1) =~= known_rules().take(i as int).push(names@[i as int]@));
        assert(views(out@) =~= known_rules().take(i + 1));
        i = i + 1;
    }
    assert(known_rules().take(i as int) =~= known_rules());
    out
}

pub open spec fn supported_versions() -> Seq<Seq<char>> {
    seq![SUPPORTED_SPEC_VERSIONS[0]@, SUPPORTED_SPEC_VERSIONS[1]@]
}

/// A finding as plain values: level, module, message, spec path.
pub type IssueModel = (ValidationLevel, Seq<char>, Seq<char>, Option<Seq<char>>);

pub open spec fn issue_model(i: ValidationIssue) -> IssueModel {
    (i.level, i.module@, i.message@, opt_view(i.spec_path))
}

pub open spec fn issue_models(v: Seq<ValidationIssue>) -> Seq<IssueModel> {
    v.map_values(|i: ValidationIssue| issue_model(i))
}

/// A finding about `spec`.
pub open spec fn about(spec: SpecFile, level: ValidationLevel, message: Seq<char>) -> IssueModel {
    (level, spec.module@, message, opt_view(spec.spec_path))
}

/// The strings of `a` also in `b`, sorted, without duplicates.
pub open spec fn overlap(a: Seq<String>, b: Seq<String>) -> Seq<Seq<char>> {
    sorted_seq_of(views(a).to_set().intersect(views(b).to_set()))
}

/// An error for each public API glob that does not parse, in order.
pub open spec fn api_findings(spec: SpecFile, globs: Seq<String>) -> Seq<IssueModel>
    decreases globs.len(),
{
    if globs.len() == 0 {
        Seq::empty()
    } else {
        let rest = api_findings(spec, globs.drop_last());
        let g = globs.last();
        if glob_rejected(g@) {
            rest.push(
                about(spec, ValidationLevel::Error, "invalid boundaries.public_api glob pattern: '"@ + g@ + "'"@),
            )
        } else {
            rest
        }
    }
}

/// A warning for each of `names`, in order: `module '<name>` and then `suffix`.
pub open spec fn overlap_warnings(spec: SpecFile, names: Seq<Seq<char>>, suffix: Seq<char>) -> Seq<IssueModel> {
    names.map_values(|m: Seq<char>| about(spec, ValidationLevel::Warning, "module '"@ + m + suffix))
}

/// An error when the boundary path glob does not parse.
pub open spec fn path_findings(spec: SpecFile, b: Boundaries) -> Seq<IssueModel> {
    match b.path {
        Some(p) => if glob_rejected(p@) {
            seq![about(spec, ValidationLevel::Error, "invalid boundaries.path glob pattern: '"@ + p@ + "'"@)]
        } else {
            Seq::empty()
        },
        None => Seq::empty(),
    }
}

/// A warning when canonical imports are enforced but the module declares no id.
pub open spec fn canonical_findings(spec: SpecFile, b: Boundaries) -> Seq<IssueModel> {
    if b.enforce_canonical_imports && trimmed_nonempty(declared_import_ids(&spec)) == Set::<Seq<char>>::empty() {
        seq![
            about(
                spec,
                ValidationLevel::Warning,
                "enforce_canonical_imports is true but module declares no import_id/import_ids"@,
            ),
        ]
    } else {
        Seq::empty()
    }
}

/// The allowlist of importable modules, empty when there is none.
pub open spec fn allowed_imports(b: Boundaries) -> Seq<String> {
    match b.allow_imports_from {
        Some(v) => v@,
        None => Seq::empty(),
    }
}

/// The findings about the boundaries of `spec`: unparsable path and public
/// API globs (errors), names both allowed and denied (warnings, sorted), and
/// enforced canonical imports without an import id (a warning).
pub open spec fn boundary_findings(spec: SpecFile, b: Boundaries) -> Seq<IssueModel> {
    path_findings(spec, b) + api_findings(spec, b.public_api@) + overlap_warnings(
        spec,
        overlap(allowed_imports(b), b.never_imports@),
        "' is in both allow_imports_from and never_imports"@,
    ) + overlap_warnings(
        spec,
        overlap(b.allow_imported_by@, b.deny_imported_by@),
        "' is in both allow_imported_by and deny_imported_by"@,
    ) + canonical_findings(spec, b)
}

/// Errors for an unsupported version and for contracts in a 2.2 spec.
pub open spec fn version_findings(spec: SpecFile) -> Seq<IssueModel> {
    let version = trim(spec.version@);
    let unsupported = if !supported_versions().contains(version) {
        seq![
            about(
                spec,
                ValidationLevel::Error,
                "unsupported spec version '"@ + spec.version@ + "'; expected one of "@ + debug_list(supported_versions()),
            ),
        ]
    } else {
        Seq::empty()
    };
    let mismatch = if version == "2.2"@ && (spec.boundaries matches Some(b) && b.contracts@.len() > 0) {
        seq![
            about(
                spec,
                ValidationLevel::Error,
                BOUNDARY_CONTRACT_VERSION_MISMATCH_RULE_ID@
                    + ": contracts are not supported in spec version 2.2; upgrade to 2.3 to use boundary contracts"@,
            ),
        ]
    } else {
        Seq::empty()
    };
    unsupported + mismatch
}

/// An error when the module name is blank.
pub open spec fn module_findings(spec: SpecFile) -> Seq<IssueModel> {
    if trim(spec.module@).len() == 0 {
        seq![about(spec, ValidationLevel::Error, "module must be non-empty"@)]
    } else {
        Seq::empty()
    }
}

/// An error for each constraint naming an unknown rule, in order.
pub open spec fn rule_findings(spec: SpecFile, cs: Seq<Constraint>) -> Seq<IssueModel>
    decreases cs.len(),
{
    if cs.len() == 0 {
        Seq::empty()
    } else {
        let rest = rule_findings(spec, cs.drop_last());
        let c = cs.last();
        if known_rules().contains(c.rule@) {
            rest
        } else {
            rest.push(
                about(
                    spec,
                    ValidationLevel::Error,
                    "unknown constraint rule '"@ + c.rule@ + "'; expected one of "@ + debug_list(known_rules()),
                ),
            )
        }
    }
}

/// The findings about one spec on its own, in order: an unsupported version,
/// contracts in a 2.2 spec, a blank module, unknown constraint rules, and
/// the boundary findings.
pub open spec fn single_spec_findings(spec: SpecFile) -> Seq<IssueModel> {
    version_findings(spec) + module_findings(spec) + rule_findings(spec, spec.constraints@) + match spec.boundaries {
        Some(b) => boundary_findings(spec, b),
        None => Seq::empty(),
    }
}

/// The strings found in both lists, strictly sorted.
fn common_strings(a: &Vec<String>, b: &Vec<String>) -> (r: Vec<String>)
    ensures
        strictly_sorted(views(r@)),
        views(r@).to_set() == views(a@).to_set().intersect(views(b@).to_set()),
{
    let mut out: Vec<String> = Vec::new();
    let mut i: usize = 0;
    assert(views(out@).to_set() =~= views(a@).take(0).to_set().intersect(views(b@).to_set()));
    while i < a.len()
        invariant
            i <= a@.len(),
            strictly_sorted(views(out@)),
            views(out@).to_set() == views(a@).take(i as int).to_set().intersect(views(b@).to_set()),
        decreases a@.len() - i,
    {
        let ghost before = views(a@).take(i as int);
        assert(views(a@).take(i + 1) =~= before.push(a@[i as int]@));
        proof {
            before.lemma_push_to_set_commute(a@[i as int]@);
        }
        if strings_contain(b, a[i].as_str()) {
            set_insert(&mut out, a[i].clone());
        }
        assert(views(out@).to_set() =~= views(a@).take(i + 1).to_set().intersect(views(b@).to_set()));
        i = i + 1;
    }
    assert(views(a@).take(i as int) =~= views(a@));
    out
}

/// Warns about each name found in both lists, in sorted order.
fn warn_overlap(spec: &SpecFile, a: &Vec<String>, b: &Vec<String>, suffix: &str, report: &mut ValidationReport)
    ensures
        issue_models(final(report).issues@) == issue_models(old(report).issues@) + overlap_warnings(
            *spec,
            overlap(a@, b@),
            suffix@,
        ),
{
    let common = common_strings(a, b);
    proof {
        lemma_sorted_seq_of(views(common@));
    }
    let ghost names = views(common@);
    let ghost base = issue_models(report.issues@);
    let mut k: usize = 0;
    assert(overlap_warnings(*spec, names.take(0), suffix@) =~= Seq::<IssueModel>::empty());
    while k < common.len()
        invariant
            k <= common@.len(),
            names == views(common@),
            issue_models(report.issues@) == base + overlap_warnings(*spec, names.take(k as int), suffix@),
        decreases common@.len() - k,
    {
        let mut m = owned("module '");
        push_str(&mut m, common[k].as_str());
        push_str(&mut m, suffix);
        report.push_warning(spec, m);
        assert(names.take(k + 1) =~= names.take(k as int).push(names[k as int]));
        assert(overlap_warnings(*spec, names.take(k + 1), suffix@) =~= overlap_warnings(
            *spec,
            names.take(k as int),
            suffix@,
        ).push(about(*spec, ValidationLevel::Warning, "module '"@ + names[k as int] + suffix@)));
        assert(issue_models(report.issues@) =~= base + overlap_warnings(*spec, names.take(k + 1), suffix@));
        k = k + 1;
    }
    assert(names.take(k as int) =~= names);
}

/// Records the findings about the boundaries of `spec`.
fn validate_boundaries(spec: &SpecFile, b: &Boundaries, report: &mut ValidationReport)
    ensures
        issue_models(final(report).issues@) == issue_models(old(report).issues@) + boundary_findings(*spec, *b),
{
    let ghost base = issue_models(report.issues@);
    if let Some(p) = &b.path {
        if glob_new_fails(p.as_str()) {
            let mut m = owned("invalid boundaries.path glob pattern: '");
            push_str(&mut m, p.as_str());
            push_str(&mut m, "'");
            report.push_error(spec, m);
        }
    }
    assert(issue_models(report.issues@) =~= base + path_findings(*spec, *b));
    let ghost after_path = issue_models(report.issues@);
    let mut i: usize = 0;
    assert(b.public_api@.take(0) =~= Seq::<String>::empty());
    while i < b.public_api.len()
        invariant
            i <= b.public_api@.len(),
            issue_models(report.issues@) == after_path + api_findings(*spec, b.public_api@.take(i as int)),
        decreases b.public_api@.len() - i,
    {
        let g = &b.public_api[i];
        assert(b.public_api@.take(i + 1).drop_last() =~= b.public_api@.take(i as int));
        if glob_new_fails(g.as_str()) {
            let mut m = owned("invalid boundaries.public_api glob pattern: '");
            push_str(&mut m, g.as_str());
            push_str(&mut m, "'");
            report.push_error(spec, m);
        }
        assert(issue_models(report.issues@) =~= after_path + api_findings(*spec, b.public_api@.take(i + 1)));
        i = i + 1;
    }
    assert(b.public_api@.take(i as int) =~= b.public_api@);
    let empty: Vec<String> = Vec::new();
    let allow = match &b.allow_imports_from {
        Some(v) => v,
        None => &empty,
    };
    assert(allow@ == allowed_imports(*b));
    warn_overlap(spec, allow, &b.never_imports, "' is in both allow_imports_from and never_imports", report);
    warn_overlap(spec, &b.allow_imported_by, &b.deny_imported_by, "' is in both allow_imported_by and deny_imported_by", report);
    let ghost before_canonical = issue_models(report.issues@);
    if b.enforce_canonical_imports {
        let ids = spec.canonical_import_ids();
        if ids.len() == 0 {
            assert(views(ids@).to_set() =~= Set::<Seq<char>>::empty());
            report.push_warning(spec, owned("enforce_canonical_imports is true but module declares no import_id/import_ids"));
        } else {
            assert(views(ids@).to_set().contains(views(ids@)[0]));
        }
    }
    assert(issue_models(report.issues@) =~= before_canonical + canonical_findings(*spec, *b));
}

/// The supported versions as owned strings.
fn supported_version_names() -> (r: Vec<String>)
    ensures
        views(r@) == supported_versions(),
{
    let r = vec![owned(SUPPORTED_SPEC_VERSIONS[0]), owned(SUPPORTED_SPEC_VERSIONS[1])];
    assert(views(r@) =~= supported_versions());
    r
}

/// Records the findings about one spec on its own.
fn validate_single_spec(spec: &SpecFile, report: &mut ValidationReport)
    ensures
        issue_models(final(report).issues@) == issue_models(old(report).issues@) + single_spec_findings(*spec),
{
    let ghost base = issue_models(report.issues@);
    let version = trim_str(spec.version.as_str());
    let supported = supported_version_names();
    assert(supported_versions().contains(version@) <==> (version@ == supported_versions()[0] || version@
        == supported_versions()[1]));
    if !strings_contain(&supported, version) {
        let mut m = owned("unsupported spec version '");
        push_str(&mut m, spec.version.as_str());
        push_str(&mut m, "'; expected one of ");
        let listed = debug_strings(&supported);
        push_str(&mut m, listed.as_str());
        report.push_error(spec, m);
    }
    if str_eq(version, "2.2") {
        if let Some(b) = &spec.boundaries {
            if b.contracts.len() > 0 {
                let mut m = owned(BOUNDARY_CONTRACT_VERSION_MISMATCH_RULE_ID);
                push_str(&mut m, ": contracts are not supported in spec version 2.2; upgrade to 2.3 to use boundary contracts");
                report.push_error(spec, m);
            }
        }
    }
    assert(issue_models(report.issues@) =~= base + version_findings(*spec));
    let ghost after_version = issue_models(report.issues@);
    if trim_str(spec.module.as_str()).unicode_len() == 0 {
        report.push_error(spec, owned("module must be non-empty"));
    }
    assert(issue_models(report.issues@) =~= after_version + module_findings(*spec));
    let ghost after_module = issue_models(report.issues@);
    let known = known_rule_names();
    let mut i: usize = 0;
    assert(spec.constraints@.take(0) =~= Seq::<Constraint>::empty());
    while i < spec.constraints.len()
        invariant
            i <= spec.constraints@.len(),
            views(known@) == known_rules(),
            issue_models(report.issues@) == after_module + rule_findings(*spec, spec.constraints@.take(i as int)),
        decreases spec.constraints@.len() - i,
    {
        let c = &spec.constraints[i];
        assert(spec.constraints@.take(i + 1).drop_last() =~= spec.constraints@.take(i as int));
        if !strings_contain(&known, c.rule.as_str()) {
            let mut m = owned("unknown constraint rule '");
            push_str(&mut m, c.rule.as_str());
            push_str(&mut m, "'; expected one of ");
            let listed = debug_strings(&known);
            push_str(&mut m, listed.as_str());
            report.push_error(spec, m);
        }
        assert(issue_models(report.issues@) =~= after_module + rule_findings(*spec, spec.constraints@.take(i + 1)));
        i = i + 1;
    }
    assert(spec.constraints@.take(i as int) =~= spec.constraints@);
    let ghost after_rules = issue_models(report.issues@);
    if let Some(b) = &spec.boundaries {
        validate_boundaries(spec, b, report);
    }
    assert(issue_models(report.issues@) =~= base + single_spec_findings(*spec));
}

/// The canonical import ids a spec declares, as a set.
pub open spec fn canonical_id_set(spec: SpecFile) -> Set<Seq<char>> {
    trimmed_nonempty(declared_import_ids(&spec))
}

/// The module of the first of `specs` that declares the canonical id `id`.
pub open spec fn first_owner(specs: Seq<SpecFile>, id: Seq<char>) -> Option<Seq<char>>
    decreases specs.len(),
{
    if specs.len() == 0 {
        None
    } else {
        match first_owner(specs.drop_last(), id) {
            Some(m) => Some(m),
            None => if canonical_id_set(specs.last()).contains(id) {
                Some(specs.last().module@)
            } else {
                None
            },
        }
    }
}

/// The spec path of the last of `specs` whose module is `module`, if any.
pub open spec fn last_declaration(specs: Seq<SpecFile>, module: Seq<char>) -> Option<Option<Seq<char>>>
    decreases specs.len(),
{
    if specs.len() == 0 {
        None
    } else if specs.last().module@ == module {
        Some(opt_view(specs.last().spec_path))
    } else {
        last_declaration(specs.drop_last(), module)
    }
}

/// An error when an earlier spec declared the same module.
pub open spec fn duplicate_findings(spec: SpecFile, earlier: Seq<SpecFile>) -> Seq<IssueModel> {
    match last_declaration(earlier, spec.module@) {
        Some(path) => seq![
            about(
                spec,
                ValidationLevel::Error,
                "duplicate module '"@ + spec.module@ + "' (previous declaration at "@ + debug_opt(path) + ")"@,
            ),
        ],
        None => Seq::empty(),
    }
}

/// An error for each of `ids` first declared by an earlier spec of another module.
pub open spec fn id_conflicts(spec: SpecFile, earlier: Seq<SpecFile>, ids: Seq<Seq<char>>) -> Seq<IssueModel>
    decreases ids.len(),
{
    if ids.len() == 0 {
        Seq::empty()
    } else {
        let rest = id_conflicts(spec, earlier, ids.drop_last());
        let id = ids.last();
        match first_owner(earlier, id) {
            Some(m) => if m != spec.module@ {
                rest.push(
                    about(
                        spec,
                        ValidationLevel::Error,
                        "canonical import id '"@ + id + "' already declared by module '"@ + m + "'"@,
                    ),
                )
            } else {
                rest
            },
            None => rest,
        }
    }
}

/// The findings about a spec given the specs before it: its own findings, a
/// duplicate module, and canonical ids already taken by another module (in
/// sorted id order).
pub open spec fn spec_findings(spec: SpecFile, earlier: Seq<SpecFile>) -> Seq<IssueModel> {
    single_spec_findings(spec) + duplicate_findings(spec, earlier) + id_conflicts(
        spec,
        earlier,
        sorted_seq_of(canonical_id_set(spec)),
    )
}

/// The findings about a list of specs, spec by spec in order.
pub open spec fn validation_findings(specs: Seq<SpecFile>) -> Seq<IssueModel>
    decreases specs.len(),
{
    if specs.len() == 0 {
        Seq::empty()
    } else {
        validation_findings(specs.drop_last()) + spec_findings(specs.last(), specs.drop_last())
    }
}

proof fn lemma_first_owner_settled(specs: Seq<SpecFile>, k: int, n: int, id: Seq<char>)
    requires
        0 <= k <= n <= specs.len(),
        first_owner(specs.take(k), id) is Some,
    ensures
        first_owner(specs.take(n), id) == first_owner(specs.take(k), id),
    decreases n - k,
{
    if n > k {
        lemma_first_owner_settled(specs, k, n - 1, id);
        assert(specs.take(n).drop_last() =~= specs.take(n - 1));
    }
}

/// The index of the first of the first `upto` specs that declares `id`.
fn first_owner_index(specs: &[SpecFile], upto: usize, id: &str) -> (r: Option<usize>)
    requires
        upto <= specs@.len(),
    ensures
        match r {
            None => first_owner(specs@.take(upto as int), id@) is None,
            Some(j) => j < upto && first_owner(specs@.take(upto as int), id@) == Some(specs@[j as int].module@),
        },
{
    let mut j: usize = 0;
    while j < upto
        invariant
            j <= upto <= specs@.len(),
            first_owner(specs@.take(j as int), id@) is None,
        decreases upto - j,
    {
        assert(specs@.take(j + 1).drop_last() =~= specs@.take(j as int));
        let ids = specs[j].canonical_import_ids();
        if strings_contain(&ids, id) {
            proof {
                lemma_first_owner_settled(specs@, j + 1, upto as int, id@);
            }
            return Some(j);
        }
        j = j + 1;
    }
    None
}

/// The index of the last of the first `upto` specs whose module is `module`.
fn last_declaration_index(specs: &[SpecFile], upto: usize, module: &str) -> (r: Option<usize>)
    requires
        upto <= specs@.len(),
    ensures
        match r {
            None => last_declaration(specs@.take(upto as int), module@) is None,
            Some(k) => k < upto && last_declaration(specs@.take(upto as int), module@) == Some(
                opt_view(specs@[k as int].spec_path),
            ),
        },
{
    let mut found: Option<usize> = None;
    let mut j: usize = 0;
    while j < upto
        invariant
            j <= upto <= specs@.len(),
            match found {
                None => last_declaration(specs@.take(j as int), module@) is None,
                Some(k) => k < j && last_declaration(specs@.take(j as int), module@) == Some(
                    opt_view(specs@[k as int].spec_path),
                ),
            },
        decreases upto - j,
    {
        assert(specs@.take(j + 1).drop_last() =~= specs@.take(j as int));
        if str_eq(specs[j].module.as_str(), module) {
            found = Some(j);
        }
        j = j + 1;
    }
    found
}

/// Records the findings about `specs[i]` given the specs before it.
fn validate_spec_at(specs: &[SpecFile], i: usize, report: &mut ValidationReport)
    requires
        i < specs@.len(),
    ensures
        issue_models(final(report).issues@) == issue_models(old(report).issues@) + spec_findings(
            specs@[i as int],
            specs@.take(i as int),
        ),
{
    let spec = &specs[i];
    let ghost base = issue_models(report.issues@);
    validate_single_spec(spec, report);
    let ghost after_single = issue_models(report.issues@);
    match last_declaration_index(specs, i, spec.module.as_str()) {
        Some(k) => {
            let mut m = owned("duplicate module '");
            push_str(&mut m, spec.module.as_str());
            push_str(&mut m, "' (previous declaration at ");
            let shown = debug_opt_string(&specs[k].spec_path);
            push_str(&mut m, shown.as_str());
            push_str(&mut m, ")");
            report.push_error(spec, m);
        },
        None => {},
    }
    assert(issue_models(report.issues@) =~= after_single + duplicate_findings(*spec, specs@.take(i as int)));
    let ghost after_duplicate = issue_models(report.issues@);
    let ids = spec.canonical_import_ids();
    proof {
        lemma_sorted_seq_of(views(ids@));
    }
    let ghost names = views(ids@);
    let mut k: usize = 0;
    assert(names.take(0) =~= Seq::<Seq<char>>::empty());
    while k < ids.len()
        invariant
            k <= ids@.len(),
            i < specs@.len(),
            spec == specs@[i as int],
            names == views(ids@),
            issue_models(report.issues@) == after_duplicate + id_conflicts(
                *spec,
                specs@.take(i as int),
                names.take(k as int),
            ),
        decreases ids@.len() - k,
    {
        assert(names.take(k + 1).drop_last() =~= names.take(k as int));
        assert(names.take(k + 1).last() == ids@[k as int]@);
        match first_owner_index(specs, i, ids[k].as_str()) {
            Some(j) => {
                if !str_eq(specs[j].module.as_str(), spec.module.as_str()) {
                    let mut m = owned("canonical import id '");
                    push_str(&mut m, ids[k].as_str());
                    push_str(&mut m, "' already declared by module '");
                    push_str(&mut m, specs[j].module.as_str());
                    push_str(&mut m, "'");
                    report.push_error(spec, m);
                }
            },
            None => {},
        }
        assert(issue_models(report.issues@) =~= after_duplicate + id_conflicts(
            *spec,
            specs@.take(i as int),
            names.take(k + 1),
        ));
        k = k + 1;
    }
    assert(names.take(k as int) =~= names);
    assert(issue_models(report.issues@) =~= base + spec_findings(specs@[i as int], specs@.take(i as int)));
}

/// Validates loaded specs: each spec on its own, then duplicate modules and
/// canonical import ids claimed by more than one module.
pub fn validate_specs(specs: &[SpecFile]) -> (r: ValidationReport)
    ensures
        issue_models(r.issues@) == validation_findings(specs@),
{
    let mut report = ValidationReport { issues: Vec::new() };
    let mut i: usize = 0;
    assert(issue_models(report.issues@) =~= validation_findings(specs@.take(0)));
    while i < specs.len()
        invariant
            i <= specs@.len(),
            issue_models(report.issues@) == validation_findings(specs@.take(i as int)),
        decreases specs@.len() - i,
    {
        assert(specs@.take(i + 1).drop_last() =~= specs@.take(i as int));
        assert(specs@.take(i + 1).last() == specs@[i as int]);
        validate_spec_at(specs, i, &mut report);
        i = i + 1;
    }
    assert(specs@.take(i as int) =~= specs@);
    report
}

} // verus!
