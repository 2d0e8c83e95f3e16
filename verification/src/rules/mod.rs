//! Rule engines: shared violation type, deterministic ordering and the
//! module-id grouping convention.
use vstd::prelude::*;

pub mod boundary;
pub mod categories;
pub mod circular;
pub mod contracts;
pub mod dependencies;
pub mod envelope;
pub mod hygiene;
pub mod layers;
pub mod unique_export;

use crate::order::{
    comps_order, int_order, lemma_comps_order_facts, lemma_int_order_facts, lemma_opt_comps_order_facts,
    lemma_opt_int_order_facts, lemma_opt_seq_order_facts, lemma_seq_order_facts, opt_comps_order,
    opt_components, opt_int_order, opt_path_compare, opt_seq_order, opt_str_order, opt_u32_order,
    path_compare, sort_by_key, sorted_by_key, then, u8_order, KeyOrdered,
};
use crate::glob::{
    all_globs_parse, build_globset, glob_new_error, glob_new_error_text, globset_build_error, globset_matches,
    globset_literal, globset_patterns, globset_set_is_match,
};
use crate::graph::DependencyGraph;
use crate::paths::{normalize_repo_relative, path_components, repo_relative};
use crate::spec::config::SpecConfig;
use crate::spec::types::SpecFile;
use crate::policy::types::opt_view;
use crate::spec::Severity;
use crate::text::{copy_strings, find_char, owned, push_str, seq_order, slice_chars, split_on, str_order, trim, trim_str, views};

verus! {

/// Rule violation emitted by the rule engine.
#[derive(Debug, Clone, PartialEq, Eq)]
pub struct RuleViolation {
    pub rule: String,
    pub severity: Option<Severity>,
    pub message: String,
    pub from_file: String,
    pub to_file: Option<String>,
    pub from_module: Option<String>,
    pub to_module: Option<String>,
    pub line: Option<u32>,
    pub column: Option<u32>,
}

/// A rule violation as plain values: (rule, severity, message), (source
/// file, target file, source module, target module), (line, column).
pub type RuleViolationModel = (
    (Seq<char>, Option<Severity>, Seq<char>),
    (Seq<char>, Option<Seq<char>>, Option<Seq<char>>, Option<Seq<char>>),
    (Option<u32>, Option<u32>),
);

pub open spec fn rule_violation_model(v: RuleViolation) -> RuleViolationModel {
    (
        (v.rule@, v.severity, v.message@),
        (v.from_file@, opt_view(v.to_file), opt_view(v.from_module), opt_view(v.to_module)),
        (v.line, v.column),
    )
}

pub open spec fn rule_violation_models(v: Seq<RuleViolation>) -> Seq<RuleViolationModel> {
    v.map_values(|x: RuleViolation| rule_violation_model(x))
}

/// Shared evaluation context passed into rules.
pub struct RuleContext<'a> {
    pub project_root: &'a str,
    pub config: &'a SpecConfig,
    pub specs: &'a [SpecFile],
    pub graph: &'a DependencyGraph,
}

/// Why a list of glob patterns could not be compiled into a set.
#[derive(Debug, Clone, PartialEq, Eq)]
pub enum GlobCompileError {
    /// A pattern does not parse; `message` is the parser's error text.
    InvalidPattern { pattern: String, message: String },
    /// The patterns parse but the set cannot be built.
    Build { message: String },
}

/// A non-empty list of glob patterns and the glob set built from them.
#[derive(Debug)]
pub struct CompiledGlobSet {
    pub patterns: Vec<String>,
    pub set: globset::GlobSet,
}

/// The first pattern that does not parse, with the parser's error text.
pub open spec fn first_glob_error(ps: Seq<Seq<char>>) -> Option<(Seq<char>, Seq<char>)>
    decreases ps.len(),
{
    if ps.len() == 0 {
        None
    } else {
        match glob_new_error(ps[0]) {
            Some(m) => Some((ps[0], m)),
            None => first_glob_error(ps.drop_first()),
        }
    }
}

/// The patterns compile into a glob set.
pub open spec fn compiles(ps: Seq<Seq<char>>) -> bool {
    ps.len() > 0 && all_globs_parse(ps) && globset_build_error(ps) is None
}

/// What compiling a list of patterns gives: no set for no patterns, the
/// first pattern that does not parse with its error, the build error, or
/// the set of the patterns.
pub open spec fn glob_compile_outcome(ps: Seq<Seq<char>>) -> Result<
    Option<Seq<Seq<char>>>,
    (Option<Seq<char>>, Seq<char>),
> {
    if ps.len() == 0 {
        Ok(None)
    } else {
        match first_glob_error(ps) {
            Some((p, m)) => Err((Some(p), m)),
            None => match globset_build_error(ps) {
                Some(m) => Err((None, m)),
                None => Ok(Some(ps)),
            },
        }
    }
}

pub open spec fn glob_compile_model(r: Result<Option<CompiledGlobSet>, GlobCompileError>) -> Result<
    Option<Seq<Seq<char>>>,
    (Option<Seq<char>>, Seq<char>),
> {
    match r {
        Ok(None) => Ok(None),
        Ok(Some(set)) => Ok(Some(views(set.patterns@))),
        Err(GlobCompileError::InvalidPattern { pattern, message }) => Err((Some(pattern@), message@)),
        Err(GlobCompileError::Build { message }) => Err((None, message@)),
    }
}

proof fn lemma_first_glob_error_none(ps: Seq<Seq<char>>)
    requires
        first_glob_error(ps) is None,
    ensures
        all_globs_parse(ps),
    decreases ps.len(),
{
    if ps.len() > 0 {
        lemma_first_glob_error_none(ps.drop_first());
        assert forall|i: int| 0 <= i < ps.len() implies glob_new_error(#[trigger] ps[i]) is None by {
            if i > 0 {
                assert(ps[i] == ps.drop_first()[i - 1]);
            }
        }
    }
}

proof fn lemma_all_parse_no_first_error(ps: Seq<Seq<char>>)
    requires
        all_globs_parse(ps),
    ensures
        first_glob_error(ps) is None,
    decreases ps.len(),
{
    if ps.len() > 0 {
        assert(glob_new_error(ps[0]) is None);
        assert forall|i: int| 0 <= i < ps.drop_first().len() implies glob_new_error(
            #[trigger] ps.drop_first()[i],
        ) is None by {
            assert(ps.drop_first()[i] == ps[i + 1]);
        }
        lemma_all_parse_no_first_error(ps.drop_first());
    }
}

/// A compilation that fails leaves no set.
pub proof fn lemma_failed_compile_does_not_compile(ps: Seq<Seq<char>>)
    requires
        glob_compile_outcome(ps) is Err,
    ensures
        !compiles(ps),
{
    if compiles(ps) {
        lemma_all_parse_no_first_error(ps);
    }
}

/// Appends a violation.
pub fn push_violation(violations: &mut Vec<RuleViolation>, v: RuleViolation)
    ensures
        rule_violation_models(final(violations)@) == rule_violation_models(old(violations)@).push(
            rule_violation_model(v),
        ),
{
    let ghost before = violations@;
    violations.push(v);
    assert(rule_violation_models(violations@) =~= rule_violation_models(before).push(rule_violation_model(v)));
}

/// Compiles glob patterns into a set: `None` for no patterns, an error for
/// the first pattern that does not parse or when the set cannot be built.
pub fn compile_optional_globset_strict(patterns: &Vec<String>) -> (r: Result<Option<CompiledGlobSet>, GlobCompileError>)
    ensures
        glob_compile_model(r) == glob_compile_outcome(views(patterns@)),
        r matches Ok(Some(set)) ==> set.ready(),
{
    let ghost ps = views(patterns@);
    if patterns.len() == 0 {
        return Ok(None);
    }
    let mut i: usize = 0;
    assert(ps.skip(0) =~= ps);
    while i < patterns.len()
        invariant
            i <= patterns@.len(),
            ps == views(patterns@),
            first_glob_error(ps) == first_glob_error(ps.skip(i as int)),
        decreases patterns@.len() - i,
    {
        let ghost rest = ps.skip(i as int);
        assert(rest[0] == patterns@[i as int]@);
        match glob_new_error_text(patterns[i].as_str()) {
            Some(message) => {
                return Err(GlobCompileError::InvalidPattern { pattern: patterns[i].clone(), message });
            },
            None => {},
        }
        assert(rest.drop_first() =~= ps.skip(i + 1));
        i = i + 1;
    }
    assert(ps.skip(i as int) =~= Seq::<Seq<char>>::empty());
    proof {
        lemma_first_glob_error_none(ps);
    }
    match build_globset(patterns) {
        Err(message) => Err(GlobCompileError::Build { message }),
        Ok(set) => Ok(Some(CompiledGlobSet { patterns: copy_strings(patterns.as_slice()), set })),
    }
}

impl CompiledGlobSet {
    /// The patterns compile, and the set is the one built from them.
    pub open spec fn ready(self) -> bool {
        compiles(views(self.patterns@)) && globset_patterns(self.set) == views(self.patterns@) && !globset_literal(
            self.set,
        )
    }

    /// Whether any pattern of the set matches `path`.
    pub fn is_match(&self, path: &str) -> (r: bool)
        requires
            self.ready(),
        ensures
            r == globset_matches(views(self.patterns@), path@),
    {
        globset_set_is_match(&self.set, path)
    }
}

/// The error text of a failed glob compilation.
pub open spec fn glob_error_text(e: GlobCompileError) -> Seq<char> {
    match e {
        GlobCompileError::InvalidPattern { pattern, message } => "'"@ + pattern@ + "' ("@ + message@ + ")"@,
        GlobCompileError::Build { message } => "<globset> ("@ + message@ + ")"@,
    }
}

pub fn render_glob_error(error: &GlobCompileError) -> (r: String)
    ensures
        r@ == glob_error_text(*error),
{
    match error {
        GlobCompileError::InvalidPattern { pattern, message } => {
            let mut s = owned("'");
            push_str(&mut s, pattern.as_str());
            push_str(&mut s, "' (");
            push_str(&mut s, message.as_str());
            push_str(&mut s, ")");
            s
        },
        GlobCompileError::Build { message } => {
            let mut s = owned("<globset> (");
            push_str(&mut s, message.as_str());
            push_str(&mut s, ")");
            s
        },
    }
}

/// Whether `file`, taken relative to the project root, is a test file.
pub open spec fn is_test_file(root: Seq<char>, file: Seq<char>, patterns: Option<Seq<Seq<char>>>) -> bool {
    match patterns {
        Some(ps) => globset_matches(ps, repo_relative(root, file)),
        None => false,
    }
}

/// Whether `file`, taken relative to `project_root`, matches the test globs.
pub fn matches_test_file(project_root: &str, file: &str, test_matcher: Option<&CompiledGlobSet>) -> (r: bool)
    requires
        test_matcher matches Some(m) ==> m.ready(),
    ensures
        r == is_test_file(
            project_root@,
            file@,
            match test_matcher {
                Some(m) => Some(views(m.patterns@)),
                None => None,
            },
        ),
{
    match test_matcher {
        Some(m) => {
            let relative = normalize_repo_relative(project_root, file);
            m.is_match(relative.as_str())
        },
        None => false,
    }
}

/// Errors first, then warnings, then unset severities.
pub open spec fn severity_sort_rank(severity: Option<Severity>) -> int {
    match severity {
        Some(Severity::Error) => 0,
        Some(Severity::Warning) => 1,
        None => 2,
    }
}

fn severity_sort_rank_exec(severity: Option<Severity>) -> (r: u8)
    ensures
        r as int == severity_sort_rank(severity),
{
    match severity {
        Some(Severity::Error) => 0,
        Some(Severity::Warning) => 1,
        None => 2,
    }
}

pub open spec fn opt_u32_view(o: Option<u32>) -> Option<int> {
    match o {
        Some(x) => Some(x as int),
        None => None,
    }
}

impl KeyOrdered for RuleViolation {
    /// By source file (as a path), line, column, target file, source module,
    /// target module, severity rank, rule, message.
    open spec fn key_order(a: Self, b: Self) -> int {
        then(
            comps_order(path_components(a.from_file@), path_components(b.from_file@)),
            then(
                opt_int_order(opt_u32_view(a.line), opt_u32_view(b.line)),
                then(
                    opt_int_order(opt_u32_view(a.column), opt_u32_view(b.column)),
                    then(
                        opt_comps_order(opt_components(opt_view(a.to_file)), opt_components(opt_view(b.to_file))),
                        then(
                            opt_seq_order(opt_view(a.from_module), opt_view(b.from_module)),
                            then(
                                opt_seq_order(opt_view(a.to_module), opt_view(b.to_module)),
                                then(
                                    int_order(severity_sort_rank(a.severity), severity_sort_rank(b.severity)),
                                    then(seq_order(a.rule@, b.rule@), seq_order(a.message@, b.message@)),
                                ),
                            ),
                        ),
                    ),
                ),
            ),
        )
    }

    proof fn lemma_key_order(a: Self, b: Self, c: Self) {
        lemma_comps_order_facts(
            path_components(a.from_file@),
            path_components(b.from_file@),
            path_components(c.from_file@),
        );
        lemma_opt_int_order_facts(opt_u32_view(a.line), opt_u32_view(b.line), opt_u32_view(c.line));
        lemma_opt_int_order_facts(opt_u32_view(a.column), opt_u32_view(b.column), opt_u32_view(c.column));
        lemma_opt_comps_order_facts(
            opt_components(opt_view(a.to_file)),
            opt_components(opt_view(b.to_file)),
            opt_components(opt_view(c.to_file)),
        );
        lemma_opt_seq_order_facts(opt_view(a.from_module), opt_view(b.from_module), opt_view(c.from_module));
        lemma_opt_seq_order_facts(opt_view(a.to_module), opt_view(b.to_module), opt_view(c.to_module));
        lemma_int_order_facts(
            severity_sort_rank(a.severity),
            severity_sort_rank(b.severity),
            severity_sort_rank(c.severity),
        );
        lemma_seq_order_facts(a.rule@, b.rule@, c.rule@);
        lemma_seq_order_facts(a.message@, b.message@, c.message@);
    }

    fn key_compare(&self, other: &Self) -> (r: i8) {
        let o = path_compare(self.from_file.as_str(), other.from_file.as_str());
        if o != 0 {
            return o;
        }
        let o = opt_u32_order(self.line, other.line);
        if o != 0 {
            return o;
        }
        let o = opt_u32_order(self.column, other.column);
        if o != 0 {
            return o;
        }
        let o = opt_path_compare(&self.to_file, &other.to_file);
        if o != 0 {
            return o;
        }
        let o = opt_str_order(&self.from_module, &other.from_module);
        if o != 0 {
            return o;
        }
        let o = opt_str_order(&self.to_module, &other.to_module);
        if o != 0 {
            return o;
        }
        let o = u8_order(severity_sort_rank_exec(self.severity), severity_sort_rank_exec(other.severity));
        if o != 0 {
            return o;
        }
        let o = str_order(self.rule.as_str(), other.rule.as_str());
        if o != 0 {
            return o;
        }
        str_order(self.message.as_str(), other.message.as_str())
    }
}

/// Sorts violations deterministically (see `RuleViolation::key_order`).
pub fn sort_violations_stable(violations: &mut Vec<RuleViolation>)
    ensures
        sorted_by_key(final(violations)@),
        final(violations)@.to_multiset() == old(violations)@.to_multiset(),
{
    sort_by_key(violations);
}

/// The first segment whose trimmed text is non-empty.
pub open spec fn first_nonblank(segs: Seq<Seq<char>>) -> Option<Seq<char>>
    decreases segs.len(),
{
    if segs.len() == 0 {
        None
    } else if trim(segs[0]).len() > 0 {
        Some(segs[0])
    } else {
        first_nonblank(segs.drop_first())
    }
}

/// The group of a module id: its first non-blank `/`-delimited segment
/// (untrimmed).
pub open spec fn module_group(module_id: Seq<char>) -> Option<Seq<char>> {
    first_nonblank(split_on(module_id, '/'))
}

/// The first non-blank `/`-delimited segment of a module id.
pub fn module_group_segment(module_id: &str) -> (r: Option<&str>)
    ensures
        match r {
            Some(seg) => module_group(module_id@) == Some(seg@),
            None => module_group(module_id@) is None,
        },
{
    let n = module_id.unicode_len();
    let mut off: usize = 0;
    assert(module_id@.skip(0) =~= module_id@);
    loop
        invariant
            n == module_id@.len(),
            off <= n,
            module_group(module_id@) == first_nonblank(split_on(module_id@.skip(off as int), '/')),
        decreases n - off,
    {
        let rest = slice_chars(module_id, off, n);
        assert(rest@ =~= module_id@.skip(off as int));
        proof {
            crate::text::lemma_index_of(rest@, '/');
        }
        match find_char(rest, '/') {
            None => {
                let seg = rest;
                assert(split_on(rest@, '/') == seq![rest@]);
                if trim_str(seg).unicode_len() > 0 {
                    return Some(seg);
                } else {
                    assert(seq![rest@].drop_first() =~= Seq::<Seq<char>>::empty());
                    assert(first_nonblank(Seq::<Seq<char>>::empty()) is None);
                    return None;
                }
            },
            Some(i) => {
                let seg = slice_chars(module_id, off, off + i);
                assert(seg@ =~= rest@.take(i as int));
                let ghost tail = split_on(rest@.skip(i + 1), '/');
                assert(split_on(rest@, '/') == seq![rest@.take(i as int)] + tail);
                assert((seq![rest@.take(i as int)] + tail).drop_first() =~= tail);
                assert((seq![rest@.take(i as int)] + tail)[0] == rest@.take(i as int));
                if trim_str(seg).unicode_len() > 0 {
                    return Some(seg);
                }
                assert(rest@.skip(i + 1) =~= module_id@.skip(off + i + 1));
                off = off + i + 1;
            },
        }
    }
}

/// An element of `a` is an element of any `b` with the same elements.
pub(crate) proof fn lemma_same_elements<T>(a: Seq<T>, b: Seq<T>, i: int) -> (k: int)
    requires
        a.to_multiset() == b.to_multiset(),
        0 <= i < a.len(),
    ensures
        0 <= k < b.len(),
        b[k] == a[i],
{
    a.to_multiset_ensures();
    b.to_multiset_ensures();
    assert(a.contains(a[i]));
    assert(a.to_multiset().count(a[i]) > 0);
    assert(b.to_multiset().count(a[i]) > 0);
    assert(b.contains(a[i]));
    choose|k: int| 0 <= k < b.len() && b[k] == a[i]
}
} // verus!
