//! Project-level configuration (`specgate.config.yml`) and its defaults.
use vstd::prelude::*;

use crate::spec::types::Severity;
use crate::strset::{set_insert, strictly_sorted};
use crate::text::{
    after_last, after_last_char, has_prefix, owned, push_str, str_contains_char, str_starts_with,
    trim, trim_slashes, trim_slashes_str, trim_str, views,
};

verus! {

/// Structured deep import policy entry.
#[derive(Debug, Clone, PartialEq, Eq)]
pub struct DenyDeepImportEntry {
    pub pattern: String,
    pub max_depth: usize,
    pub severity: Option<Severity>,
}

impl DenyDeepImportEntry {
    /// The configured severity, warning when none is given.
    pub fn effective_severity(&self) -> (r: Severity)
        ensures
            r == (match self.severity {
                Some(s) => s,
                None => Severity::Warning,
            }),
    {
        match self.severity {
            Some(s) => s,
            None => Severity::Warning,
        }
    }
}

/// Which test/production boundary directions are enforced.
#[derive(Debug, Clone, Copy, PartialEq, Eq, Structural)]
pub enum TestBoundaryMode {
    Off,
    ProductionOnly,
    Bidirectional,
}

impl Default for TestBoundaryMode {
    fn default() -> (r: Self)
        ensures
            r == TestBoundaryMode::Off,
    {
        TestBoundaryMode::Off
    }
}

/// Import hygiene rules for catching common agent mistakes.
#[derive(Debug, Clone, PartialEq, Eq)]
pub struct ImportHygieneConfig {
    /// Deny deep imports into third-party packages.
    pub deny_deep_imports: Vec<DenyDeepImportEntry>,
    /// Test-production boundary enforcement.
    pub test_boundary: TestBoundaryConfig,
}

impl Default for ImportHygieneConfig {
    fn default() -> (r: Self)
        ensures
            r.deny_deep_imports@.len() == 0,
            !r.test_boundary.enabled,
            r.test_boundary.mode == TestBoundaryMode::Off,
            r.test_boundary.test_patterns@.len() == 0,
    {
        ImportHygieneConfig { deny_deep_imports: Vec::new(), test_boundary: TestBoundaryConfig::default() }
    }
}

/// Baseline-specific configuration.
#[derive(Debug, Clone, PartialEq, Eq, Default)]
pub struct BaselineConfig {
    /// When true, baseline metadata gaps fail auditing.
    pub require_metadata: bool,
}

/// Test-production boundary enforcement configuration.
#[derive(Debug, Clone, PartialEq, Eq)]
pub struct TestBoundaryConfig {
    /// Master enable switch for test boundary checks.
    pub enabled: bool,
    /// Which boundary directions are enforced when the rule is enabled.
    pub mode: TestBoundaryMode,
    /// Additional test file patterns beyond the global test_patterns.
    pub test_patterns: Vec<String>,
}

impl TestBoundaryConfig {
    /// The mode in force: the configured one when enabled, otherwise off.
    pub fn effective_mode(&self) -> (r: TestBoundaryMode)
        ensures
            r == (if self.enabled { self.mode } else { TestBoundaryMode::Off }),
    {
        if self.enabled {
            self.mode
        } else {
            TestBoundaryMode::Off
        }
    }

    /// Builds the configuration from its loosely written form: `enabled`
    /// defaults to the legacy `deny_production_imports` flag or to any mode
    /// other than off; `mode` defaults to production-only when enabled (or
    /// legacy-enabled) and to off otherwise.
    pub fn from_compat(
        enabled: Option<bool>,
        mode: Option<TestBoundaryMode>,
        test_patterns: Vec<String>,
        deny_production_imports: Option<bool>,
    ) -> (r: Self)
        ensures
            ({
                let legacy = deny_production_imports == Some(true);
                let on = match enabled {
                    Some(e) => e,
                    None => legacy || (mode is Some && mode != Some(TestBoundaryMode::Off)),
                };
                &&& r.enabled == on
                &&& r.mode == (match mode {
                    Some(m) => m,
                    None => if on || legacy {
                        TestBoundaryMode::ProductionOnly
                    } else {
                        TestBoundaryMode::Off
                    },
                })
                &&& r.test_patterns@ == test_patterns@
            }),
    {
        let legacy_enabled = match deny_production_imports {
            Some(v) => v,
            None => false,
        };
        let mode_on = match mode {
            Some(m) => m != TestBoundaryMode::Off,
            None => false,
        };
        let on = match enabled {
            Some(e) => e,
            None => legacy_enabled || mode_on,
        };
        let m = match mode {
            Some(m) => m,
            None => if on || legacy_enabled {
                TestBoundaryMode::ProductionOnly
            } else {
                TestBoundaryMode::Off
            },
        };
        TestBoundaryConfig { enabled: on, mode: m, test_patterns }
    }
}

impl Default for TestBoundaryConfig {
    fn default() -> (r: Self)
        ensures
            !r.enabled,
            r.mode == TestBoundaryMode::Off,
            r.test_patterns@.len() == 0,
    {
        TestBoundaryConfig { enabled: false, mode: TestBoundaryMode::Off, test_patterns: Vec::new() }
    }
}

/// Project-level configuration parsed from `specgate.config.yml`.
#[derive(Debug, Clone, PartialEq, Eq)]
pub struct SpecConfig {
    /// Directories to search for `.spec.yml` files.
    pub spec_dirs: Vec<String>,
    /// Glob patterns excluded from analysis and discovery.
    pub exclude: Vec<String>,
    /// Patterns treated as test files.
    pub test_patterns: Vec<String>,
    /// Directory names re-included when they also match the default excluded directory list.
    pub include_dirs: Vec<String>,
    /// Escape hatch governance settings.
    pub escape_hatches: EscapeHatchConfig,
    /// Baseline configuration and governance.
    pub baseline: BaselineConfig,
    /// `jest.mock` extraction mode.
    pub jest_mock_mode: JestMockMode,
    /// Policy for stale baseline entries discovered during check runs.
    pub stale_baseline: StaleBaselinePolicy,
    /// Release channel controls stable/beta behavior gates.
    pub release_channel: ReleaseChannel,
    /// Telemetry opt-in flag (disabled by default).
    pub telemetry: bool,
    /// Whether type-only imports are enforced by dependency and boundary policy rules.
    pub enforce_type_only_imports: bool,
    /// Filename of the TypeScript config file used for path resolution.
    pub tsconfig_filename: String,
    /// Envelope validation configuration for boundary contracts.
    pub envelope: EnvelopeConfig,
    /// Policy for unresolved import edges.
    pub unresolved_edge_policy: UnresolvedEdgePolicy,
    /// Import hygiene rules for catching common agent mistakes.
    pub import_hygiene: ImportHygieneConfig,
    /// When true, any ownership finding causes a non-zero exit code.
    pub strict_ownership: bool,
    /// How strictly ownership findings gate runs when strict ownership is enabled.
    pub strict_ownership_level: StrictOwnershipLevel,
}

/// Envelope validation settings for contract enforcement.
#[derive(Debug, Clone, PartialEq, Eq)]
pub struct EnvelopeConfig {
    /// Master switch to enable/disable envelope checking project-wide.
    pub enabled: bool,
    /// Package name(s) to look for in imports.
    pub import_patterns: Vec<String>,
    /// Call expression pattern to match (dot notation: "boundary.validate").
    pub function_pattern: String,
}

/// Escape hatch governance settings.
#[derive(Debug, Clone, Default, PartialEq, Eq)]
pub struct EscapeHatchConfig {
    /// Maximum newly introduced ignores in a diff (`None` means unlimited).
    pub max_new_per_diff: Option<usize>,
    /// Whether all ignores must carry an expiry date.
    pub require_expiry: bool,
}

/// `jest.mock` extraction mode.
#[derive(Debug, Clone, Copy, PartialEq, Eq, Structural)]
pub enum JestMockMode {
    Warn,
    Enforce,
}

impl Default for JestMockMode {
    fn default() -> (r: Self)
        ensures
            r == JestMockMode::Warn,
    {
        JestMockMode::Warn
    }
}

/// Policy for stale baseline entries.
#[derive(Debug, Clone, Copy, PartialEq, Eq, Structural)]
pub enum StaleBaselinePolicy {
    Warn,
    Fail,
}

impl Default for StaleBaselinePolicy {
    fn default() -> (r: Self)
        ensures
            r == StaleBaselinePolicy::Warn,
    {
        StaleBaselinePolicy::Warn
    }
}

impl StaleBaselinePolicy {
    /// The lowercase name of the policy.
    pub fn as_str(&self) -> (r: &'static str)
        ensures
            r@ == (match self {
                StaleBaselinePolicy::Warn => "warn"@,
                StaleBaselinePolicy::Fail => "fail"@,
            }),
    {
        match self {
            StaleBaselinePolicy::Warn => "warn",
            StaleBaselinePolicy::Fail => "fail",
        }
    }
}

/// Policy for unresolved import edges.
#[derive(Debug, Clone, Copy, PartialEq, Eq, Structural)]
pub enum UnresolvedEdgePolicy {
    Warn,
    Error,
    Ignore,
}

impl Default for UnresolvedEdgePolicy {
    fn default() -> (r: Self)
        ensures
            r == UnresolvedEdgePolicy::Warn,
    {
        UnresolvedEdgePolicy::Warn
    }
}

/// Release channel.
#[derive(Debug, Clone, Copy, PartialEq, Eq, Structural)]
pub enum ReleaseChannel {
    Stable,
    Beta,
}

impl Default for ReleaseChannel {
    fn default() -> (r: Self)
        ensures
            r == ReleaseChannel::Stable,
    {
        ReleaseChannel::Stable
    }
}

/// How strictly ownership findings gate runs.
#[derive(Debug, Clone, Copy, PartialEq, Eq, Structural)]
pub enum StrictOwnershipLevel {
    Errors,
    Warnings,
}

impl Default for StrictOwnershipLevel {
    fn default() -> (r: Self)
        ensures
            r == StrictOwnershipLevel::Errors,
    {
        StrictOwnershipLevel::Errors
    }
}

/// Directory names excluded from analysis by default.
pub const DEFAULT_EXCLUDED_DIRS: [&'static str; 8] = [
    "node_modules",
    "dist",
    "build",
    ".git",
    "generated",
    "target",
    "coverage",
    "vendor",
];

/// The default exclude globs: `**/{name}/**` for each default excluded directory.
pub open spec fn default_exclude_globs() -> Seq<Seq<char>> {
    seq![
        "**/node_modules/**"@,
        "**/dist/**"@,
        "**/build/**"@,
        "**/.git/**"@,
        "**/generated/**"@,
        "**/target/**"@,
        "**/coverage/**"@,
        "**/vendor/**"@,
    ]
}

/// The default test file patterns.
pub open spec fn default_test_globs() -> Seq<Seq<char>> {
    seq![
        "**/*.test.ts"@,
        "**/*.test.tsx"@,
        "**/*.spec.ts"@,
        "**/*.spec.tsx"@,
        "**/__tests__/**"@,
        "**/__mocks__/**"@,
    ]
}

fn strings_of(items: &[&str]) -> (r: Vec<String>)
    ensures
        views(r@) == items@.map_values(|s: &str| s@),
{
    let mut out: Vec<String> = Vec::new();
    let mut i: usize = 0;
    while i < items.len()
        invariant
            i <= items@.len(),
            views(out@) == items@.take(i as int).map_values(|s: &str| s@),
        decreases items@.len() - i,
    {
        let ghost before = views(out@);
        out.push(owned(items[i]));
        assert(views(out@) =~= before.push(items@[i as int]@));
        assert(items@.take(i + 1).map_values(|s: &str| s@) =~= items@.take(i as int).map_values(
            |s: &str| s@,
        ).push(items@[i as int]@));
        i = i + 1;
    }
    assert(items@.take(i as int) =~= items@);
    out
}

fn default_excludes() -> (r: Vec<String>)
    ensures
        views(r@) == default_exclude_globs(),
{
    let items: [&str; 8] = [
        "**/node_modules/**",
        "**/dist/**",
        "**/build/**",
        "**/.git/**",
        "**/generated/**",
        "**/target/**",
        "**/coverage/**",
        "**/vendor/**",
    ];
    let r = strings_of(items.as_slice());
    assert(views(r@) =~= default_exclude_globs());
    r
}

fn default_test_patterns() -> (r: Vec<String>)
    ensures
        views(r@) == default_test_globs(),
{
    let items: [&str; 6] = [
        "**/*.test.ts",
        "**/*.test.tsx",
        "**/*.spec.ts",
        "**/*.spec.tsx",
        "**/__tests__/**",
        "**/__mocks__/**",
    ];
    let r = strings_of(items.as_slice());
    assert(views(r@) =~= default_test_globs());
    r
}

impl Default for EnvelopeConfig {
    fn default() -> (r: Self)
        ensures
            r.enabled,
            views(r.import_patterns@) == seq!["specgate-envelope"@],
            r.function_pattern@ == "boundary.validate"@,
    {
        let mut import_patterns: Vec<String> = Vec::new();
        import_patterns.push(owned("specgate-envelope"));
        assert(views(import_patterns@) =~= seq!["specgate-envelope"@]);
        EnvelopeConfig { enabled: true, import_patterns, function_pattern: owned("boundary.validate") }
    }
}

impl Default for SpecConfig {
    fn default() -> (r: Self)
        ensures
            views(r.spec_dirs@) == seq!["."@],
            views(r.exclude@) == default_exclude_globs(),
            views(r.test_patterns@) == default_test_globs(),
            r.include_dirs@.len() == 0,
            r.escape_hatches.max_new_per_diff is None,
            !r.escape_hatches.require_expiry,
            !r.baseline.require_metadata,
            r.jest_mock_mode == JestMockMode::Warn,
            r.stale_baseline == StaleBaselinePolicy::Warn,
            r.release_channel == ReleaseChannel::Stable,
            !r.telemetry,
            !r.enforce_type_only_imports,
            r.tsconfig_filename@ == "tsconfig.json"@,
            r.envelope.enabled,
            views(r.envelope.import_patterns@) == seq!["specgate-envelope"@],
            r.envelope.function_pattern@ == "boundary.validate"@,
            r.unresolved_edge_policy == UnresolvedEdgePolicy::Warn,
            r.import_hygiene.deny_deep_imports@.len() == 0,
            !r.import_hygiene.test_boundary.enabled,
            r.import_hygiene.test_boundary.mode == TestBoundaryMode::Off,
            r.import_hygiene.test_boundary.test_patterns@.len() == 0,
            !r.strict_ownership,
            r.strict_ownership_level == StrictOwnershipLevel::Errors,
    {
        let mut spec_dirs: Vec<String> = Vec::new();
        spec_dirs.push(owned("."));
        assert(views(spec_dirs@) =~= seq!["."@]);
        SpecConfig {
            spec_dirs,
            exclude: default_excludes(),
            test_patterns: default_test_patterns(),
            include_dirs: Vec::new(),
            escape_hatches: EscapeHatchConfig { max_new_per_diff: None, require_expiry: false },
            baseline: BaselineConfig { require_metadata: false },
            jest_mock_mode: JestMockMode::Warn,
            stale_baseline: StaleBaselinePolicy::Warn,
            release_channel: ReleaseChannel::Stable,
            telemetry: false,
            enforce_type_only_imports: false,
            tsconfig_filename: owned("tsconfig.json"),
            envelope: EnvelopeConfig::default(),
            unresolved_edge_policy: UnresolvedEdgePolicy::Warn,
            import_hygiene: ImportHygieneConfig::default(),
            strict_ownership: false,
            strict_ownership_level: StrictOwnershipLevel::Errors,
        }
    }
}

/// The directory name a configured entry denotes: surrounding whitespace and
/// slashes removed, then the last `/`-separated segment; `None` when empty.
pub open spec fn dir_token(raw: Seq<char>) -> Option<Seq<char>> {
    let normalized = trim(trim_slashes(trim(raw)));
    if normalized.len() == 0 {
        None
    } else {
        let token = after_last(normalized, '/');
        if token.len() == 0 {
            None
        } else {
            Some(token)
        }
    }
}

/// Normalizes a directory entry to its final name (see `dir_token`).
pub fn normalize_dir_token(raw: &str) -> (r: Option<String>)
    ensures
        match r {
            Some(t) => dir_token(raw@) == Some(t@),
            None => dir_token(raw@) is None,
        },
{
    let normalized = trim_str(trim_slashes_str(trim_str(raw)));
    if normalized.unicode_len() == 0 {
        return None;
    }
    let token = after_last_char(normalized, '/');
    if token.unicode_len() == 0 {
        return None;
    }
    Some(owned(token))
}

/// The directory names denoted by the entries of `include_dirs`.
pub open spec fn include_dir_names(include_dirs: Seq<Seq<char>>) -> Set<Seq<char>> {
    Set::new(
        |t: Seq<char>|
            exists|i: int| 0 <= i < include_dirs.len() && dir_token(include_dirs[i]) == Some(t),
    )
}

/// The set of directory names re-included by configuration, sorted.
pub fn include_dir_set(include_dirs: &[String]) -> (r: Vec<String>)
    ensures
        strictly_sorted(views(r@)),
        views(r@).to_set() == include_dir_names(views(include_dirs@)),
{
    let ghost all = views(include_dirs@);
    let mut out: Vec<String> = Vec::new();
    let mut i: usize = 0;
    assert(views(out@).to_set() =~= include_dir_names(all.take(0)));
    while i < include_dirs.len()
        invariant
            all == views(include_dirs@),
            i <= include_dirs@.len(),
            strictly_sorted(views(out@)),
            views(out@).to_set() == include_dir_names(all.take(i as int)),
        decreases include_dirs@.len() - i,
    {
        let ghost prev = all.take(i as int);
        let ghost next = all.take(i + 1);
        assert(next =~= prev.push(include_dirs@[i as int]@));
        let tok = normalize_dir_token(include_dirs[i].as_str());
        match tok {
            Some(t) => {
                set_insert(&mut out, t);
            },
            None => {},
        }
        assert(views(out@).to_set() =~= include_dir_names(next)) by {
            assert forall|t: Seq<char>| include_dir_names(next).contains(t) implies views(out@).to_set().contains(t) by {
                let j = choose|j: int| 0 <= j < next.len() && dir_token(next[j]) == Some(t);
                if j < prev.len() {
                    assert(dir_token(prev[j]) == Some(t));
                    assert(include_dir_names(prev).contains(t));
                }
            }
            assert forall|t: Seq<char>| views(out@).to_set().contains(t) implies include_dir_names(next).contains(t) by {
                if include_dir_names(prev).contains(t) {
                    let j = choose|j: int| 0 <= j < prev.len() && dir_token(prev[j]) == Some(t);
                    assert(next[j] == prev[j]);
                } else {
                    assert(dir_token(next[i as int]) == Some(t));
                }
            }
        }
        i = i + 1;
    }
    assert(all.take(i as int) =~= all);
    out
}

/// Why a tsconfig filename is rejected, if it is.
pub open spec fn tsconfig_filename_error(name: Seq<char>) -> Option<Seq<char>> {
    if name.len() == 0 {
        Some("tsconfig_filename must not be empty"@)
    } else if has_prefix(name, ".."@) {
        Some("tsconfig_filename must not use path traversal: got '"@ + name + "'"@)
    } else if name.contains('/') || name.contains('\\') {
        Some(
            "tsconfig_filename must be a plain filename (no path separators): got '"@ + name
                + "'"@,
        )
    } else {
        None
    }
}

impl SpecConfig {
    /// Validate config fields that cannot be checked at deserialization time:
    /// the tsconfig filename must be a plain, non-empty file name.
    pub fn validate(&self) -> (r: Result<(), String>)
        ensures
            match r {
                Ok(()) => tsconfig_filename_error(self.tsconfig_filename@) is None,
                Err(m) => tsconfig_filename_error(self.tsconfig_filename@) == Some(m@),
            },
    {
        let name = self.tsconfig_filename.as_str();
        if name.unicode_len() == 0 {
            return Err(owned("tsconfig_filename must not be empty"));
        }
        if str_starts_with(name, "..") {
            let mut m = owned("tsconfig_filename must not use path traversal: got '");
            push_str(&mut m, name);
            push_str(&mut m, "'");
            return Err(m);
        }
        if str_contains_char(name, '/') || str_contains_char(name, '\\') {
            let mut m = owned("tsconfig_filename must be a plain filename (no path separators): got '");
            push_str(&mut m, name);
            push_str(&mut m, "'");
            return Err(m);
        }
        Ok(())
    }
}

} // verus!
