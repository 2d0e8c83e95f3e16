//! Spec language types and the version contract: spec files must declare one of
//! the supported versions exactly.
use vstd::prelude::*;

use crate::spec::config::TestBoundaryMode;
use crate::strset::{set_insert, strictly_sorted};
use crate::text::{owned, trim, trim_str, views};

verus! {

/// Array of supported spec language versions.
pub const SUPPORTED_SPEC_VERSIONS: [&'static str; 2] = ["2.2", "2.3"];

/// Legacy alias for single supported spec version.
pub const SUPPORTED_SPEC_VERSION: &'static str = "2.2";

/// Current spec language version used for scaffold generation.
pub const CURRENT_SPEC_VERSION: &'static str = "2.3";

/// Supported file extensions for contract files.
pub const CONTRACT_FILE_EXTENSIONS: [&'static str; 6] = [".json", ".yaml", ".yml", ".ts", ".zod", ".proto"];


/// A single `.spec.yml` file (one per module).
#[derive(Debug)]
pub struct SpecFile {
    /// Schema version.
    pub version: String,
    /// Module identifier, e.g. "api/orders", "ui/checkout".
    pub module: String,
    /// Optional package/workspace identifier.
    pub package: Option<String>,
    /// Canonical import identifier (preferred single ID).
    pub import_id: Option<String>,
    /// Canonical import aliases.
    pub import_ids: Vec<String>,
    /// Human-readable description.
    pub description: Option<String>,
    /// Module boundary policy.
    pub boundaries: Option<Boundaries>,
    /// Architectural constraints.
    pub constraints: Vec<Constraint>,
    /// Path to spec file on disk, set post-load.
    pub spec_path: Option<String>,
}

/// The trimmed, non-empty identifiers among `ids`.
pub open spec fn trimmed_nonempty(ids: Seq<Seq<char>>) -> Set<Seq<char>> {
    Set::new(|t: Seq<char>| t.len() > 0 && exists|i: int| 0 <= i < ids.len() && trim(ids[i]) == t)
}

/// The identifiers a spec declares: the primary id and the aliases.
pub open spec fn declared_import_ids(spec: &SpecFile) -> Seq<Seq<char>> {
    match spec.import_id {
        Some(p) => seq![p@] + views(spec.import_ids@),
        None => views(spec.import_ids@),
    }
}

impl SpecFile {
    /// Canonical import identifiers for this module: the primary id and the
    /// aliases, trimmed, without empty ones, sorted and deduplicated.
    pub fn canonical_import_ids(&self) -> (r: Vec<String>)
        ensures
            strictly_sorted(views(r@)),
            views(r@).to_set() == trimmed_nonempty(declared_import_ids(self)),
    {
        let ghost all = declared_import_ids(self);
        let mut ids: Vec<String> = Vec::new();
        let ghost mut seen: Seq<Seq<char>> = Seq::empty();
        let mut start: usize = 0;
        match &self.import_id {
            Some(primary) => {
                let trimmed = trim_str(primary.as_str());
                if trimmed.unicode_len() > 0 {
                    set_insert(&mut ids, owned(trimmed));
                }
                proof {
                    seen = seq![primary@];
                }
                assert(views(ids@).to_set() =~= trimmed_nonempty(seen)) by {
                    assert forall|t: Seq<char>| trimmed_nonempty(seen).contains(t) implies views(ids@).to_set().contains(t) by {
                        let i = choose|i: int| 0 <= i < seen.len() && trim(seen[i]) == t;
                        assert(i == 0);
                    }
                    assert forall|t: Seq<char>| views(ids@).to_set().contains(t) implies trimmed_nonempty(seen).contains(t) by {
                        assert(trim(seen[0]) == t);
                    }
                }
            },
            None => {
                assert(views(ids@).to_set() =~= trimmed_nonempty(seen));
            },
        }
        let ghost offset = seen.len();
        assert(all =~= seen + views(self.import_ids@));
        let mut k: usize = 0;
        while k < self.import_ids.len()
            invariant
                k <= self.import_ids@.len(),
                all == seen.take(offset as int) + views(self.import_ids@),
                offset <= 1,
                seen == all.take(offset + k),
                strictly_sorted(views(ids@)),
                views(ids@).to_set() == trimmed_nonempty(seen),
            decreases self.import_ids@.len() - k,
        {
            let alias = &self.import_ids[k];
            let trimmed = trim_str(alias.as_str());
            let ghost before = seen;
            let ghost next = all.take(offset + k + 1);
            assert(next =~= before.push(alias@));
            if trimmed.unicode_len() > 0 {
                set_insert(&mut ids, owned(trimmed));
            }
            assert(views(ids@).to_set() =~= trimmed_nonempty(next)) by {
                assert forall|t: Seq<char>| trimmed_nonempty(next).contains(t) implies views(ids@).to_set().contains(t) by {
                    let i = choose|i: int| 0 <= i < next.len() && trim(next[i]) == t;
                    if i < before.len() {
                        assert(trim(before[i]) == t);
                        assert(trimmed_nonempty(before).contains(t));
                    }
                }
                assert forall|t: Seq<char>| views(ids@).to_set().contains(t) implies trimmed_nonempty(next).contains(t) by {
                    if trimmed_nonempty(before).contains(t) {
                        let i = choose|i: int| 0 <= i < before.len() && trim(before[i]) == t;
                        assert(next[i] == before[i]);
                    } else {
                        assert(trim(next[before.len() as int]) == t);
                    }
                }
            }
            proof {
                seen = next;
            }
            k = k + 1;
        }
        assert(seen =~= all);
        ids
    }
}

/// Module boundary policy.
#[derive(Debug, Clone)]
pub struct Boundaries {
    /// Glob pattern for files belonging to this module.
    pub path: Option<String>,
    /// Public API entrypoint files.
    pub public_api: Vec<String>,
    /// Allowlist of modules this module may import from (`None`: no restriction).
    pub allow_imports_from: Option<Vec<String>>,
    /// Hard-deny list of modules this module may never import from.
    pub never_imports: Vec<String>,
    /// Type-only import carve-out allowlist.
    pub allow_type_imports_from: Vec<String>,
    /// Provider visibility gate. Defaults to public when omitted.
    pub visibility: Option<Visibility>,
    /// If non-empty, importer allowlist.
    pub allow_imported_by: Vec<String>,
    /// Hard-deny importers.
    pub deny_imported_by: Vec<String>,
    /// Internal visibility exceptions.
    pub friend_modules: Vec<String>,
    /// Enforce canonical imports for cross-module edges.
    pub enforce_canonical_imports: bool,
    pub allowed_dependencies: Vec<String>,
    pub forbidden_dependencies: Vec<String>,
    /// If true, boundary checks apply to test files.
    pub enforce_in_tests: bool,
    /// Boundary contracts defining cross-boundary data exchange.
    pub contracts: Vec<BoundaryContract>,
    /// Module-level import hygiene overrides.
    pub import_hygiene: Option<ModuleImportHygiene>,
}

/// A module's deep-import rule for packages matching `pattern`: allowed
/// outright, or limited to `max_depth` subpath segments.
#[derive(Debug, Clone, PartialEq, Eq)]
pub struct ModuleDenyDeepImportEntry {
    pub pattern: String,
    pub max_depth: Option<usize>,
    pub allow: bool,
}

/// A module's override of the test boundary mode.
#[derive(Debug, Clone, Copy, PartialEq, Eq)]
pub struct ModuleTestBoundaryOverride {
    pub mode: TestBoundaryMode,
}

/// Module-level import hygiene overrides.
#[derive(Debug, Clone, PartialEq, Eq)]
pub struct ModuleImportHygiene {
    pub deny_deep_imports: Vec<ModuleDenyDeepImportEntry>,
    pub test_boundary: Option<ModuleTestBoundaryOverride>,
}

impl Default for Boundaries {
    fn default() -> (r: Self)
        ensures
            r.path is None,
            r.public_api@.len() == 0,
            r.allow_imports_from is None,
            r.never_imports@.len() == 0,
            r.allow_type_imports_from@.len() == 0,
            r.visibility is None,
            r.allow_imported_by@.len() == 0,
            r.deny_imported_by@.len() == 0,
            r.friend_modules@.len() == 0,
            !r.enforce_canonical_imports,
            r.allowed_dependencies@.len() == 0,
            r.forbidden_dependencies@.len() == 0,
            !r.enforce_in_tests,
            r.contracts@.len() == 0,
            r.import_hygiene is None,
    {
        Boundaries {
            path: None,
            public_api: Vec::new(),
            allow_imports_from: None,
            never_imports: Vec::new(),
            allow_type_imports_from: Vec::new(),
            visibility: None,
            allow_imported_by: Vec::new(),
            deny_imported_by: Vec::new(),
            friend_modules: Vec::new(),
            enforce_canonical_imports: false,
            allowed_dependencies: Vec::new(),
            forbidden_dependencies: Vec::new(),
            enforce_in_tests: false,
            contracts: Vec::new(),
            import_hygiene: None,
        }
    }
}

impl Boundaries {
    /// Resolve configured visibility with default fallback.
    pub fn visibility_or_default(&self) -> (r: Visibility)
        ensures
            r == (match self.visibility {
                Some(v) => v,
                None => Visibility::Public,
            }),
    {
        match self.visibility {
            Some(v) => v,
            None => Visibility::Public,
        }
    }
}

/// Provider visibility.
#[derive(Debug, Clone, Copy, PartialEq, Eq, Structural)]
pub enum Visibility {
    Public,
    Internal,
    Private,
}

/// A JSON value as plain data: rule parameters as the spec file wrote them.
/// Object members keep the order in which they were read.
#[derive(Debug, PartialEq, Eq)]
pub enum JsonValue {
    Null,
    Bool(bool),
    Number(String),
    Str(String),
    Array(Vec<JsonValue>),
    Object(Vec<(String, JsonValue)>),
}

/// The shape of a JSON value as contracts describe it: null, a boolean, a
/// string, an array of strings, or something else.
pub ghost enum JsonShape {
    Null,
    Bool(bool),
    Text(Seq<char>),
    Texts(Seq<Seq<char>>),
    Other,
}

pub open spec fn json_text_of(v: JsonValue) -> Seq<char> {
    match v {
        JsonValue::Str(s) => s@,
        _ => Seq::empty(),
    }
}

/// The shape of a JSON value.
pub open spec fn json_shape(v: JsonValue) -> JsonShape {
    match v {
        JsonValue::Null => JsonShape::Null,
        JsonValue::Bool(b) => JsonShape::Bool(b),
        JsonValue::Str(s) => JsonShape::Text(s@),
        JsonValue::Array(items) => if forall|i: int| 0 <= i < items@.len() ==> (#[trigger] items@[i]) is Str {
            JsonShape::Texts(items@.map_values(|x: JsonValue| json_text_of(x)))
        } else {
            JsonShape::Other
        },
        _ => JsonShape::Other,
    }
}

pub open spec fn opt_json_shape(v: Option<JsonValue>) -> Option<JsonShape> {
    match v {
        Some(x) => Some(json_shape(x)),
        None => None,
    }
}

/// The value of the first member named `key`.
pub open spec fn member_lookup(members: Seq<(String, JsonValue)>, key: Seq<char>) -> Option<JsonValue>
    decreases members.len(),
{
    if members.len() == 0 {
        None
    } else if members[0].0@ == key {
        Some(members[0].1)
    } else {
        member_lookup(members.drop_first(), key)
    }
}

/// The member `key` of an object; `None` for other values.
pub open spec fn json_lookup(v: JsonValue, key: Seq<char>) -> Option<JsonValue> {
    match v {
        JsonValue::Object(m) => member_lookup(m@, key),
        _ => None,
    }
}

impl JsonValue {
    /// A copy of the value (every part copied; the contract speaks of its
    /// shape, the part of a value that change records keep).
    pub fn copy(&self) -> (r: Self)
        ensures
            json_shape(r) == json_shape(*self),
        decreases self,
    {
        match self {
            JsonValue::Null => JsonValue::Null,
            JsonValue::Bool(b) => JsonValue::Bool(*b),
            JsonValue::Number(n) => JsonValue::Number(n.clone()),
            JsonValue::Str(s) => JsonValue::Str(s.clone()),
            JsonValue::Array(items) => {
                let mut out: Vec<JsonValue> = Vec::new();
                let mut i: usize = 0;
                while i < items.len()
                    invariant
                        *self == JsonValue::Array(*items),
                        i <= items@.len(),
                        out@.len() == i,
                        forall|k: int| 0 <= k < i ==> json_shape(#[trigger] out@[k]) == json_shape(items@[k]),
                    decreases items@.len() - i,
                {
                    proof {
                        assert(decreases_to!(*self => (*self)->Array_0));
                        assert(decreases_to!((*self)->Array_0 => (*self)->Array_0@));
                        assert(decreases_to!(items@ => items@[i as int]));
                    }
                    let x = items[i].copy();
                    out.push(x);
                    i = i + 1;
                }
                let r = JsonValue::Array(out);
                assert forall|k: int| 0 <= k < out@.len() implies ((#[trigger] out@[k]) is Str <==> items@[k] is Str) && (
                out@[k] is Str ==> json_text_of(out@[k]) == json_text_of(items@[k])) by {
                    assert(json_shape(out@[k]) == json_shape(items@[k]));
                }
                proof {
                    if forall|k: int| 0 <= k < items@.len() ==> (#[trigger] items@[k]) is Str {
                        assert(out@.map_values(|x: JsonValue| json_text_of(x)) =~= items@.map_values(
                            |x: JsonValue| json_text_of(x),
                        ));
                    } else {
                        let k = choose|k: int| 0 <= k < items@.len() && !((#[trigger] items@[k]) is Str);
                        assert(!(out@[k] is Str));
                    }
                }
                r
            },
            JsonValue::Object(members) => {
                let mut out: Vec<(String, JsonValue)> = Vec::new();
                let mut i: usize = 0;
                while i < members.len()
                    invariant
                        *self == JsonValue::Object(*members),
                        i <= members@.len(),
                    decreases members@.len() - i,
                {
                    proof {
                        assert(decreases_to!(*self => (*self)->Object_0));
                        assert(decreases_to!((*self)->Object_0 => (*self)->Object_0@));
                        assert(decreases_to!(members@ => members@[i as int]));
                        assert(decreases_to!(members@[i as int] => members@[i as int].1));
                    }
                    let v = members[i].1.copy();
                    out.push((members[i].0.clone(), v));
                    i = i + 1;
                }
                JsonValue::Object(out)
            },
        }
    }

    /// The member `key` of an object (`None` when absent or not an object).
    pub fn get(&self, key: &str) -> (r: Option<&JsonValue>)
        ensures
            match r {
                Some(x) => json_lookup(*self, key@) == Some(*x),
                None => json_lookup(*self, key@) is None,
            },
    {
        match self {
            JsonValue::Object(members) => {
                let mut i: usize = 0;
                assert(members@.skip(0) =~= members@);
                while i < members.len()
                    invariant
                        *self == JsonValue::Object(*members),
                        i <= members@.len(),
                        json_lookup(*self, key@) == member_lookup(members@, key@),
                        member_lookup(members@, key@) == member_lookup(members@.skip(i as int), key@),
                    decreases members@.len() - i,
                {
                    let ghost rest = members@.skip(i as int);
                    assert(rest[0] == members@[i as int]);
                    if crate::text::str_eq(members[i].0.as_str(), key) {
                        assert(rest.len() > 0);
                        assert(member_lookup(rest, key@) == Some(rest[0].1));
                        return Some(&members[i].1);
                    }
                    assert(rest.drop_first() =~= members@.skip(i + 1));
                    i = i + 1;
                }
                None
            },
            _ => None,
        }
    }

    /// A JSON string.
    pub fn text(s: String) -> (r: Self)
        ensures
            json_shape(r) == JsonShape::Text(s@),
    {
        JsonValue::Str(s)
    }

    /// A JSON array of strings.
    pub fn texts(items: &Vec<String>) -> (r: Self)
        ensures
            json_shape(r) == JsonShape::Texts(crate::text::views(items@)),
    {
        let mut out: Vec<JsonValue> = Vec::new();
        let mut i: usize = 0;
        while i < items.len()
            invariant
                i <= items@.len(),
                out@.len() == i,
                forall|k: int| 0 <= k < i ==> (#[trigger] out@[k]) is Str && json_text_of(out@[k]) == items@[k]@,
            decreases items@.len() - i,
        {
            out.push(JsonValue::Str(items[i].clone()));
            i = i + 1;
        }
        let r = JsonValue::Array(out);
        assert(out@.map_values(|x: JsonValue| json_text_of(x)) =~= crate::text::views(items@));
        r
    }

    /// A JSON string, or null when absent.
    pub fn opt_text(s: Option<String>) -> (r: Self)
        ensures
            json_shape(r) == (match s {
                Some(t) => JsonShape::Text(t@),
                None => JsonShape::Null,
            }),
    {
        match s {
            Some(t) => JsonValue::Str(t),
            None => JsonValue::Null,
        }
    }

    /// The empty object, the parameters of a constraint that gives none.
    pub fn empty_object() -> (r: Self)
        ensures
            r matches JsonValue::Object(m) && m@.len() == 0,
    {
        JsonValue::Object(Vec::new())
    }
}

/// An architectural constraint declared by a spec.
#[derive(Debug, PartialEq, Eq)]
pub struct Constraint {
    /// Rule identifier.
    pub rule: String,
    /// Rule-specific parameters.
    pub params: JsonValue,
    /// Severity level.
    pub severity: Severity,
    /// Optional human-readable message.
    pub message: Option<String>,
}

/// Severity of a finding.
#[derive(Debug, Clone, Copy, PartialEq, Eq, Structural)]
pub enum Severity {
    Error,
    Warning,
}

impl Default for Severity {
    fn default() -> (r: Self)
        ensures
            r == Severity::Error,
    {
        Severity::Error
    }
}

/// Direction of contract flow for boundary contracts.
#[derive(Debug, Clone, Copy, PartialEq, Eq, Structural)]
pub enum ContractDirection {
    /// Contract applies to inbound (incoming) data.
    Inbound,
    /// Contract applies to outbound (outgoing) data.
    Outbound,
    /// Contract applies bidirectionally.
    Bidirectional,
}

impl Default for ContractDirection {
    fn default() -> (r: Self)
        ensures
            r == ContractDirection::Bidirectional,
    {
        ContractDirection::Bidirectional
    }
}

/// Envelope requirement for contract validation.
#[derive(Debug, Clone, Copy, PartialEq, Eq, Structural)]
pub enum EnvelopeRequirement {
    /// Envelope is optional (default).
    Optional,
    /// Envelope is required.
    Required,
}

impl Default for EnvelopeRequirement {
    fn default() -> (r: Self)
        ensures
            r == EnvelopeRequirement::Optional,
    {
        EnvelopeRequirement::Optional
    }
}

/// Contract matching pattern for boundary contracts.
#[derive(Debug, Clone, PartialEq)]
pub struct ContractMatch {
    /// Glob pattern for matching contract files.
    pub pattern: String,
    /// Optional file extensions filter (e.g., [".json", ".yaml"]).
    pub extensions: Option<Vec<String>>,
    /// Optional path prefix for matching.
    pub prefix: Option<String>,
}

impl Default for ContractMatch {
    fn default() -> (r: Self)
        ensures
            r.pattern@.len() == 0,
            r.extensions is None,
            r.prefix is None,
    {
        ContractMatch { pattern: String::new(), extensions: None, prefix: None }
    }
}

/// A boundary contract defining cross-boundary data exchange.
#[derive(Debug, Clone)]
pub struct BoundaryContract {
    /// Human-readable name for the contract.
    pub name: Option<String>,
    /// Description of the contract's purpose.
    pub description: Option<String>,
    /// Direction of contract flow.
    pub direction: ContractDirection,
    /// Matching pattern for contract files.
    pub contract_match: ContractMatch,
    /// Envelope requirement for contract validation.
    pub envelope: EnvelopeRequirement,
}

impl Default for BoundaryContract {
    fn default() -> (r: Self)
        ensures
            r.name is None,
            r.description is None,
            r.direction == ContractDirection::Bidirectional,
            r.contract_match.pattern@.len() == 0,
            r.contract_match.extensions is None,
            r.contract_match.prefix is None,
            r.envelope == EnvelopeRequirement::Optional,
    {
        BoundaryContract {
            name: None,
            description: None,
            direction: ContractDirection::Bidirectional,
            contract_match: ContractMatch::default(),
            envelope: EnvelopeRequirement::Optional,
        }
    }
}

} // verus!
