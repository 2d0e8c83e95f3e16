//! Workspace package discovery: the package patterns that `pnpm-workspace.yaml`
//! and the `workspaces` field of `package.json` declare, expanded against the
//! directories found under the project root.
//!
//! Reading the two files and walking the directories is the caller's part:
//! `workspace_walk_plans` says which walks to make, and the caller hands the
//! directories it found back in `WorkspaceSources::dirs`.
use vstd::prelude::*;

use crate::glob::{path_glob_build_error, path_glob_error, path_glob_matches, PathGlob};
use crate::paths::{forward_slashes, normalize_path};
use crate::paths::strings_contain;
use crate::spec::config::{include_dir_names, include_dir_set, SpecConfig};
use crate::spec::types::{json_lookup, json_text_of, member_lookup, JsonValue};
use crate::policy::config_diff::lemma_push_to_set;
use crate::strset::{lemma_sorted_seq_of, set_insert, sorted_seq_of, strictly_sorted};
use crate::text::{
    after_last, after_last_char, contains_text, seq_order, find_char, split_char, split_on, has_prefix, index_of, lemma_index_of, owned, push_char, push_str,
    slice_chars, str_contains, str_contains_char, str_starts_with, strip_all, strip_all_exec, trim,
    trim_str, views,
};

verus! {

/// A workspace package found under the project root.
#[derive(Debug, Clone, PartialEq, Eq)]
pub struct WorkspacePackage {
    /// The module name given to the package.
    pub module: String,
    /// The package directory, relative to the project root.
    pub relative_dir: String,
    /// The glob of the package's files.
    pub module_glob: String,
}

/// A package as contracts describe it: module, directory and file glob.
pub ghost struct PackageView {
    pub module: Seq<char>,
    pub relative_dir: Seq<char>,
    pub module_glob: Seq<char>,
}

impl View for WorkspacePackage {
    type V = PackageView;

    open spec fn view(&self) -> PackageView {
        PackageView {
            module: self.module@,
            relative_dir: self.relative_dir@,
            module_glob: self.module_glob@,
        }
    }
}

pub open spec fn package_views(v: Seq<WorkspacePackage>) -> Seq<PackageView> {
    v.map_values(|p: WorkspacePackage| p@)
}

/// What reading a workspace file gave.
#[derive(Debug)]
pub enum SourceFile<T> {
    /// There is no such file.
    Absent,
    /// The file exists but could not be read as text.
    Unreadable,
    /// The file was read but does not parse; the parser's message.
    Malformed(String),
    /// The file's parsed contents.
    Parsed(T),
}

/// A directory under the project root, with the facts discovery needs.
#[derive(Debug, Clone)]
pub struct WorkspaceDir {
    /// The directory relative to the project root, with forward slashes.
    pub relative_dir: String,
    /// A directory walk (which does not follow links) reported it as a directory.
    pub walked: bool,
    /// It holds a `package.json`.
    pub has_package_json: bool,
    /// It holds a `src` directory.
    pub has_src_dir: bool,
}

/// The inputs of workspace discovery.
#[derive(Debug)]
pub struct WorkspaceSources {
    /// The `packages` list of `pnpm-workspace.yaml`.
    pub pnpm_workspace: SourceFile<Vec<String>>,
    /// The parsed `package.json` of the project root.
    pub package_json: SourceFile<JsonValue>,
    /// Every directory that the walks of `workspace_walk_plans` found, and every
    /// literal pattern's directory that exists.
    pub dirs: Vec<WorkspaceDir>,
}

/// Why workspace discovery failed.
#[derive(Debug, Clone, PartialEq, Eq)]
pub enum WorkspaceError {
    /// `pnpm-workspace.yaml` does not parse.
    YamlParse { path: String, message: String },
    /// `package.json` does not parse.
    JsonParse { path: String, message: String },
    /// The `workspaces` field of `package.json` has the wrong shape.
    ConfigInvalid { path: String, message: String },
    /// A workspace pattern is not a valid glob.
    GlobInvalid { path: String, pattern: String, message: String },
}

/// A workspace error as contracts describe it.
pub ghost enum WorkspaceIssue {
    YamlParse { path: Seq<char>, message: Seq<char> },
    JsonParse { path: Seq<char>, message: Seq<char> },
    ConfigInvalid { path: Seq<char>, message: Seq<char> },
    GlobInvalid { path: Seq<char>, pattern: Seq<char>, message: Seq<char> },
}

impl View for WorkspaceError {
    type V = WorkspaceIssue;

    open spec fn view(&self) -> WorkspaceIssue {
        match self {
            WorkspaceError::YamlParse { path, message } => WorkspaceIssue::YamlParse {
                path: path@,
                message: message@,
            },
            WorkspaceError::JsonParse { path, message } => WorkspaceIssue::JsonParse {
                path: path@,
                message: message@,
            },
            WorkspaceError::ConfigInvalid { path, message } => WorkspaceIssue::ConfigInvalid {
                path: path@,
                message: message@,
            },
            WorkspaceError::GlobInvalid { path, pattern, message } => WorkspaceIssue::GlobInvalid {
                path: path@,
                pattern: pattern@,
                message: message@,
            },
        }
    }
}

/// The text of a workspace error.
pub open spec fn issue_text(e: WorkspaceIssue) -> Seq<char> {
    match e {
        WorkspaceIssue::YamlParse { path, .. } => "failed to parse workspace yaml file: "@ + path,
        WorkspaceIssue::JsonParse { path, .. } => "failed to parse workspace json file: "@ + path,
        WorkspaceIssue::ConfigInvalid { path, message } => "invalid workspace config: "@ + path
            + ": "@ + message,
        WorkspaceIssue::GlobInvalid { path, pattern, message } => "invalid workspace glob '"@
            + pattern + "' from "@ + path + ": "@ + message,
    }
}

impl WorkspaceError {
    /// The error's text.
    pub fn to_message(&self) -> (r: String)
        ensures
            r@ == issue_text(self@),
    {
        let mut out = String::new();
        match self {
            WorkspaceError::YamlParse { path, .. } => {
                push_str(&mut out, "failed to parse workspace yaml file: ");
                push_str(&mut out, path.as_str());
            },
            WorkspaceError::JsonParse { path, .. } => {
                push_str(&mut out, "failed to parse workspace json file: ");
                push_str(&mut out, path.as_str());
            },
            WorkspaceError::ConfigInvalid { path, message } => {
                push_str(&mut out, "invalid workspace config: ");
                push_str(&mut out, path.as_str());
                push_str(&mut out, ": ");
                push_str(&mut out, message.as_str());
            },
            WorkspaceError::GlobInvalid { path, pattern, message } => {
                push_str(&mut out, "invalid workspace glob '");
                push_str(&mut out, pattern.as_str());
                push_str(&mut out, "' from ");
                push_str(&mut out, path.as_str());
                push_str(&mut out, ": ");
                push_str(&mut out, message.as_str());
            },
        }
        out
    }
}

/// `s` without its leading run of `c` (`str::trim_start_matches`).
pub open spec fn strip_lead(s: Seq<char>, c: char) -> Seq<char>
    decreases s.len(),
{
    if s.len() > 0 && s[0] == c {
        strip_lead(s.drop_first(), c)
    } else {
        s
    }
}

/// `s` without its trailing run of `c` (`str::trim_end_matches`).
pub open spec fn strip_trail(s: Seq<char>, c: char) -> Seq<char>
    decreases s.len(),
{
    if s.len() > 0 && s.last() == c {
        strip_trail(s.drop_last(), c)
    } else {
        s
    }
}

fn strip_lead_exec(s: &str, c: char) -> (r: &str)
    ensures
        r@ == strip_lead(s@, c),
{
    let n = s.unicode_len();
    let mut i: usize = 0;
    assert(s@.skip(0) =~= s@);
    while i < n && s.get_char(i) == c
        invariant
            n == s@.len(),
            i <= n,
            strip_lead(s@, c) == strip_lead(s@.skip(i as int), c),
        decreases n - i,
    {
        assert(s@.skip(i as int).drop_first() =~= s@.skip(i + 1));
        i = i + 1;
    }
    let r = slice_chars(s, i, n);
    assert(r@ =~= s@.skip(i as int));
    r
}

fn strip_trail_exec(s: &str, c: char) -> (r: &str)
    ensures
        r@ == strip_trail(s@, c),
{
    let n = s.unicode_len();
    let mut j: usize = n;
    assert(s@.take(n as int) =~= s@);
    while j > 0 && s.get_char(j - 1) == c
        invariant
            n == s@.len(),
            j <= n,
            strip_trail(s@, c) == strip_trail(s@.take(j as int), c),
        decreases j,
    {
        assert(s@.take(j as int).drop_last() =~= s@.take(j - 1));
        assert(s@.take(j as int).last() == s@[j - 1]);
        j = j - 1;
    }
    if j > 0 {
        assert(s@.take(j as int).last() == s@[j - 1]);
    }
    let r = slice_chars(s, 0, j);
    assert(r@ =~= s@.take(j as int));
    r
}

/// A workspace pattern as written normalized: surrounding whitespace and
/// double quotes removed, leading `./` and trailing `/` removed, backslashes
/// made forward slashes.
pub open spec fn normalize_pattern(raw: Seq<char>) -> Seq<char> {
    forward_slashes(
        strip_trail(strip_all(strip_trail(strip_lead(trim(raw), '"'), '"'), "./"@), '/'),
    )
}

/// Normalizes a workspace pattern (see `normalize_pattern`).
pub fn normalize_workspace_pattern(raw: &str) -> (r: String)
    ensures
        r@ == normalize_pattern(raw@),
{
    let a = trim_str(raw);
    let b = strip_lead_exec(a, '"');
    let c = strip_trail_exec(b, '"');
    proof {
        reveal_strlit("./");
    }
    let d = strip_all_exec(c, "./");
    let e = strip_trail_exec(d, '/');
    normalize_path(e)
}

/// The normalized, non-empty patterns of a list, in order.
pub open spec fn normalized_patterns(raws: Seq<Seq<char>>) -> Seq<Seq<char>>
    decreases raws.len(),
{
    if raws.len() == 0 {
        Seq::empty()
    } else {
        let rest = normalized_patterns(raws.drop_last());
        let n = normalize_pattern(raws.last());
        if n.len() > 0 {
            rest.push(n)
        } else {
            rest
        }
    }
}

fn normalized_pattern_list(raws: &Vec<String>) -> (r: Vec<String>)
    ensures
        views(r@) == normalized_patterns(views(raws@)),
{
    let mut out: Vec<String> = Vec::new();
    let mut i: usize = 0;
    while i < raws.len()
        invariant
            i <= raws@.len(),
            views(out@) == normalized_patterns(views(raws@).take(i as int)),
        decreases raws@.len() - i,
    {
        let ghost prev = views(raws@).take(i as int);
        assert(views(raws@).take(i + 1).drop_last() =~= prev);
        assert(views(raws@).take(i + 1).last() == raws@[i as int]@);
        let n = normalize_workspace_pattern(raws[i].as_str());
        if n.unicode_len() > 0 {
            let ghost before = out@;
            out.push(n);
            assert(views(out@) =~= views(before).push(n@));
        }
        i = i + 1;
    }
    assert(views(raws@).take(raws@.len() as int) =~= views(raws@));
    out
}

/// Every item of a JSON array is a string.
pub open spec fn all_strings(items: Seq<JsonValue>) -> bool {
    forall|k: int| 0 <= k < items.len() ==> (#[trigger] items[k]) is Str
}

/// The texts of JSON string items.
pub open spec fn item_texts(items: Seq<JsonValue>) -> Seq<Seq<char>> {
    items.map_values(|x: JsonValue| json_text_of(x))
}

/// The normalized patterns of a JSON array, or `None` when an item is not a string.
fn string_item_patterns(items: &Vec<JsonValue>) -> (r: Option<Vec<String>>)
    ensures
        match r {
            Some(v) => all_strings(items@) && views(v@) == normalized_patterns(item_texts(items@)),
            None => !all_strings(items@),
        },
{
    let mut out: Vec<String> = Vec::new();
    let mut i: usize = 0;
    while i < items.len()
        invariant
            i <= items@.len(),
            forall|k: int| 0 <= k < i ==> (#[trigger] items@[k]) is Str,
            views(out@) == normalized_patterns(item_texts(items@).take(i as int)),
        decreases items@.len() - i,
    {
        let ghost prev = item_texts(items@).take(i as int);
        assert(item_texts(items@).take(i + 1).drop_last() =~= prev);
        match &items[i] {
            JsonValue::Str(s) => {
                assert(item_texts(items@).take(i + 1).last() == s@);
                let n = normalize_workspace_pattern(s.as_str());
                if n.unicode_len() > 0 {
                    let ghost before = out@;
                    out.push(n);
                    assert(views(out@) =~= views(before).push(n@));
                }
            },
            _ => {
                return None;
            },
        }
        i = i + 1;
    }
    assert(item_texts(items@).take(items@.len() as int) =~= item_texts(items@));
    Some(out)
}

/// `root` joined with a relative `name` as `Path::join` renders it.
pub open spec fn join_path(root: Seq<char>, name: Seq<char>) -> Seq<char> {
    if name.len() > 0 && name[0] == '/' {
        name
    } else if root.len() == 0 {
        name
    } else if root.last() == '/' {
        root + name
    } else {
        root + "/"@ + name
    }
}

fn join_path_exec(root: &str, name: &str) -> (r: String)
    ensures
        r@ == join_path(root@, name@),
{
    let nr = root.unicode_len();
    let nn = name.unicode_len();
    if nn > 0 && name.get_char(0) == '/' {
        return owned(name);
    }
    if nr == 0 {
        return owned(name);
    }
    let mut out = owned(root);
    if root.get_char(nr - 1) != '/' {
        push_char(&mut out, '/');
        proof {
            reveal_strlit("/");
            assert(root@.push('/') =~= root@ + "/"@);
        }
    }
    push_str(&mut out, name);
    out
}

/// The patterns a parsed `package.json` declares in its `workspaces` field.
pub open spec fn package_json_patterns(v: JsonValue, path: Seq<char>) -> Result<
    Seq<Seq<char>>,
    WorkspaceIssue,
> {
    match json_lookup(v, "workspaces"@) {
        None => Ok(Seq::empty()),
        Some(JsonValue::Array(items)) => if all_strings(items@) {
            Ok(normalized_patterns(item_texts(items@)))
        } else {
            Err(
                WorkspaceIssue::ConfigInvalid {
                    path,
                    message: "workspaces array entries must be strings"@,
                },
            )
        },
        Some(JsonValue::Object(m)) => match member_lookup(m@, "packages"@) {
            None => Err(
                WorkspaceIssue::ConfigInvalid {
                    path,
                    message: "workspaces object must contain a 'packages' array"@,
                },
            ),
            Some(JsonValue::Array(items)) => if all_strings(items@) {
                Ok(normalized_patterns(item_texts(items@)))
            } else {
                Err(
                    WorkspaceIssue::ConfigInvalid {
                        path,
                        message: "workspaces.packages entries must be strings"@,
                    },
                )
            },
            Some(_) => Err(
                WorkspaceIssue::ConfigInvalid {
                    path,
                    message: "workspaces.packages must be an array"@,
                },
            ),
        },
        Some(_) => Err(
            WorkspaceIssue::ConfigInvalid {
                path,
                message: "workspaces must be an array or an object with a 'packages' array"@,
            },
        ),
    }
}

fn config_invalid(path: &str, message: &str) -> (r: WorkspaceError)
    ensures
        r@ == (WorkspaceIssue::ConfigInvalid { path: path@, message: message@ }),
{
    WorkspaceError::ConfigInvalid { path: owned(path), message: owned(message) }
}

fn package_json_patterns_exec(v: &JsonValue, path: &str) -> (r: Result<Vec<String>, WorkspaceError>)
    ensures
        match r {
            Ok(p) => package_json_patterns(*v, path@) == Ok::<Seq<Seq<char>>, WorkspaceIssue>(
                views(p@),
            ),
            Err(e) => package_json_patterns(*v, path@) == Err::<Seq<Seq<char>>, WorkspaceIssue>(
                e@,
            ),
        },
{
    proof {
        reveal_strlit("workspaces array entries must be strings");
        reveal_strlit("workspaces object must contain a 'packages' array");
        reveal_strlit("workspaces.packages entries must be strings");
        reveal_strlit("workspaces.packages must be an array");
        reveal_strlit("workspaces must be an array or an object with a 'packages' array");
    }
    match v.get("workspaces") {
        None => {
            let out: Vec<String> = Vec::new();
            assert(views(out@) =~= Seq::<Seq<char>>::empty());
            Ok(out)
        },
        Some(w) => match w {
            JsonValue::Array(items) => match string_item_patterns(items) {
                Some(p) => Ok(p),
                None => Err(config_invalid(path, "workspaces array entries must be strings")),
            },
            JsonValue::Object(m) => match w.get("packages") {
                None => Err(
                    config_invalid(path, "workspaces object must contain a 'packages' array"),
                ),
                Some(entries) => match entries {
                    JsonValue::Array(items) => match string_item_patterns(items) {
                        Some(p) => Ok(p),
                        None => Err(
                            config_invalid(path, "workspaces.packages entries must be strings"),
                        ),
                    },
                    _ => Err(config_invalid(path, "workspaces.packages must be an array")),
                },
            },
            _ => Err(
                config_invalid(
                    path,
                    "workspaces must be an array or an object with a 'packages' array",
                ),
            ),
        },
    }
}

/// The patterns `pnpm-workspace.yaml` declares.
pub open spec fn pnpm_patterns(root: Seq<char>, f: SourceFile<Vec<String>>) -> Result<
    Seq<Seq<char>>,
    WorkspaceIssue,
> {
    match f {
        SourceFile::Malformed(m) => Err(
            WorkspaceIssue::YamlParse {
                path: join_path(root, "pnpm-workspace.yaml"@),
                message: m@,
            },
        ),
        SourceFile::Parsed(p) => Ok(normalized_patterns(views(p@))),
        _ => Ok(Seq::empty()),
    }
}

/// The patterns the root `package.json` declares.
pub open spec fn package_file_patterns(root: Seq<char>, f: SourceFile<JsonValue>) -> Result<
    Seq<Seq<char>>,
    WorkspaceIssue,
> {
    match f {
        SourceFile::Malformed(m) => Err(
            WorkspaceIssue::JsonParse { path: join_path(root, "package.json"@), message: m@ },
        ),
        SourceFile::Parsed(v) => package_json_patterns(v, join_path(root, "package.json"@)),
        _ => Ok(Seq::empty()),
    }
}

/// The declared workspace patterns: those of `pnpm-workspace.yaml`, then those
/// of `package.json`; the first file that fails decides the error.
pub open spec fn declared_patterns(root: Seq<char>, src: WorkspaceSources) -> Result<
    Seq<Seq<char>>,
    WorkspaceIssue,
> {
    match pnpm_patterns(root, src.pnpm_workspace) {
        Err(e) => Err(e),
        Ok(a) => match package_file_patterns(root, src.package_json) {
            Err(e) => Err(e),
            Ok(b) => Ok(a + b),
        },
    }
}

/// Reads the declared workspace patterns (see `declared_patterns`).
pub fn declared_workspace_patterns(project_root: &str, sources: &WorkspaceSources) -> (r: Result<
    Vec<String>,
    WorkspaceError,
>)
    ensures
        match r {
            Ok(p) => declared_patterns(project_root@, *sources) == Ok::<
                Seq<Seq<char>>,
                WorkspaceIssue,
            >(views(p@)),
            Err(e) => declared_patterns(project_root@, *sources) == Err::<
                Seq<Seq<char>>,
                WorkspaceIssue,
            >(e@),
        },
{
    let mut patterns: Vec<String> = match &sources.pnpm_workspace {
        SourceFile::Malformed(m) => {
            let path = join_path_exec(project_root, "pnpm-workspace.yaml");
            return Err(WorkspaceError::YamlParse { path, message: m.clone() });
        },
        SourceFile::Parsed(p) => normalized_pattern_list(p),
        _ => {
            let out: Vec<String> = Vec::new();
            assert(views(out@) =~= Seq::<Seq<char>>::empty());
            out
        },
    };
    let more: Vec<String> = match &sources.package_json {
        SourceFile::Malformed(m) => {
            let path = join_path_exec(project_root, "package.json");
            return Err(WorkspaceError::JsonParse { path, message: m.clone() });
        },
        SourceFile::Parsed(v) => {
            let path = join_path_exec(project_root, "package.json");
            match package_json_patterns_exec(v, path.as_str()) {
                Ok(p) => p,
                Err(e) => {
                    return Err(e);
                },
            }
        },
        _ => {
            let out: Vec<String> = Vec::new();
            assert(views(out@) =~= Seq::<Seq<char>>::empty());
            out
        },
    };
    let ghost first = views(patterns@);
    let mut i: usize = 0;
    while i < more.len()
        invariant
            i <= more@.len(),
            views(patterns@) == first + views(more@).take(i as int),
        decreases more@.len() - i,
    {
        let ghost before = patterns@;
        patterns.push(more[i].clone());
        assert(views(patterns@) =~= views(before).push(more@[i as int]@));
        assert(views(more@).take(i + 1) =~= views(more@).take(i as int).push(more@[i as int]@));
        i = i + 1;
    }
    assert(views(more@).take(more@.len() as int) =~= views(more@));
    Ok(patterns)
}

/// Sorts and deduplicates patterns.
fn sorted_patterns(pats: &Vec<String>) -> (r: Vec<String>)
    ensures
        views(r@) == sorted_seq_of(views(pats@).to_set()),
{
    let mut out: Vec<String> = Vec::new();
    let mut i: usize = 0;
    while i < pats.len()
        invariant
            i <= pats@.len(),
            strictly_sorted(views(out@)),
            views(out@).to_set() == views(pats@).take(i as int).to_set(),
        decreases pats@.len() - i,
    {
        proof {
            assert(views(pats@).take(i + 1) =~= views(pats@).take(i as int).push(pats@[i as int]@));
            lemma_push_to_set(views(pats@).take(i as int), pats@[i as int]@);
        }
        set_insert(&mut out, pats[i].clone());
        i = i + 1;
    }
    proof {
        assert(views(pats@).take(pats@.len() as int) =~= views(pats@));
        lemma_sorted_seq_of(views(out@));
    }
    out
}

/// The directory a wildcard pattern's walk starts from: the part before the
/// first `*`, without trailing slashes (empty for the project root).
pub open spec fn wildcard_prefix(np: Seq<char>) -> Seq<char> {
    strip_trail(np.take(index_of(np, '*')), '/')
}

/// A pattern with `**` is walked to any depth, others one level deep.
pub open spec fn is_recursive(np: Seq<char>) -> bool {
    contains_text(np, "**"@)
}

/// What to look at for one pattern.
#[derive(Debug, Clone, PartialEq, Eq)]
pub enum WorkspaceWalk {
    /// The pattern is empty: nothing.
    Skip,
    /// A pattern without wildcards: whether this directory exists.
    Literal(String),
    /// The directories under `root` (relative to the project root, empty for
    /// the root itself), walked without following links: one level deep
    /// unless `recursive`.
    Walk { root: String, recursive: bool },
    /// The pattern is not a valid glob; discovery stops at it.
    Invalid,
}

pub ghost enum WalkView {
    Skip,
    Literal(Seq<char>),
    Walk(Seq<char>, bool),
    Invalid,
}

impl View for WorkspaceWalk {
    type V = WalkView;

    open spec fn view(&self) -> WalkView {
        match self {
            WorkspaceWalk::Skip => WalkView::Skip,
            WorkspaceWalk::Literal(d) => WalkView::Literal(d@),
            WorkspaceWalk::Walk { root, recursive } => WalkView::Walk(root@, *recursive),
            WorkspaceWalk::Invalid => WalkView::Invalid,
        }
    }
}

/// The walk a declared pattern asks for.
pub open spec fn walk_plan(p: Seq<char>) -> WalkView {
    let np = normalize_pattern(p);
    if np.len() == 0 {
        WalkView::Skip
    } else if !np.contains('*') {
        WalkView::Literal(np)
    } else if path_glob_error(np) is Some {
        WalkView::Invalid
    } else {
        WalkView::Walk(wildcard_prefix(np), is_recursive(np))
    }
}

/// The prefix and depth of a wildcard pattern's walk.
fn walk_scope(np: &str) -> (r: (String, bool))
    requires
        np@.contains('*'),
    ensures
        r.0@ == wildcard_prefix(np@),
        r.1 == is_recursive(np@),
{
    proof {
        lemma_index_of(np@, '*');
        reveal_strlit("**");
    }
    let k = match find_char(np, '*') {
        Some(k) => k,
        None => 0,
    };
    let head = slice_chars(np, 0, k);
    assert(head@ =~= np@.take(index_of(np@, '*')));
    let prefix = owned(strip_trail_exec(head, '/'));
    (prefix, str_contains(np, "**"))
}

fn walk_plan_exec(p: &str) -> (r: WorkspaceWalk)
    ensures
        r@ == walk_plan(p@),
{
    let np = normalize_workspace_pattern(p);
    if np.unicode_len() == 0 {
        return WorkspaceWalk::Skip;
    }
    if !str_contains_char(np.as_str(), '*') {
        return WorkspaceWalk::Literal(np);
    }
    if path_glob_build_error(np.as_str()).is_some() {
        return WorkspaceWalk::Invalid;
    }
    let (root, recursive) = walk_scope(np.as_str());
    WorkspaceWalk::Walk { root, recursive }
}

/// The walks that discovery needs, one per declared pattern in sorted order
/// (duplicates dropped); the caller walks them in order and stops at the first
/// `Invalid`.
pub fn workspace_walk_plans(project_root: &str, sources: &WorkspaceSources) -> (r: Result<
    Vec<WorkspaceWalk>,
    WorkspaceError,
>)
    ensures
        match r {
            Ok(plans) => match declared_patterns(project_root@, *sources) {
                Ok(pats) => plans@.len() == sorted_seq_of(pats.to_set()).len() && forall|i: int|
                    0 <= i < plans@.len() ==> (#[trigger] plans@[i])@ == walk_plan(
                        sorted_seq_of(pats.to_set())[i],
                    ),
                Err(_) => false,
            },
            Err(e) => declared_patterns(project_root@, *sources) == Err::<
                Seq<Seq<char>>,
                WorkspaceIssue,
            >(e@),
        },
{
    let declared = match declared_workspace_patterns(project_root, sources) {
        Ok(p) => p,
        Err(e) => {
            return Err(e);
        },
    };
    let sorted = sorted_patterns(&declared);
    let mut plans: Vec<WorkspaceWalk> = Vec::new();
    let mut i: usize = 0;
    while i < sorted.len()
        invariant
            i <= sorted@.len(),
            plans@.len() == i,
            forall|k: int| 0 <= k < i ==> (#[trigger] plans@[k])@ == walk_plan(sorted@[k]@),
        decreases sorted@.len() - i,
    {
        let w = walk_plan_exec(sorted[i].as_str());
        plans.push(w);
        i = i + 1;
    }
    proof {
        assert forall|k: int| 0 <= k < plans@.len() implies (#[trigger] plans@[k])@ == walk_plan(
            sorted_seq_of(views(declared@).to_set())[k],
        ) by {
            assert(views(sorted@)[k] == sorted@[k]@);
        }
    }
    Ok(plans)
}

/// The part of a walked path below the walk's start.
pub open spec fn walk_rest(prefix: Seq<char>, d: Seq<char>) -> Seq<char> {
    if prefix.len() == 0 {
        d
    } else {
        d.skip(prefix.len() + 1int)
    }
}

/// Whether the walk from `prefix` reaches `d`: `d` lies strictly below it, and
/// directly below it unless the walk is recursive.
pub open spec fn in_walk_scope(prefix: Seq<char>, recursive: bool, d: Seq<char>) -> bool {
    &&& (prefix.len() == 0 || has_prefix(d, prefix + "/"@))
    &&& walk_rest(prefix, d).len() > 0
    &&& (recursive || !walk_rest(prefix, d).contains('/'))
}

/// Whether the normalized pattern `np` yields the directory `e`: a literal
/// pattern yields its own directory; a wildcard pattern yields the walked
/// directories in its walk's scope that its glob matches.
pub open spec fn expands_to(np: Seq<char>, e: WorkspaceDir) -> bool {
    np.len() > 0 && if !np.contains('*') {
        e.relative_dir@ == np
    } else {
        e.walked && in_walk_scope(wildcard_prefix(np), is_recursive(np), e.relative_dir@)
            && path_glob_matches(np, e.relative_dir@)
    }
}

fn in_walk_scope_exec(prefix: &str, recursive: bool, d: &str) -> (r: bool)
    ensures
        r == in_walk_scope(prefix@, recursive, d@),
{
    let np = prefix.unicode_len();
    let nd = d.unicode_len();
    let rest: &str = if np == 0 {
        d
    } else {
        let mut with_slash = owned(prefix);
        push_char(&mut with_slash, '/');
        proof {
            reveal_strlit("/");
            assert(prefix@.push('/') =~= prefix@ + "/"@);
        }
        if !str_starts_with(d, with_slash.as_str()) {
            return false;
        }
        let r = slice_chars(d, np + 1, nd);
        assert(r@ =~= d@.skip(np + 1));
        r
    };
    if rest.unicode_len() == 0 {
        return false;
    }
    recursive || !str_contains_char(rest, '/')
}

/// A compiled glob of the pattern `np` is given.
pub open spec fn compiled_for(glob: Option<&PathGlob>, np: Seq<char>) -> bool {
    match glob {
        Some(g) => g.pattern() == np,
        None => false,
    }
}

fn expands_exec(np: &str, glob: Option<&PathGlob>, prefix: &str, recursive: bool, e: &WorkspaceDir) -> (r: bool)
    requires
        np@.len() > 0,
        np@.contains('*') ==> prefix@ == wildcard_prefix(np@) && recursive == is_recursive(np@)
            && path_glob_error(np@) is None && compiled_for(glob, np@),
    ensures
        r == expands_to(np@, *e),
{
    if !str_contains_char(np, '*') {
        return crate::text::str_eq(e.relative_dir.as_str(), np);
    }
    match glob {
        Some(g) => e.walked && in_walk_scope_exec(prefix, recursive, e.relative_dir.as_str()) && g.is_match(
            e.relative_dir.as_str(),
        ),
        None => false,
    }
}

/// The directories one normalized pattern yields.
pub open spec fn pattern_candidates(np: Seq<char>, dirs: Seq<WorkspaceDir>) -> Set<Seq<char>> {
    Set::new(
        |d: Seq<char>|
            exists|j: int|
                0 <= j < dirs.len() && dirs[j].relative_dir@ == d && #[trigger] expands_to(
                    np,
                    dirs[j],
                ),
    )
}

/// The directories the declared patterns yield together.
pub open spec fn candidate_dirs(pats: Seq<Seq<char>>, dirs: Seq<WorkspaceDir>) -> Set<Seq<char>> {
    Set::new(
        |d: Seq<char>|
            exists|i: int|
                0 <= i < pats.len() && (#[trigger] pattern_candidates(
                    normalize_pattern(pats[i]),
                    dirs,
                )).contains(d),
    )
}

fn add_pattern_candidates(
    out: &mut Vec<String>,
    np: &str,
    glob: Option<&PathGlob>,
    prefix: &str,
    recursive: bool,
    dirs: &Vec<WorkspaceDir>,
)
    requires
        strictly_sorted(views(old(out)@)),
        np@.len() > 0,
        np@.contains('*') ==> prefix@ == wildcard_prefix(np@) && recursive == is_recursive(np@)
            && path_glob_error(np@) is None && compiled_for(glob, np@),
    ensures
        strictly_sorted(views(final(out)@)),
        views(final(out)@).to_set() == views(old(out)@).to_set().union(
            pattern_candidates(np@, dirs@),
        ),
{
    let ghost start = views(out@).to_set();
    let mut j: usize = 0;
    while j < dirs.len()
        invariant
            j <= dirs@.len(),
            np@.len() > 0,
            np@.contains('*') ==> prefix@ == wildcard_prefix(np@) && recursive == is_recursive(
                np@,
            ) && path_glob_error(np@) is None && compiled_for(glob, np@),
            strictly_sorted(views(out@)),
            views(out@).to_set() == start.union(pattern_candidates(np@, dirs@.take(j as int))),
        decreases dirs@.len() - j,
    {
        let hit = expands_exec(np, glob, prefix, recursive, &dirs[j]);
        let ghost before = views(out@).to_set();
        if hit {
            set_insert(out, dirs[j].relative_dir.clone());
        }
        proof {
            let prev = dirs@.take(j as int);
            let next = dirs@.take(j + 1);
            assert forall|d: Seq<char>| #[trigger]
                pattern_candidates(np@, next).contains(d) == (pattern_candidates(
                    np@,
                    prev,
                ).contains(d) || (hit && d == dirs@[j as int].relative_dir@)) by {
                if pattern_candidates(np@, next).contains(d) {
                    let k = choose|k: int|
                        0 <= k < next.len() && next[k].relative_dir@ == d && #[trigger] expands_to(
                            np@,
                            next[k],
                        );
                    if k < j {
                        assert(prev[k] == next[k]);
                    }
                }
                if pattern_candidates(np@, prev).contains(d) {
                    let k = choose|k: int|
                        0 <= k < prev.len() && prev[k].relative_dir@ == d && #[trigger] expands_to(
                            np@,
                            prev[k],
                        );
                    assert(next[k] == prev[k]);
                }
                if hit && d == dirs@[j as int].relative_dir@ {
                    assert(next[j as int] == dirs@[j as int]);
                }
            }
            assert(views(out@).to_set() =~= start.union(pattern_candidates(np@, next)));
        }
        j = j + 1;
    }
    proof {
        assert(dirs@.take(dirs@.len() as int) =~= dirs@);
    }
}

/// The source a glob error is reported against: `pnpm-workspace.yaml` when
/// it exists, else `package.json` when it exists, else the pattern itself.
pub open spec fn glob_source_path(root: Seq<char>, src: WorkspaceSources, p: Seq<char>) -> Seq<
    char,
> {
    if !(src.pnpm_workspace is Absent) {
        join_path(root, "pnpm-workspace.yaml"@)
    } else if !(src.package_json is Absent) {
        join_path(root, "package.json"@)
    } else {
        join_path(root, p)
    }
}

/// The error a declared pattern gives, if it is an invalid glob.
pub open spec fn pattern_issue(root: Seq<char>, src: WorkspaceSources, p: Seq<char>) -> Option<
    WorkspaceIssue,
> {
    let np = normalize_pattern(p);
    if np.len() > 0 && np.contains('*') && path_glob_error(np) is Some {
        Some(
            WorkspaceIssue::GlobInvalid {
                path: glob_source_path(root, src, p),
                pattern: np,
                message: path_glob_error(np)->0,
            },
        )
    } else {
        None
    }
}

/// The error of the first pattern that gives one.
pub open spec fn first_pattern_issue(
    root: Seq<char>,
    src: WorkspaceSources,
    pats: Seq<Seq<char>>,
) -> Option<WorkspaceIssue>
    decreases pats.len(),
{
    if pats.len() == 0 {
        None
    } else {
        match pattern_issue(root, src, pats[0]) {
            Some(e) => Some(e),
            None => first_pattern_issue(root, src, pats.drop_first()),
        }
    }
}

proof fn lemma_first_issue_skip(
    root: Seq<char>,
    src: WorkspaceSources,
    pats: Seq<Seq<char>>,
    i: int,
)
    requires
        0 <= i <= pats.len(),
        forall|k: int| 0 <= k < i ==> pattern_issue(root, src, #[trigger] pats[k]) is None,
    ensures
        first_pattern_issue(root, src, pats) == first_pattern_issue(root, src, pats.skip(i)),
    decreases i,
{
    if i > 0 {
        assert(pattern_issue(root, src, pats[0]) is None);
        assert forall|k: int| 0 <= k < i - 1 implies pattern_issue(
            root,
            src,
            #[trigger] pats.drop_first()[k],
        ) is None by {
            assert(pats.drop_first()[k] == pats[k + 1]);
        }
        lemma_first_issue_skip(root, src, pats.drop_first(), i - 1);
        assert(pats.drop_first().skip(i - 1) =~= pats.skip(i));
    } else {
        assert(pats.skip(0) =~= pats);
    }
}

fn source_path_exec(project_root: &str, sources: &WorkspaceSources, p: &str) -> (r: String)
    ensures
        r@ == glob_source_path(project_root@, *sources, p@),
{
    match &sources.pnpm_workspace {
        SourceFile::Absent => {},
        _ => {
            return join_path_exec(project_root, "pnpm-workspace.yaml");
        },
    }
    match &sources.package_json {
        SourceFile::Absent => {},
        _ => {
            return join_path_exec(project_root, "package.json");
        },
    }
    join_path_exec(project_root, p)
}

/// The directories the sorted patterns yield, or the first pattern's glob error.
fn collect_candidates(project_root: &str, sources: &WorkspaceSources, sorted: &Vec<String>) -> (r:
    Result<Vec<String>, WorkspaceError>)
    ensures
        match r {
            Ok(c) => first_pattern_issue(project_root@, *sources, views(sorted@)) is None
                && strictly_sorted(views(c@)) && views(c@).to_set() == candidate_dirs(
                views(sorted@),
                sources.dirs@,
            ),
            Err(e) => first_pattern_issue(project_root@, *sources, views(sorted@)) == Some(e@),
        },
{
    let ghost pats = views(sorted@);
    let ghost dirs = sources.dirs@;
    let mut out: Vec<String> = Vec::new();
    let mut i: usize = 0;
    assert(views(out@).to_set() =~= candidate_dirs(pats.take(0), dirs));
    while i < sorted.len()
        invariant
            pats == views(sorted@),
            dirs == sources.dirs@,
            i <= sorted@.len(),
            forall|k: int| 0 <= k < i ==> pattern_issue(project_root@, *sources, #[trigger] pats[k]) is None,
            strictly_sorted(views(out@)),
            views(out@).to_set() == candidate_dirs(pats.take(i as int), dirs),
        decreases sorted@.len() - i,
    {
        let np = normalize_workspace_pattern(sorted[i].as_str());
        assert(pats[i as int] == sorted@[i as int]@);
        let ghost before = views(out@).to_set();
        if np.unicode_len() > 0 {
            if str_contains_char(np.as_str(), '*') {
                match path_glob_build_error(np.as_str()) {
                    Some(message) => {
                        let path = source_path_exec(project_root, sources, sorted[i].as_str());
                        proof {
                            lemma_first_issue_skip(project_root@, *sources, pats, i as int);
                            assert(pats.skip(i as int)[0] == pats[i as int]);
                        }
                        return Err(WorkspaceError::GlobInvalid { path, pattern: np, message });
                    },
                    None => {
                        let (prefix, recursive) = walk_scope(np.as_str());
                        let compiled = PathGlob::new(np.as_str());
                        add_pattern_candidates(
                            &mut out,
                            np.as_str(),
                            Some(&compiled),
                            prefix.as_str(),
                            recursive,
                            &sources.dirs,
                        );
                    },
                }
            } else {
                add_pattern_candidates(&mut out, np.as_str(), None, "", false, &sources.dirs);
            }
        } else {
            assert(pattern_candidates(np@, dirs) =~= Set::empty());
        }
        proof {
            let prev = pats.take(i as int);
            let next = pats.take(i + 1);
            assert forall|d: Seq<char>| #[trigger] candidate_dirs(next, dirs).contains(d) == (
            candidate_dirs(prev, dirs).contains(d) || pattern_candidates(np@, dirs).contains(d)) by {
                if candidate_dirs(next, dirs).contains(d) {
                    let k = choose|k: int|
                        0 <= k < next.len() && (#[trigger] pattern_candidates(
                            normalize_pattern(next[k]),
                            dirs,
                        )).contains(d);
                    if k < i {
                        assert(prev[k] == next[k]);
                    }
                }
                if candidate_dirs(prev, dirs).contains(d) {
                    let k = choose|k: int|
                        0 <= k < prev.len() && (#[trigger] pattern_candidates(
                            normalize_pattern(prev[k]),
                            dirs,
                        )).contains(d);
                    assert(next[k] == prev[k]);
                }
                if pattern_candidates(np@, dirs).contains(d) {
                    assert(next[i as int] == pats[i as int]);
                }
            }
            assert(views(out@).to_set() =~= candidate_dirs(next, dirs));
        }
        i = i + 1;
    }
    proof {
        assert(pats.take(pats.len() as int) =~= pats);
        lemma_first_issue_skip(project_root@, *sources, pats, pats.len() as int);
        assert(pats.skip(pats.len() as int) =~= Seq::<Seq<char>>::empty());
    }
    Ok(out)
}

/// Directory names that discovery skips unless configuration re-includes
/// them: those of `DEFAULT_EXCLUDED_DIRS`.
pub open spec fn excluded_dir_name(s: Seq<char>) -> bool {
    ||| s == "node_modules"@
    ||| s == "dist"@
    ||| s == "build"@
    ||| s == ".git"@
    ||| s == "generated"@
    ||| s == "target"@
    ||| s == "coverage"@
    ||| s == "vendor"@
}

fn excluded_dir_name_exec(s: &str) -> (r: bool)
    ensures
        r == excluded_dir_name(s@),
{
    proof {
        reveal_strlit("node_modules");
        reveal_strlit("dist");
        reveal_strlit("build");
        reveal_strlit(".git");
        reveal_strlit("generated");
        reveal_strlit("target");
        reveal_strlit("coverage");
        reveal_strlit("vendor");
    }
    crate::text::str_eq(s, "node_modules") || crate::text::str_eq(s, "dist")
        || crate::text::str_eq(s, "build") || crate::text::str_eq(s, ".git")
        || crate::text::str_eq(s, "generated") || crate::text::str_eq(s, "target")
        || crate::text::str_eq(s, "coverage") || crate::text::str_eq(s, "vendor")
}

/// A directory is skipped when one of its `/`-separated segments is an
/// excluded name that `kept` does not re-admit.
pub open spec fn skipped_dir(d: Seq<char>, kept: Set<Seq<char>>) -> bool {
    exists|k: int|
        0 <= k < split_on(d, '/').len() && excluded_dir_name(#[trigger] split_on(d, '/')[k])
            && !kept.contains(split_on(d, '/')[k])
}

pub(crate) fn skipped_dir_exec(d: &str, kept: &Vec<String>) -> (r: bool)
    ensures
        r == skipped_dir(d@, views(kept@).to_set()),
{
    let segs = split_char(d, '/');
    let mut k: usize = 0;
    while k < segs.len()
        invariant
            views(segs@) == split_on(d@, '/'),
            k <= segs@.len(),
            forall|m: int|
                0 <= m < k ==> !(excluded_dir_name(#[trigger] split_on(d@, '/')[m])
                    && !views(kept@).to_set().contains(split_on(d@, '/')[m])),
        decreases segs@.len() - k,
    {
        assert(split_on(d@, '/')[k as int] == segs@[k as int]@);
        if excluded_dir_name_exec(segs[k].as_str()) && !strings_contain(kept, segs[k].as_str()) {
            assert(!views(kept@).contains(segs@[k as int]@));
            return true;
        }
        assert(excluded_dir_name(segs@[k as int]@) ==> views(kept@).contains(segs@[k as int]@));
        k = k + 1;
    }
    false
}

/// The first listed entry for a directory.
pub open spec fn dir_entry(dirs: Seq<WorkspaceDir>, d: Seq<char>) -> Option<WorkspaceDir>
    decreases dirs.len(),
{
    if dirs.len() == 0 {
        None
    } else if dirs[0].relative_dir@ == d {
        Some(dirs[0])
    } else {
        dir_entry(dirs.drop_first(), d)
    }
}

fn dir_entry_exec<'a>(dirs: &'a Vec<WorkspaceDir>, d: &str) -> (r: Option<&'a WorkspaceDir>)
    ensures
        match r {
            Some(e) => dir_entry(dirs@, d@) == Some(*e),
            None => dir_entry(dirs@, d@) is None,
        },
{
    let mut i: usize = 0;
    assert(dirs@.skip(0) =~= dirs@);
    while i < dirs.len()
        invariant
            i <= dirs@.len(),
            dir_entry(dirs@, d@) == dir_entry(dirs@.skip(i as int), d@),
        decreases dirs@.len() - i,
    {
        assert(dirs@.skip(i as int)[0] == dirs@[i as int]);
        if crate::text::str_eq(dirs[i].relative_dir.as_str(), d) {
            return Some(&dirs[i]);
        }
        assert(dirs@.skip(i as int).drop_first() =~= dirs@.skip(i + 1));
        i = i + 1;
    }
    None
}

/// The module name a package directory gets by default: its last segment, or
/// `workspace` when that is empty.
pub open spec fn base_module(d: Seq<char>) -> Seq<char> {
    if after_last(d, '/').len() > 0 {
        after_last(d, '/')
    } else {
        "workspace"@
    }
}

/// `d` with every `/` written as `__`.
pub open spec fn underscored(d: Seq<char>) -> Seq<char>
    decreases d.len(),
{
    if d.len() == 0 {
        Seq::empty()
    } else {
        underscored(d.drop_last()) + if d.last() == '/' {
            "__"@
        } else {
            seq![d.last()]
        }
    }
}

fn underscored_exec(d: &str) -> (r: String)
    ensures
        r@ == underscored(d@),
{
    let n = d.unicode_len();
    let mut out = String::new();
    let mut i: usize = 0;
    proof {
        reveal_strlit("__");
    }
    while i < n
        invariant
            n == d@.len(),
            i <= n,
            out@ == underscored(d@.take(i as int)),
        decreases n - i,
    {
        let c = d.get_char(i);
        assert(d@.take(i + 1).drop_last() =~= d@.take(i as int));
        assert(d@.take(i + 1).last() == c);
        if c == '/' {
            push_str(&mut out, "__");
        } else {
            push_char(&mut out, c);
            assert(out@ =~= underscored(d@.take(i as int)) + seq![c]);
        }
        i = i + 1;
    }
    assert(d@.take(n as int) =~= d@);
    out
}

/// One candidate directory added to the packages found so far and the module
/// names used so far.
pub open spec fn package_step(
    acc: (Seq<PackageView>, Set<Seq<char>>),
    d: Seq<char>,
    dirs: Seq<WorkspaceDir>,
    kept: Set<Seq<char>>,
) -> (Seq<PackageView>, Set<Seq<char>>) {
    match dir_entry(dirs, d) {
        Some(e) => if !skipped_dir(d, kept) && (e.has_package_json || e.has_src_dir) {
            let module = if acc.1.contains(base_module(d)) {
                underscored(d)
            } else {
                base_module(d)
            };
            let glob = if e.has_src_dir {
                d + "/src/**/*"@
            } else {
                d + "/**/*"@
            };
            (
                acc.0.push(PackageView { module, relative_dir: d, module_glob: glob }),
                acc.1.insert(module),
            )
        } else {
            acc
        },
        None => acc,
    }
}

/// The packages the candidate directories give, in order, with the module
/// names used.
pub open spec fn build_packages(
    cands: Seq<Seq<char>>,
    dirs: Seq<WorkspaceDir>,
    kept: Set<Seq<char>>,
) -> (Seq<PackageView>, Set<Seq<char>>)
    decreases cands.len(),
{
    if cands.len() == 0 {
        (Seq::empty(), Set::empty())
    } else {
        package_step(build_packages(cands.drop_last(), dirs, kept), cands.last(), dirs, kept)
    }
}

fn build_package_list(cands: &Vec<String>, dirs: &Vec<WorkspaceDir>, kept: &Vec<String>) -> (r:
    Vec<WorkspacePackage>)
    ensures
        package_views(r@) == build_packages(views(cands@), dirs@, views(kept@).to_set()).0,
{
    let ghost inc = views(kept@).to_set();
    let mut out: Vec<WorkspacePackage> = Vec::new();
    let mut used: Vec<String> = Vec::new();
    let mut i: usize = 0;
    proof {
        reveal_strlit("/src/**/*");
        reveal_strlit("/**/*");
        reveal_strlit("workspace");
    }
    assert(views(used@).to_set() =~= Set::<Seq<char>>::empty());
    assert(package_views(out@) =~= Seq::<PackageView>::empty());
    while i < cands.len()
        invariant
            inc == views(kept@).to_set(),
            i <= cands@.len(),
            strictly_sorted(views(used@)),
            (package_views(out@), views(used@).to_set()) == build_packages(
                views(cands@).take(i as int),
                dirs@,
                inc,
            ),
        decreases cands@.len() - i,
    {
        let ghost prev = views(cands@).take(i as int);
        let ghost acc = build_packages(prev, dirs@, inc);
        assert(views(cands@).take(i + 1).drop_last() =~= prev);
        assert(views(cands@).take(i + 1).last() == cands@[i as int]@);
        let d = cands[i].as_str();
        match dir_entry_exec(dirs, d) {
            Some(e) => {
                if !skipped_dir_exec(d, kept) && (e.has_package_json || e.has_src_dir) {
                    let last = after_last_char(d, '/');
                    let base = if last.unicode_len() > 0 {
                        owned(last)
                    } else {
                        owned("workspace")
                    };
                    assert(base@ == base_module(d@));
                    let module = if strings_contain(&used, base.as_str()) {
                        underscored_exec(d)
                    } else {
                        base
                    };
                    let mut glob = owned(d);
                    if e.has_src_dir {
                        push_str(&mut glob, "/src/**/*");
                    } else {
                        push_str(&mut glob, "/**/*");
                    }
                    proof {
                        lemma_sorted_contains(views(used@), module@);
                    }
                    set_insert(&mut used, module.clone());
                    let ghost before = out@;
                    out.push(WorkspacePackage { module, relative_dir: owned(d), module_glob: glob });
                    assert(package_views(out@) =~= package_views(before).push(out@.last()@));
                }
            },
            None => {},
        }
        i = i + 1;
    }
    assert(views(cands@).take(cands@.len() as int) =~= views(cands@));
    out
}

proof fn lemma_sorted_contains(s: Seq<Seq<char>>, x: Seq<char>)
    ensures
        s.contains(x) == s.to_set().contains(x),
{
}

/// The directories of a list of packages.
pub open spec fn package_dirs(p: Seq<PackageView>) -> Seq<Seq<char>> {
    p.map_values(|x: PackageView| x.relative_dir)
}

/// Packages come out in the order of their candidate directories.
proof fn lemma_packages_sorted(cands: Seq<Seq<char>>, dirs: Seq<WorkspaceDir>, kept: Set<Seq<char>>)
    requires
        strictly_sorted(cands),
    ensures
        strictly_sorted(package_dirs(build_packages(cands, dirs, kept).0)),
        forall|k: int|
            0 <= k < build_packages(cands, dirs, kept).0.len() ==> cands.contains(
                (#[trigger] build_packages(cands, dirs, kept).0[k]).relative_dir,
            ),
    decreases cands.len(),
{
    if cands.len() > 0 {
        let prev = cands.drop_last();
        lemma_packages_sorted(prev, dirs, kept);
        let acc = build_packages(prev, dirs, kept);
        let next = build_packages(cands, dirs, kept);
        let d = cands.last();
        assert forall|k: int| 0 <= k < acc.0.len() implies seq_order(
            (#[trigger] acc.0[k]).relative_dir,
            d,
        ) < 0 by {
            let x = acc.0[k].relative_dir;
            assert(prev.contains(x));
            let m = choose|m: int| 0 <= m < prev.len() && prev[m] == x;
            assert(cands[m] == x);
        }
        if next.0.len() > acc.0.len() {
            assert(next.0 == acc.0.push(next.0.last()));
            assert(next.0.last().relative_dir == d);
            assert forall|k: int| 0 <= k < next.0.len() implies cands.contains(
                (#[trigger] next.0[k]).relative_dir,
            ) by {
                if k < acc.0.len() {
                    assert(next.0[k] == acc.0[k]);
                    let x = acc.0[k].relative_dir;
                    let m = choose|m: int| 0 <= m < prev.len() && prev[m] == x;
                    assert(cands[m] == x);
                } else {
                    assert(cands[cands.len() - 1] == d);
                }
            }
            assert(package_dirs(next.0) =~= package_dirs(acc.0).push(d));
        } else {
            assert(next.0 == acc.0);
            assert forall|k: int| 0 <= k < next.0.len() implies cands.contains(
                (#[trigger] next.0[k]).relative_dir,
            ) by {
                let x = acc.0[k].relative_dir;
                let m = choose|m: int| 0 <= m < prev.len() && prev[m] == x;
                assert(cands[m] == x);
            }
        }
    }
}

/// What every package found satisfies: its directory is listed, holds a
/// `package.json` or a `src` directory, has no excluded segment that is not
/// re-included, and its files are those under `src` when it has one.
pub open spec fn kept_package(p: PackageView, dirs: Seq<WorkspaceDir>, kept: Set<Seq<char>>) -> bool {
    match dir_entry(dirs, p.relative_dir) {
        Some(e) => {
            &&& !skipped_dir(p.relative_dir, kept)
            &&& (e.has_package_json || e.has_src_dir)
            &&& p.module_glob == p.relative_dir + if e.has_src_dir {
                "/src/**/*"@
            } else {
                "/**/*"@
            }
        },
        None => false,
    }
}

proof fn lemma_built_packages_kept(cands: Seq<Seq<char>>, dirs: Seq<WorkspaceDir>, kept: Set<Seq<char>>)
    ensures
        forall|k: int|
            0 <= k < build_packages(cands, dirs, kept).0.len() ==> kept_package(
                #[trigger] build_packages(cands, dirs, kept).0[k],
                dirs,
                kept,
            ),
    decreases cands.len(),
{
    if cands.len() > 0 {
        lemma_built_packages_kept(cands.drop_last(), dirs, kept);
        let acc = build_packages(cands.drop_last(), dirs, kept);
        let next = build_packages(cands, dirs, kept);
        assert forall|k: int| 0 <= k < next.0.len() implies kept_package(#[trigger] next.0[k], dirs, kept) by {
            if k < acc.0.len() {
                assert(next.0[k] == acc.0[k]);
            }
        }
    }
}

/// Every package that discovery finds lies in a listed directory that holds a
/// `package.json` or a `src` directory and that no excluded segment hides,
/// and its file glob follows from whether it has `src`.
pub proof fn law_found_packages_are_kept_directories(
    root: Seq<char>,
    include_dirs: Seq<Seq<char>>,
    src: WorkspaceSources,
)
    ensures
        discovered_packages(root, include_dirs, src) matches Ok(p) ==> forall|k: int|
            0 <= k < p.len() ==> kept_package(#[trigger] p[k], src.dirs@, include_dir_names(include_dirs)),
{
    match declared_patterns(root, src) {
        Ok(pats) => {
            let sorted = sorted_seq_of(pats.to_set());
            lemma_built_packages_kept(
                sorted_seq_of(candidate_dirs(sorted, src.dirs@)),
                src.dirs@,
                include_dir_names(include_dirs),
            );
        },
        Err(_) => {},
    }
}

/// Re-including a name that discovery does not exclude changes nothing:
/// discovery depends on the configured directories only through the excluded
/// names among them.
pub proof fn law_only_excluded_names_matter(
    root: Seq<char>,
    a: Seq<Seq<char>>,
    b: Seq<Seq<char>>,
    src: WorkspaceSources,
)
    requires
        forall|n: Seq<char>|
            excluded_dir_name(n) ==> (#[trigger] include_dir_names(a).contains(n)
                == include_dir_names(b).contains(n)),
    ensures
        discovered_packages(root, a, src) == discovered_packages(root, b, src),
{
    let ka = include_dir_names(a);
    let kb = include_dir_names(b);
    assert forall|d: Seq<char>| #[trigger] skipped_dir(d, ka) == skipped_dir(d, kb) by {
        if skipped_dir(d, ka) {
            let k = choose|k: int|
                0 <= k < split_on(d, '/').len() && excluded_dir_name(
                    #[trigger] split_on(d, '/')[k],
                ) && !ka.contains(split_on(d, '/')[k]);
            assert(include_dir_names(a).contains(split_on(d, '/')[k]) == include_dir_names(
                b,
            ).contains(split_on(d, '/')[k]));
        }
        if skipped_dir(d, kb) {
            let k = choose|k: int|
                0 <= k < split_on(d, '/').len() && excluded_dir_name(
                    #[trigger] split_on(d, '/')[k],
                ) && !kb.contains(split_on(d, '/')[k]);
            assert(include_dir_names(a).contains(split_on(d, '/')[k]) == include_dir_names(
                b,
            ).contains(split_on(d, '/')[k]));
        }
    }
    match declared_patterns(root, src) {
        Ok(pats) => {
            let sorted = sorted_seq_of(pats.to_set());
            lemma_build_same_skips(sorted_seq_of(candidate_dirs(sorted, src.dirs@)), src.dirs@, ka, kb);
        },
        Err(_) => {},
    }
}

proof fn lemma_build_same_skips(
    cands: Seq<Seq<char>>,
    dirs: Seq<WorkspaceDir>,
    ka: Set<Seq<char>>,
    kb: Set<Seq<char>>,
)
    requires
        forall|d: Seq<char>| #[trigger] skipped_dir(d, ka) == skipped_dir(d, kb),
    ensures
        build_packages(cands, dirs, ka) == build_packages(cands, dirs, kb),
    decreases cands.len(),
{
    if cands.len() > 0 {
        lemma_build_same_skips(cands.drop_last(), dirs, ka, kb);
        assert(skipped_dir(cands.last(), ka) == skipped_dir(cands.last(), kb));
    }
}

/// The packages that discovery finds: the declared patterns, sorted and
/// deduplicated, expanded against the listed directories; each candidate
/// directory in sorted order becomes a package unless one of its segments is
/// excluded, or it holds neither `package.json` nor `src`. A package's module
/// is its last segment unless that name is taken, then its path with `__` for
/// `/`; its files are `src/**/*` when it has `src`, else `**/*`.
pub open spec fn discovered_packages(
    root: Seq<char>,
    include_dirs: Seq<Seq<char>>,
    src: WorkspaceSources,
) -> Result<Seq<PackageView>, WorkspaceIssue> {
    match declared_patterns(root, src) {
        Err(e) => Err(e),
        Ok(pats) => {
            let sorted = sorted_seq_of(pats.to_set());
            match first_pattern_issue(root, src, sorted) {
                Some(e) => Err(e),
                None => Ok(
                    build_packages(
                        sorted_seq_of(candidate_dirs(sorted, src.dirs@)),
                        src.dirs@,
                        include_dir_names(include_dirs),
                    ).0,
                ),
            }
        },
    }
}

/// Finds the workspace packages (see `discovered_packages`); an error of the
/// workspace files or of a pattern fails the discovery.
pub fn discover_workspace_packages_strict(
    project_root: &str,
    config: &SpecConfig,
    sources: &WorkspaceSources,
) -> (r: Result<Vec<WorkspacePackage>, WorkspaceError>)
    ensures
        match r {
            Ok(p) => discovered_packages(project_root@, views(config.include_dirs@), *sources)
                == Ok::<Seq<PackageView>, WorkspaceIssue>(package_views(p@)),
            Err(e) => discovered_packages(project_root@, views(config.include_dirs@), *sources)
                == Err::<Seq<PackageView>, WorkspaceIssue>(e@),
        },
        r is Ok ==> strictly_sorted(package_dirs(package_views(r->Ok_0@))),
{
    let kept = include_dir_set(config.include_dirs.as_slice());
    let declared = match declared_workspace_patterns(project_root, sources) {
        Ok(p) => p,
        Err(e) => {
            return Err(e);
        },
    };
    let sorted = sorted_patterns(&declared);
    let cands = match collect_candidates(project_root, sources, &sorted) {
        Ok(c) => c,
        Err(e) => {
            return Err(e);
        },
    };
    proof {
        lemma_sorted_seq_of(views(cands@));
        lemma_packages_sorted(views(cands@), sources.dirs@, views(kept@).to_set());
    }
    Ok(build_package_list(&cands, &sources.dirs, &kept))
}

/// Finds the workspace packages with the given configuration; any error
/// gives no packages.
pub fn discover_workspace_packages_with_config_best_effort(
    project_root: &str,
    config: &SpecConfig,
    sources: &WorkspaceSources,
) -> (r: Vec<WorkspacePackage>)
    ensures
        package_views(r@) == match discovered_packages(
            project_root@,
            views(config.include_dirs@),
            *sources,
        ) {
            Ok(p) => p,
            Err(_) => Seq::empty(),
        },
{
    match discover_workspace_packages_strict(project_root, config, sources) {
        Ok(p) => p,
        Err(_) => {
            let out: Vec<WorkspacePackage> = Vec::new();
            assert(package_views(out@) =~= Seq::<PackageView>::empty());
            out
        },
    }
}

/// Finds the workspace packages with the default configuration (no
/// directory re-included); any error gives no packages.
pub fn discover_workspace_packages_best_effort(project_root: &str, sources: &WorkspaceSources) -> (r:
    Vec<WorkspacePackage>)
    ensures
        package_views(r@) == match discovered_packages(project_root@, Seq::empty(), *sources) {
            Ok(p) => p,
            Err(_) => Seq::empty(),
        },
{
    let config = SpecConfig::default();
    assert(views(config.include_dirs@) =~= Seq::<Seq<char>>::empty());
    discover_workspace_packages_with_config_best_effort(project_root, &config, sources)
}

} // verus!
