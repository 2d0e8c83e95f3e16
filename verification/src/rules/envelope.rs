//! Envelope analysis: which envelope validation calls a source file makes,
//! read from the file's syntax tree.
use vstd::prelude::*;

use crate::order::{int_order, lemma_int_order_facts, lemma_multiset_map, lemma_seq_order_facts, sort_by_key, sorted_by_key, then, KeyOrdered};
use crate::paths::strings_contain;
use crate::strset::{set_insert, strictly_sorted};
use crate::text::{copy_strings, join_text, join_text_exec, owned, seq_order, split_char, split_on, str_eq, str_order, trim, trim_str, views};
use crate::verdict::format::{char_width, utf8_width};

verus! {

/// How a declared name is bound: a plain identifier, an identifier with a
/// default value, or a destructuring pattern.
#[derive(Debug, PartialEq, Eq)]
pub enum BindingName {
    Ident(String),
    Defaulted(Box<BindingName>),
    Destructured,
}

/// A name an import declaration binds (`namespace` for `* as name`).
#[derive(Debug, Clone, PartialEq, Eq)]
pub struct ImportBinding {
    pub local: String,
    pub namespace: bool,
}

/// A statement or expression of a source file, as far as envelope analysis
/// reads it. Offsets are byte offsets into the source.
#[derive(Debug, PartialEq, Eq)]
pub enum ScriptNode {
    /// A call; a spread argument is a `Spread` node.
    Call { callee: Box<ScriptNode>, arguments: Vec<ScriptNode>, span_start: u32, span_end: u32 },
    /// `object.name`, `object[key]` or `object.#name`; `property` is the
    /// static name where there is one, `computed` the key expression.
    Member { object: Box<ScriptNode>, property: Option<String>, computed: Option<Box<ScriptNode>> },
    Identifier(String),
    StringLiteral(String),
    /// A template literal: its text parts (cooked, else raw) and expressions.
    Template { quasis: Vec<String>, expressions: Vec<ScriptNode> },
    /// A parenthesized expression, or a TypeScript `as`, `satisfies`, type
    /// assertion, non-null or instantiation expression.
    Wrapped(Box<ScriptNode>),
    /// An optional chain.
    Chain(Box<ScriptNode>),
    /// A spread element.
    Spread(Box<ScriptNode>),
    /// A function or arrow function, declared or as an expression.
    Function { name: Option<String>, arrow: bool, body: Vec<ScriptNode>, body_span: Option<(u32, u32)> },
    /// A class: its superclass and its members.
    Class { super_class: Option<Box<ScriptNode>>, members: Vec<ScriptNode> },
    /// A class method: its static key name and its function.
    Method { key: Option<String>, value: Box<ScriptNode> },
    /// A variable declaration: its `Declarator` nodes.
    Variables(Vec<ScriptNode>),
    Declarator { binding: BindingName, init: Option<Box<ScriptNode>> },
    Import { source: String, type_only: bool, bindings: Vec<ImportBinding> },
    /// `export` of a declaration, or of local names (`has_source` for
    /// re-exports from another module).
    ExportNamed { declaration: Option<Box<ScriptNode>>, has_source: bool, locals: Vec<String> },
    /// `export default`: a function or class declaration, or an expression.
    ExportDefault { declaration: Box<ScriptNode>, is_expression: bool },
    /// Anything else: the nodes it contains that are visited, in order.
    Other(Vec<ScriptNode>),
}

/// The expression inside parentheses and TypeScript wrappers.
pub open spec fn inner(e: ScriptNode) -> ScriptNode
    decreases e,
{
    match e {
        ScriptNode::Wrapped(x) => inner(*x),
        _ => e,
    }
}

fn inner_exec(e: &ScriptNode) -> (r: &ScriptNode)
    ensures
        *r == inner(*e),
    decreases e,
{
    match e {
        ScriptNode::Wrapped(x) => inner_exec(x),
        _ => e,
    }
}

/// The identifier an expression is, looking through wrappers.
pub open spec fn identifier_name(e: ScriptNode) -> Option<Seq<char>> {
    match inner(e) {
        ScriptNode::Identifier(n) => Some(n@),
        _ => None,
    }
}

fn identifier_name_exec(e: &ScriptNode) -> (r: Option<&str>)
    ensures
        match r {
            Some(n) => identifier_name(*e) == Some(n@),
            None => identifier_name(*e) is None,
        },
{
    match inner_exec(e) {
        ScriptNode::Identifier(n) => Some(n.as_str()),
        _ => None,
    }
}

/// The (object, static property name) of a member expression, looking
/// through wrappers and an optional chain.
pub open spec fn member_parts(e: ScriptNode) -> Option<(ScriptNode, Option<Seq<char>>)> {
    let m = match inner(e) {
        ScriptNode::Chain(c) => *c,
        x => x,
    };
    match m {
        ScriptNode::Member { object, property, .. } => Some((*object, opt_view(property))),
        _ => None,
    }
}

pub open spec fn opt_view(o: Option<String>) -> Option<Seq<char>> {
    match o {
        Some(s) => Some(s@),
        None => None,
    }
}

fn member_parts_exec(e: &ScriptNode) -> (r: Option<(&ScriptNode, Option<&str>)>)
    ensures
        match r {
            Some((o, p)) => member_parts(*e) == Some((*o, match p {
                Some(t) => Some(t@),
                None => None::<Seq<char>>,
            })),
            None => member_parts(*e) is None,
        },
{
    let i = inner_exec(e);
    let m = match i {
        ScriptNode::Chain(c) => &**c,
        _ => i,
    };
    match m {
        ScriptNode::Member { object, property, .. } => {
            let p = match property {
                Some(t) => Some(t.as_str()),
                None => None,
            };
            Some((&**object, p))
        },
        _ => None,
    }
}

/// The identifier under `expected` in `ns.expected`, for namespace imports.
pub open spec fn namespace_object(obj: ScriptNode, expected: Seq<char>) -> Option<Seq<char>> {
    match inner(obj) {
        ScriptNode::Member { object, property, .. } => if opt_view(property) == Some(expected) {
            identifier_name(*object)
        } else {
            None
        },
        _ => None,
    }
}

fn namespace_object_exec<'a>(obj: &'a ScriptNode, expected: &str) -> (r: Option<&'a str>)
    ensures
        match r {
            Some(n) => namespace_object(*obj, expected@) == Some(n@),
            None => namespace_object(*obj, expected@) is None,
        },
{
    match inner_exec(obj) {
        ScriptNode::Member { object, property, .. } => match property {
            Some(p) => if str_eq(p.as_str(), expected) {
                identifier_name_exec(object)
            } else {
                None
            },
            None => None,
        },
        _ => None,
    }
}

/// The contract id given as a call argument: a string literal, or a template
/// literal without expressions, looking through wrappers.
pub open spec fn contract_id(arg: ScriptNode) -> Option<Seq<char>> {
    match arg {
        ScriptNode::Spread(_) => None,
        _ => match inner(arg) {
            ScriptNode::StringLiteral(s) => Some(s@),
            ScriptNode::Template { quasis, expressions } => if expressions@.len() == 0 {
                Some(join_text(views(quasis@), ""@))
            } else {
                None
            },
            _ => None,
        },
    }
}

fn contract_id_exec(arg: &ScriptNode) -> (r: Option<String>)
    ensures
        match r {
            Some(s) => contract_id(*arg) == Some(s@),
            None => contract_id(*arg) is None,
        },
{
    match arg {
        ScriptNode::Spread(_) => None,
        _ => match inner_exec(arg) {
            ScriptNode::StringLiteral(s) => Some(s.clone()),
            ScriptNode::Template { quasis, expressions } => if expressions.len() == 0 {
                Some(join_text_exec(quasis, ""))
            } else {
                None
            },
            _ => None,
        },
    }
}

/// The module a `require("...")` call names.
pub open spec fn require_source(callee: ScriptNode, args: Seq<ScriptNode>) -> Option<Seq<char>> {
    if identifier_name(callee) == Some("require"@) && args.len() == 1 {
        match args[0] {
            ScriptNode::StringLiteral(s) => Some(s@),
            _ => None,
        }
    } else {
        None
    }
}

fn require_source_exec<'a>(callee: &ScriptNode, args: &'a Vec<ScriptNode>) -> (r: Option<&'a str>)
    ensures
        match r {
            Some(s) => require_source(*callee, args@) == Some(s@),
            None => require_source(*callee, args@) is None,
        },
{
    match identifier_name_exec(callee) {
        Some(n) => {
            if !str_eq(n, "require") || args.len() != 1 {
                proof {
                    reveal_strlit("require");
                }
                return None;
            }
        },
        None => {
            return None;
        },
    }
    match &args[0] {
        ScriptNode::StringLiteral(s) => Some(s.as_str()),
        _ => None,
    }
}

/// Result of analyzing a single file for envelope compliance.
#[derive(Debug, Clone)]
pub struct EnvelopeAnalysis {
    pub has_envelope_import: bool,
    pub import_bindings: Vec<String>,
    pub is_type_only_import: bool,
    pub calls: Vec<EnvelopeCall>,
}

/// One envelope validation call found in a file.
#[derive(Debug, Clone)]
pub struct EnvelopeCall {
    pub contract_id: String,
    pub line: usize,
    pub column: usize,
    pub span_start: u32,
    pub span_end: u32,
}

/// Why a file could not be analyzed.
#[derive(Debug)]
pub enum EnvelopeError {
    FileRead(String),
    Parse(String),
}

/// A call lies within `[span_start, span_end]`.
pub open spec fn call_within(c: EnvelopeCall, span_start: u32, span_end: u32) -> bool {
    c.span_start >= span_start && c.span_end <= span_end
}

/// The calls that lie within the given byte span, in their order.
pub fn filter_calls_by_span(calls: &[EnvelopeCall], span_start: u32, span_end: u32) -> (r: Vec<&EnvelopeCall>)
    ensures
        r@.map_values(|c: &EnvelopeCall| *c) == calls@.filter(|c: EnvelopeCall| call_within(c, span_start, span_end)),
{
    let mut out: Vec<&EnvelopeCall> = Vec::new();
    let mut i: usize = 0;
    while i < calls.len()
        invariant
            i <= calls@.len(),
            out@.map_values(|c: &EnvelopeCall| *c) == calls@.take(i as int).filter(
                |c: EnvelopeCall| call_within(c, span_start, span_end),
            ),
        decreases calls@.len() - i,
    {
        let c = &calls[i];
        let ghost prev = out@.map_values(|c: &EnvelopeCall| *c);
        assert(calls@.take(i + 1).drop_last() =~= calls@.take(i as int));
        assert(calls@.take(i + 1).last() == calls@[i as int]);
        reveal(Seq::filter);
        if c.span_start >= span_start && c.span_end <= span_end {
            out.push(c);
            assert(out@.map_values(|c: &EnvelopeCall| *c) =~= prev.push(*c));
        } else {
            assert(out@.map_values(|c: &EnvelopeCall| *c) =~= prev);
        }
        i = i + 1;
    }
    assert(calls@.take(i as int) =~= calls@);
    out
}

/// What the walk matches against: import patterns, the parts of the
/// function pattern, the runtime import bindings, the namespace import
/// bindings, and the byte offsets where lines start.
pub type WalkRules = (Seq<Seq<char>>, Seq<Seq<char>>, Set<Seq<char>>, Set<Seq<char>>, Seq<int>);

/// A found call: (contract id, line, column, span start, span end).
pub type CallModel = (Seq<char>, int, int, u32, u32);

pub open spec fn call_model(c: EnvelopeCall) -> CallModel {
    (c.contract_id@, c.line as int, c.column as int, c.span_start, c.span_end)
}

pub open spec fn call_models(v: Seq<EnvelopeCall>) -> Seq<CallModel> {
    v.map_values(|c: EnvelopeCall| call_model(c))
}

/// Number of line starts at or before `x` (line starts are ascending).
pub open spec fn first_above(starts: Seq<int>, x: int) -> int
    decreases starts.len(),
{
    if starts.len() == 0 {
        0
    } else if starts[0] > x {
        0
    } else {
        1 + first_above(starts.drop_first(), x)
    }
}

/// The 1-based line of a byte offset.
pub open spec fn line_of(starts: Seq<int>, offset: int) -> int {
    first_above(starts, offset)
}

/// The 0-based byte column of a byte offset within its line.
pub open spec fn column_of(starts: Seq<int>, offset: int) -> int {
    offset - starts[first_above(starts, offset) - 1]
}

proof fn lemma_first_above(starts: Seq<int>, x: int)
    ensures
        0 <= first_above(starts, x) <= starts.len(),
        forall|k: int| 0 <= k < first_above(starts, x) ==> starts[k] <= x,
        starts.len() > 0 && starts[0] <= x ==> first_above(starts, x) >= 1,
    decreases starts.len(),
{
    if starts.len() > 0 && starts[0] <= x {
        lemma_first_above(starts.drop_first(), x);
        assert forall|k: int| 0 <= k < first_above(starts, x) implies starts[k] <= x by {
            if k > 0 {
                assert(starts.drop_first()[k - 1] == starts[k]);
            }
        }
    }
}

/// Bytes of the UTF-8 encoding of a text.
pub open spec fn byte_len(s: Seq<char>) -> int
    decreases s.len(),
{
    if s.len() == 0 {
        0
    } else {
        byte_len(s.drop_last()) + utf8_width(s.last())
    }
}

/// Byte offsets where lines start: 0, and just after each newline.
pub open spec fn line_starts(s: Seq<char>) -> Seq<int>
    decreases s.len(),
{
    if s.len() == 0 {
        seq![0]
    } else if s.last() == '\n' {
        line_starts(s.drop_last()).push(byte_len(s))
    } else {
        line_starts(s.drop_last())
    }
}

proof fn lemma_line_starts(s: Seq<char>)
    ensures
        line_starts(s).len() >= 1,
        line_starts(s)[0] == 0,
        byte_len(s) >= 0,
    decreases s.len(),
{
    if s.len() > 0 {
        lemma_line_starts(s.drop_last());
    }
}

proof fn lemma_byte_len_prefix(s: Seq<char>, k: int)
    requires
        0 <= k <= s.len(),
    ensures
        0 <= byte_len(s.take(k)) <= byte_len(s),
    decreases s.len() - k,
{
    if k < s.len() {
        lemma_byte_len_prefix(s, k + 1);
        assert(s.take(k + 1).drop_last() =~= s.take(k));
    } else {
        assert(s.take(k) =~= s);
        lemma_line_starts(s);
    }
    lemma_line_starts(s.take(k));
}

fn compute_line_starts(source: &str) -> (r: Vec<usize>)
    requires
        byte_len(source@) <= usize::MAX,
    ensures
        r@.map_values(|x: usize| x as int) == line_starts(source@),
{
    let mut starts: Vec<usize> = Vec::new();
    starts.push(0);
    let n = source.unicode_len();
    let mut pos: usize = 0;
    let mut k: usize = 0;
    assert(source@.take(0) =~= Seq::<char>::empty());
    assert(starts@.map_values(|x: usize| x as int) =~= seq![0int]);
    while k < n
        invariant
            n == source@.len(),
            k <= n,
            byte_len(source@) <= usize::MAX,
            pos as int == byte_len(source@.take(k as int)),
            starts@.map_values(|x: usize| x as int) == line_starts(source@.take(k as int)),
        decreases n - k,
    {
        let c = source.get_char(k);
        let ghost t = source@.take(k + 1);
        assert(t.drop_last() =~= source@.take(k as int));
        assert(t.last() == c);
        proof {
            lemma_byte_len_prefix(source@, k + 1);
        }
        pos = pos + char_width(c);
        if c == '\n' {
            let ghost before = starts@.map_values(|x: usize| x as int);
            starts.push(pos);
            assert(starts@.map_values(|x: usize| x as int) =~= before.push(pos as int));
        }
        k = k + 1;
    }
    assert(source@.take(k as int) =~= source@);
    starts
}

/// Line and column of a byte offset.
fn line_col(starts: &Vec<usize>, offset: u32) -> (r: (usize, usize))
    requires
        starts@.len() > 0,
        starts@[0] == 0,
    ensures
        r.0 as int == line_of(starts@.map_values(|x: usize| x as int), offset as int),
        r.1 as int == column_of(starts@.map_values(|x: usize| x as int), offset as int),
{
    let ghost ss = starts@.map_values(|x: usize| x as int);
    let off = offset as usize;
    let mut i: usize = 0;
    assert(ss.skip(0) =~= ss);
    while i < starts.len() && starts[i] <= off
        invariant
            ss == starts@.map_values(|x: usize| x as int),
            off == offset as int,
            i <= starts@.len(),
            first_above(ss, off as int) == i + first_above(ss.skip(i as int), off as int),
            forall|k: int| 0 <= k < i ==> ss[k] <= off,
        decreases starts@.len() - i,
    {
        let ghost rest = ss.skip(i as int);
        assert(rest[0] == ss[i as int]);
        assert(rest.drop_first() =~= ss.skip(i + 1));
        i = i + 1;
    }
    if i < starts.len() {
        assert(ss.skip(i as int)[0] == ss[i as int]);
    }
    assert(ss[0] == 0);
    assert(i >= 1);
    assert(ss[i - 1] == starts@[i - 1] as int);
    (i, off - starts[i - 1])
}

/// The non-blank, trimmed `.`-separated parts of a function pattern.
pub open spec fn pattern_parts(pattern: Seq<char>) -> Seq<Seq<char>> {
    split_on(pattern, '.').map_values(|p: Seq<char>| trim(p)).filter(|p: Seq<char>| p.len() > 0)
}

fn pattern_parts_exec(pattern: &str) -> (r: Vec<String>)
    ensures
        views(r@) == pattern_parts(pattern@),
{
    let pieces = split_char(pattern, '.');
    let ghost ps = views(pieces@).map_values(|p: Seq<char>| trim(p));
    let mut out: Vec<String> = Vec::new();
    let mut i: usize = 0;
    while i < pieces.len()
        invariant
            i <= pieces@.len(),
            ps == views(pieces@).map_values(|p: Seq<char>| trim(p)),
            views(out@) == ps.take(i as int).filter(|p: Seq<char>| p.len() > 0),
        decreases pieces@.len() - i,
    {
        let t = trim_str(pieces[i].as_str());
        let ghost prev = views(out@);
        assert(ps.take(i + 1).drop_last() =~= ps.take(i as int));
        assert(ps.take(i + 1).last() == t@);
        reveal(Seq::filter);
        if t.unicode_len() > 0 {
            out.push(owned(t));
            assert(views(out@) =~= prev.push(t@));
        }
        i = i + 1;
    }
    assert(ps.take(i as int) =~= ps);
    out
}

/// Whether a call's callee is the envelope validation function.
pub open spec fn matches_call_pattern(rules: WalkRules, has_import: bool, callee: ScriptNode) -> bool {
    let parts = rules.1;
    if parts.len() == 0 {
        false
    } else if parts.len() == 1 {
        identifier_name(callee) == Some(parts[0]) && rules.2.contains(parts[0])
    } else {
        match member_parts(callee) {
            None => false,
            Some((obj, prop)) => if prop != Some(parts[1]) {
                false
            } else {
                match identifier_name(obj) {
                    Some(id) => rules.2.contains(id) || (has_import && id == parts[0]),
                    None => match namespace_object(obj, parts[0]) {
                        Some(ns) => rules.3.contains(ns),
                        None => false,
                    },
                }
            },
        }
    }
}

/// The walk state after meeting a call: a `require` of an envelope module
/// counts as an import, and a matching call with a contract id is recorded.
pub open spec fn collect_call(
    rules: WalkRules,
    st: (bool, Seq<CallModel>),
    callee: ScriptNode,
    args: Seq<ScriptNode>,
    span_start: u32,
    span_end: u32,
) -> (bool, Seq<CallModel>) {
    let has = st.0 || (require_source(callee, args) matches Some(m) && rules.0.contains(m));
    if matches_call_pattern(rules, has, callee) && args.len() > 0 && contract_id(args[0]) is Some {
        (
            has,
            st.1.push(
                (
                    contract_id(args[0]).unwrap(),
                    line_of(rules.4, span_start as int),
                    column_of(rules.4, span_start as int),
                    span_start,
                    span_end,
                ),
            ),
        )
    } else {
        (has, st.1)
    }
}

/// The walk state after visiting a node: calls are met before their callee
/// and arguments, children in source order.
pub open spec fn visit(rules: WalkRules, st: (bool, Seq<CallModel>), n: ScriptNode) -> (bool, Seq<CallModel>)
    decreases n,
{
    match n {
        ScriptNode::Call { callee, arguments, span_start, span_end } => {
            let s1 = collect_call(rules, st, *callee, arguments@, span_start, span_end);
            let s2 = visit(rules, s1, *callee);
            visit_all(rules, s2, arguments@)
        },
        ScriptNode::Member { object, property, computed } => {
            let s1 = visit(rules, st, *object);
            match computed {
                Some(c) => visit(rules, s1, *c),
                None => s1,
            }
        },
        ScriptNode::Template { quasis, expressions } => visit_all(rules, st, expressions@),
        ScriptNode::Wrapped(x) => visit(rules, st, *x),
        ScriptNode::Chain(x) => visit(rules, st, *x),
        ScriptNode::Spread(x) => visit(rules, st, *x),
        ScriptNode::Function { body, .. } => visit_all(rules, st, body@),
        ScriptNode::Class { super_class, members } => {
            let s1 = match super_class {
                Some(c) => visit(rules, st, *c),
                None => st,
            };
            visit_all(rules, s1, members@)
        },
        ScriptNode::Method { value, .. } => visit(rules, st, *value),
        ScriptNode::Variables(ds) => visit_all(rules, st, ds@),
        ScriptNode::Declarator { init, .. } => match init {
            Some(i) => visit(rules, st, *i),
            None => st,
        },
        ScriptNode::ExportNamed { declaration, .. } => match declaration {
            Some(d) => visit(rules, st, *d),
            None => st,
        },
        ScriptNode::ExportDefault { declaration, is_expression } => if is_expression {
            visit(rules, st, *declaration)
        } else {
            st
        },
        ScriptNode::Other(children) => visit_all(rules, st, children@),
        _ => st,
    }
}

/// The walk state after visiting nodes in order.
pub open spec fn visit_all(rules: WalkRules, st: (bool, Seq<CallModel>), ns: Seq<ScriptNode>) -> (bool, Seq<CallModel>)
    decreases ns,
{
    if ns.len() == 0 {
        st
    } else {
        visit(rules, visit_all(rules, st, ns.drop_last()), ns.last())
    }
}

/// The fixed inputs of a walk.
struct Analyzer {
    import_patterns: Vec<String>,
    pattern_parts: Vec<String>,
    import_bindings: Vec<String>,
    namespace_bindings: Vec<String>,
    line_starts: Vec<usize>,
}

impl Analyzer {
    spec fn rules(&self) -> WalkRules {
        (
            views(self.import_patterns@),
            views(self.pattern_parts@),
            views(self.import_bindings@).to_set(),
            views(self.namespace_bindings@).to_set(),
            self.line_starts@.map_values(|x: usize| x as int),
        )
    }

    spec fn well_formed(&self) -> bool {
        self.line_starts@.len() > 0 && self.line_starts@[0] == 0
    }
}

fn matches_call_pattern_exec(an: &Analyzer, has_import: bool, callee: &ScriptNode) -> (r: bool)
    ensures
        r == matches_call_pattern(an.rules(), has_import, *callee),
{
    let parts = &an.pattern_parts;
    if parts.len() == 0 {
        return false;
    }
    if parts.len() == 1 {
        proof {
            if views(an.import_bindings@).to_set().contains(parts@[0]@) {
                let k = choose|k: int| 0 <= k < views(an.import_bindings@).len() && views(an.import_bindings@)[k] == parts@[0]@;
            }
        }
        return match identifier_name_exec(callee) {
            Some(n) => str_eq(n, parts[0].as_str()) && strings_contain(&an.import_bindings, parts[0].as_str()),
            None => false,
        };
    }
    let (obj, prop) = match member_parts_exec(callee) {
        Some(x) => x,
        None => {
            return false;
        },
    };
    match prop {
        Some(p) => if !str_eq(p, parts[1].as_str()) {
            return false;
        },
        None => {
            return false;
        },
    }
    match identifier_name_exec(obj) {
        Some(id) => {
            proof {
                if views(an.import_bindings@).to_set().contains(id@) {
                    let k = choose|k: int| 0 <= k < views(an.import_bindings@).len() && views(an.import_bindings@)[k] == id@;
                }
            }
            strings_contain(&an.import_bindings, id) || (has_import && str_eq(id, parts[0].as_str()))
        },
        None => match namespace_object_exec(obj, parts[0].as_str()) {
            Some(ns) => {
                proof {
                    if views(an.namespace_bindings@).to_set().contains(ns@) {
                        let k = choose|k: int|
                            0 <= k < views(an.namespace_bindings@).len() && views(an.namespace_bindings@)[k] == ns@;
                    }
                }
                strings_contain(&an.namespace_bindings, ns)
            },
            None => false,
        },
    }
}

fn collect_call_exec(
    an: &Analyzer,
    callee: &ScriptNode,
    args: &Vec<ScriptNode>,
    span_start: u32,
    span_end: u32,
    has: &mut bool,
    calls: &mut Vec<EnvelopeCall>,
)
    requires
        an.well_formed(),
    ensures
        (*final(has), call_models(final(calls)@)) == collect_call(
            an.rules(),
            (*old(has), call_models(old(calls)@)),
            *callee,
            args@,
            span_start,
            span_end,
        ),
{
    match require_source_exec(callee, args) {
        Some(m) => {
            proof {
                if views(an.import_patterns@).to_set().contains(m@) {
                    let k = choose|k: int| 0 <= k < views(an.import_patterns@).len() && views(an.import_patterns@)[k] == m@;
                }
            }
            if strings_contain(&an.import_patterns, m) {
                *has = true;
            }
        },
        None => {},
    }
    if !matches_call_pattern_exec(an, *has, callee) || args.len() == 0 {
        return;
    }
    let id = match contract_id_exec(&args[0]) {
        Some(id) => id,
        None => {
            return;
        },
    };
    let (line, column) = line_col(&an.line_starts, span_start);
    let ghost before = call_models(calls@);
    calls.push(EnvelopeCall { contract_id: id, line, column, span_start, span_end });
    assert(call_models(calls@) =~= before.push(
        (id@, line as int, column as int, span_start, span_end),
    ));
}

fn visit_node(an: &Analyzer, n: &ScriptNode, has: &mut bool, calls: &mut Vec<EnvelopeCall>)
    requires
        an.well_formed(),
    ensures
        (*final(has), call_models(final(calls)@)) == visit(an.rules(), (*old(has), call_models(old(calls)@)), *n),
    decreases n,
{
    match n {
        ScriptNode::Call { callee, arguments, span_start, span_end } => {
            collect_call_exec(an, callee, arguments, *span_start, *span_end, has, calls);
            visit_node(an, callee, has, calls);
            visit_nodes(an, arguments, has, calls);
        },
        ScriptNode::Member { object, computed, .. } => {
            visit_node(an, object, has, calls);
            match computed {
                Some(c) => visit_node(an, c, has, calls),
                None => {},
            }
        },
        ScriptNode::Template { expressions, .. } => visit_nodes(an, expressions, has, calls),
        ScriptNode::Wrapped(x) => visit_node(an, x, has, calls),
        ScriptNode::Chain(x) => visit_node(an, x, has, calls),
        ScriptNode::Spread(x) => visit_node(an, x, has, calls),
        ScriptNode::Function { body, .. } => visit_nodes(an, body, has, calls),
        ScriptNode::Class { super_class, members } => {
            match super_class {
                Some(c) => visit_node(an, c, has, calls),
                None => {},
            }
            visit_nodes(an, members, has, calls);
        },
        ScriptNode::Method { value, .. } => visit_node(an, value, has, calls),
        ScriptNode::Variables(ds) => visit_nodes(an, ds, has, calls),
        ScriptNode::Declarator { init, .. } => match init {
            Some(i) => visit_node(an, i, has, calls),
            None => {},
        },
        ScriptNode::ExportNamed { declaration, .. } => match declaration {
            Some(d) => visit_node(an, d, has, calls),
            None => {},
        },
        ScriptNode::ExportDefault { declaration, is_expression } => {
            if *is_expression {
                visit_node(an, declaration, has, calls);
            }
        },
        ScriptNode::Other(children) => visit_nodes(an, children, has, calls),
        _ => {},
    }
}

fn visit_nodes(an: &Analyzer, ns: &Vec<ScriptNode>, has: &mut bool, calls: &mut Vec<EnvelopeCall>)
    requires
        an.well_formed(),
    ensures
        (*final(has), call_models(final(calls)@)) == visit_all(an.rules(), (*old(has), call_models(old(calls)@)), ns@),
    decreases ns,
{
    let ghost st0 = (*has, call_models(calls@));
    let mut i: usize = 0;
    assert(ns@.take(0) =~= Seq::<ScriptNode>::empty());
    while i < ns.len()
        invariant
            an.well_formed(),
            i <= ns@.len(),
            (*has, call_models(calls@)) == visit_all(an.rules(), st0, ns@.take(i as int)),
        decreases ns@.len() - i,
    {
        proof {
            assert(decreases_to!(ns => ns@));
            assert(decreases_to!(ns@ => ns@[i as int]));
        }
        assert(ns@.take(i + 1).drop_last() =~= ns@.take(i as int));
        assert(ns@.take(i + 1).last() == ns@[i as int]);
        visit_node(an, &ns[i], has, calls);
        i = i + 1;
    }
    assert(ns@.take(i as int) =~= ns@);
}

/// Whether `n` imports one of `patterns`, type-only or not as asked.
pub open spec fn is_envelope_import(patterns: Seq<Seq<char>>, n: ScriptNode, type_only: bool) -> bool {
    match n {
        ScriptNode::Import { source, type_only: t, .. } => patterns.contains(source@) && t == type_only,
        _ => false,
    }
}

pub open spec fn import_bindings_of(n: ScriptNode) -> Seq<ImportBinding> {
    match n {
        ScriptNode::Import { bindings, .. } => bindings@,
        _ => Seq::empty(),
    }
}

/// The local names of the namespace (or the other) bindings in `bs`.
pub open spec fn binding_names(bs: Seq<ImportBinding>, namespace: bool) -> Set<Seq<char>> {
    Set::new(|x: Seq<char>| exists|j: int| 0 <= j < bs.len() && #[trigger] bs[j].namespace == namespace && bs[j].local@ == x)
}

/// The names bound by the runtime (not type-only) imports of envelope
/// modules among `stmts`: namespace bindings, or the others.
pub open spec fn import_names(patterns: Seq<Seq<char>>, stmts: Seq<ScriptNode>, namespace: bool) -> Set<Seq<char>>
    decreases stmts.len(),
{
    if stmts.len() == 0 {
        Set::empty()
    } else {
        import_names(patterns, stmts.drop_last(), namespace) + if is_envelope_import(patterns, stmts.last(), false) {
            binding_names(import_bindings_of(stmts.last()), namespace)
        } else {
            Set::empty()
        }
    }
}

/// Some statement is an import of an envelope module, type-only or not as
/// asked (with at least one binding where `binds`).
pub open spec fn has_import(patterns: Seq<Seq<char>>, stmts: Seq<ScriptNode>, type_only: bool, binds: bool) -> bool {
    exists|i: int|
        0 <= i < stmts.len() && #[trigger] is_envelope_import(patterns, stmts[i], type_only) && (binds ==> import_bindings_of(
            stmts[i],
        ).len() > 0)
}

proof fn lemma_has_import_step(patterns: Seq<Seq<char>>, stmts: Seq<ScriptNode>, i: int, t: bool, b: bool)
    requires
        0 <= i < stmts.len(),
    ensures
        has_import(patterns, stmts.take(i + 1), t, b) == (has_import(patterns, stmts.take(i), t, b) || (
        is_envelope_import(patterns, stmts[i], t) && (b ==> import_bindings_of(stmts[i]).len() > 0))),
{
    let p = stmts.take(i);
    let q = stmts.take(i + 1);
    if has_import(patterns, q, t, b) {
        let k = choose|k: int|
            0 <= k < q.len() && #[trigger] is_envelope_import(patterns, q[k], t) && (b ==> import_bindings_of(q[k]).len() > 0);
        if k < i {
            assert(p[k] == q[k]);
            assert(is_envelope_import(patterns, p[k], t));
        }
    }
    if has_import(patterns, p, t, b) {
        let k = choose|k: int|
            0 <= k < p.len() && #[trigger] is_envelope_import(patterns, p[k], t) && (b ==> import_bindings_of(p[k]).len() > 0);
        assert(q[k] == p[k]);
        assert(is_envelope_import(patterns, q[k], t));
    }
    if is_envelope_import(patterns, stmts[i], t) {
        assert(q[i] == stmts[i]);
    }
}

/// What the import declarations of a program say: runtime bindings,
/// namespace bindings, whether a runtime import binds a name, and whether
/// a type-only and a runtime import of an envelope module were seen.
struct ImportInfo {
    bindings: Vec<String>,
    namespaces: Vec<String>,
    binds: bool,
    saw_type_only: bool,
    saw_runtime: bool,
}

fn collect_import_info(patterns: &Vec<String>, stmts: &Vec<ScriptNode>) -> (r: ImportInfo)
    ensures
        strictly_sorted(views(r.bindings@)),
        views(r.bindings@).to_set() == import_names(views(patterns@), stmts@, false),
        views(r.namespaces@).to_set() == import_names(views(patterns@), stmts@, true),
        r.binds == has_import(views(patterns@), stmts@, false, true),
        r.saw_type_only == has_import(views(patterns@), stmts@, true, false),
        r.saw_runtime == has_import(views(patterns@), stmts@, false, false),
{
    let ghost ps = views(patterns@);
    let mut info = ImportInfo {
        bindings: Vec::new(),
        namespaces: Vec::new(),
        binds: false,
        saw_type_only: false,
        saw_runtime: false,
    };
    let mut i: usize = 0;
    assert(views(info.bindings@).to_set() =~= Set::<Seq<char>>::empty());
    assert(views(info.namespaces@).to_set() =~= Set::<Seq<char>>::empty());
    assert(stmts@.take(0) =~= Seq::<ScriptNode>::empty());
    while i < stmts.len()
        invariant
            ps == views(patterns@),
            i <= stmts@.len(),
            strictly_sorted(views(info.bindings@)),
            strictly_sorted(views(info.namespaces@)),
            views(info.bindings@).to_set() == import_names(ps, stmts@.take(i as int), false),
            views(info.namespaces@).to_set() == import_names(ps, stmts@.take(i as int), true),
            info.binds == has_import(ps, stmts@.take(i as int), false, true),
            info.saw_type_only == has_import(ps, stmts@.take(i as int), true, false),
            info.saw_runtime == has_import(ps, stmts@.take(i as int), false, false),
        decreases stmts@.len() - i,
    {
        let ghost t = stmts@.take(i + 1);
        assert(t.drop_last() =~= stmts@.take(i as int));
        assert(t.last() == stmts@[i as int]);
        proof {
            lemma_has_import_step(ps, stmts@, i as int, false, true);
            lemma_has_import_step(ps, stmts@, i as int, true, false);
            lemma_has_import_step(ps, stmts@, i as int, false, false);
        }
        match &stmts[i] {
            ScriptNode::Import { source, type_only, bindings } => {
                if strings_contain(patterns, source.as_str()) {
                    if *type_only {
                        info.saw_type_only = true;
                        assert(views(info.bindings@).to_set() =~= import_names(ps, t, false));
                        assert(views(info.namespaces@).to_set() =~= import_names(ps, t, true));
                    } else {
                        info.saw_runtime = true;
                        let ghost b0 = views(info.bindings@).to_set();
                        let ghost n0 = views(info.namespaces@).to_set();
                        let ghost binds0 = info.binds;
                        let ghost type0 = info.saw_type_only;
                        let mut j: usize = 0;
                        while j < bindings.len()
                            invariant
                                j <= bindings@.len(),
                                info.binds == binds0,
                                info.saw_type_only == type0,
                                info.saw_runtime,
                                strictly_sorted(views(info.bindings@)),
                                strictly_sorted(views(info.namespaces@)),
                                views(info.bindings@).to_set() == b0 + binding_names(bindings@.take(j as int), false),
                                views(info.namespaces@).to_set() == n0 + binding_names(bindings@.take(j as int), true),
                            decreases bindings@.len() - j,
                        {
                            let b = &bindings[j];
                            let ghost bt = bindings@.take(j + 1);
                            proof {
                                assert forall|ns: bool| #[trigger] binding_names(bt, ns) =~= if b.namespace == ns {
                                    binding_names(bindings@.take(j as int), ns).insert(b.local@)
                                } else {
                                    binding_names(bindings@.take(j as int), ns)
                                } by {
                                    assert forall|x: Seq<char>| binding_names(bt, ns).contains(x) implies (if b.namespace == ns {
                                        binding_names(bindings@.take(j as int), ns).insert(b.local@)
                                    } else {
                                        binding_names(bindings@.take(j as int), ns)
                                    }).contains(x) by {
                                        let k = choose|k: int| 0 <= k < bt.len() && #[trigger] bt[k].namespace == ns && bt[k].local@ == x;
                                        if k < j {
                                            assert(bindings@.take(j as int)[k] == bt[k]);
                                        }
                                    }
                                    assert forall|x: Seq<char>| (if b.namespace == ns {
                                        binding_names(bindings@.take(j as int), ns).insert(b.local@)
                                    } else {
                                        binding_names(bindings@.take(j as int), ns)
                                    }).contains(x) implies binding_names(bt, ns).contains(x) by {
                                        if binding_names(bindings@.take(j as int), ns).contains(x) {
                                            let k = choose|k: int|
                                                0 <= k < j && #[trigger] bindings@.take(j as int)[k].namespace == ns
                                                    && bindings@.take(j as int)[k].local@ == x;
                                            assert(bt[k] == bindings@.take(j as int)[k]);
                                        } else {
                                            assert(bt[j as int] == *b);
                                        }
                                    }
                                }
                            }
                            if b.namespace {
                                set_insert(&mut info.namespaces, b.local.clone());
                            } else {
                                set_insert(&mut info.bindings, b.local.clone());
                            }
                            assert(views(info.bindings@).to_set() =~= b0 + binding_names(bt, false));
                            assert(views(info.namespaces@).to_set() =~= n0 + binding_names(bt, true));
                            j = j + 1;
                        }
                        assert(bindings@.take(j as int) =~= bindings@);
                        if bindings.len() > 0 {
                            info.binds = true;
                        }
                        assert(views(info.bindings@).to_set() =~= import_names(ps, t, false));
                        assert(views(info.namespaces@).to_set() =~= import_names(ps, t, true));
                    }
                } else {
                    assert(views(info.bindings@).to_set() =~= import_names(ps, t, false));
                    assert(views(info.namespaces@).to_set() =~= import_names(ps, t, true));
                }
            },
            _ => {
                assert(views(info.bindings@).to_set() =~= import_names(ps, t, false));
                assert(views(info.namespaces@).to_set() =~= import_names(ps, t, true));
            },
        }
        i = i + 1;
    }
    assert(stmts@.take(i as int) =~= stmts@);
    info
}

/// The first `Some` of a sequence.
pub open spec fn first_some(s: Seq<Option<(u32, u32)>>) -> Option<(u32, u32)>
    decreases s.len(),
{
    if s.len() == 0 {
        None
    } else if s[0] is Some {
        s[0]
    } else {
        first_some(s.drop_first())
    }
}

proof fn lemma_first_some_step(s: Seq<Option<(u32, u32)>>, i: int)
    requires
        0 <= i < s.len(),
        s[i] is None,
    ensures
        first_some(s.skip(i)) == first_some(s.skip(i + 1)),
{
    assert(s.skip(i)[0] == s[i]);
    assert(s.skip(i).drop_first() =~= s.skip(i + 1));
}

/// The body span of a function named `name`.
pub open spec fn named_body_span(f: ScriptNode, name: Seq<char>) -> Option<(u32, u32)> {
    match f {
        ScriptNode::Function { name: Some(n), body_span, .. } => if n@ == name {
            body_span
        } else {
            None
        },
        _ => None,
    }
}

fn named_body_span_exec(f: &ScriptNode, name: &str) -> (r: Option<(u32, u32)>)
    ensures
        r == named_body_span(*f, name@),
{
    match f {
        ScriptNode::Function { name: Some(n), body_span, .. } => if str_eq(n.as_str(), name) {
            *body_span
        } else {
            None
        },
        _ => None,
    }
}

/// A binding names `name`, possibly with a default value.
pub open spec fn binding_matches(b: BindingName, name: Seq<char>) -> bool
    decreases b,
{
    match b {
        BindingName::Ident(n) => n@ == name,
        BindingName::Defaulted(x) => binding_matches(*x, name),
        BindingName::Destructured => false,
    }
}

fn binding_matches_exec(b: &BindingName, name: &str) -> (r: bool)
    ensures
        r == binding_matches(*b, name@),
    decreases b,
{
    match b {
        BindingName::Ident(n) => str_eq(n.as_str(), name),
        BindingName::Defaulted(x) => binding_matches_exec(x, name),
        BindingName::Destructured => false,
    }
}

/// The span of a function-like initializer: a function's body, or a call
/// taking a function (a wrapper around one).
pub open spec fn initializer_span(e: ScriptNode) -> Option<(u32, u32)> {
    match e {
        ScriptNode::Function { body_span, .. } => body_span,
        ScriptNode::Call { arguments, span_start, span_end, .. } => if exists|k: int|
            0 <= k < arguments@.len() && #[trigger] arguments@[k] is Function {
            Some((span_start, span_end))
        } else {
            None
        },
        _ => None,
    }
}

fn initializer_span_exec(e: &ScriptNode) -> (r: Option<(u32, u32)>)
    ensures
        r == initializer_span(*e),
{
    match e {
        ScriptNode::Function { body_span, .. } => *body_span,
        ScriptNode::Call { arguments, span_start, span_end, .. } => {
            let ghost target = if exists|k: int| 0 <= k < arguments@.len() && #[trigger] arguments@[k] is Function {
                Some((*span_start, *span_end))
            } else {
                None
            };
            assert(initializer_span(*e) == target);
            let mut k: usize = 0;
            while k < arguments.len()
                invariant
                    initializer_span(*e) == target,
                    target == if exists|k: int| 0 <= k < arguments@.len() && #[trigger] arguments@[k] is Function {
                        Some((*span_start, *span_end))
                    } else {
                        None
                    },
                    k <= arguments@.len(),
                    forall|q: int| 0 <= q < k ==> !(#[trigger] arguments@[q] is Function),
                decreases arguments@.len() - k,
            {
                if let ScriptNode::Function { .. } = &arguments[k] {
                    assert(arguments@[k as int] is Function);
                    return Some((*span_start, *span_end));
                }
                k = k + 1;
            }
            None
        },
        _ => None,
    }
}

/// The span a declarator gives `name`.
pub open spec fn declarator_span(d: ScriptNode, name: Seq<char>) -> Option<(u32, u32)> {
    match d {
        ScriptNode::Declarator { binding, init: Some(i) } => if binding_matches(binding, name) {
            initializer_span(*i)
        } else {
            None
        },
        _ => None,
    }
}

/// The span of the first method keyed `name` (its body's, if it has one).
pub open spec fn method_span(members: Seq<ScriptNode>, name: Seq<char>) -> Option<(u32, u32)>
    decreases members.len(),
{
    if members.len() == 0 {
        None
    } else {
        match members[0] {
            ScriptNode::Method { key: Some(k), value } => if k@ == name {
                match *value {
                    ScriptNode::Function { body_span, .. } => body_span,
                    _ => None,
                }
            } else {
                method_span(members.drop_first(), name)
            },
            _ => method_span(members.drop_first(), name),
        }
    }
}

fn method_span_exec(members: &Vec<ScriptNode>, name: &str) -> (r: Option<(u32, u32)>)
    ensures
        r == method_span(members@, name@),
{
    let mut i: usize = 0;
    assert(members@.skip(0) =~= members@);
    while i < members.len()
        invariant
            i <= members@.len(),
            method_span(members@, name@) == method_span(members@.skip(i as int), name@),
        decreases members@.len() - i,
    {
        let ghost rest = members@.skip(i as int);
        assert(rest[0] == members@[i as int]);
        assert(rest.drop_first() =~= members@.skip(i + 1));
        if let ScriptNode::Method { key: Some(k), value } = &members[i] {
            if str_eq(k.as_str(), name) {
                return match &**value {
                    ScriptNode::Function { body_span, .. } => *body_span,
                    _ => None,
                };
            }
        }
        i = i + 1;
    }
    None
}

/// The span a declaration gives `name`: a function's body, a declarator's
/// function-like initializer, or a class method's body.
pub open spec fn declaration_span(d: ScriptNode, name: Seq<char>) -> Option<(u32, u32)> {
    match d {
        ScriptNode::Function { .. } => named_body_span(d, name),
        ScriptNode::Variables(ds) => first_some(ds@.map_values(|x: ScriptNode| declarator_span(x, name))),
        ScriptNode::Class { members, .. } => method_span(members@, name),
        _ => None,
    }
}

fn declaration_span_exec(d: &ScriptNode, name: &str) -> (r: Option<(u32, u32)>)
    ensures
        r == declaration_span(*d, name@),
{
    match d {
        ScriptNode::Function { .. } => named_body_span_exec(d, name),
        ScriptNode::Variables(ds) => {
            let ghost spans = ds@.map_values(|x: ScriptNode| declarator_span(x, name@));
            let mut i: usize = 0;
            assert(spans.skip(0) =~= spans);
            assert(declaration_span(*d, name@) == first_some(spans));
            while i < ds.len()
                invariant
                    declaration_span(*d, name@) == first_some(spans),
                    spans == ds@.map_values(|x: ScriptNode| declarator_span(x, name@)),
                    i <= ds@.len(),
                    first_some(spans) == first_some(spans.skip(i as int)),
                decreases ds@.len() - i,
            {
                let s = match &ds[i] {
                    ScriptNode::Declarator { binding, init: Some(init) } => if binding_matches_exec(binding, name) {
                        initializer_span_exec(init)
                    } else {
                        None
                    },
                    _ => None,
                };
                assert(s == spans[i as int]);
                if s.is_some() {
                    assert(spans.skip(i as int)[0] == spans[i as int]);
                    assert(first_some(spans.skip(i as int)) == spans.skip(i as int)[0]);
                    return s;
                }
                proof {
                    lemma_first_some_step(spans, i as int);
                }
                i = i + 1;
            }
            None
        },
        ScriptNode::Class { members, .. } => method_span_exec(members, name),
        _ => None,
    }
}

/// The span an exported statement gives `name`.
pub open spec fn exported_span(stmt: ScriptNode, name: Seq<char>) -> Option<(u32, u32)> {
    match stmt {
        ScriptNode::ExportNamed { declaration: Some(d), .. } => declaration_span(*d, name),
        ScriptNode::ExportDefault { declaration, is_expression } => if is_expression {
            None
        } else {
            named_body_span(*declaration, name)
        },
        _ => None,
    }
}

/// `n` is an `export { .. }` list of local bindings that names `name`.
pub open spec fn exports_name(n: ScriptNode, name: Seq<char>) -> bool {
    match n {
        ScriptNode::ExportNamed { declaration: None, has_source: false, locals } => views(locals@).contains(name),
        _ => false,
    }
}

/// Some `export { name }` of a local binding.
pub open spec fn exports_local(stmts: Seq<ScriptNode>, name: Seq<char>) -> bool {
    exists|i: int| 0 <= i < stmts.len() && #[trigger] exports_name(stmts[i], name)
}

/// The span of the exported function (or function-like constant, or class
/// method) named `name`: first one exported with its declaration, else,
/// where `name` is exported by an `export { .. }` list, the first local
/// declaration of it.
pub open spec fn exported_function_span(stmts: Seq<ScriptNode>, name: Seq<char>) -> Option<(u32, u32)> {
    let direct = first_some(stmts.map_values(|s: ScriptNode| exported_span(s, name)));
    if direct is Some {
        direct
    } else if exports_local(stmts, name) {
        first_some(stmts.map_values(|s: ScriptNode| declaration_span(s, name)))
    } else {
        None
    }
}

/// Finds the byte span of the exported function named `function_name`
/// (see `exported_function_span`).
pub fn find_exported_function_span_in_statements(statements: &Vec<ScriptNode>, function_name: &str) -> (r: Option<
    (u32, u32),
>)
    ensures
        r == exported_function_span(statements@, function_name@),
{
    let ghost direct = statements@.map_values(|s: ScriptNode| exported_span(s, function_name@));
    let ghost local = statements@.map_values(|s: ScriptNode| declaration_span(s, function_name@));
    let mut i: usize = 0;
    assert(direct.skip(0) =~= direct);
    while i < statements.len()
        invariant
            direct == statements@.map_values(|s: ScriptNode| exported_span(s, function_name@)),
            i <= statements@.len(),
            first_some(direct) == first_some(direct.skip(i as int)),
        decreases statements@.len() - i,
    {
        let s = match &statements[i] {
            ScriptNode::ExportNamed { declaration: Some(d), .. } => declaration_span_exec(d, function_name),
            ScriptNode::ExportDefault { declaration, is_expression } => if *is_expression {
                None
            } else {
                named_body_span_exec(declaration, function_name)
            },
            _ => None,
        };
        assert(s == direct[i as int]);
        if s.is_some() {
            assert(direct.skip(i as int)[0] == direct[i as int]);
            assert(first_some(direct.skip(i as int)) == direct.skip(i as int)[0]);
            return s;
        }
        proof {
            lemma_first_some_step(direct, i as int);
        }
        i = i + 1;
    }
    assert(first_some(direct.skip(i as int)) is None);
    let mut exported = false;
    let mut j: usize = 0;
    while j < statements.len()
        invariant
            j <= statements@.len(),
            exported == (exists|q: int| 0 <= q < j && #[trigger] exports_name(statements@[q], function_name@)),
        decreases statements@.len() - j,
    {
        if let ScriptNode::ExportNamed { declaration: None, has_source: false, locals } = &statements[j] {
            if strings_contain(locals, function_name) {
                assert(exports_name(statements@[j as int], function_name@));
                exported = true;
            }
        }
        assert(exported == (exists|q: int| 0 <= q < j + 1 && #[trigger] exports_name(statements@[q], function_name@)));
        j = j + 1;
    }
    if !exported {
        return None;
    }
    let mut k: usize = 0;
    assert(local.skip(0) =~= local);
    assert(exported_function_span(statements@, function_name@) == first_some(local));
    while k < statements.len()
        invariant
            exported_function_span(statements@, function_name@) == first_some(local),
            local == statements@.map_values(|s: ScriptNode| declaration_span(s, function_name@)),
            k <= statements@.len(),
            first_some(local) == first_some(local.skip(k as int)),
        decreases statements@.len() - k,
    {
        let s = declaration_span_exec(&statements[k], function_name);
        if s.is_some() {
            assert(local.skip(k as int)[0] == local[k as int]);
            assert(first_some(local.skip(k as int)) == local.skip(k as int)[0]);
            return s;
        }
        proof {
            lemma_first_some_step(local, k as int);
        }
        k = k + 1;
    }
    None
}

impl KeyOrdered for EnvelopeCall {
    /// By line, then column, then contract id.
    open spec fn key_order(a: Self, b: Self) -> int {
        then(
            int_order(a.line as int, b.line as int),
            then(int_order(a.column as int, b.column as int), seq_order(a.contract_id@, b.contract_id@)),
        )
    }

    proof fn lemma_key_order(a: Self, b: Self, c: Self) {
        lemma_int_order_facts(a.line as int, b.line as int, c.line as int);
        lemma_int_order_facts(a.column as int, b.column as int, c.column as int);
        lemma_seq_order_facts(a.contract_id@, b.contract_id@, c.contract_id@);
    }

    fn key_compare(&self, other: &Self) -> (r: i8) {
        if self.line < other.line {
            -1
        } else if self.line > other.line {
            1
        } else if self.column < other.column {
            -1
        } else if self.column > other.column {
            1
        } else {
            str_order(self.contract_id.as_str(), other.contract_id.as_str())
        }
    }
}

/// The walk inputs for a program: the import patterns, the function
/// pattern's parts, the program's envelope import bindings, and the
/// source's line starts.
pub open spec fn envelope_rules(
    program: Seq<ScriptNode>,
    source: Seq<char>,
    patterns: Seq<Seq<char>>,
    function_pattern: Seq<char>,
) -> WalkRules {
    (
        patterns,
        pattern_parts(function_pattern),
        import_names(patterns, program, false),
        import_names(patterns, program, true),
        line_starts(source),
    )
}

/// The walk over a program's statements, starting from whether a runtime
/// envelope import binds a name, with no calls.
pub open spec fn envelope_walk(
    program: Seq<ScriptNode>,
    source: Seq<char>,
    patterns: Seq<Seq<char>>,
    function_pattern: Seq<char>,
) -> (bool, Seq<CallModel>) {
    visit_all(
        envelope_rules(program, source, patterns, function_pattern),
        (has_import(patterns, program, false, true), Seq::empty()),
        program,
    )
}

pub open spec fn within(c: CallModel, span_start: u32, span_end: u32) -> bool {
    c.3 >= span_start && c.4 <= span_end
}

/// The calls inside the span of the exported function named by the match
/// pattern (none if there is no such function); all calls without one.
pub open spec fn scoped_calls(calls: Seq<CallModel>, program: Seq<ScriptNode>, match_pattern: Option<Seq<char>>) -> Seq<
    CallModel,
> {
    match match_pattern {
        None => calls,
        Some(name) => match exported_function_span(program, name) {
            Some(span) => calls.filter(|c: CallModel| within(c, span.0, span.1)),
            None => Seq::empty(),
        },
    }
}

fn retain_within(calls: Vec<EnvelopeCall>, span_start: u32, span_end: u32) -> (r: Vec<EnvelopeCall>)
    ensures
        call_models(r@) == call_models(calls@).filter(|c: CallModel| within(c, span_start, span_end)),
{
    let ghost all = call_models(calls@);
    let n = calls.len();
    let mut rest = calls;
    let mut out: Vec<EnvelopeCall> = Vec::new();
    let mut i: usize = 0;
    while rest.len() > 0
        invariant
            all.len() == n,
            i + rest@.len() == n,
            call_models(rest@) == all.skip(i as int),
            call_models(out@) == all.take(i as int).filter(|c: CallModel| within(c, span_start, span_end)),
        decreases rest@.len(),
    {
        let ghost before = call_models(rest@);
        let c = rest.remove(0);
        assert(before[0] == call_model(c));
        assert(call_models(rest@) =~= before.drop_first());
        assert(all.skip(i + 1) =~= all.skip(i as int).drop_first());
        assert(all.take(i + 1).drop_last() =~= all.take(i as int));
        assert(all.take(i + 1).last() == call_model(c));
        let ghost prev = call_models(out@);
        reveal(Seq::filter);
        if c.span_start >= span_start && c.span_end <= span_end {
            out.push(c);
            assert(call_models(out@) =~= prev.push(call_model(c)));
        }
        i = i + 1;
    }
    assert(all.take(i as int) =~= all);
    out
}

/// Analyzes a program's syntax tree for envelope validation calls: which
/// envelope modules it imports and how, and the calls of the function
/// pattern (`name` or `object.name`) with a literal contract id, sorted by
/// position; with a match pattern, only the calls inside the exported
/// function of that name.
pub fn analyze_envelope(
    program: &Vec<ScriptNode>,
    source: &str,
    import_patterns: &[String],
    function_pattern: &str,
    match_pattern: Option<&str>,
) -> (r: EnvelopeAnalysis)
    requires
        byte_len(source@) <= usize::MAX,
    ensures
        r.has_envelope_import == envelope_walk(program@, source@, views(import_patterns@), function_pattern@).0,
        strictly_sorted(views(r.import_bindings@)),
        views(r.import_bindings@).to_set() == import_names(views(import_patterns@), program@, false),
        r.is_type_only_import == (has_import(views(import_patterns@), program@, true, false) && !has_import(
            views(import_patterns@),
            program@,
            false,
            false,
        )),
        sorted_by_key(r.calls@),
        call_models(r.calls@).to_multiset() == scoped_calls(
            envelope_walk(program@, source@, views(import_patterns@), function_pattern@).1,
            program@,
            match match_pattern {
                Some(m) => Some(m@),
                None => None,
            },
        ).to_multiset(),
{
    let patterns = copy_strings(import_patterns);
    let info = collect_import_info(&patterns, program);
    let an = Analyzer {
        import_patterns: patterns,
        pattern_parts: pattern_parts_exec(function_pattern),
        import_bindings: info.bindings,
        namespace_bindings: info.namespaces,
        line_starts: compute_line_starts(source),
    };
    proof {
        lemma_line_starts(source@);
        assert(an.line_starts@[0] as int == an.line_starts@.map_values(|x: usize| x as int)[0]);
    }
    let mut has = info.binds;
    let mut calls: Vec<EnvelopeCall> = Vec::new();
    assert(call_models(calls@) =~= Seq::<CallModel>::empty());
    assert(an.rules() == envelope_rules(program@, source@, views(import_patterns@), function_pattern@));
    visit_nodes(&an, program, &mut has, &mut calls);
    let ghost walked = call_models(calls@);
    let mut scoped = match match_pattern {
        None => calls,
        Some(name) => match find_exported_function_span_in_statements(program, name) {
            Some((s, e)) => retain_within(calls, s, e),
            None => Vec::new(),
        },
    };
    assert(call_models(scoped@) == scoped_calls(
        walked,
        program@,
        match match_pattern {
            Some(m) => Some(m@),
            None => None,
        },
    ));
    let ghost unsorted = scoped@;
    sort_by_key(&mut scoped);
    proof {
        lemma_multiset_map(scoped@, unsorted, |c: EnvelopeCall| call_model(c));
    }
    EnvelopeAnalysis {
        has_envelope_import: has,
        import_bindings: an.import_bindings,
        is_type_only_import: info.saw_type_only && !info.saw_runtime,
        calls: scoped,
    }
}

} // verus!
