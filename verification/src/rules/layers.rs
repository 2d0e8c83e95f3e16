//! Layer enforcement: modules may import their own layer or a later one.
use vstd::prelude::*;

use super::{lemma_same_elements, module_group, module_group_segment};
use crate::graph::{module_set, DependencyGraph, GraphEdge};
use crate::order::{
    comps_order, lemma_comps_order_facts, lemma_multiset_map, lemma_seq_order_facts, lemma_strs_order_facts,
    path_compare, sort_by_key, sorted_by_key, strs_compare, strs_order, then, KeyOrdered,
};
use crate::paths::{path_components, strings_contain};
use crate::spec::types::{member_lookup, JsonValue, SpecFile};
use crate::strset::{
    pair_insert, pair_order, pair_views, pairs_strictly_sorted, set_insert, strictly_sorted,
};
use crate::text::{debug_list, debug_strings, owned, push_str, seq_order, str_eq, str_order, trim, trim_str, views};

verus! {

pub const ENFORCE_LAYER_RULE_ID: &'static str = "enforce-layer";

/// Ordered layer names of an `enforce-layer` constraint.
#[derive(Debug, Clone, PartialEq, Eq)]
pub struct EnforceLayerConfig {
    pub layers: Vec<String>,
}

/// An import that goes against the layer order.
#[derive(Debug, Clone, PartialEq, Eq)]
pub struct LayerViolation {
    pub from_module: String,
    pub to_module: String,
    pub from_layer: String,
    pub to_layer: String,
    pub from_file: String,
    pub to_file: String,
    pub specifier: String,
    pub message: String,
    pub fix_hint: String,
}

/// A problem with the layer configuration of a module.
#[derive(Debug, Clone, PartialEq, Eq)]
pub struct LayerConfigIssue {
    pub module: String,
    pub message: String,
}

/// Outcome of layer enforcement.
#[derive(Debug, Clone, PartialEq, Eq)]
pub struct EnforceLayerReport {
    pub violations: Vec<LayerViolation>,
    pub config_issues: Vec<LayerConfigIssue>,
}

impl EnforceLayerReport {
    /// No violations and no configuration issues.
    pub fn is_clean(&self) -> (r: bool)
        ensures
            r == (self.violations@.len() == 0 && self.config_issues@.len() == 0),
    {
        self.violations.len() == 0 && self.config_issues.len() == 0
    }
}

/// Why `enforce-layer` parameters were rejected.
#[derive(Debug, Clone, PartialEq, Eq)]
pub struct LayerConfigParseError {
    pub message: String,
}

/// The layer of a module: the first non-empty `/`-delimited segment of its id
/// (`ui/checkout` is in layer `ui`, `core` in `core`).
pub fn layer_for_module(module_id: &str) -> (r: Option<&str>)
    ensures
        match r {
            Some(seg) => module_group(module_id@) == Some(seg@),
            None => module_group(module_id@) is None,
        },
{
    module_group_segment(module_id)
}

pub open spec fn layers_msg(tail: Seq<char>) -> Seq<char> {
    "params.layers for rule 'enforce-layer' "@ + tail
}

/// The layer names of the items of a `layers` array, trimmed; the first
/// non-string, blank or repeated item is an error.
pub open spec fn layer_items(items: Seq<JsonValue>) -> Result<Seq<Seq<char>>, Seq<char>>
    decreases items.len(),
{
    if items.len() == 0 {
        Ok(Seq::empty())
    } else {
        match layer_items(items.drop_last()) {
            Err(e) => Err(e),
            Ok(acc) => match items.last() {
                JsonValue::Str(s) => {
                    let t = trim(s@);
                    if t.len() == 0 {
                        Err(layers_msg("cannot contain empty layer names"@))
                    } else if acc.contains(t) {
                        Err(layers_msg("contains duplicate layer '"@ + t + "'"@))
                    } else {
                        Ok(acc.push(t))
                    }
                },
                _ => Err(layers_msg("must contain only strings"@)),
            },
        }
    }
}

/// The ordered layers of `enforce-layer` parameters: an object whose
/// `layers` member is a non-empty array of distinct non-blank strings.
pub open spec fn parse_layers(params: JsonValue) -> Result<Seq<Seq<char>>, Seq<char>> {
    match params {
        JsonValue::Object(m) => match member_lookup(m@, "layers"@) {
            None => Err("params for rule 'enforce-layer' must include non-empty 'layers' array"@),
            Some(JsonValue::Array(items)) => if items@.len() == 0 {
                Err(layers_msg("must not be empty"@))
            } else {
                layer_items(items@)
            },
            Some(_) => Err(layers_msg("must be an array of non-empty strings"@)),
        },
        _ => Err("params for rule 'enforce-layer' must be an object with key 'layers'"@),
    }
}

fn parse_error(message: String) -> (r: LayerConfigParseError)
    ensures
        r.message == message,
{
    LayerConfigParseError { message }
}

fn layers_error(tail: &str) -> (r: LayerConfigParseError)
    ensures
        r.message@ == layers_msg(tail@),
{
    let mut m = owned("params.layers for rule 'enforce-layer' ");
    push_str(&mut m, tail);
    parse_error(m)
}

/// Reads `enforce-layer` parameters (see `parse_layers`).
pub fn parse_enforce_layer_config(params: &JsonValue) -> (r: Result<EnforceLayerConfig, LayerConfigParseError>)
    ensures
        match r {
            Ok(c) => parse_layers(*params) == Ok::<Seq<Seq<char>>, Seq<char>>(views(c.layers@)),
            Err(e) => parse_layers(*params) == Err::<Seq<Seq<char>>, Seq<char>>(e.message@),
        },
{
    let raw = match params {
        JsonValue::Object(_) => match params.get("layers") {
            None => {
                return Err(parse_error(owned("params for rule 'enforce-layer' must include non-empty 'layers' array")));
            },
            Some(JsonValue::Array(items)) => items,
            Some(_) => {
                return Err(layers_error("must be an array of non-empty strings"));
            },
        },
        _ => {
            return Err(parse_error(owned("params for rule 'enforce-layer' must be an object with key 'layers'")));
        },
    };
    if raw.len() == 0 {
        return Err(layers_error("must not be empty"));
    }
    let mut layers: Vec<String> = Vec::new();
    let mut i: usize = 0;
    assert(raw@.take(0) =~= Seq::<JsonValue>::empty());
    assert(views(layers@) =~= Seq::<Seq<char>>::empty());
    while i < raw.len()
        invariant
            i <= raw@.len(),
            raw@.len() > 0,
            parse_layers(*params) == layer_items(raw@),
            layer_items(raw@.take(i as int)) == Ok::<Seq<Seq<char>>, Seq<char>>(views(layers@)),
        decreases raw@.len() - i,
    {
        assert(raw@.take(i + 1).drop_last() =~= raw@.take(i as int));
        assert(raw@.take(i + 1).last() == raw@[i as int]);
        let t = match &raw[i] {
            JsonValue::Str(s) => trim_str(s.as_str()),
            _ => {
                proof {
                    lemma_layer_items_err_stays(raw@, i + 1);
                }
                return Err(layers_error("must contain only strings"));
            },
        };
        if t.unicode_len() == 0 {
            proof {
                lemma_layer_items_err_stays(raw@, i + 1);
            }
            return Err(layers_error("cannot contain empty layer names"));
        }
        if strings_contain(&layers, t) {
            let mut tail = owned("contains duplicate layer '");
            push_str(&mut tail, t);
            push_str(&mut tail, "'");
            proof {
                lemma_layer_items_err_stays(raw@, i + 1);
            }
            return Err(layers_error(tail.as_str()));
        }
        let ghost before = views(layers@);
        layers.push(owned(t));
        assert(views(layers@) =~= before.push(t@));
        i = i + 1;
    }
    assert(raw@.take(i as int) =~= raw@);
    Ok(EnforceLayerConfig { layers })
}

proof fn lemma_layer_items_err_stays(items: Seq<JsonValue>, k: int)
    requires
        0 <= k <= items.len(),
        layer_items(items.take(k)) is Err,
    ensures
        layer_items(items) == layer_items(items.take(k)),
    decreases items.len() - k,
{
    if k < items.len() {
        assert(items.take(k + 1).drop_last() =~= items.take(k));
        lemma_layer_items_err_stays(items, k + 1);
    } else {
        assert(items.take(k) =~= items);
    }
}

/// An `enforce-layer` constraint of spec `i`, constraint `j`.
pub open spec fn is_layer_constraint(specs: Seq<SpecFile>, i: int, j: int) -> bool {
    &&& 0 <= i < specs.len()
    &&& 0 <= j < specs[i].constraints@.len()
    &&& specs[i].constraints@[j].rule@ == ENFORCE_LAYER_RULE_ID@
}

/// The (module, layers) of the well-formed `enforce-layer` constraints.
pub open spec fn usable_layer_configs(specs: Seq<SpecFile>) -> Set<(Seq<char>, Seq<Seq<char>>)> {
    Set::new(
        |u: (Seq<char>, Seq<Seq<char>>)|
            exists|i: int, j: int|
                is_layer_constraint(specs, i, j) && specs[i].module@ == u.0 && parse_layers(
                    #[trigger] specs[i].constraints@[j].params,
                ) == Ok::<Seq<Seq<char>>, Seq<char>>(u.1),
    )
}

/// The (module, message) of the malformed `enforce-layer` constraints.
pub open spec fn layer_parse_issues(specs: Seq<SpecFile>) -> Set<(Seq<char>, Seq<char>)> {
    Set::new(
        |x: (Seq<char>, Seq<char>)|
            exists|i: int, j: int|
                is_layer_constraint(specs, i, j) && specs[i].module@ == x.0 && parse_layers(
                    #[trigger] specs[i].constraints@[j].params,
                ) == Err::<Seq<Seq<char>>, Seq<char>>(x.1),
    )
}

/// Order of configurations: by module, then by layers.
pub open spec fn config_order(a: (Seq<char>, Seq<Seq<char>>), b: (Seq<char>, Seq<Seq<char>>)) -> int {
    then(seq_order(a.0, b.0), strs_order(a.1, b.1))
}

/// The configuration every other is checked against: the least by module,
/// then layers.
pub open spec fn canonical_layer_config(u: Set<(Seq<char>, Seq<Seq<char>>)>) -> (Seq<char>, Seq<Seq<char>>) {
    choose|c: (Seq<char>, Seq<Seq<char>>)| u.contains(c) && forall|x: (Seq<char>, Seq<Seq<char>>)| #[trigger] u.contains(x) ==> config_order(c, x) <= 0
}

pub open spec fn conflict_message(canon: (Seq<char>, Seq<Seq<char>>), layers: Seq<Seq<char>>) -> Seq<char> {
    "conflicting enforce-layer config; using canonical layers "@ + debug_list(canon.1) + " from module '"@ + canon.0
        + "' (deterministic: lexicographically first module id). This module declared layers "@ + debug_list(layers)
}

pub open spec fn unknown_layer_message(module: Seq<char>, layer: Seq<char>, layers: Seq<Seq<char>>) -> Seq<char> {
    "module '"@ + module + "' maps to layer '"@ + layer + "', which is not listed in params.layers "@ + debug_list(layers)
}

/// Every module of the graph and of the specs.
pub open spec fn all_modules(specs: Seq<SpecFile>, graph: DependencyGraph) -> Set<Seq<char>> {
    module_set(graph.file_modules@) + specs.map_values(|s: SpecFile| s.module@).to_set()
}

/// Configuration issues: malformed declarations, declarations other than
/// the canonical one, and modules whose layer the canonical order lacks.
pub open spec fn layer_config_issues(specs: Seq<SpecFile>, graph: DependencyGraph) -> Set<(Seq<char>, Seq<char>)> {
    let u = usable_layer_configs(specs);
    if u == Set::<(Seq<char>, Seq<Seq<char>>)>::empty() {
        layer_parse_issues(specs)
    } else {
        let canon = canonical_layer_config(u);
        layer_parse_issues(specs) + Set::new(
            |x: (Seq<char>, Seq<char>)|
                exists|c: (Seq<char>, Seq<Seq<char>>)|
                    #[trigger] u.contains(c) && c.1 != canon.1 && x == (c.0, conflict_message(canon, c.1)),
        ) + Set::new(
            |x: (Seq<char>, Seq<char>)|
                exists|m: Seq<char>|
                    #[trigger] all_modules(specs, graph).contains(m) && module_group(m) is Some && !canon.1.contains(
                        module_group(m).unwrap(),
                    ) && x == (m, unknown_layer_message(m, module_group(m).unwrap(), canon.1)),
        )
    }
}

/// Index of the first occurrence of `x`, or -1.
pub open spec fn position(s: Seq<Seq<char>>, x: Seq<char>) -> int
    decreases s.len(),
{
    if s.len() == 0 {
        -1
    } else if s[0] == x {
        0
    } else if position(s.drop_first(), x) < 0 {
        -1
    } else {
        1 + position(s.drop_first(), x)
    }
}

fn position_exec(s: &Vec<String>, x: &str) -> (r: Option<usize>)
    ensures
        match r {
            Some(i) => position(views(s@), x@) == i as int,
            None => position(views(s@), x@) < 0,
        },
{
    let mut i: usize = 0;
    assert(views(s@).skip(0) =~= views(s@));
    while i < s.len()
        invariant
            i <= s@.len(),
            position(views(s@), x@) < 0 <==> position(views(s@).skip(i as int), x@) < 0,
            position(views(s@), x@) >= 0 ==> position(views(s@), x@) == i + position(views(s@).skip(i as int), x@),
        decreases s@.len() - i,
    {
        let ghost rest = views(s@).skip(i as int);
        assert(rest[0] == s@[i as int]@);
        if str_eq(s[i].as_str(), x) {
            return Some(i);
        }
        assert(rest.drop_first() =~= views(s@).skip(i + 1));
        i = i + 1;
    }
    None
}

pub type LayerViolationModel = ((Seq<char>, Seq<char>, Seq<char>, Seq<char>), (Seq<char>, Seq<char>, Seq<char>), (Seq<char>, Seq<char>));

pub open spec fn layer_violation_model(v: LayerViolation) -> LayerViolationModel {
    (
        (v.from_module@, v.to_module@, v.from_layer@, v.to_layer@),
        (v.from_file@, v.to_file@, v.specifier@),
        (v.message@, v.fix_hint@),
    )
}

/// The violation an edge makes against the layer order, if any: both ends
/// in modules, of different layers, both layers listed, and the target's
/// layer earlier than the source's.
pub open spec fn edge_layer_violation(graph: DependencyGraph, layers: Seq<Seq<char>>, e: GraphEdge) -> Option<LayerViolationModel> {
    match (graph.module_of(e.from@), graph.module_of(e.to@)) {
        (Some(fm), Some(tm)) => if fm == tm {
            None
        } else {
            match (module_group(fm), module_group(tm)) {
                (Some(fl), Some(tl)) => if fl == tl || position(layers, fl) < 0 || position(layers, tl) < 0 || position(
                    layers,
                    tl,
                ) >= position(layers, fl) {
                    None
                } else {
                    Some(
                        (
                            (fm, tm, fl, tl),
                            (e.from@, e.to@, e.specifier@),
                            (
                                "forbidden layer edge: module '"@ + fm + "' (layer '"@ + fl + "') imports '"@ + tm
                                    + "' (layer '"@ + tl + "') via '"@ + e.specifier@ + "'"@,
                                "Re-route this dependency to follow layer order "@ + debug_list(layers)
                                    + ": modules may import same layer or a later layer. Consider moving shared logic into a lower layer or introducing an interface boundary."@,
                            ),
                        ),
                    )
                },
                _ => None,
            }
        },
        _ => None,
    }
}

/// The layer violations of the edges, in edge order.
pub open spec fn layer_violations(graph: DependencyGraph, layers: Seq<Seq<char>>, edges: Seq<GraphEdge>) -> Seq<
    LayerViolationModel,
>
    decreases edges.len(),
{
    if edges.len() == 0 {
        Seq::empty()
    } else {
        layer_violations(graph, layers, edges.drop_last()) + match edge_layer_violation(graph, layers, edges.last()) {
            Some(v) => seq![v],
            None => Seq::empty(),
        }
    }
}

impl KeyOrdered for LayerViolation {
    /// By source module, target module, specifier, source file, target file
    /// (files as paths).
    open spec fn key_order(a: Self, b: Self) -> int {
        then(
            seq_order(a.from_module@, b.from_module@),
            then(
                seq_order(a.to_module@, b.to_module@),
                then(
                    seq_order(a.specifier@, b.specifier@),
                    then(
                        comps_order(path_components(a.from_file@), path_components(b.from_file@)),
                        comps_order(path_components(a.to_file@), path_components(b.to_file@)),
                    ),
                ),
            ),
        )
    }

    proof fn lemma_key_order(a: Self, b: Self, c: Self) {
        lemma_seq_order_facts(a.from_module@, b.from_module@, c.from_module@);
        lemma_seq_order_facts(a.to_module@, b.to_module@, c.to_module@);
        lemma_seq_order_facts(a.specifier@, b.specifier@, c.specifier@);
        lemma_comps_order_facts(path_components(a.from_file@), path_components(b.from_file@), path_components(c.from_file@));
        lemma_comps_order_facts(path_components(a.to_file@), path_components(b.to_file@), path_components(c.to_file@));
    }

    fn key_compare(&self, other: &Self) -> (r: i8) {
        let o = str_order(self.from_module.as_str(), other.from_module.as_str());
        if o != 0 {
            return o;
        }
        let o = str_order(self.to_module.as_str(), other.to_module.as_str());
        if o != 0 {
            return o;
        }
        let o = str_order(self.specifier.as_str(), other.specifier.as_str());
        if o != 0 {
            return o;
        }
        let o = path_compare(self.from_file.as_str(), other.from_file.as_str());
        if o != 0 {
            return o;
        }
        path_compare(self.to_file.as_str(), other.to_file.as_str())
    }
}

/// `usable_layer_configs` restricted to the constraints before (`i`, `j`).
pub open spec fn usable_upto(specs: Seq<SpecFile>, i: int, j: int) -> Set<(Seq<char>, Seq<Seq<char>>)> {
    Set::new(
        |u: (Seq<char>, Seq<Seq<char>>)|
            exists|a: int, b: int|
                is_layer_constraint(specs, a, b) && (a < i || (a == i && b < j)) && specs[a].module@ == u.0
                    && parse_layers(#[trigger] specs[a].constraints@[b].params) == Ok::<Seq<Seq<char>>, Seq<char>>(u.1),
    )
}

pub open spec fn issues_upto(specs: Seq<SpecFile>, i: int, j: int) -> Set<(Seq<char>, Seq<char>)> {
    Set::new(
        |x: (Seq<char>, Seq<char>)|
            exists|a: int, b: int|
                is_layer_constraint(specs, a, b) && (a < i || (a == i && b < j)) && specs[a].module@ == x.0
                    && parse_layers(#[trigger] specs[a].constraints@[b].params) == Err::<Seq<Seq<char>>, Seq<char>>(x.1),
    )
}

pub open spec fn config_views(v: Seq<(String, EnforceLayerConfig)>) -> Seq<(Seq<char>, Seq<Seq<char>>)> {
    v.map_values(|p: (String, EnforceLayerConfig)| (p.0@, views(p.1.layers@)))
}

/// The well-formed and the malformed `enforce-layer` declarations.
fn collect_layer_configs(specs: &[SpecFile]) -> (r: (Vec<(String, EnforceLayerConfig)>, Vec<(String, String)>))
    ensures
        config_views(r.0@).to_set() == usable_layer_configs(specs@),
        pairs_strictly_sorted(pair_views(r.1@)),
        pair_views(r.1@).to_set() == layer_parse_issues(specs@),
{
    let mut usable: Vec<(String, EnforceLayerConfig)> = Vec::new();
    let mut issues: Vec<(String, String)> = Vec::new();
    let mut i: usize = 0;
    assert(config_views(usable@).to_set() =~= usable_upto(specs@, 0, 0));
    assert(pair_views(issues@).to_set() =~= issues_upto(specs@, 0, 0));
    while i < specs.len()
        invariant
            i <= specs@.len(),
            config_views(usable@).to_set() == usable_upto(specs@, i as int, 0),
            pairs_strictly_sorted(pair_views(issues@)),
            pair_views(issues@).to_set() == issues_upto(specs@, i as int, 0),
        decreases specs@.len() - i,
    {
        let spec = &specs[i];
        let mut j: usize = 0;
        while j < spec.constraints.len()
            invariant
                i < specs@.len(),
                *spec == specs@[i as int],
                j <= spec.constraints@.len(),
                config_views(usable@).to_set() == usable_upto(specs@, i as int, j as int),
                pairs_strictly_sorted(pair_views(issues@)),
                pair_views(issues@).to_set() == issues_upto(specs@, i as int, j as int),
            decreases spec.constraints@.len() - j,
        {
            let c = &spec.constraints[j];
            let ghost uprev = usable_upto(specs@, i as int, j as int);
            let ghost unext = usable_upto(specs@, i as int, j + 1);
            let ghost iprev = issues_upto(specs@, i as int, j as int);
            let ghost inext = issues_upto(specs@, i as int, j + 1);
            if str_eq(c.rule.as_str(), ENFORCE_LAYER_RULE_ID) {
                match parse_enforce_layer_config(&c.params) {
                    Ok(config) => {
                        let ghost item = (spec.module@, views(config.layers@));
                        let ghost before = config_views(usable@);
                        usable.push((spec.module.clone(), config));
                        assert(config_views(usable@) =~= before.push(item));
                        proof {
                            crate::policy::config_diff::lemma_push_to_set(before, item);
                        }
                        assert(unext =~= uprev.insert(item)) by {
                            assert forall|u: (Seq<char>, Seq<Seq<char>>)| unext.contains(u) implies uprev.insert(item).contains(u) by {
                                let (a, b) = choose|a: int, b: int|
                                    is_layer_constraint(specs@, a, b) && (a < i || (a == i && b < j + 1))
                                        && specs@[a].module@ == u.0 && parse_layers(
                                        #[trigger] specs@[a].constraints@[b].params,
                                    ) == Ok::<Seq<Seq<char>>, Seq<char>>(u.1);
                                if !(a == i && b == j) {
                                    assert(uprev.contains(u));
                                }
                            }
                            assert forall|u: (Seq<char>, Seq<Seq<char>>)| uprev.insert(item).contains(u) implies unext.contains(u) by {
                                if u == item {
                                    assert(is_layer_constraint(specs@, i as int, j as int));
                                    assert(parse_layers(specs@[i as int].constraints@[j as int].params) == Ok::<
                                        Seq<Seq<char>>,
                                        Seq<char>,
                                    >(u.1));
                                } else {
                                    let (a, b) = choose|a: int, b: int|
                                        is_layer_constraint(specs@, a, b) && (a < i || (a == i && b < j))
                                            && specs@[a].module@ == u.0 && parse_layers(
                                            #[trigger] specs@[a].constraints@[b].params,
                                        ) == Ok::<Seq<Seq<char>>, Seq<char>>(u.1);
                                }
                            }
                        }
                        assert(inext =~= iprev) by {
                            assert forall|x: (Seq<char>, Seq<char>)| inext.contains(x) implies iprev.contains(x) by {
                                let (a, b) = choose|a: int, b: int|
                                    is_layer_constraint(specs@, a, b) && (a < i || (a == i && b < j + 1))
                                        && specs@[a].module@ == x.0 && parse_layers(
                                        #[trigger] specs@[a].constraints@[b].params,
                                    ) == Err::<Seq<Seq<char>>, Seq<char>>(x.1);
                                if a == i && b == j {
                                    assert(false);
                                }
                            }
                            assert forall|x: (Seq<char>, Seq<char>)| iprev.contains(x) implies inext.contains(x) by {
                                let (a, b) = choose|a: int, b: int|
                                    is_layer_constraint(specs@, a, b) && (a < i || (a == i && b < j))
                                        && specs@[a].module@ == x.0 && parse_layers(
                                        #[trigger] specs@[a].constraints@[b].params,
                                    ) == Err::<Seq<Seq<char>>, Seq<char>>(x.1);
                            }
                        }
                    },
                    Err(e) => {
                        let ghost item = (spec.module@, e.message@);
                        pair_insert(&mut issues, (spec.module.clone(), e.message));
                        assert(inext =~= iprev.insert(item)) by {
                            assert forall|x: (Seq<char>, Seq<char>)| inext.contains(x) implies iprev.insert(item).contains(x) by {
                                let (a, b) = choose|a: int, b: int|
                                    is_layer_constraint(specs@, a, b) && (a < i || (a == i && b < j + 1))
                                        && specs@[a].module@ == x.0 && parse_layers(
                                        #[trigger] specs@[a].constraints@[b].params,
                                    ) == Err::<Seq<Seq<char>>, Seq<char>>(x.1);
                                if !(a == i && b == j) {
                                    assert(iprev.contains(x));
                                }
                            }
                            assert forall|x: (Seq<char>, Seq<char>)| iprev.insert(item).contains(x) implies inext.contains(x) by {
                                if x == item {
                                    assert(is_layer_constraint(specs@, i as int, j as int));
                                    assert(parse_layers(specs@[i as int].constraints@[j as int].params) == Err::<
                                        Seq<Seq<char>>,
                                        Seq<char>,
                                    >(x.1));
                                } else {
                                    let (a, b) = choose|a: int, b: int|
                                        is_layer_constraint(specs@, a, b) && (a < i || (a == i && b < j))
                                            && specs@[a].module@ == x.0 && parse_layers(
                                            #[trigger] specs@[a].constraints@[b].params,
                                        ) == Err::<Seq<Seq<char>>, Seq<char>>(x.1);
                                }
                            }
                        }
                        assert(unext =~= uprev) by {
                            assert forall|u: (Seq<char>, Seq<Seq<char>>)| unext.contains(u) implies uprev.contains(u) by {
                                let (a, b) = choose|a: int, b: int|
                                    is_layer_constraint(specs@, a, b) && (a < i || (a == i && b < j + 1))
                                        && specs@[a].module@ == u.0 && parse_layers(
                                        #[trigger] specs@[a].constraints@[b].params,
                                    ) == Ok::<Seq<Seq<char>>, Seq<char>>(u.1);
                                if a == i && b == j {
                                    assert(false);
                                }
                            }
                            assert forall|u: (Seq<char>, Seq<Seq<char>>)| uprev.contains(u) implies unext.contains(u) by {
                                let (a, b) = choose|a: int, b: int|
                                    is_layer_constraint(specs@, a, b) && (a < i || (a == i && b < j))
                                        && specs@[a].module@ == u.0 && parse_layers(
                                        #[trigger] specs@[a].constraints@[b].params,
                                    ) == Ok::<Seq<Seq<char>>, Seq<char>>(u.1);
                            }
                        }
                    },
                }
            } else {
                assert(unext =~= uprev) by {
                    assert forall|u: (Seq<char>, Seq<Seq<char>>)| unext.contains(u) implies uprev.contains(u) by {
                        let (a, b) = choose|a: int, b: int|
                            is_layer_constraint(specs@, a, b) && (a < i || (a == i && b < j + 1))
                                && specs@[a].module@ == u.0 && parse_layers(
                                #[trigger] specs@[a].constraints@[b].params,
                            ) == Ok::<Seq<Seq<char>>, Seq<char>>(u.1);
                    }
                    assert forall|u: (Seq<char>, Seq<Seq<char>>)| uprev.contains(u) implies unext.contains(u) by {
                        let (a, b) = choose|a: int, b: int|
                            is_layer_constraint(specs@, a, b) && (a < i || (a == i && b < j))
                                && specs@[a].module@ == u.0 && parse_layers(
                                #[trigger] specs@[a].constraints@[b].params,
                            ) == Ok::<Seq<Seq<char>>, Seq<char>>(u.1);
                    }
                }
                assert(inext =~= iprev) by {
                    assert forall|x: (Seq<char>, Seq<char>)| inext.contains(x) implies iprev.contains(x) by {
                        let (a, b) = choose|a: int, b: int|
                            is_layer_constraint(specs@, a, b) && (a < i || (a == i && b < j + 1))
                                && specs@[a].module@ == x.0 && parse_layers(
                                #[trigger] specs@[a].constraints@[b].params,
                            ) == Err::<Seq<Seq<char>>, Seq<char>>(x.1);
                    }
                    assert forall|x: (Seq<char>, Seq<char>)| iprev.contains(x) implies inext.contains(x) by {
                        let (a, b) = choose|a: int, b: int|
                            is_layer_constraint(specs@, a, b) && (a < i || (a == i && b < j))
                                && specs@[a].module@ == x.0 && parse_layers(
                                #[trigger] specs@[a].constraints@[b].params,
                            ) == Err::<Seq<Seq<char>>, Seq<char>>(x.1);
                    }
                }
            }
            j = j + 1;
        }
        assert(usable_upto(specs@, i + 1, 0) =~= usable_upto(specs@, i as int, j as int)) by {
            assert forall|u: (Seq<char>, Seq<Seq<char>>)| usable_upto(specs@, i + 1, 0).contains(u) implies usable_upto(
                specs@,
                i as int,
                j as int,
            ).contains(u) by {
                let (a, b) = choose|a: int, b: int|
                    is_layer_constraint(specs@, a, b) && (a < i + 1 || (a == i + 1 && b < 0)) && specs@[a].module@ == u.0
                        && parse_layers(#[trigger] specs@[a].constraints@[b].params) == Ok::<Seq<Seq<char>>, Seq<char>>(u.1);
            }
            assert forall|u: (Seq<char>, Seq<Seq<char>>)| usable_upto(specs@, i as int, j as int).contains(u) implies usable_upto(
                specs@,
                i + 1,
                0,
            ).contains(u) by {
                let (a, b) = choose|a: int, b: int|
                    is_layer_constraint(specs@, a, b) && (a < i || (a == i && b < j)) && specs@[a].module@ == u.0
                        && parse_layers(#[trigger] specs@[a].constraints@[b].params) == Ok::<Seq<Seq<char>>, Seq<char>>(u.1);
            }
        }
        assert(issues_upto(specs@, i + 1, 0) =~= issues_upto(specs@, i as int, j as int)) by {
            assert forall|x: (Seq<char>, Seq<char>)| issues_upto(specs@, i + 1, 0).contains(x) implies issues_upto(
                specs@,
                i as int,
                j as int,
            ).contains(x) by {
                let (a, b) = choose|a: int, b: int|
                    is_layer_constraint(specs@, a, b) && (a < i + 1 || (a == i + 1 && b < 0)) && specs@[a].module@ == x.0
                        && parse_layers(#[trigger] specs@[a].constraints@[b].params) == Err::<Seq<Seq<char>>, Seq<char>>(x.1);
            }
            assert forall|x: (Seq<char>, Seq<char>)| issues_upto(specs@, i as int, j as int).contains(x) implies issues_upto(
                specs@,
                i + 1,
                0,
            ).contains(x) by {
                let (a, b) = choose|a: int, b: int|
                    is_layer_constraint(specs@, a, b) && (a < i || (a == i && b < j)) && specs@[a].module@ == x.0
                        && parse_layers(#[trigger] specs@[a].constraints@[b].params) == Err::<Seq<Seq<char>>, Seq<char>>(x.1);
            }
        }
        i = i + 1;
    }
    assert(usable_upto(specs@, i as int, 0) =~= usable_layer_configs(specs@));
    assert(issues_upto(specs@, i as int, 0) =~= layer_parse_issues(specs@));
    (usable, issues)
}

proof fn lemma_config_order(a: (Seq<char>, Seq<Seq<char>>), b: (Seq<char>, Seq<Seq<char>>), c: (Seq<char>, Seq<Seq<char>>))
    ensures
        config_order(a, b) == -config_order(b, a),
        config_order(a, b) == 0 <==> a == b,
        config_order(a, b) <= 0 && config_order(b, c) <= 0 ==> config_order(a, c) <= 0,
{
    lemma_seq_order_facts(a.0, b.0, c.0);
    lemma_strs_order_facts(a.1, b.1, c.1);
}

fn config_compare(a: &(String, EnforceLayerConfig), b: &(String, EnforceLayerConfig)) -> (r: i8)
    ensures
        r as int == config_order((a.0@, views(a.1.layers@)), (b.0@, views(b.1.layers@))),
{
    let o = str_order(a.0.as_str(), b.0.as_str());
    if o != 0 {
        o
    } else {
        strs_compare(&a.1.layers, &b.1.layers)
    }
}

/// Index of the least configuration.
fn least_config(usable: &Vec<(String, EnforceLayerConfig)>) -> (r: usize)
    requires
        usable@.len() > 0,
    ensures
        r < usable@.len(),
        forall|k: int| 0 <= k < usable@.len() ==> config_order(config_views(usable@)[r as int], #[trigger] config_views(usable@)[k]) <= 0,
{
    let ghost cv = config_views(usable@);
    let mut best: usize = 0;
    let mut k: usize = 1;
    proof {
        lemma_config_order(cv[0], cv[0], cv[0]);
    }
    while k < usable.len()
        invariant
            cv == config_views(usable@),
            best < k <= usable@.len(),
            forall|q: int| 0 <= q < k ==> config_order(cv[best as int], #[trigger] cv[q]) <= 0,
        decreases usable@.len() - k,
    {
        if config_compare(&usable[k], &usable[best]) < 0 {
            proof {
                assert forall|q: int| 0 <= q < k + 1 implies config_order(cv[k as int], #[trigger] cv[q]) <= 0 by {
                    lemma_config_order(cv[k as int], cv[best as int], cv[q]);
                    lemma_config_order(cv[k as int], cv[k as int], cv[k as int]);
                }
            }
            best = k;
        } else {
            proof {
                lemma_config_order(cv[best as int], cv[k as int], cv[k as int]);
            }
        }
        k = k + 1;
    }
    best
}

proof fn lemma_canonical_is_least(cv: Seq<(Seq<char>, Seq<Seq<char>>)>, r: int)
    requires
        0 <= r < cv.len(),
        forall|k: int| 0 <= k < cv.len() ==> config_order(cv[r], #[trigger] cv[k]) <= 0,
    ensures
        canonical_layer_config(cv.to_set()) == cv[r],
{
    let u = cv.to_set();
    assert(u.contains(cv[r]));
    assert forall|x: (Seq<char>, Seq<Seq<char>>)| #[trigger] u.contains(x) implies config_order(cv[r], x) <= 0 by {
        let k = choose|k: int| 0 <= k < cv.len() && cv[k] == x;
    }
    let c = canonical_layer_config(u);
    assert(u.contains(c) && forall|x: (Seq<char>, Seq<Seq<char>>)| #[trigger] u.contains(x) ==> config_order(c, x) <= 0);
    lemma_config_order(c, cv[r], cv[r]);
}

/// Conflict issues of the declarations in `cv` that differ from `canon`.
pub open spec fn conflicts_of(cv: Set<(Seq<char>, Seq<Seq<char>>)>, canon: (Seq<char>, Seq<Seq<char>>)) -> Set<(Seq<char>, Seq<char>)> {
    Set::new(
        |x: (Seq<char>, Seq<char>)|
            exists|c: (Seq<char>, Seq<Seq<char>>)|
                #[trigger] cv.contains(c) && c.1 != canon.1 && x == (c.0, conflict_message(canon, c.1)),
    )
}

fn conflict_message_exec(canon: &(String, EnforceLayerConfig), layers: &Vec<String>) -> (r: String)
    ensures
        r@ == conflict_message((canon.0@, views(canon.1.layers@)), views(layers@)),
{
    let mut m = owned("conflicting enforce-layer config; using canonical layers ");
    let d = debug_strings(&canon.1.layers);
    push_str(&mut m, d.as_str());
    push_str(&mut m, " from module '");
    push_str(&mut m, canon.0.as_str());
    push_str(&mut m, "' (deterministic: lexicographically first module id). This module declared layers ");
    let d2 = debug_strings(layers);
    push_str(&mut m, d2.as_str());
    m
}

fn add_conflicts(
    usable: &Vec<(String, EnforceLayerConfig)>,
    canon: usize,
    issues: &mut Vec<(String, String)>,
)
    requires
        canon < usable@.len(),
        pairs_strictly_sorted(pair_views(old(issues)@)),
    ensures
        pairs_strictly_sorted(pair_views(final(issues)@)),
        pair_views(final(issues)@).to_set() == pair_views(old(issues)@).to_set() + conflicts_of(
            config_views(usable@).to_set(),
            config_views(usable@)[canon as int],
        ),
{
    let ghost cv = config_views(usable@);
    let ghost c0 = cv[canon as int];
    let ghost start = pair_views(issues@).to_set();
    let mut k: usize = 0;
    assert(start =~= start + conflicts_of(cv.take(0).to_set(), c0));
    while k < usable.len()
        invariant
            canon < usable@.len(),
            cv == config_views(usable@),
            c0 == cv[canon as int],
            k <= usable@.len(),
            pairs_strictly_sorted(pair_views(issues@)),
            pair_views(issues@).to_set() == start + conflicts_of(cv.take(k as int).to_set(), c0),
        decreases usable@.len() - k,
    {
        let ghost prev = conflicts_of(cv.take(k as int).to_set(), c0);
        let ghost next = conflicts_of(cv.take(k + 1).to_set(), c0);
        assert(cv.take(k + 1) =~= cv.take(k as int).push(cv[k as int]));
        proof {
            crate::policy::config_diff::lemma_push_to_set(cv.take(k as int), cv[k as int]);
        }
        proof {
            lemma_strs_order_facts(cv[k as int].1, c0.1, c0.1);
        }
        if strs_compare(&usable[k].1.layers, &usable[canon].1.layers) != 0 {
            let msg = conflict_message_exec(&usable[canon], &usable[k].1.layers);
            let ghost item = (cv[k as int].0, msg@);
            pair_insert(issues, (usable[k].0.clone(), msg));
            assert(next =~= prev.insert(item)) by {
                assert forall|x: (Seq<char>, Seq<char>)| next.contains(x) implies prev.insert(item).contains(x) by {
                    let c = choose|c: (Seq<char>, Seq<Seq<char>>)|
                        #[trigger] cv.take(k + 1).to_set().contains(c) && c.1 != c0.1 && x == (c.0, conflict_message(c0, c.1));
                    if c != cv[k as int] {
                        assert(cv.take(k as int).to_set().contains(c));
                    }
                }
                assert forall|x: (Seq<char>, Seq<char>)| prev.insert(item).contains(x) implies next.contains(x) by {
                    if x == item {
                        assert(cv.take(k + 1).to_set().contains(cv[k as int]));
                    } else {
                        let c = choose|c: (Seq<char>, Seq<Seq<char>>)|
                            #[trigger] cv.take(k as int).to_set().contains(c) && c.1 != c0.1 && x == (c.0, conflict_message(c0, c.1));
                        assert(cv.take(k + 1).to_set().contains(c));
                    }
                }
            }
        } else {
            assert(next =~= prev) by {
                assert forall|x: (Seq<char>, Seq<char>)| next.contains(x) implies prev.contains(x) by {
                    let c = choose|c: (Seq<char>, Seq<Seq<char>>)|
                        #[trigger] cv.take(k + 1).to_set().contains(c) && c.1 != c0.1 && x == (c.0, conflict_message(c0, c.1));
                    if c != cv[k as int] {
                        assert(cv.take(k as int).to_set().contains(c));
                    }
                }
                assert forall|x: (Seq<char>, Seq<char>)| prev.contains(x) implies next.contains(x) by {
                    let c = choose|c: (Seq<char>, Seq<Seq<char>>)|
                        #[trigger] cv.take(k as int).to_set().contains(c) && c.1 != c0.1 && x == (c.0, conflict_message(c0, c.1));
                    assert(cv.take(k + 1).to_set().contains(c));
                }
            }
        }
        assert(pair_views(issues@).to_set() =~= start + next);
        k = k + 1;
    }
    assert(cv.take(k as int) =~= cv);
}

/// Unknown-layer issues of the modules in `modules`.
pub open spec fn unknowns_of(modules: Set<Seq<char>>, layers: Seq<Seq<char>>) -> Set<(Seq<char>, Seq<char>)> {
    Set::new(
        |x: (Seq<char>, Seq<char>)|
            exists|m: Seq<char>|
                #[trigger] modules.contains(m) && module_group(m) is Some && !layers.contains(module_group(m).unwrap())
                    && x == (m, unknown_layer_message(m, module_group(m).unwrap(), layers)),
    )
}

fn add_unknown_layers(modules: &Vec<String>, layers: &Vec<String>, issues: &mut Vec<(String, String)>)
    requires
        pairs_strictly_sorted(pair_views(old(issues)@)),
    ensures
        pairs_strictly_sorted(pair_views(final(issues)@)),
        pair_views(final(issues)@).to_set() == pair_views(old(issues)@).to_set() + unknowns_of(
            views(modules@).to_set(),
            views(layers@),
        ),
{
    let ghost ms = views(modules@);
    let ghost ls = views(layers@);
    let ghost start = pair_views(issues@).to_set();
    let mut k: usize = 0;
    assert(start =~= start + unknowns_of(ms.take(0).to_set(), ls));
    while k < modules.len()
        invariant
            ms == views(modules@),
            ls == views(layers@),
            k <= modules@.len(),
            pairs_strictly_sorted(pair_views(issues@)),
            pair_views(issues@).to_set() == start + unknowns_of(ms.take(k as int).to_set(), ls),
        decreases modules@.len() - k,
    {
        let m = modules[k].as_str();
        let ghost prev = unknowns_of(ms.take(k as int).to_set(), ls);
        let ghost next = unknowns_of(ms.take(k + 1).to_set(), ls);
        assert(ms.take(k + 1) =~= ms.take(k as int).push(m@));
        proof {
            crate::policy::config_diff::lemma_push_to_set(ms.take(k as int), m@);
        }
        let mut added = false;
        match layer_for_module(m) {
            Some(layer) => {
                if !strings_contain(layers, layer) {
                    let mut msg = owned("module '");
                    push_str(&mut msg, m);
                    push_str(&mut msg, "' maps to layer '");
                    push_str(&mut msg, layer);
                    push_str(&mut msg, "', which is not listed in params.layers ");
                    let d = debug_strings(layers);
                    push_str(&mut msg, d.as_str());
                    let ghost item = (m@, msg@);
                    pair_insert(issues, (owned(m), msg));
                    added = true;
                    assert(next =~= prev.insert(item)) by {
                        assert forall|x: (Seq<char>, Seq<char>)| next.contains(x) implies prev.insert(item).contains(x) by {
                            let mm = choose|mm: Seq<char>|
                                #[trigger] ms.take(k + 1).to_set().contains(mm) && module_group(mm) is Some && !ls.contains(
                                    module_group(mm).unwrap(),
                                ) && x == (mm, unknown_layer_message(mm, module_group(mm).unwrap(), ls));
                            if mm != m@ {
                                assert(ms.take(k as int).to_set().contains(mm));
                            }
                        }
                        assert forall|x: (Seq<char>, Seq<char>)| prev.insert(item).contains(x) implies next.contains(x) by {
                            if x == item {
                                assert(ms.take(k + 1).to_set().contains(m@));
                            } else {
                                let mm = choose|mm: Seq<char>|
                                    #[trigger] ms.take(k as int).to_set().contains(mm) && module_group(mm) is Some
                                        && !ls.contains(module_group(mm).unwrap()) && x == (mm, unknown_layer_message(
                                        mm,
                                        module_group(mm).unwrap(),
                                        ls,
                                    ));
                                assert(ms.take(k + 1).to_set().contains(mm));
                            }
                        }
                    }
                }
            },
            None => {},
        }
        if !added {
            assert(next =~= prev) by {
                assert forall|x: (Seq<char>, Seq<char>)| next.contains(x) implies prev.contains(x) by {
                    let mm = choose|mm: Seq<char>|
                        #[trigger] ms.take(k + 1).to_set().contains(mm) && module_group(mm) is Some && !ls.contains(
                            module_group(mm).unwrap(),
                        ) && x == (mm, unknown_layer_message(mm, module_group(mm).unwrap(), ls));
                    if mm != m@ {
                        assert(ms.take(k as int).to_set().contains(mm));
                    }
                }
                assert forall|x: (Seq<char>, Seq<char>)| prev.contains(x) implies next.contains(x) by {
                    let mm = choose|mm: Seq<char>|
                        #[trigger] ms.take(k as int).to_set().contains(mm) && module_group(mm) is Some && !ls.contains(
                            module_group(mm).unwrap(),
                        ) && x == (mm, unknown_layer_message(mm, module_group(mm).unwrap(), ls));
                    assert(ms.take(k + 1).to_set().contains(mm));
                }
            }
        }
        assert(pair_views(issues@).to_set() =~= start + next);
        k = k + 1;
    }
    assert(ms.take(k as int) =~= ms);
}

fn edge_violation(graph: &DependencyGraph, layers: &Vec<String>, e: &GraphEdge) -> (r: Option<LayerViolation>)
    ensures
        match r {
            Some(v) => edge_layer_violation(*graph, views(layers@), *e) == Some(layer_violation_model(v)),
            None => edge_layer_violation(*graph, views(layers@), *e) is None,
        },
{
    let fm = match graph.module_of_file(e.from.as_str()) {
        Some(m) => m,
        None => {
            return None;
        },
    };
    let tm = match graph.module_of_file(e.to.as_str()) {
        Some(m) => m,
        None => {
            return None;
        },
    };
    if str_eq(fm, tm) {
        return None;
    }
    let fl = match layer_for_module(fm) {
        Some(l) => l,
        None => {
            return None;
        },
    };
    let tl = match layer_for_module(tm) {
        Some(l) => l,
        None => {
            return None;
        },
    };
    if str_eq(fl, tl) {
        return None;
    }
    let fi = match position_exec(layers, fl) {
        Some(i) => i,
        None => {
            return None;
        },
    };
    let ti = match position_exec(layers, tl) {
        Some(i) => i,
        None => {
            return None;
        },
    };
    if ti >= fi {
        return None;
    }
    let mut message = owned("forbidden layer edge: module '");
    push_str(&mut message, fm);
    push_str(&mut message, "' (layer '");
    push_str(&mut message, fl);
    push_str(&mut message, "') imports '");
    push_str(&mut message, tm);
    push_str(&mut message, "' (layer '");
    push_str(&mut message, tl);
    push_str(&mut message, "') via '");
    push_str(&mut message, e.specifier.as_str());
    push_str(&mut message, "'");
    let mut fix_hint = owned("Re-route this dependency to follow layer order ");
    let d = debug_strings(layers);
    push_str(&mut fix_hint, d.as_str());
    push_str(
        &mut fix_hint,
        ": modules may import same layer or a later layer. Consider moving shared logic into a lower layer or introducing an interface boundary.",
    );
    Some(
        LayerViolation {
            from_module: owned(fm),
            to_module: owned(tm),
            from_layer: owned(fl),
            to_layer: owned(tl),
            from_file: e.from.clone(),
            to_file: e.to.clone(),
            specifier: e.specifier.clone(),
            message,
            fix_hint,
        },
    )
}

fn collect_layer_violations(graph: &DependencyGraph, layers: &Vec<String>) -> (r: Vec<LayerViolation>)
    ensures
        r@.map_values(|v: LayerViolation| layer_violation_model(v)) == layer_violations(*graph, views(layers@), graph.edges@),
{
    let mut out: Vec<LayerViolation> = Vec::new();
    let mut i: usize = 0;
    while i < graph.edges.len()
        invariant
            i <= graph.edges@.len(),
            out@.map_values(|v: LayerViolation| layer_violation_model(v)) == layer_violations(
                *graph,
                views(layers@),
                graph.edges@.take(i as int),
            ),
        decreases graph.edges@.len() - i,
    {
        let ghost prev = out@.map_values(|v: LayerViolation| layer_violation_model(v));
        assert(graph.edges@.take(i + 1).drop_last() =~= graph.edges@.take(i as int));
        assert(graph.edges@.take(i + 1).last() == graph.edges@[i as int]);
        match edge_violation(graph, layers, &graph.edges[i]) {
            Some(v) => {
                let ghost m = layer_violation_model(v);
                out.push(v);
                assert(out@.map_values(|v: LayerViolation| layer_violation_model(v)) =~= prev.push(m));
            },
            None => {
                assert(prev =~= prev + Seq::<LayerViolationModel>::empty());
            },
        }
        i = i + 1;
    }
    assert(graph.edges@.take(i as int) =~= graph.edges@);
    out
}

pub open spec fn issue_views(v: Seq<LayerConfigIssue>) -> Seq<(Seq<char>, Seq<char>)> {
    v.map_values(|x: LayerConfigIssue| (x.module@, x.message@))
}

fn into_issues(pairs: Vec<(String, String)>) -> (r: Vec<LayerConfigIssue>)
    ensures
        issue_views(r@) == pair_views(pairs@),
{
    let ghost pv = pair_views(pairs@);
    let mut rest = pairs;
    let mut out: Vec<LayerConfigIssue> = Vec::new();
    let n = rest.len();
    let mut i: usize = 0;
    while rest.len() > 0
        invariant
            pv.len() == n,
            i + rest@.len() == n,
            pair_views(rest@) == pv.skip(i as int),
            issue_views(out@) == pv.take(i as int),
        decreases rest@.len(),
    {
        let ghost before = pair_views(rest@);
        let p = rest.remove(0);
        assert(before[0] == (p.0@, p.1@));
        assert(pair_views(rest@) =~= before.drop_first());
        assert(pv.skip(i + 1) =~= pv.skip(i as int).drop_first());
        let ghost prev = issue_views(out@);
        out.push(LayerConfigIssue { module: p.0, message: p.1 });
        assert(issue_views(out@) =~= prev.push(pv[i as int]));
        assert(pv.take(i + 1) =~= pv.take(i as int).push(pv[i as int]));
        i = i + 1;
    }
    assert(pv.take(i as int) =~= pv);
    out
}

/// The layer violations of a configuration `u` over a graph.
pub open spec fn expected_layer_violations(specs: Seq<SpecFile>, graph: DependencyGraph) -> Seq<LayerViolationModel> {
    let u = usable_layer_configs(specs);
    if u == Set::<(Seq<char>, Seq<Seq<char>>)>::empty() {
        Seq::empty()
    } else {
        layer_violations(graph, canonical_layer_config(u).1, graph.edges@)
    }
}

/// Every module named by the graph or by a spec, sorted.
fn all_module_names(specs: &[SpecFile], graph: &DependencyGraph) -> (r: Vec<String>)
    ensures
        strictly_sorted(views(r@)),
        views(r@).to_set() == all_modules(specs@, *graph),
{
    let mut modules = graph.modules();
    let mut k: usize = 0;
    let ghost gm = module_set(graph.file_modules@);
    let ghost sm = specs@.map_values(|s: SpecFile| s.module@);
    assert(sm.take(0).to_set() =~= Set::<Seq<char>>::empty());
    assert(views(modules@).to_set() =~= gm + sm.take(0).to_set());
    while k < specs.len()
        invariant
            k <= specs@.len(),
            gm == module_set(graph.file_modules@),
            sm == specs@.map_values(|s: SpecFile| s.module@),
            strictly_sorted(views(modules@)),
            views(modules@).to_set() == gm + sm.take(k as int).to_set(),
        decreases specs@.len() - k,
    {
        set_insert(&mut modules, specs[k].module.clone());
        assert(sm.take(k + 1) =~= sm.take(k as int).push(specs@[k as int].module@));
        proof {
            crate::policy::config_diff::lemma_push_to_set(sm.take(k as int), specs@[k as int].module@);
        }
        assert(views(modules@).to_set() =~= gm + sm.take(k + 1).to_set());
        k = k + 1;
    }
    assert(sm.take(k as int) =~= sm);
    modules
}

proof fn lemma_layer_issue_parts(specs: Seq<SpecFile>, graph: DependencyGraph, c0: (Seq<char>, Seq<Seq<char>>))
    requires
        usable_layer_configs(specs) != Set::<(Seq<char>, Seq<Seq<char>>)>::empty(),
        c0 == canonical_layer_config(usable_layer_configs(specs)),
    ensures
        layer_parse_issues(specs) + conflicts_of(usable_layer_configs(specs), c0) + unknowns_of(
            all_modules(specs, graph),
            c0.1,
        ) == layer_config_issues(specs, graph),
{
    let u = usable_layer_configs(specs);
    assert(conflicts_of(u, c0) =~= Set::new(
        |x: (Seq<char>, Seq<char>)|
            exists|c: (Seq<char>, Seq<Seq<char>>)|
                #[trigger] u.contains(c) && c.1 != c0.1 && x == (c.0, conflict_message(c0, c.1)),
    ));
    assert(layer_parse_issues(specs) + conflicts_of(u, c0) + unknowns_of(all_modules(specs, graph), c0.1)
        =~= layer_config_issues(specs, graph));
}

/// Enforces the layer order declared by `enforce-layer` constraints over the
/// graph's imports: malformed, conflicting and unlisted declarations become
/// sorted, deduplicated configuration issues; imports against the canonical
/// order become violations, sorted.
#[verifier::spinoff_prover]
#[verifier::rlimit(40)]
pub fn evaluate_enforce_layer(specs: &[SpecFile], graph: &DependencyGraph) -> (r: EnforceLayerReport)
    ensures
        pairs_strictly_sorted(issue_views(r.config_issues@)),
        issue_views(r.config_issues@).to_set() == layer_config_issues(specs@, *graph),
        sorted_by_key(r.violations@),
        r.violations@.map_values(|v: LayerViolation| layer_violation_model(v)).to_multiset()
            == expected_layer_violations(specs@, *graph).to_multiset(),
{
    let (usable, mut issues) = collect_layer_configs(specs);
    let ghost u = usable_layer_configs(specs@);
    if usable.len() == 0 {
        assert(config_views(usable@) =~= Seq::<(Seq<char>, Seq<Seq<char>>)>::empty());
        assert(u =~= Set::<(Seq<char>, Seq<Seq<char>>)>::empty());
        let config_issues = into_issues(issues);
        let violations: Vec<LayerViolation> = Vec::new();
        assert(violations@.map_values(|v: LayerViolation| layer_violation_model(v)) =~= Seq::<LayerViolationModel>::empty());
        return EnforceLayerReport { violations, config_issues };
    }
    assert(config_views(usable@).to_set().contains(config_views(usable@)[0]));
    assert(u != Set::<(Seq<char>, Seq<Seq<char>>)>::empty());
    let canon = least_config(&usable);
    proof {
        lemma_canonical_is_least(config_views(usable@), canon as int);
    }
    let ghost c0 = canonical_layer_config(u);
    add_conflicts(&usable, canon, &mut issues);
    let modules = all_module_names(specs, graph);
    let layers = &usable[canon].1.layers;
    add_unknown_layers(&modules, layers, &mut issues);
    proof {
        lemma_layer_issue_parts(specs@, *graph, c0);
    }
    let mut violations = collect_layer_violations(graph, layers);
    let ghost unsorted = violations@;
    sort_by_key(&mut violations);
    proof {
        lemma_multiset_map(violations@, unsorted, |v: LayerViolation| layer_violation_model(v));
    }
    let config_issues = into_issues(issues);
    EnforceLayerReport { violations, config_issues }
}

proof fn lemma_layer_sets_included(a: Seq<SpecFile>, b: Seq<SpecFile>, graph: DependencyGraph)
    requires
        a.to_multiset() == b.to_multiset(),
    ensures
        usable_layer_configs(a).subset_of(usable_layer_configs(b)),
        layer_parse_issues(a).subset_of(layer_parse_issues(b)),
        all_modules(a, graph).subset_of(all_modules(b, graph)),
{
    assert forall|u: (Seq<char>, Seq<Seq<char>>)| usable_layer_configs(a).contains(u) implies usable_layer_configs(
        b,
    ).contains(u) by {
        let (i, j) = choose|i: int, j: int|
            is_layer_constraint(a, i, j) && a[i].module@ == u.0 && parse_layers(#[trigger] a[i].constraints@[j].params)
                == Ok::<Seq<Seq<char>>, Seq<char>>(u.1);
        let k = lemma_same_elements(a, b, i);
        assert(is_layer_constraint(b, k, j));
        assert(parse_layers(b[k].constraints@[j].params) == Ok::<Seq<Seq<char>>, Seq<char>>(u.1));
    }
    assert forall|x: (Seq<char>, Seq<char>)| layer_parse_issues(a).contains(x) implies layer_parse_issues(b).contains(x) by {
        let (i, j) = choose|i: int, j: int|
            is_layer_constraint(a, i, j) && a[i].module@ == x.0 && parse_layers(#[trigger] a[i].constraints@[j].params)
                == Err::<Seq<Seq<char>>, Seq<char>>(x.1);
        let k = lemma_same_elements(a, b, i);
        assert(is_layer_constraint(b, k, j));
        assert(parse_layers(b[k].constraints@[j].params) == Err::<Seq<Seq<char>>, Seq<char>>(x.1));
    }
    assert forall|m: Seq<char>| all_modules(a, graph).contains(m) implies all_modules(b, graph).contains(m) by {
        let sa = a.map_values(|s: SpecFile| s.module@);
        let sb = b.map_values(|s: SpecFile| s.module@);
        if sa.to_set().contains(m) {
            let i = choose|i: int| 0 <= i < sa.len() && sa[i] == m;
            let k = lemma_same_elements(a, b, i);
            assert(sb[k] == m);
            assert(sb.to_set().contains(m));
        }
    }
}

/// Layer enforcement depends on the specs as a collection, not on their
/// order: reordered specs give the same configuration issues and the same
/// violations.
pub proof fn law_layer_report_ignores_spec_order(a: Seq<SpecFile>, b: Seq<SpecFile>, graph: DependencyGraph)
    requires
        a.to_multiset() == b.to_multiset(),
    ensures
        layer_config_issues(a, graph) == layer_config_issues(b, graph),
        expected_layer_violations(a, graph) == expected_layer_violations(b, graph),
{
    lemma_layer_sets_included(a, b, graph);
    lemma_layer_sets_included(b, a, graph);
    assert(usable_layer_configs(a) =~= usable_layer_configs(b));
    assert(layer_parse_issues(a) =~= layer_parse_issues(b));
    assert(all_modules(a, graph) =~= all_modules(b, graph));
}

} // verus!
