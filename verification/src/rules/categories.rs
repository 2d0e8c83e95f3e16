//! Category isolation: modules of different governed categories may not
//! import each other.
use vstd::prelude::*;

use super::{lemma_same_elements, module_group, module_group_segment};
use crate::graph::{DependencyGraph, GraphEdge};
use crate::order::{
    comps_order, lemma_comps_order_facts, lemma_multiset_map, lemma_seq_order_facts, lemma_strs_order_facts,
    path_compare, sort_by_key, sorted_by_key, strs_compare, strs_order, then, KeyOrdered,
};
use crate::paths::{path_components, strings_contain};
use crate::spec::types::{member_lookup, JsonValue, SpecFile};
use crate::strset::{pair_insert, pair_views, pairs_strictly_sorted};
use crate::text::{debug_list, debug_strings, owned, push_str, seq_order, str_eq, str_order, trim, trim_str, views};

verus! {

pub const ENFORCE_CATEGORY_RULE_ID: &'static str = "enforce-category";

/// Parameters of an `enforce-category` constraint.
#[derive(Debug, Clone, PartialEq, Eq)]
pub struct EnforceCategoryConfig {
    /// Descriptive label for this category set (e.g. "domains").
    pub category: String,
    /// Member names that map to module-id first segments.
    pub members: Vec<String>,
}

/// An import across two governed categories.
#[derive(Debug, Clone, PartialEq, Eq)]
pub struct CategoryViolation {
    pub from_module: String,
    pub to_module: String,
    pub from_category: String,
    pub to_category: String,
    pub from_file: String,
    pub to_file: String,
    pub specifier: String,
    pub message: String,
    pub fix_hint: String,
}

/// A problem with the category configuration of a module.
#[derive(Debug, Clone, PartialEq, Eq)]
pub struct CategoryConfigIssue {
    pub module: String,
    pub message: String,
}

/// Outcome of category enforcement.
#[derive(Debug, Clone, PartialEq, Eq)]
pub struct EnforceCategoryReport {
    pub violations: Vec<CategoryViolation>,
    pub config_issues: Vec<CategoryConfigIssue>,
}

impl EnforceCategoryReport {
    /// No violations and no configuration issues.
    pub fn is_clean(&self) -> (r: bool)
        ensures
            r == (self.violations@.len() == 0 && self.config_issues@.len() == 0),
    {
        self.violations.len() == 0 && self.config_issues.len() == 0
    }
}

/// Why `enforce-category` parameters were rejected.
#[derive(Debug, Clone, PartialEq, Eq)]
pub struct CategoryConfigParseError {
    pub message: String,
}

/// The category of a module: the first non-empty `/`-delimited segment of its
/// id, the same convention as `layer_for_module`.
pub fn category_for_module(module_id: &str) -> (r: Option<&str>)
    ensures
        match r {
            Some(seg) => module_group(module_id@) == Some(seg@),
            None => module_group(module_id@) is None,
        },
{
    module_group_segment(module_id)
}

pub open spec fn members_msg(tail: Seq<char>) -> Seq<char> {
    "params.members for rule 'enforce-category' "@ + tail
}

pub open spec fn category_msg() -> Seq<char> {
    "params.category for rule 'enforce-category' must be a non-empty string"@
}

/// The member names of the items of a `members` array, trimmed; the first
/// non-string, blank or repeated item is an error.
pub open spec fn member_items(items: Seq<JsonValue>) -> Result<Seq<Seq<char>>, Seq<char>>
    decreases items.len(),
{
    if items.len() == 0 {
        Ok(Seq::empty())
    } else {
        match member_items(items.drop_last()) {
            Err(e) => Err(e),
            Ok(acc) => match items.last() {
                JsonValue::Str(s) => {
                    let t = trim(s@);
                    if t.len() == 0 {
                        Err(members_msg("cannot contain empty member names"@))
                    } else if acc.contains(t) {
                        Err(members_msg("contains duplicate member '"@ + t + "'"@))
                    } else {
                        Ok(acc.push(t))
                    }
                },
                _ => Err(members_msg("must contain only strings"@)),
            },
        }
    }
}

/// The members of `enforce-category` parameters once the category is read.
pub open spec fn parse_members(m: Seq<(String, JsonValue)>) -> Result<Seq<Seq<char>>, Seq<char>> {
    match member_lookup(m, "members"@) {
        None => Err("params for rule 'enforce-category' must include non-empty 'members' array"@),
        Some(JsonValue::Array(items)) => if items@.len() == 0 {
            Err(members_msg("must not be empty"@))
        } else {
            member_items(items@)
        },
        Some(_) => Err(members_msg("must be an array of non-empty strings"@)),
    }
}

/// The (category, members) of `enforce-category` parameters: an object with
/// a non-blank `category` string (trimmed) and a non-empty array `members`
/// of distinct non-blank strings (trimmed).
pub open spec fn parse_category(params: JsonValue) -> Result<(Seq<char>, Seq<Seq<char>>), Seq<char>> {
    match params {
        JsonValue::Object(m) => match member_lookup(m@, "category"@) {
            None => Err("params for rule 'enforce-category' must include non-empty 'category' string"@),
            Some(JsonValue::Str(c)) => if trim(c@).len() == 0 {
                Err(category_msg())
            } else {
                match parse_members(m@) {
                    Ok(ms) => Ok((trim(c@), ms)),
                    Err(e) => Err(e),
                }
            },
            Some(_) => Err(category_msg()),
        },
        _ => Err("params for rule 'enforce-category' must be an object with keys 'category' and 'members'"@),
    }
}

fn parse_error(message: String) -> (r: CategoryConfigParseError)
    ensures
        r.message == message,
{
    CategoryConfigParseError { message }
}

fn members_error(tail: &str) -> (r: CategoryConfigParseError)
    ensures
        r.message@ == members_msg(tail@),
{
    let mut m = owned("params.members for rule 'enforce-category' ");
    push_str(&mut m, tail);
    parse_error(m)
}

proof fn lemma_member_items_err_stays(items: Seq<JsonValue>, k: int)
    requires
        0 <= k <= items.len(),
        member_items(items.take(k)) is Err,
    ensures
        member_items(items) == member_items(items.take(k)),
    decreases items.len() - k,
{
    if k < items.len() {
        assert(items.take(k + 1).drop_last() =~= items.take(k));
        lemma_member_items_err_stays(items, k + 1);
    } else {
        assert(items.take(k) =~= items);
    }
}

fn parse_member_list(raw: &Vec<JsonValue>) -> (r: Result<Vec<String>, CategoryConfigParseError>)
    requires
        raw@.len() > 0,
    ensures
        match r {
            Ok(ms) => member_items(raw@) == Ok::<Seq<Seq<char>>, Seq<char>>(views(ms@)),
            Err(e) => member_items(raw@) == Err::<Seq<Seq<char>>, Seq<char>>(e.message@),
        },
{
    let mut members: Vec<String> = Vec::new();
    let mut i: usize = 0;
    assert(raw@.take(0) =~= Seq::<JsonValue>::empty());
    assert(views(members@) =~= Seq::<Seq<char>>::empty());
    while i < raw.len()
        invariant
            i <= raw@.len(),
            member_items(raw@.take(i as int)) == Ok::<Seq<Seq<char>>, Seq<char>>(views(members@)),
        decreases raw@.len() - i,
    {
        assert(raw@.take(i + 1).drop_last() =~= raw@.take(i as int));
        assert(raw@.take(i + 1).last() == raw@[i as int]);
        let t = match &raw[i] {
            JsonValue::Str(s) => trim_str(s.as_str()),
            _ => {
                proof {
                    lemma_member_items_err_stays(raw@, i + 1);
                }
                return Err(members_error("must contain only strings"));
            },
        };
        if t.unicode_len() == 0 {
            proof {
                lemma_member_items_err_stays(raw@, i + 1);
            }
            return Err(members_error("cannot contain empty member names"));
        }
        if strings_contain(&members, t) {
            let mut tail = owned("contains duplicate member '");
            push_str(&mut tail, t);
            push_str(&mut tail, "'");
            proof {
                lemma_member_items_err_stays(raw@, i + 1);
            }
            return Err(members_error(tail.as_str()));
        }
        let ghost before = views(members@);
        members.push(owned(t));
        assert(views(members@) =~= before.push(t@));
        i = i + 1;
    }
    assert(raw@.take(i as int) =~= raw@);
    Ok(members)
}

/// Reads `enforce-category` parameters (see `parse_category`).
pub fn parse_enforce_category_config(params: &JsonValue) -> (r: Result<EnforceCategoryConfig, CategoryConfigParseError>)
    ensures
        match r {
            Ok(c) => parse_category(*params) == Ok::<(Seq<char>, Seq<Seq<char>>), Seq<char>>(
                (c.category@, views(c.members@)),
            ),
            Err(e) => parse_category(*params) == Err::<(Seq<char>, Seq<Seq<char>>), Seq<char>>(e.message@),
        },
{
    let category = match params {
        JsonValue::Object(_) => match params.get("category") {
            None => {
                return Err(
                    parse_error(owned("params for rule 'enforce-category' must include non-empty 'category' string")),
                );
            },
            Some(JsonValue::Str(c)) => trim_str(c.as_str()),
            Some(_) => {
                return Err(parse_error(owned("params.category for rule 'enforce-category' must be a non-empty string")));
            },
        },
        _ => {
            return Err(
                parse_error(
                    owned("params for rule 'enforce-category' must be an object with keys 'category' and 'members'"),
                ),
            );
        },
    };
    if category.unicode_len() == 0 {
        return Err(parse_error(owned("params.category for rule 'enforce-category' must be a non-empty string")));
    }
    let raw = match params.get("members") {
        None => {
            return Err(parse_error(owned("params for rule 'enforce-category' must include non-empty 'members' array")));
        },
        Some(JsonValue::Array(items)) => items,
        Some(_) => {
            return Err(members_error("must be an array of non-empty strings"));
        },
    };
    if raw.len() == 0 {
        return Err(members_error("must not be empty"));
    }
    match parse_member_list(raw) {
        Ok(members) => Ok(EnforceCategoryConfig { category: owned(category), members }),
        Err(e) => Err(e),
    }
}

/// A declaration: the declaring module, and the (category, members) read.
pub type CategoryDecl = (Seq<char>, (Seq<char>, Seq<Seq<char>>));

pub type CategoryParams = (Seq<char>, Seq<Seq<char>>);

/// An `enforce-category` constraint of spec `i`, constraint `j`.
pub open spec fn is_category_constraint(specs: Seq<SpecFile>, i: int, j: int) -> bool {
    &&& 0 <= i < specs.len()
    &&& 0 <= j < specs[i].constraints@.len()
    &&& specs[i].constraints@[j].rule@ == ENFORCE_CATEGORY_RULE_ID@
}

/// The (module, (category, members)) of the well-formed `enforce-category` constraints.
pub open spec fn usable_category_configs(specs: Seq<SpecFile>) -> Set<CategoryDecl> {
    Set::new(
        |u: CategoryDecl|
            exists|i: int, j: int|
                is_category_constraint(specs, i, j) && specs[i].module@ == u.0 && parse_category(
                    #[trigger] specs[i].constraints@[j].params,
                ) == Ok::<CategoryParams, Seq<char>>(u.1),
    )
}

/// The (module, message) of the malformed `enforce-category` constraints.
pub open spec fn category_parse_issues(specs: Seq<SpecFile>) -> Set<(Seq<char>, Seq<char>)> {
    Set::new(
        |x: (Seq<char>, Seq<char>)|
            exists|i: int, j: int|
                is_category_constraint(specs, i, j) && specs[i].module@ == x.0 && parse_category(
                    #[trigger] specs[i].constraints@[j].params,
                ) == Err::<CategoryParams, Seq<char>>(x.1),
    )
}

/// Order of configurations: by module, then category, then members.
pub open spec fn config_order(a: CategoryDecl, b: CategoryDecl) -> int {
    then(seq_order(a.0, b.0), then(seq_order(a.1.0, b.1.0), strs_order(a.1.1, b.1.1)))
}

/// The configuration every other is checked against: the least by module,
/// then category, then members.
pub open spec fn canonical_category_config(u: Set<CategoryDecl>) -> CategoryDecl {
    choose|c: CategoryDecl| u.contains(c) && forall|x: CategoryDecl| #[trigger] u.contains(x) ==> config_order(c, x) <= 0
}

/// `usable_category_configs` restricted to the constraints before (`i`, `j`).
pub open spec fn usable_upto(specs: Seq<SpecFile>, i: int, j: int) -> Set<CategoryDecl> {
    Set::new(
        |u: CategoryDecl|
            exists|a: int, b: int|
                is_category_constraint(specs, a, b) && (a < i || (a == i && b < j)) && specs[a].module@ == u.0
                    && parse_category(#[trigger] specs[a].constraints@[b].params) == Ok::<CategoryParams, Seq<char>>(u.1),
    )
}

pub open spec fn issues_upto(specs: Seq<SpecFile>, i: int, j: int) -> Set<(Seq<char>, Seq<char>)> {
    Set::new(
        |x: (Seq<char>, Seq<char>)|
            exists|a: int, b: int|
                is_category_constraint(specs, a, b) && (a < i || (a == i && b < j)) && specs[a].module@ == x.0
                    && parse_category(#[trigger] specs[a].constraints@[b].params) == Err::<CategoryParams, Seq<char>>(x.1),
    )
}

pub open spec fn config_views(v: Seq<(String, EnforceCategoryConfig)>) -> Seq<CategoryDecl> {
    v.map_values(|p: (String, EnforceCategoryConfig)| (p.0@, (p.1.category@, views(p.1.members@))))
}

/// The well-formed and the malformed `enforce-category` declarations.
fn collect_category_configs(specs: &[SpecFile]) -> (r: (Vec<(String, EnforceCategoryConfig)>, Vec<(String, String)>))
    ensures
        config_views(r.0@).to_set() == usable_category_configs(specs@),
        pairs_strictly_sorted(pair_views(r.1@)),
        pair_views(r.1@).to_set() == category_parse_issues(specs@),
{
    let mut usable: Vec<(String, EnforceCategoryConfig)> = Vec::new();
    let mut issues: Vec<(String, String)> = Vec::new();
    let mut i: usize = 0;
    assert(config_views(usable@).to_set() =~= usable_upto(specs@, 0, 0));
    assert(pair_views(issues@).to_set() =~= issues_upto(specs@, 0, 0));
    while i < specs.len()
        invariant
            i <= specs@.len(),
            config_views(usable@).to_set() == usable_upto(specs@, i as int, 0),
            pairs_strictly_sorted(pair_views(issues@)),
            pair_views(issues@).to_set() == issues_upto(specs@, i as int, 0),
        decreases specs@.len() - i,
    {
        let spec = &specs[i];
        let mut j: usize = 0;
        while j < spec.constraints.len()
            invariant
                i < specs@.len(),
                *spec == specs@[i as int],
                j <= spec.constraints@.len(),
                config_views(usable@).to_set() == usable_upto(specs@, i as int, j as int),
                pairs_strictly_sorted(pair_views(issues@)),
                pair_views(issues@).to_set() == issues_upto(specs@, i as int, j as int),
            decreases spec.constraints@.len() - j,
        {
            let c = &spec.constraints[j];
            let ghost uprev = usable_upto(specs@, i as int, j as int);
            let ghost unext = usable_upto(specs@, i as int, j + 1);
            let ghost iprev = issues_upto(specs@, i as int, j as int);
            let ghost inext = issues_upto(specs@, i as int, j + 1);
            if str_eq(c.rule.as_str(), ENFORCE_CATEGORY_RULE_ID) {
                match parse_enforce_category_config(&c.params) {
                    Ok(config) => {
                        let ghost item = (spec.module@, (config.category@, views(config.members@)));
                        let ghost before = config_views(usable@);
                        usable.push((spec.module.clone(), config));
                        assert(config_views(usable@) =~= before.push(item));
                        proof {
                            crate::policy::config_diff::lemma_push_to_set(before, item);
                        }
                        assert(unext =~= uprev.insert(item)) by {
                            assert forall|u: CategoryDecl| unext.contains(u) implies uprev.insert(item).contains(u) by {
                                let (a, b) = choose|a: int, b: int|
                                    is_category_constraint(specs@, a, b) && (a < i || (a == i && b < j + 1))
                                        && specs@[a].module@ == u.0 && parse_category(
                                        #[trigger] specs@[a].constraints@[b].params,
                                    ) == Ok::<CategoryParams, Seq<char>>(u.1);
                                if !(a == i && b == j) {
                                    assert(uprev.contains(u));
                                }
                            }
                            assert forall|u: CategoryDecl| uprev.insert(item).contains(u) implies unext.contains(u) by {
                                if u == item {
                                    assert(is_category_constraint(specs@, i as int, j as int));
                                    assert(parse_category(specs@[i as int].constraints@[j as int].params) == Ok::<CategoryParams, Seq<char>>(u.1));
                                } else {
                                    let (a, b) = choose|a: int, b: int|
                                        is_category_constraint(specs@, a, b) && (a < i || (a == i && b < j))
                                            && specs@[a].module@ == u.0 && parse_category(
                                            #[trigger] specs@[a].constraints@[b].params,
                                        ) == Ok::<CategoryParams, Seq<char>>(u.1);
                                }
                            }
                        }
                        assert(inext =~= iprev) by {
                            assert forall|x: (Seq<char>, Seq<char>)| inext.contains(x) implies iprev.contains(x) by {
                                let (a, b) = choose|a: int, b: int|
                                    is_category_constraint(specs@, a, b) && (a < i || (a == i && b < j + 1))
                                        && specs@[a].module@ == x.0 && parse_category(
                                        #[trigger] specs@[a].constraints@[b].params,
                                    ) == Err::<CategoryParams, Seq<char>>(x.1);
                                if a == i && b == j {
                                    assert(false);
                                }
                            }
                            assert forall|x: (Seq<char>, Seq<char>)| iprev.contains(x) implies inext.contains(x) by {
                                let (a, b) = choose|a: int, b: int|
                                    is_category_constraint(specs@, a, b) && (a < i || (a == i && b < j))
                                        && specs@[a].module@ == x.0 && parse_category(
                                        #[trigger] specs@[a].constraints@[b].params,
                                    ) == Err::<CategoryParams, Seq<char>>(x.1);
                            }
                        }
                    },
                    Err(e) => {
                        let ghost item = (spec.module@, e.message@);
                        pair_insert(&mut issues, (spec.module.clone(), e.message));
                        assert(inext =~= iprev.insert(item)) by {
                            assert forall|x: (Seq<char>, Seq<char>)| inext.contains(x) implies iprev.insert(item).contains(x) by {
                                let (a, b) = choose|a: int, b: int|
                                    is_category_constraint(specs@, a, b) && (a < i || (a == i && b < j + 1))
                                        && specs@[a].module@ == x.0 && parse_category(
                                        #[trigger] specs@[a].constraints@[b].params,
                                    ) == Err::<CategoryParams, Seq<char>>(x.1);
                                if !(a == i && b == j) {
                                    assert(iprev.contains(x));
                                }
                            }
                            assert forall|x: (Seq<char>, Seq<char>)| iprev.insert(item).contains(x) implies inext.contains(x) by {
                                if x == item {
                                    assert(is_category_constraint(specs@, i as int, j as int));
                                    assert(parse_category(specs@[i as int].constraints@[j as int].params) == Err::<CategoryParams, Seq<char>>(x.1));
                                } else {
                                    let (a, b) = choose|a: int, b: int|
                                        is_category_constraint(specs@, a, b) && (a < i || (a == i && b < j))
                                            && specs@[a].module@ == x.0 && parse_category(
                                            #[trigger] specs@[a].constraints@[b].params,
                                        ) == Err::<CategoryParams, Seq<char>>(x.1);
                                }
                            }
                        }
                        assert(unext =~= uprev) by {
                            assert forall|u: CategoryDecl| unext.contains(u) implies uprev.contains(u) by {
                                let (a, b) = choose|a: int, b: int|
                                    is_category_constraint(specs@, a, b) && (a < i || (a == i && b < j + 1))
                                        && specs@[a].module@ == u.0 && parse_category(
                                        #[trigger] specs@[a].constraints@[b].params,
                                    ) == Ok::<CategoryParams, Seq<char>>(u.1);
                                if a == i && b == j {
                                    assert(false);
                                }
                            }
                            assert forall|u: CategoryDecl| uprev.contains(u) implies unext.contains(u) by {
                                let (a, b) = choose|a: int, b: int|
                                    is_category_constraint(specs@, a, b) && (a < i || (a == i && b < j))
                                        && specs@[a].module@ == u.0 && parse_category(
                                        #[trigger] specs@[a].constraints@[b].params,
                                    ) == Ok::<CategoryParams, Seq<char>>(u.1);
                            }
                        }
                    },
                }
            } else {
                assert(unext =~= uprev) by {
                    assert forall|u: CategoryDecl| unext.contains(u) implies uprev.contains(u) by {
                        let (a, b) = choose|a: int, b: int|
                            is_category_constraint(specs@, a, b) && (a < i || (a == i && b < j + 1))
                                && specs@[a].module@ == u.0 && parse_category(
                                #[trigger] specs@[a].constraints@[b].params,
                            ) == Ok::<CategoryParams, Seq<char>>(u.1);
                    }
                    assert forall|u: CategoryDecl| uprev.contains(u) implies unext.contains(u) by {
                        let (a, b) = choose|a: int, b: int|
                            is_category_constraint(specs@, a, b) && (a < i || (a == i && b < j))
                                && specs@[a].module@ == u.0 && parse_category(
                                #[trigger] specs@[a].constraints@[b].params,
                            ) == Ok::<CategoryParams, Seq<char>>(u.1);
                    }
                }
                assert(inext =~= iprev) by {
                    assert forall|x: (Seq<char>, Seq<char>)| inext.contains(x) implies iprev.contains(x) by {
                        let (a, b) = choose|a: int, b: int|
                            is_category_constraint(specs@, a, b) && (a < i || (a == i && b < j + 1))
                                && specs@[a].module@ == x.0 && parse_category(
                                #[trigger] specs@[a].constraints@[b].params,
                            ) == Err::<CategoryParams, Seq<char>>(x.1);
                    }
                    assert forall|x: (Seq<char>, Seq<char>)| iprev.contains(x) implies inext.contains(x) by {
                        let (a, b) = choose|a: int, b: int|
                            is_category_constraint(specs@, a, b) && (a < i || (a == i && b < j))
                                && specs@[a].module@ == x.0 && parse_category(
                                #[trigger] specs@[a].constraints@[b].params,
                            ) == Err::<CategoryParams, Seq<char>>(x.1);
                    }
                }
            }
            j = j + 1;
        }
        assert(usable_upto(specs@, i + 1, 0) =~= usable_upto(specs@, i as int, j as int)) by {
            assert forall|u: CategoryDecl| usable_upto(specs@, i + 1, 0).contains(u) implies usable_upto(
                specs@,
                i as int,
                j as int,
            ).contains(u) by {
                let (a, b) = choose|a: int, b: int|
                    is_category_constraint(specs@, a, b) && (a < i + 1 || (a == i + 1 && b < 0)) && specs@[a].module@ == u.0
                        && parse_category(#[trigger] specs@[a].constraints@[b].params) == Ok::<CategoryParams, Seq<char>>(u.1);
            }
            assert forall|u: CategoryDecl| usable_upto(specs@, i as int, j as int).contains(u) implies usable_upto(
                specs@,
                i + 1,
                0,
            ).contains(u) by {
                let (a, b) = choose|a: int, b: int|
                    is_category_constraint(specs@, a, b) && (a < i || (a == i && b < j)) && specs@[a].module@ == u.0
                        && parse_category(#[trigger] specs@[a].constraints@[b].params) == Ok::<CategoryParams, Seq<char>>(u.1);
            }
        }
        assert(issues_upto(specs@, i + 1, 0) =~= issues_upto(specs@, i as int, j as int)) by {
            assert forall|x: (Seq<char>, Seq<char>)| issues_upto(specs@, i + 1, 0).contains(x) implies issues_upto(
                specs@,
                i as int,
                j as int,
            ).contains(x) by {
                let (a, b) = choose|a: int, b: int|
                    is_category_constraint(specs@, a, b) && (a < i + 1 || (a == i + 1 && b < 0)) && specs@[a].module@ == x.0
                        && parse_category(#[trigger] specs@[a].constraints@[b].params) == Err::<CategoryParams, Seq<char>>(x.1);
            }
            assert forall|x: (Seq<char>, Seq<char>)| issues_upto(specs@, i as int, j as int).contains(x) implies issues_upto(
                specs@,
                i + 1,
                0,
            ).contains(x) by {
                let (a, b) = choose|a: int, b: int|
                    is_category_constraint(specs@, a, b) && (a < i || (a == i && b < j)) && specs@[a].module@ == x.0
                        && parse_category(#[trigger] specs@[a].constraints@[b].params) == Err::<CategoryParams, Seq<char>>(x.1);
            }
        }
        i = i + 1;
    }
    assert(usable_upto(specs@, i as int, 0) =~= usable_category_configs(specs@));
    assert(issues_upto(specs@, i as int, 0) =~= category_parse_issues(specs@));
    (usable, issues)
}

proof fn lemma_config_order(a: CategoryDecl, b: CategoryDecl, c: CategoryDecl)
    ensures
        config_order(a, b) == -config_order(b, a),
        config_order(a, b) == 0 <==> a == b,
        config_order(a, b) <= 0 && config_order(b, c) <= 0 ==> config_order(a, c) <= 0,
{
    lemma_seq_order_facts(a.0, b.0, c.0);
    lemma_seq_order_facts(a.1.0, b.1.0, c.1.0);
    lemma_strs_order_facts(a.1.1, b.1.1, c.1.1);
}

fn config_compare(a: &(String, EnforceCategoryConfig), b: &(String, EnforceCategoryConfig)) -> (r: i8)
    ensures
        r as int == config_order(
            (a.0@, (a.1.category@, views(a.1.members@))),
            (b.0@, (b.1.category@, views(b.1.members@))),
        ),
{
    let o = str_order(a.0.as_str(), b.0.as_str());
    if o != 0 {
        return o;
    }
    let o = str_order(a.1.category.as_str(), b.1.category.as_str());
    if o != 0 {
        o
    } else {
        strs_compare(&a.1.members, &b.1.members)
    }
}

/// Index of the least configuration.
fn least_config(usable: &Vec<(String, EnforceCategoryConfig)>) -> (r: usize)
    requires
        usable@.len() > 0,
    ensures
        r < usable@.len(),
        forall|k: int| 0 <= k < usable@.len() ==> config_order(config_views(usable@)[r as int], #[trigger] config_views(usable@)[k]) <= 0,
{
    let ghost cv = config_views(usable@);
    let mut best: usize = 0;
    let mut k: usize = 1;
    proof {
        lemma_config_order(cv[0], cv[0], cv[0]);
    }
    while k < usable.len()
        invariant
            cv == config_views(usable@),
            best < k <= usable@.len(),
            forall|q: int| 0 <= q < k ==> config_order(cv[best as int], #[trigger] cv[q]) <= 0,
        decreases usable@.len() - k,
    {
        if config_compare(&usable[k], &usable[best]) < 0 {
            proof {
                assert forall|q: int| 0 <= q < k + 1 implies config_order(cv[k as int], #[trigger] cv[q]) <= 0 by {
                    lemma_config_order(cv[k as int], cv[best as int], cv[q]);
                    lemma_config_order(cv[k as int], cv[k as int], cv[k as int]);
                }
            }
            best = k;
        } else {
            proof {
                lemma_config_order(cv[best as int], cv[k as int], cv[k as int]);
            }
        }
        k = k + 1;
    }
    best
}

proof fn lemma_canonical_is_least(cv: Seq<CategoryDecl>, r: int)
    requires
        0 <= r < cv.len(),
        forall|k: int| 0 <= k < cv.len() ==> config_order(cv[r], #[trigger] cv[k]) <= 0,
    ensures
        canonical_category_config(cv.to_set()) == cv[r],
{
    let u = cv.to_set();
    assert(u.contains(cv[r]));
    assert forall|x: CategoryDecl| #[trigger] u.contains(x) implies config_order(cv[r], x) <= 0 by {
        let k = choose|k: int| 0 <= k < cv.len() && cv[k] == x;
    }
    let c = canonical_category_config(u);
    assert(u.contains(c) && forall|x: CategoryDecl| #[trigger] u.contains(x) ==> config_order(c, x) <= 0);
    lemma_config_order(c, cv[r], cv[r]);
}

/// Conflict issues of the declarations in `cv` that differ from `canon`.
pub open spec fn conflicts_of(cv: Set<CategoryDecl>, canon: CategoryDecl) -> Set<(Seq<char>, Seq<char>)> {
    Set::new(
        |x: (Seq<char>, Seq<char>)|
            exists|c: CategoryDecl|
                #[trigger] cv.contains(c) && c.1 != canon.1 && x == (c.0, conflict_message(canon, c.1)),
    )
}

fn conflict_message_exec(canon: &(String, EnforceCategoryConfig), config: &EnforceCategoryConfig) -> (r: String)
    ensures
        r@ == conflict_message(
            (canon.0@, (canon.1.category@, views(canon.1.members@))),
            (config.category@, views(config.members@)),
        ),
{
    let mut m = owned("conflicting enforce-category config; using canonical category '");
    push_str(&mut m, canon.1.category.as_str());
    push_str(&mut m, "' with members ");
    let d = debug_strings(&canon.1.members);
    push_str(&mut m, d.as_str());
    push_str(&mut m, " from module '");
    push_str(&mut m, canon.0.as_str());
    push_str(&mut m, "' (deterministic: lexicographically first module id). This module declared category '");
    push_str(&mut m, config.category.as_str());
    push_str(&mut m, "' with members ");
    let d2 = debug_strings(&config.members);
    push_str(&mut m, d2.as_str());
    m
}

/// Whether two configurations differ in category or members.
fn configs_differ(a: &EnforceCategoryConfig, b: &EnforceCategoryConfig) -> (r: bool)
    ensures
        r == ((a.category@, views(a.members@)) != (b.category@, views(b.members@))),
{
    proof {
        lemma_strs_order_facts(views(a.members@), views(b.members@), views(b.members@));
    }
    !str_eq(a.category.as_str(), b.category.as_str()) || strs_compare(&a.members, &b.members) != 0
}

fn add_conflicts(
    usable: &Vec<(String, EnforceCategoryConfig)>,
    canon: usize,
    issues: &mut Vec<(String, String)>,
)
    requires
        canon < usable@.len(),
        pairs_strictly_sorted(pair_views(old(issues)@)),
    ensures
        pairs_strictly_sorted(pair_views(final(issues)@)),
        pair_views(final(issues)@).to_set() == pair_views(old(issues)@).to_set() + conflicts_of(
            config_views(usable@).to_set(),
            config_views(usable@)[canon as int],
        ),
{
    let ghost cv = config_views(usable@);
    let ghost c0 = cv[canon as int];
    let ghost start = pair_views(issues@).to_set();
    let mut k: usize = 0;
    assert(start =~= start + conflicts_of(cv.take(0).to_set(), c0));
    while k < usable.len()
        invariant
            canon < usable@.len(),
            cv == config_views(usable@),
            c0 == cv[canon as int],
            k <= usable@.len(),
            pairs_strictly_sorted(pair_views(issues@)),
            pair_views(issues@).to_set() == start + conflicts_of(cv.take(k as int).to_set(), c0),
        decreases usable@.len() - k,
    {
        let ghost prev = conflicts_of(cv.take(k as int).to_set(), c0);
        let ghost next = conflicts_of(cv.take(k + 1).to_set(), c0);
        assert(cv.take(k + 1) =~= cv.take(k as int).push(cv[k as int]));
        proof {
            crate::policy::config_diff::lemma_push_to_set(cv.take(k as int), cv[k as int]);
        }
        if configs_differ(&usable[k].1, &usable[canon].1) {
            let msg = conflict_message_exec(&usable[canon], &usable[k].1);
            let ghost item = (cv[k as int].0, msg@);
            pair_insert(issues, (usable[k].0.clone(), msg));
            assert(next =~= prev.insert(item)) by {
                assert forall|x: (Seq<char>, Seq<char>)| next.contains(x) implies prev.insert(item).contains(x) by {
                    let c = choose|c: CategoryDecl|
                        #[trigger] cv.take(k + 1).to_set().contains(c) && c.1 != c0.1 && x == (c.0, conflict_message(c0, c.1));
                    if c != cv[k as int] {
                        assert(cv.take(k as int).to_set().contains(c));
                    }
                }
                assert forall|x: (Seq<char>, Seq<char>)| prev.insert(item).contains(x) implies next.contains(x) by {
                    if x == item {
                        assert(cv.take(k + 1).to_set().contains(cv[k as int]));
                    } else {
                        let c = choose|c: CategoryDecl|
                            #[trigger] cv.take(k as int).to_set().contains(c) && c.1 != c0.1 && x == (c.0, conflict_message(c0, c.1));
                        assert(cv.take(k + 1).to_set().contains(c));
                    }
                }
            }
        } else {
            assert(next =~= prev) by {
                assert forall|x: (Seq<char>, Seq<char>)| next.contains(x) implies prev.contains(x) by {
                    let c = choose|c: CategoryDecl|
                        #[trigger] cv.take(k + 1).to_set().contains(c) && c.1 != c0.1 && x == (c.0, conflict_message(c0, c.1));
                    if c != cv[k as int] {
                        assert(cv.take(k as int).to_set().contains(c));
                    }
                }
                assert forall|x: (Seq<char>, Seq<char>)| prev.contains(x) implies next.contains(x) by {
                    let c = choose|c: CategoryDecl|
                        #[trigger] cv.take(k as int).to_set().contains(c) && c.1 != c0.1 && x == (c.0, conflict_message(c0, c.1));
                    assert(cv.take(k + 1).to_set().contains(c));
                }
            }
        }
        assert(pair_views(issues@).to_set() =~= start + next);
        k = k + 1;
    }
    assert(cv.take(k as int) =~= cv);
}


pub open spec fn conflict_message(canon: CategoryDecl, config: CategoryParams) -> Seq<char> {
    "conflicting enforce-category config; using canonical category '"@ + canon.1.0 + "' with members "@ + debug_list(
        canon.1.1,
    ) + " from module '"@ + canon.0 + "' (deterministic: lexicographically first module id). This module declared category '"@
        + config.0 + "' with members "@ + debug_list(config.1)
}

/// Configuration issues: malformed declarations, and declarations other
/// than the canonical one.
pub open spec fn category_config_issues(specs: Seq<SpecFile>) -> Set<(Seq<char>, Seq<char>)> {
    let u = usable_category_configs(specs);
    if u == Set::<CategoryDecl>::empty() {
        category_parse_issues(specs)
    } else {
        category_parse_issues(specs) + conflicts_of(u, canonical_category_config(u))
    }
}

pub type CategoryViolationModel = (
    (Seq<char>, Seq<char>, Seq<char>, Seq<char>),
    (Seq<char>, Seq<char>, Seq<char>),
    (Seq<char>, Seq<char>),
);

pub open spec fn category_violation_model(v: CategoryViolation) -> CategoryViolationModel {
    (
        (v.from_module@, v.to_module@, v.from_category@, v.to_category@),
        (v.from_file@, v.to_file@, v.specifier@),
        (v.message@, v.fix_hint@),
    )
}

/// The violation an edge makes against a (category, members) policy, if any:
/// both ends in modules, different modules, both categories members, and the
/// categories different.
pub open spec fn edge_category_violation(graph: DependencyGraph, policy: CategoryParams, e: GraphEdge) -> Option<
    CategoryViolationModel,
> {
    match (graph.module_of(e.from@), graph.module_of(e.to@)) {
        (Some(fm), Some(tm)) => if fm == tm {
            None
        } else {
            match (module_group(fm), module_group(tm)) {
                (Some(fc), Some(tc)) => if !policy.1.contains(fc) || !policy.1.contains(tc) || fc == tc {
                    None
                } else {
                    Some(
                        (
                            (fm, tm, fc, tc),
                            (e.from@, e.to@, e.specifier@),
                            (
                                "forbidden cross-category import: module '"@ + fm + "' (category '"@ + fc
                                    + "') imports '"@ + tm + "' (category '"@ + tc + "') via '"@ + e.specifier@
                                    + "'; category '"@ + policy.0 + "' isolation policy forbids this"@,
                                "Modules within category '"@ + policy.0 + "' members "@ + debug_list(policy.1)
                                    + " must not import across category boundaries. Move shared logic into a module outside these categories or restructure to avoid the cross-category dependency."@,
                            ),
                        ),
                    )
                },
                _ => None,
            }
        },
        _ => None,
    }
}

/// The category violations of the edges, in edge order.
pub open spec fn category_violations(graph: DependencyGraph, policy: CategoryParams, edges: Seq<GraphEdge>) -> Seq<
    CategoryViolationModel,
>
    decreases edges.len(),
{
    if edges.len() == 0 {
        Seq::empty()
    } else {
        category_violations(graph, policy, edges.drop_last()) + match edge_category_violation(
            graph,
            policy,
            edges.last(),
        ) {
            Some(v) => seq![v],
            None => Seq::empty(),
        }
    }
}

/// The violations against the canonical policy, in edge order (none without
/// a usable declaration).
pub open spec fn expected_category_violations(specs: Seq<SpecFile>, graph: DependencyGraph) -> Seq<CategoryViolationModel> {
    let u = usable_category_configs(specs);
    if u == Set::<CategoryDecl>::empty() {
        Seq::empty()
    } else {
        category_violations(graph, canonical_category_config(u).1, graph.edges@)
    }
}

impl KeyOrdered for CategoryViolation {
    /// By source module, target module, specifier, source file, target file
    /// (files as paths).
    open spec fn key_order(a: Self, b: Self) -> int {
        then(
            seq_order(a.from_module@, b.from_module@),
            then(
                seq_order(a.to_module@, b.to_module@),
                then(
                    seq_order(a.specifier@, b.specifier@),
                    then(
                        comps_order(path_components(a.from_file@), path_components(b.from_file@)),
                        comps_order(path_components(a.to_file@), path_components(b.to_file@)),
                    ),
                ),
            ),
        )
    }

    proof fn lemma_key_order(a: Self, b: Self, c: Self) {
        lemma_seq_order_facts(a.from_module@, b.from_module@, c.from_module@);
        lemma_seq_order_facts(a.to_module@, b.to_module@, c.to_module@);
        lemma_seq_order_facts(a.specifier@, b.specifier@, c.specifier@);
        lemma_comps_order_facts(path_components(a.from_file@), path_components(b.from_file@), path_components(c.from_file@));
        lemma_comps_order_facts(path_components(a.to_file@), path_components(b.to_file@), path_components(c.to_file@));
    }

    fn key_compare(&self, other: &Self) -> (r: i8) {
        let o = str_order(self.from_module.as_str(), other.from_module.as_str());
        if o != 0 {
            return o;
        }
        let o = str_order(self.to_module.as_str(), other.to_module.as_str());
        if o != 0 {
            return o;
        }
        let o = str_order(self.specifier.as_str(), other.specifier.as_str());
        if o != 0 {
            return o;
        }
        let o = path_compare(self.from_file.as_str(), other.from_file.as_str());
        if o != 0 {
            return o;
        }
        path_compare(self.to_file.as_str(), other.to_file.as_str())
    }
}

fn edge_violation(graph: &DependencyGraph, policy: &EnforceCategoryConfig, e: &GraphEdge) -> (r: Option<CategoryViolation>)
    ensures
        match r {
            Some(v) => edge_category_violation(*graph, (policy.category@, views(policy.members@)), *e) == Some(
                category_violation_model(v),
            ),
            None => edge_category_violation(*graph, (policy.category@, views(policy.members@)), *e) is None,
        },
{
    let fm = match graph.module_of_file(e.from.as_str()) {
        Some(m) => m,
        None => {
            return None;
        },
    };
    let tm = match graph.module_of_file(e.to.as_str()) {
        Some(m) => m,
        None => {
            return None;
        },
    };
    if str_eq(fm, tm) {
        return None;
    }
    let fc = match category_for_module(fm) {
        Some(c) => c,
        None => {
            return None;
        },
    };
    let tc = match category_for_module(tm) {
        Some(c) => c,
        None => {
            return None;
        },
    };
    if !strings_contain(&policy.members, fc) || !strings_contain(&policy.members, tc) {
        return None;
    }
    if str_eq(fc, tc) {
        return None;
    }
    let mut message = owned("forbidden cross-category import: module '");
    push_str(&mut message, fm);
    push_str(&mut message, "' (category '");
    push_str(&mut message, fc);
    push_str(&mut message, "') imports '");
    push_str(&mut message, tm);
    push_str(&mut message, "' (category '");
    push_str(&mut message, tc);
    push_str(&mut message, "') via '");
    push_str(&mut message, e.specifier.as_str());
    push_str(&mut message, "'; category '");
    push_str(&mut message, policy.category.as_str());
    push_str(&mut message, "' isolation policy forbids this");
    let mut fix_hint = owned("Modules within category '");
    push_str(&mut fix_hint, policy.category.as_str());
    push_str(&mut fix_hint, "' members ");
    let d = debug_strings(&policy.members);
    push_str(&mut fix_hint, d.as_str());
    push_str(
        &mut fix_hint,
        " must not import across category boundaries. Move shared logic into a module outside these categories or restructure to avoid the cross-category dependency.",
    );
    Some(
        CategoryViolation {
            from_module: owned(fm),
            to_module: owned(tm),
            from_category: owned(fc),
            to_category: owned(tc),
            from_file: e.from.clone(),
            to_file: e.to.clone(),
            specifier: e.specifier.clone(),
            message,
            fix_hint,
        },
    )
}

fn collect_category_violations(graph: &DependencyGraph, policy: &EnforceCategoryConfig) -> (r: Vec<CategoryViolation>)
    ensures
        r@.map_values(|v: CategoryViolation| category_violation_model(v)) == category_violations(
            *graph,
            (policy.category@, views(policy.members@)),
            graph.edges@,
        ),
{
    let ghost p = (policy.category@, views(policy.members@));
    let mut out: Vec<CategoryViolation> = Vec::new();
    let mut i: usize = 0;
    while i < graph.edges.len()
        invariant
            p == (policy.category@, views(policy.members@)),
            i <= graph.edges@.len(),
            out@.map_values(|v: CategoryViolation| category_violation_model(v)) == category_violations(
                *graph,
                p,
                graph.edges@.take(i as int),
            ),
        decreases graph.edges@.len() - i,
    {
        let ghost prev = out@.map_values(|v: CategoryViolation| category_violation_model(v));
        assert(graph.edges@.take(i + 1).drop_last() =~= graph.edges@.take(i as int));
        assert(graph.edges@.take(i + 1).last() == graph.edges@[i as int]);
        match edge_violation(graph, policy, &graph.edges[i]) {
            Some(v) => {
                let ghost m = category_violation_model(v);
                out.push(v);
                assert(out@.map_values(|v: CategoryViolation| category_violation_model(v)) =~= prev.push(m));
            },
            None => {
                assert(prev =~= prev + Seq::<CategoryViolationModel>::empty());
            },
        }
        i = i + 1;
    }
    assert(graph.edges@.take(i as int) =~= graph.edges@);
    out
}

pub open spec fn issue_views(v: Seq<CategoryConfigIssue>) -> Seq<(Seq<char>, Seq<char>)> {
    v.map_values(|x: CategoryConfigIssue| (x.module@, x.message@))
}

fn into_issues(pairs: Vec<(String, String)>) -> (r: Vec<CategoryConfigIssue>)
    ensures
        issue_views(r@) == pair_views(pairs@),
{
    let ghost pv = pair_views(pairs@);
    let mut rest = pairs;
    let mut out: Vec<CategoryConfigIssue> = Vec::new();
    let n = rest.len();
    let mut i: usize = 0;
    while rest.len() > 0
        invariant
            pv.len() == n,
            i + rest@.len() == n,
            pair_views(rest@) == pv.skip(i as int),
            issue_views(out@) == pv.take(i as int),
        decreases rest@.len(),
    {
        let ghost before = pair_views(rest@);
        let p = rest.remove(0);
        assert(before[0] == (p.0@, p.1@));
        assert(pair_views(rest@) =~= before.drop_first());
        assert(pv.skip(i + 1) =~= pv.skip(i as int).drop_first());
        let ghost prev = issue_views(out@);
        out.push(CategoryConfigIssue { module: p.0, message: p.1 });
        assert(issue_views(out@) =~= prev.push(pv[i as int]));
        assert(pv.take(i + 1) =~= pv.take(i as int).push(pv[i as int]));
        i = i + 1;
    }
    assert(pv.take(i as int) =~= pv);
    out
}

/// Enforces category isolation declared by `enforce-category` constraints
/// over the graph's imports: malformed and conflicting declarations become
/// sorted, deduplicated configuration issues; imports between different
/// member categories of the canonical declaration become violations, sorted.
#[verifier::spinoff_prover]
#[verifier::rlimit(40)]
pub fn evaluate_enforce_category(specs: &[SpecFile], graph: &DependencyGraph) -> (r: EnforceCategoryReport)
    ensures
        pairs_strictly_sorted(issue_views(r.config_issues@)),
        issue_views(r.config_issues@).to_set() == category_config_issues(specs@),
        sorted_by_key(r.violations@),
        r.violations@.map_values(|v: CategoryViolation| category_violation_model(v)).to_multiset()
            == expected_category_violations(specs@, *graph).to_multiset(),
{
    let (usable, mut issues) = collect_category_configs(specs);
    let ghost u = usable_category_configs(specs@);
    if usable.len() == 0 {
        assert(config_views(usable@) =~= Seq::<CategoryDecl>::empty());
        assert(u =~= Set::<CategoryDecl>::empty());
        let config_issues = into_issues(issues);
        let violations: Vec<CategoryViolation> = Vec::new();
        assert(violations@.map_values(|v: CategoryViolation| category_violation_model(v))
            =~= Seq::<CategoryViolationModel>::empty());
        return EnforceCategoryReport { violations, config_issues };
    }
    assert(config_views(usable@).to_set().contains(config_views(usable@)[0]));
    assert(u != Set::<CategoryDecl>::empty());
    let canon = least_config(&usable);
    proof {
        lemma_canonical_is_least(config_views(usable@), canon as int);
    }
    add_conflicts(&usable, canon, &mut issues);
    let policy = &usable[canon].1;
    let mut violations = collect_category_violations(graph, policy);
    let ghost unsorted = violations@;
    sort_by_key(&mut violations);
    proof {
        lemma_multiset_map(violations@, unsorted, |v: CategoryViolation| category_violation_model(v));
    }
    let config_issues = into_issues(issues);
    EnforceCategoryReport { violations, config_issues }
}

proof fn lemma_category_sets_included(a: Seq<SpecFile>, b: Seq<SpecFile>)
    requires
        a.to_multiset() == b.to_multiset(),
    ensures
        usable_category_configs(a).subset_of(usable_category_configs(b)),
        category_parse_issues(a).subset_of(category_parse_issues(b)),
{
    assert forall|u: CategoryDecl| usable_category_configs(a).contains(u) implies usable_category_configs(b).contains(u) by {
        let (i, j) = choose|i: int, j: int|
            is_category_constraint(a, i, j) && a[i].module@ == u.0 && parse_category(
                #[trigger] a[i].constraints@[j].params,
            ) == Ok::<CategoryParams, Seq<char>>(u.1);
        let k = lemma_same_elements(a, b, i);
        assert(is_category_constraint(b, k, j));
        assert(parse_category(b[k].constraints@[j].params) == Ok::<CategoryParams, Seq<char>>(u.1));
    }
    assert forall|x: (Seq<char>, Seq<char>)| category_parse_issues(a).contains(x) implies category_parse_issues(b).contains(
        x,
    ) by {
        let (i, j) = choose|i: int, j: int|
            is_category_constraint(a, i, j) && a[i].module@ == x.0 && parse_category(
                #[trigger] a[i].constraints@[j].params,
            ) == Err::<CategoryParams, Seq<char>>(x.1);
        let k = lemma_same_elements(a, b, i);
        assert(is_category_constraint(b, k, j));
        assert(parse_category(b[k].constraints@[j].params) == Err::<CategoryParams, Seq<char>>(x.1));
    }
}

/// Category enforcement depends on the specs as a collection, not on their
/// order: reordered specs give the same configuration issues and the same
/// violations.
pub proof fn law_category_report_ignores_spec_order(a: Seq<SpecFile>, b: Seq<SpecFile>, graph: DependencyGraph)
    requires
        a.to_multiset() == b.to_multiset(),
    ensures
        category_config_issues(a) == category_config_issues(b),
        expected_category_violations(a, graph) == expected_category_violations(b, graph),
{
    lemma_category_sets_included(a, b);
    lemma_category_sets_included(b, a);
    assert(usable_category_configs(a) =~= usable_category_configs(b));
    assert(category_parse_issues(a) =~= category_parse_issues(b));
}
} // verus!
