//! Total orders on plain keys and a verified stable insertion sort.
use vstd::prelude::*;
use vstd::multiset::Multiset;
use vstd::seq_lib::to_multiset_insert;

use crate::paths::{components, path_components};
use crate::text::{lemma_seq_order_antisymmetric, lemma_seq_order_transitive, seq_order, str_eq, str_order, views};

verus! {

/// Lexicographic combination: the first order unless it ties.
pub open spec fn then(first: int, second: int) -> int {
    if first != 0 { first } else { second }
}

/// Three-way order of integers.
pub open spec fn int_order(a: int, b: int) -> int {
    if a < b { -1 } else if a > b { 1 } else { 0 }
}

/// Three-way order of optional strings, `None` first (as `Option`'s `Ord`).
pub open spec fn opt_seq_order(a: Option<Seq<char>>, b: Option<Seq<char>>) -> int {
    match (a, b) {
        (None, None) => 0,
        (None, Some(_)) => -1,
        (Some(_), None) => 1,
        (Some(x), Some(y)) => seq_order(x, y),
    }
}

/// Three-way order of optional integers, `None` first.
pub open spec fn opt_int_order(a: Option<int>, b: Option<int>) -> int {
    match (a, b) {
        (None, None) => 0,
        (None, Some(_)) => -1,
        (Some(_), None) => 1,
        (Some(x), Some(y)) => int_order(x, y),
    }
}

/// The properties a component order needs for lexicographic combination:
/// antisymmetry, zero exactly on equal keys, and transitivity.
pub open spec fn order_facts<K>(o: spec_fn(K, K) -> int, a: K, b: K, c: K) -> bool {
    &&& o(a, b) == -o(b, a)
    &&& o(b, c) == -o(c, b)
    &&& o(a, c) == -o(c, a)
    &&& -1 <= o(a, b) <= 1
    &&& -1 <= o(b, c) <= 1
    &&& -1 <= o(a, c) <= 1
    &&& (o(a, b) == 0 <==> a == b)
    &&& (o(b, c) == 0 <==> b == c)
    &&& (o(a, c) == 0 <==> a == c)
    &&& (o(a, b) <= 0 && o(b, c) <= 0 ==> o(a, c) <= 0)
}

pub proof fn lemma_seq_order_facts(a: Seq<char>, b: Seq<char>, c: Seq<char>)
    ensures
        order_facts(|x: Seq<char>, y: Seq<char>| seq_order(x, y), a, b, c),
{
    lemma_seq_order_antisymmetric(a, b);
    lemma_seq_order_antisymmetric(b, c);
    lemma_seq_order_antisymmetric(a, c);
    if seq_order(a, b) <= 0 && seq_order(b, c) <= 0 {
        lemma_seq_order_transitive(a, b, c);
    }
}

pub proof fn lemma_int_order_facts(a: int, b: int, c: int)
    ensures
        order_facts(|x: int, y: int| int_order(x, y), a, b, c),
{
}

pub proof fn lemma_opt_seq_order_facts(a: Option<Seq<char>>, b: Option<Seq<char>>, c: Option<Seq<char>>)
    ensures
        order_facts(|x: Option<Seq<char>>, y: Option<Seq<char>>| opt_seq_order(x, y), a, b, c),
{
    let xa = match a { Some(x) => x, None => Seq::empty() };
    let xb = match b { Some(x) => x, None => Seq::empty() };
    let xc = match c { Some(x) => x, None => Seq::empty() };
    lemma_seq_order_facts(xa, xb, xc);
}

pub proof fn lemma_opt_int_order_facts(a: Option<int>, b: Option<int>, c: Option<int>)
    ensures
        order_facts(|x: Option<int>, y: Option<int>| opt_int_order(x, y), a, b, c),
{
}

/// Three-way comparison of optional strings.
pub fn opt_str_order(a: &Option<String>, b: &Option<String>) -> (r: i8)
    ensures
        r as int == opt_seq_order(
            match a { Some(x) => Some(x@), None => None },
            match b { Some(x) => Some(x@), None => None },
        ),
{
    match (a, b) {
        (None, None) => 0,
        (None, Some(_)) => -1,
        (Some(_), None) => 1,
        (Some(x), Some(y)) => str_order(x.as_str(), y.as_str()),
    }
}

/// Three-way comparison of optional integers.
pub fn opt_u32_order(a: Option<u32>, b: Option<u32>) -> (r: i8)
    ensures
        r as int == opt_int_order(
            match a { Some(x) => Some(x as int), None => None },
            match b { Some(x) => Some(x as int), None => None },
        ),
{
    match (a, b) {
        (None, None) => 0,
        (None, Some(_)) => -1,
        (Some(_), None) => 1,
        (Some(x), Some(y)) => if x < y { -1 } else if x > y { 1 } else { 0 },
    }
}

/// Three-way comparison of small integers.
pub fn u8_order(a: u8, b: u8) -> (r: i8)
    ensures
        r as int == int_order(a as int, b as int),
{
    if a < b { -1 } else if a > b { 1 } else { 0 }
}


/// Rank of a path component kind, in the order of `std::path::Component`:
/// root, current dir, parent dir, then normal components.
pub open spec fn comp_rank(c: Seq<char>) -> int {
    if c == seq!['/'] {
        0
    } else if c == seq!['.'] {
        1
    } else if c == seq!['.', '.'] {
        2
    } else {
        3
    }
}

/// Three-way order of two path components.
pub open spec fn comp_order(a: Seq<char>, b: Seq<char>) -> int {
    then(int_order(comp_rank(a), comp_rank(b)), seq_order(a, b))
}

/// Lexicographic order of component sequences, a proper prefix first.
pub open spec fn comps_order(a: Seq<Seq<char>>, b: Seq<Seq<char>>) -> int
    decreases a.len(),
{
    if a.len() == 0 {
        if b.len() == 0 { 0 } else { -1 }
    } else if b.len() == 0 {
        1
    } else if comp_order(a[0], b[0]) != 0 {
        comp_order(a[0], b[0])
    } else {
        comps_order(a.drop_first(), b.drop_first())
    }
}

/// The order of `std::path::Path`: component by component.
pub open spec fn path_order(a: Seq<char>, b: Seq<char>) -> int {
    comps_order(path_components(a), path_components(b))
}

proof fn lemma_comp_order_facts(a: Seq<char>, b: Seq<char>, c: Seq<char>)
    ensures
        order_facts(|x: Seq<char>, y: Seq<char>| comp_order(x, y), a, b, c),
{
    lemma_seq_order_facts(a, b, c);
}

pub proof fn lemma_comps_order_facts(a: Seq<Seq<char>>, b: Seq<Seq<char>>, c: Seq<Seq<char>>)
    ensures
        order_facts(|x: Seq<Seq<char>>, y: Seq<Seq<char>>| comps_order(x, y), a, b, c),
    decreases a.len() + b.len() + c.len(),
{
    lemma_comps_antisymmetric(a, b);
    lemma_comps_antisymmetric(b, c);
    lemma_comps_antisymmetric(a, c);
    if comps_order(a, b) <= 0 && comps_order(b, c) <= 0 {
        lemma_comps_transitive(a, b, c);
    }
}

proof fn lemma_comps_antisymmetric(a: Seq<Seq<char>>, b: Seq<Seq<char>>)
    ensures
        comps_order(a, b) == -comps_order(b, a),
        -1 <= comps_order(a, b) <= 1,
        comps_order(a, b) == 0 <==> a == b,
    decreases a.len(),
{
    if a.len() > 0 && b.len() > 0 {
        lemma_comp_order_facts(a[0], b[0], b[0]);
        lemma_comps_antisymmetric(a.drop_first(), b.drop_first());
        if comp_order(a[0], b[0]) == 0 {
            if a.drop_first() == b.drop_first() {
                assert forall|i: int| 0 <= i < a.len() implies a[i] == b[i] by {
                    if i > 0 {
                        assert(a[i] == a.drop_first()[i - 1]);
                        assert(b[i] == b.drop_first()[i - 1]);
                    }
                }
                assert(a =~= b);
            }
            if a == b {
                assert(a.drop_first() =~= b.drop_first());
            }
        }
    } else if a.len() == 0 && b.len() == 0 {
        assert(a =~= b);
    }
}

proof fn lemma_comps_transitive(a: Seq<Seq<char>>, b: Seq<Seq<char>>, c: Seq<Seq<char>>)
    requires
        comps_order(a, b) <= 0,
        comps_order(b, c) <= 0,
    ensures
        comps_order(a, c) <= 0,
    decreases a.len(),
{
    lemma_comps_antisymmetric(a, b);
    lemma_comps_antisymmetric(b, c);
    if a.len() > 0 && b.len() > 0 && c.len() > 0 {
        lemma_comp_order_facts(a[0], b[0], c[0]);
        if comp_order(a[0], b[0]) == 0 && comp_order(b[0], c[0]) == 0 {
            lemma_comps_transitive(a.drop_first(), b.drop_first(), c.drop_first());
        }
    }
}

/// Three-way order of optional component sequences, `None` first.
pub open spec fn opt_comps_order(a: Option<Seq<Seq<char>>>, b: Option<Seq<Seq<char>>>) -> int {
    match (a, b) {
        (None, None) => 0,
        (None, Some(_)) => -1,
        (Some(_), None) => 1,
        (Some(x), Some(y)) => comps_order(x, y),
    }
}

pub proof fn lemma_opt_comps_order_facts(
    a: Option<Seq<Seq<char>>>,
    b: Option<Seq<Seq<char>>>,
    c: Option<Seq<Seq<char>>>,
)
    ensures
        order_facts(|x: Option<Seq<Seq<char>>>, y: Option<Seq<Seq<char>>>| opt_comps_order(x, y), a, b, c),
{
    let xa = match a { Some(x) => x, None => Seq::empty() };
    let xb = match b { Some(x) => x, None => Seq::empty() };
    let xc = match c { Some(x) => x, None => Seq::empty() };
    lemma_comps_order_facts(xa, xb, xc);
}

/// The components of an optional path.
pub open spec fn opt_components(p: Option<Seq<char>>) -> Option<Seq<Seq<char>>> {
    match p {
        Some(x) => Some(path_components(x)),
        None => None,
    }
}

fn comp_compare(a: &str, b: &str) -> (r: i8)
    ensures
        r as int == comp_order(a@, b@),
{
    let ra = comp_rank_exec(a);
    let rb = comp_rank_exec(b);
    if ra < rb {
        -1
    } else if ra > rb {
        1
    } else {
        str_order(a, b)
    }
}

fn comp_rank_exec(c: &str) -> (r: u8)
    ensures
        r as int == comp_rank(c@),
{
    proof {
        reveal_strlit("/");
        reveal_strlit(".");
        reveal_strlit("..");
        assert("/"@ =~= seq!['/']);
        assert("."@ =~= seq!['.']);
        assert(".."@ =~= seq!['.', '.']);
    }
    if str_eq(c, "/") {
        0
    } else if str_eq(c, ".") {
        1
    } else if str_eq(c, "..") {
        2
    } else {
        3
    }
}

/// Compares two component lists in `comps_order`.
pub fn comps_compare(a: &Vec<String>, b: &Vec<String>) -> (r: i8)
    ensures
        r as int == comps_order(views(a@), views(b@)),
{
    let mut i: usize = 0;
    assert(views(a@).skip(0) =~= views(a@));
    assert(views(b@).skip(0) =~= views(b@));
    while i < a.len() && i < b.len()
        invariant
            i <= a@.len(),
            i <= b@.len(),
            comps_order(views(a@).skip(i as int), views(b@).skip(i as int)) == comps_order(views(a@), views(b@)),
        decreases a@.len() - i,
    {
        let ghost sa = views(a@).skip(i as int);
        let ghost sb = views(b@).skip(i as int);
        assert(sa[0] == a@[i as int]@);
        assert(sb[0] == b@[i as int]@);
        let o = comp_compare(a[i].as_str(), b[i].as_str());
        if o != 0 {
            return o;
        }
        assert(sa.drop_first() =~= views(a@).skip(i + 1));
        assert(sb.drop_first() =~= views(b@).skip(i + 1));
        i = i + 1;
    }
    if i < a.len() {
        1
    } else if i < b.len() {
        -1
    } else {
        0
    }
}

/// Compares two paths as `std::path::Path` does.
pub fn path_compare(a: &str, b: &str) -> (r: i8)
    ensures
        r as int == path_order(a@, b@),
{
    let ca = components(a);
    let cb = components(b);
    comps_compare(&ca, &cb)
}

/// Compares two optional paths, `None` first.
pub fn opt_path_compare(a: &Option<String>, b: &Option<String>) -> (r: i8)
    ensures
        r as int == opt_comps_order(
            opt_components(match a { Some(x) => Some(x@), None => None }),
            opt_components(match b { Some(x) => Some(x@), None => None }),
        ),
{
    match (a, b) {
        (None, None) => 0,
        (None, Some(_)) => -1,
        (Some(_), None) => 1,
        (Some(x), Some(y)) => path_compare(x.as_str(), y.as_str()),
    }
}


/// Mapping preserves equality of multisets.
pub proof fn lemma_multiset_map<A, B>(a: Seq<A>, b: Seq<A>, f: spec_fn(A) -> B)
    requires
        a.to_multiset() == b.to_multiset(),
    ensures
        a.map_values(f).to_multiset() == b.map_values(f).to_multiset(),
    decreases a.len(),
{
    broadcast use vstd::seq_lib::group_to_multiset_ensures;
    broadcast use vstd::multiset::group_multiset_axioms;
    if a.len() == 0 {
        assert(b.to_multiset().len() == 0);
        assert(b.len() == 0);
        assert(a.map_values(f) =~= Seq::<B>::empty());
        assert(b.map_values(f) =~= Seq::<B>::empty());
    } else {
        let x = a.last();
        let a0 = a.drop_last();
        assert(a =~= a0.push(x));
        assert(a.to_multiset() =~= a0.to_multiset().insert(x));
        assert(b.to_multiset().count(x) > 0);
        assert(b.contains(x));
        let j = choose|j: int| 0 <= j < b.len() && b[j] == x;
        let b0 = b.remove(j);
        assert(b0.to_multiset() =~= b.to_multiset().remove(x));
        assert(a0.to_multiset() =~= a.to_multiset().remove(x));
        lemma_multiset_map(a0, b0, f);
        assert(a.map_values(f) =~= a0.map_values(f).push(f(x)));
        assert(b.map_values(f).remove(j) =~= b0.map_values(f));
        assert(b.map_values(f)[j] == f(x));
        assert(b.map_values(f).remove(j).to_multiset() =~= b.map_values(f).to_multiset().remove(f(x)));
        assert(b.map_values(f).to_multiset().count(f(x)) > 0) by {
            assert(b.map_values(f).contains(f(x)));
        }
        assert(b.map_values(f).to_multiset() =~= b0.map_values(f).to_multiset().insert(f(x)));
    }
}


/// Lexicographic order of sequences of strings (as `Vec<String>`'s `Ord`).
pub open spec fn strs_order(a: Seq<Seq<char>>, b: Seq<Seq<char>>) -> int
    decreases a.len(),
{
    if a.len() == 0 {
        if b.len() == 0 { 0 } else { -1 }
    } else if b.len() == 0 {
        1
    } else if seq_order(a[0], b[0]) != 0 {
        seq_order(a[0], b[0])
    } else {
        strs_order(a.drop_first(), b.drop_first())
    }
}

proof fn lemma_strs_antisymmetric(a: Seq<Seq<char>>, b: Seq<Seq<char>>)
    ensures
        strs_order(a, b) == -strs_order(b, a),
        -1 <= strs_order(a, b) <= 1,
        strs_order(a, b) == 0 <==> a == b,
    decreases a.len(),
{
    if a.len() > 0 && b.len() > 0 {
        lemma_seq_order_antisymmetric(a[0], b[0]);
        lemma_strs_antisymmetric(a.drop_first(), b.drop_first());
        if seq_order(a[0], b[0]) == 0 {
            if a.drop_first() == b.drop_first() {
                assert forall|i: int| 0 <= i < a.len() implies a[i] == b[i] by {
                    if i > 0 {
                        assert(a[i] == a.drop_first()[i - 1]);
                        assert(b[i] == b.drop_first()[i - 1]);
                    }
                }
                assert(a =~= b);
            }
            if a == b {
                assert(a.drop_first() =~= b.drop_first());
            }
        }
    } else if a.len() == 0 && b.len() == 0 {
        assert(a =~= b);
    }
}

proof fn lemma_strs_transitive(a: Seq<Seq<char>>, b: Seq<Seq<char>>, c: Seq<Seq<char>>)
    requires
        strs_order(a, b) <= 0,
        strs_order(b, c) <= 0,
    ensures
        strs_order(a, c) <= 0,
    decreases a.len(),
{
    lemma_strs_antisymmetric(a, b);
    lemma_strs_antisymmetric(b, c);
    if a.len() > 0 && b.len() > 0 && c.len() > 0 {
        lemma_seq_order_facts(a[0], b[0], c[0]);
        if seq_order(a[0], b[0]) == 0 && seq_order(b[0], c[0]) == 0 {
            lemma_strs_transitive(a.drop_first(), b.drop_first(), c.drop_first());
        }
    }
}

pub proof fn lemma_strs_order_facts(a: Seq<Seq<char>>, b: Seq<Seq<char>>, c: Seq<Seq<char>>)
    ensures
        order_facts(|x: Seq<Seq<char>>, y: Seq<Seq<char>>| strs_order(x, y), a, b, c),
{
    lemma_strs_antisymmetric(a, b);
    lemma_strs_antisymmetric(b, c);
    lemma_strs_antisymmetric(a, c);
    if strs_order(a, b) <= 0 && strs_order(b, c) <= 0 {
        lemma_strs_transitive(a, b, c);
    }
}

/// Compares two string lists lexicographically.
pub fn strs_compare(a: &Vec<String>, b: &Vec<String>) -> (r: i8)
    ensures
        r as int == strs_order(views(a@), views(b@)),
{
    let mut i: usize = 0;
    assert(views(a@).skip(0) =~= views(a@));
    assert(views(b@).skip(0) =~= views(b@));
    while i < a.len() && i < b.len()
        invariant
            i <= a@.len(),
            i <= b@.len(),
            strs_order(views(a@).skip(i as int), views(b@).skip(i as int)) == strs_order(views(a@), views(b@)),
        decreases a@.len() - i,
    {
        let ghost sa = views(a@).skip(i as int);
        let ghost sb = views(b@).skip(i as int);
        assert(sa[0] == a@[i as int]@);
        assert(sb[0] == b@[i as int]@);
        let o = str_order(a[i].as_str(), b[i].as_str());
        if o != 0 {
            return o;
        }
        assert(sa.drop_first() =~= views(a@).skip(i + 1));
        assert(sb.drop_first() =~= views(b@).skip(i + 1));
        i = i + 1;
    }
    if i < a.len() {
        1
    } else if i < b.len() {
        -1
    } else {
        0
    }
}

/// Lexicographic order of lists of paths, each compared as `Path` is (as
/// `Vec<PathBuf>`'s `Ord`).
pub open spec fn comps_list_order(a: Seq<Seq<Seq<char>>>, b: Seq<Seq<Seq<char>>>) -> int
    decreases a.len(),
{
    if a.len() == 0 {
        if b.len() == 0 { 0 } else { -1 }
    } else if b.len() == 0 {
        1
    } else if comps_order(a[0], b[0]) != 0 {
        comps_order(a[0], b[0])
    } else {
        comps_list_order(a.drop_first(), b.drop_first())
    }
}

proof fn lemma_comps_list_antisymmetric(a: Seq<Seq<Seq<char>>>, b: Seq<Seq<Seq<char>>>)
    ensures
        comps_list_order(a, b) == -comps_list_order(b, a),
        -1 <= comps_list_order(a, b) <= 1,
        comps_list_order(a, b) == 0 <==> a == b,
    decreases a.len(),
{
    if a.len() > 0 && b.len() > 0 {
        lemma_comps_order_facts(a[0], b[0], b[0]);
        lemma_comps_list_antisymmetric(a.drop_first(), b.drop_first());
        if comps_order(a[0], b[0]) == 0 {
            if a.drop_first() == b.drop_first() {
                assert forall|i: int| 0 <= i < a.len() implies a[i] == b[i] by {
                    if i > 0 {
                        assert(a[i] == a.drop_first()[i - 1]);
                        assert(b[i] == b.drop_first()[i - 1]);
                    }
                }
                assert(a =~= b);
            }
            if a == b {
                assert(a.drop_first() =~= b.drop_first());
            }
        }
    } else if a.len() == 0 && b.len() == 0 {
        assert(a =~= b);
    }
}

proof fn lemma_comps_list_transitive(a: Seq<Seq<Seq<char>>>, b: Seq<Seq<Seq<char>>>, c: Seq<Seq<Seq<char>>>)
    requires
        comps_list_order(a, b) <= 0,
        comps_list_order(b, c) <= 0,
    ensures
        comps_list_order(a, c) <= 0,
    decreases a.len(),
{
    lemma_comps_list_antisymmetric(a, b);
    lemma_comps_list_antisymmetric(b, c);
    if a.len() > 0 && b.len() > 0 && c.len() > 0 {
        lemma_comps_order_facts(a[0], b[0], c[0]);
        if comps_order(a[0], b[0]) == 0 && comps_order(b[0], c[0]) == 0 {
            lemma_comps_list_transitive(a.drop_first(), b.drop_first(), c.drop_first());
        }
    }
}

pub proof fn lemma_comps_list_order_facts(a: Seq<Seq<Seq<char>>>, b: Seq<Seq<Seq<char>>>, c: Seq<Seq<Seq<char>>>)
    ensures
        order_facts(|x: Seq<Seq<Seq<char>>>, y: Seq<Seq<Seq<char>>>| comps_list_order(x, y), a, b, c),
{
    lemma_comps_list_antisymmetric(a, b);
    lemma_comps_list_antisymmetric(b, c);
    lemma_comps_list_antisymmetric(a, c);
    if comps_list_order(a, b) <= 0 && comps_list_order(b, c) <= 0 {
        lemma_comps_list_transitive(a, b, c);
    }
}

/// The components of each path.
pub open spec fn path_comps_of(v: Seq<String>) -> Seq<Seq<Seq<char>>> {
    v.map_values(|s: String| path_components(s@))
}

/// Compares two lists of paths lexicographically, each path as `Path` is.
pub fn paths_compare(a: &Vec<String>, b: &Vec<String>) -> (r: i8)
    ensures
        r as int == comps_list_order(path_comps_of(a@), path_comps_of(b@)),
{
    let ghost pa = path_comps_of(a@);
    let ghost pb = path_comps_of(b@);
    let mut i: usize = 0;
    assert(pa.skip(0) =~= pa);
    assert(pb.skip(0) =~= pb);
    while i < a.len() && i < b.len()
        invariant
            i <= a@.len(),
            i <= b@.len(),
            pa == path_comps_of(a@),
            pb == path_comps_of(b@),
            comps_list_order(pa.skip(i as int), pb.skip(i as int)) == comps_list_order(pa, pb),
        decreases a@.len() - i,
    {
        let ghost sa = pa.skip(i as int);
        let ghost sb = pb.skip(i as int);
        assert(sa[0] == path_components(a@[i as int]@));
        assert(sb[0] == path_components(b@[i as int]@));
        let o = path_compare(a[i].as_str(), b[i].as_str());
        if o != 0 {
            return o;
        }
        assert(sa.drop_first() =~= pa.skip(i + 1));
        assert(sb.drop_first() =~= pb.skip(i + 1));
        i = i + 1;
    }
    if i < a.len() {
        1
    } else if i < b.len() {
        -1
    } else {
        0
    }
}

/// A type with a total preorder on a key, comparable at run time.
pub trait KeyOrdered: Sized {
    /// Three-way order of the keys of `a` and `b`.
    spec fn key_order(a: Self, b: Self) -> int;

    /// The key order is a total preorder.
    proof fn lemma_key_order(a: Self, b: Self, c: Self)
        ensures
            Self::key_order(a, b) == -Self::key_order(b, a),
            -1 <= Self::key_order(a, b) <= 1,
            Self::key_order(a, b) <= 0 && Self::key_order(b, c) <= 0 ==> Self::key_order(a, c) <= 0,
    ;

    /// Compares the keys of `self` and `other`.
    fn key_compare(&self, other: &Self) -> (r: i8)
        ensures
            r as int == Self::key_order(*self, *other),
    ;
}

/// Every pair in order (the sequence is sorted by key).
pub open spec fn sorted_by_key<T: KeyOrdered>(s: Seq<T>) -> bool {
    forall|i: int, j: int| 0 <= i < j < s.len() ==> T::key_order(#[trigger] s[i], #[trigger] s[j]) <= 0
}

/// The position at which a stable insertion puts `x`: before the first
/// element whose key is greater than `x`'s.
pub open spec fn first_after<T: KeyOrdered>(s: Seq<T>, x: T) -> int
    decreases s.len(),
{
    if s.len() == 0 {
        0
    } else if T::key_order(s[0], x) > 0 {
        0
    } else {
        1 + first_after(s.drop_first(), x)
    }
}

/// `x` inserted after every element whose key is not greater.
pub open spec fn insert_stable<T: KeyOrdered>(s: Seq<T>, x: T) -> Seq<T> {
    s.take(first_after(s, x)).push(x) + s.skip(first_after(s, x))
}

/// The stable sort by key: each element in turn inserted after every earlier
/// element whose key is not greater, so equal keys keep their order.
pub open spec fn stable_sort<T: KeyOrdered>(s: Seq<T>) -> Seq<T>
    decreases s.len(),
{
    if s.len() == 0 {
        Seq::empty()
    } else {
        insert_stable(stable_sort(s.drop_last()), s.last())
    }
}

pub proof fn lemma_first_after_bounds<T: KeyOrdered>(s: Seq<T>, x: T)
    ensures
        0 <= first_after(s, x) <= s.len(),
    decreases s.len(),
{
    if s.len() > 0 {
        lemma_first_after_bounds(s.drop_first(), x);
    }
}

proof fn lemma_first_after<T: KeyOrdered>(s: Seq<T>, x: T, p: int)
    requires
        0 <= p <= s.len(),
        forall|k: int| 0 <= k < p ==> T::key_order(#[trigger] s[k], x) <= 0,
        p == s.len() || T::key_order(s[p], x) > 0,
    ensures
        first_after(s, x) == p,
    decreases p,
{
    if p > 0 {
        assert forall|k: int| 0 <= k < p - 1 implies T::key_order(#[trigger] s.drop_first()[k], x) <= 0 by {
            assert(s.drop_first()[k] == s[k + 1]);
        }
        if p < s.len() {
            assert(s.drop_first()[p - 1] == s[p]);
        }
        lemma_first_after(s.drop_first(), x, p - 1);
        assert(T::key_order(s[0], x) <= 0);
    }
}

/// Sorts by key, keeping equal keys in their original order.
pub fn sort_by_key<T: KeyOrdered>(v: &mut Vec<T>)
    ensures
        sorted_by_key(final(v)@),
        final(v)@.to_multiset() == old(v)@.to_multiset(),
        final(v)@ == stable_sort(old(v)@),
        sorted_by_key(old(v)@) ==> final(v)@ == old(v)@,
{
    let mut input: Vec<T> = Vec::new();
    std::mem::swap(v, &mut input);
    let ghost original = input@;
    let mut out: Vec<T> = Vec::new();
    proof {
        broadcast use vstd::multiset::group_multiset_axioms;
        assert(out@ =~= Seq::<T>::empty());
        vstd::seq_lib::to_multiset_len(out@);
        vstd::multiset::lemma_multiset_empty_len(out@.to_multiset());
        assert(out@.to_multiset().add(input@.to_multiset()) =~= original.to_multiset());
    }
    let ghost mut taken: int = 0;
    assert(original.skip(0) =~= original);
    while input.len() > 0
        invariant
            sorted_by_key(out@),
            out@.to_multiset().add(input@.to_multiset()) == original.to_multiset(),
            0 <= taken <= original.len(),
            input@ == original.skip(taken),
            sorted_by_key(original) ==> out@ == original.take(taken),
            out@ == stable_sort(original.take(taken)),
        decreases input@.len(),
    {
        let ghost before_in = input@;
        let x = input.remove(0);
        assert(x == original[taken]);
        assert(input@ =~= original.skip(taken + 1));
        proof {
            vstd::seq_lib::to_multiset_remove(before_in, 0);
        }
        let mut pos: usize = 0;
        while pos < out.len() && out[pos].key_compare(&x) <= 0
            invariant
                pos <= out@.len(),
                forall|k: int| 0 <= k < pos ==> T::key_order(#[trigger] out@[k], x) <= 0,
            decreases out@.len() - pos,
        {
            pos = pos + 1;
        }
        let ghost before = out@;
        proof {
            lemma_first_after(before, x, pos as int);
            assert(original.take(taken + 1).drop_last() =~= original.take(taken));
            assert(original.take(taken + 1).last() == x);
            to_multiset_insert(before, pos as int, x);
            if sorted_by_key(original) && pos < out@.len() {
                assert(out@[pos as int] == original[pos as int]);
                assert(T::key_order(original[pos as int], original[taken]) <= 0);
            }
        }
        out.insert(pos, x);
        proof {
            assert(out@ =~= insert_stable(before, x));
            if sorted_by_key(original) {
                assert(out@ =~= original.take(taken + 1));
            }
            taken = taken + 1;
        }
        assert forall|a: int, b: int| 0 <= a < b < out@.len() implies T::key_order(#[trigger] out@[a], #[trigger] out@[b]) <= 0 by {
            if b < pos {
                assert(out@[a] == before[a]);
                assert(out@[b] == before[b]);
            } else if b == pos {
                assert(out@[a] == before[a]);
            } else if a == pos {
                assert(out@[b] == before[b - 1]);
                if pos < before.len() {
                    T::lemma_key_order(before[pos as int], x, x);
                    assert(T::key_order(before[pos as int], x) > 0);
                    T::lemma_key_order(x, before[pos as int], before[b - 1]);
                    if b - 1 > pos {
                        assert(T::key_order(before[pos as int], before[b - 1]) <= 0);
                    }
                }
            } else if a < pos {
                assert(out@[a] == before[a]);
                assert(out@[b] == before[b - 1]);
            } else {
                assert(out@[a] == before[a - 1]);
                assert(out@[b] == before[b - 1]);
            }
        }
        proof {
            broadcast use vstd::multiset::group_multiset_axioms;
            assert(before_in.to_multiset().count(x) > 0) by {
                vstd::seq_lib::to_multiset_contains(before_in, x);
                assert(before_in.contains(x)) by {
                    assert(before_in[0] == x);
                }
            }
            assert(out@.to_multiset().add(input@.to_multiset()) =~= original.to_multiset());
        }
    }
    proof {
        broadcast use vstd::multiset::group_multiset_axioms;
        assert(input@ =~= Seq::<T>::empty());
        vstd::seq_lib::to_multiset_len(input@);
        vstd::multiset::lemma_multiset_empty_len(input@.to_multiset());
        assert(out@.to_multiset().add(input@.to_multiset()) =~= out@.to_multiset());
        assert(taken == original.len());
        assert(original.take(taken) =~= original);
    }
    *v = out;
}

/// Every pair strictly in order: sorted, and no two keys equal.
pub open spec fn strictly_sorted_by_key<T: KeyOrdered>(s: Seq<T>) -> bool {
    forall|i: int, j: int| 0 <= i < j < s.len() ==> T::key_order(#[trigger] s[i], #[trigger] s[j]) < 0
}

/// Some element of `r` has the key of `x`.
pub open spec fn key_covered<T: KeyOrdered>(r: Seq<T>, x: T) -> bool {
    exists|k: int| 0 <= k < r.len() && T::key_order(#[trigger] r[k], x) == 0
}

/// Keeps the first of each run of equal keys in a sorted list.
pub fn dedup_sorted<T: KeyOrdered>(v: Vec<T>) -> (r: Vec<T>)
    requires
        sorted_by_key(v@),
    ensures
        strictly_sorted_by_key(r@),
        forall|k: int| 0 <= k < r@.len() ==> v@.contains(#[trigger] r@[k]),
        forall|j: int| 0 <= j < v@.len() ==> key_covered(r@, #[trigger] v@[j]),
{
    let ghost input = v@;
    let mut out: Vec<T> = Vec::new();
    let mut rest = v;
    let ghost mut taken: int = 0;
    while rest.len() > 0
        invariant
            0 <= taken <= input.len(),
            rest@ == input.skip(taken),
            sorted_by_key(input),
            strictly_sorted_by_key(out@),
            forall|k: int| 0 <= k < out@.len() ==> input.contains(#[trigger] out@[k]),
            forall|j: int| 0 <= j < taken ==> key_covered(out@, #[trigger] input[j]),
            taken > 0 ==> out@.len() > 0 && exists|q: int| 0 <= q < taken && out@.last() == input[q],
            taken == 0 ==> out@.len() == 0,
        decreases rest@.len(),
    {
        let x = rest.remove(0);
        assert(x == input[taken]);
        assert(rest@ =~= input.skip(taken + 1));
        let keep = if out.len() == 0 {
            true
        } else {
            out[out.len() - 1].key_compare(&x) != 0
        };
        let ghost before = out@;
        if keep {
            proof {
                if before.len() > 0 {
                    let q = choose|q: int| 0 <= q < taken && before.last() == input[q];
                    assert(T::key_order(input[q], input[taken]) <= 0);
                    assert forall|a: int, b: int| 0 <= a < b < before.len() + 1 implies T::key_order(
                        #[trigger] before.push(x)[a],
                        #[trigger] before.push(x)[b],
                    ) < 0 by {
                        if b == before.len() {
                            let l = before.last();
                            T::lemma_key_order(before[a], l, x);
                            T::lemma_key_order(x, before[a], l);
                            T::lemma_key_order(l, x, x);
                            if a < before.len() - 1 {
                                assert(T::key_order(before[a], l) < 0);
                            }
                        }
                    }
                }
            }
            out.push(x);
            proof {
                assert(input.contains(x)) by {
                    assert(input[taken] == x);
                }
                assert forall|j: int| 0 <= j < taken + 1 implies key_covered(out@, #[trigger] input[j]) by {
                    if j < taken {
                        assert(key_covered(before, input[j]));
                        let k = choose|k: int| 0 <= k < before.len() && T::key_order(#[trigger] before[k], input[j]) == 0;
                        assert(out@[k] == before[k]);
                    } else {
                        T::lemma_key_order(x, x, x);
                        assert(out@[before.len() as int] == x);
                    }
                }
            }
        } else {
            proof {
                assert forall|j: int| 0 <= j < taken + 1 implies key_covered(out@, #[trigger] input[j]) by {
                    if j == taken {
                        assert(out@[out@.len() - 1] == out@.last());
                    }
                }
            }
        }
        proof {
            taken = taken + 1;
        }
    }
    out
}

/// Membership in a sequence with one more element.
pub proof fn lemma_push_contains<A>(s: Seq<A>, x: A)
    ensures
        forall|n: A| #[trigger] s.push(x).contains(n) <==> (s.contains(n) || n == x),
{
    assert forall|n: A| #[trigger] s.push(x).contains(n) <==> (s.contains(n) || n == x) by {
        if s.push(x).contains(n) {
            let i = choose|i: int| 0 <= i < s.push(x).len() && s.push(x)[i] == n;
            if i < s.len() {
                assert(s[i] == n);
            }
        }
        if s.contains(n) {
            let i = choose|i: int| 0 <= i < s.len() && s[i] == n;
            assert(s.push(x)[i] == n);
        }
        if n == x {
            assert(s.push(x)[s.len() as int] == x);
        }
    }
}

} // verus!
