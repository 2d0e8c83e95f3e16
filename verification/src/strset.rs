//! Sets of strings kept as strictly increasing vectors.
use vstd::prelude::*;

use crate::spec::types::trimmed_nonempty;
use crate::text::{lemma_seq_order_antisymmetric, lemma_seq_order_transitive, owned, seq_order, str_order, trim, trim_str, views};

verus! {

/// Strictly increasing in `seq_order`: sorted and free of duplicates.
pub open spec fn strictly_sorted(s: Seq<Seq<char>>) -> bool {
    forall|i: int, j: int| 0 <= i < j < s.len() ==> seq_order(#[trigger] s[i], #[trigger] s[j]) < 0
}

/// Adds `item` to the sorted set `v`, keeping it strictly sorted.
pub fn set_insert(v: &mut Vec<String>, item: String)
    requires
        strictly_sorted(views(old(v)@)),
    ensures
        strictly_sorted(views(final(v)@)),
        views(final(v)@).to_set() == views(old(v)@).to_set().insert(item@),
{
    let ghost old_v = views(v@);
    let mut i: usize = 0;
    while i < v.len()
        invariant
            i <= v@.len(),
            views(v@) == old_v,
            strictly_sorted(old_v),
            forall|j: int| 0 <= j < i ==> seq_order(#[trigger] old_v[j], item@) < 0,
        ensures
            i <= v@.len(),
            views(v@) == old_v,
            forall|j: int| 0 <= j < i ==> seq_order(#[trigger] old_v[j], item@) < 0,
            i < v@.len() ==> seq_order(old_v[i as int], item@) > 0,
        decreases v@.len() - i,
    {
        let o = str_order(v[i].as_str(), item.as_str());
        assert(old_v[i as int] == v@[i as int]@);
        if o == 0 {
            proof {
                lemma_seq_order_antisymmetric(old_v[i as int], item@);
                assert(old_v.to_set().insert(item@) =~= old_v.to_set()) by {
                    assert(old_v.contains(item@));
                }
            }
            return;
        }
        if o > 0 {
            break;
        }
        i = i + 1;
    }
    let ghost pos = i as int;
    v.insert(i, item);
    let ghost new_v = views(v@);
    assert(new_v =~= old_v.take(pos).push(item@) + old_v.skip(pos)) by {
        assert forall|k: int| 0 <= k < new_v.len() implies new_v[k] == (old_v.take(pos).push(item@) + old_v.skip(pos))[k] by {
            if k < pos {
            } else if k == pos {
            } else {
            }
        }
    }
    assert forall|a: int, b: int| 0 <= a < b < new_v.len() implies seq_order(#[trigger] new_v[a], #[trigger] new_v[b]) < 0 by {
        if pos < old_v.len() {
            lemma_seq_order_antisymmetric(old_v[pos], item@);
        }
        if b == pos {
            assert(new_v[a] == old_v[a]);
        } else if a == pos {
            assert(new_v[b] == old_v[b - 1]);
            if b - 1 > pos {
                assert(seq_order(old_v[pos], old_v[b - 1]) < 0);
                lemma_seq_order_transitive(item@, old_v[pos], old_v[b - 1]);
                lemma_seq_order_antisymmetric(item@, old_v[b - 1]);
                lemma_seq_order_antisymmetric(item@, old_v[pos]);
                if seq_order(item@, old_v[b - 1]) == 0 {
                    assert(item@ == old_v[b - 1]);
                    assert(seq_order(old_v[pos], item@) < 0);
                }
            }
        } else if a < pos && b < pos {
            assert(new_v[a] == old_v[a]);
            assert(new_v[b] == old_v[b]);
        } else if a < pos && b > pos {
            assert(new_v[a] == old_v[a]);
            assert(new_v[b] == old_v[b - 1]);
        } else {
            assert(new_v[a] == old_v[a - 1]);
            assert(new_v[b] == old_v[b - 1]);
        }
    }
    assert(new_v.to_set() =~= old_v.to_set().insert(item@)) by {
        assert forall|x: Seq<char>| new_v.contains(x) implies old_v.to_set().insert(item@).contains(x) by {
            let k = choose|k: int| 0 <= k < new_v.len() && new_v[k] == x;
            if k < pos {
                assert(old_v[k] == x);
            } else if k > pos {
                assert(old_v[k - 1] == x);
            }
        }
        assert forall|x: Seq<char>| old_v.to_set().insert(item@).contains(x) implies new_v.contains(x) by {
            if x == item@ {
                assert(new_v[pos] == x);
            } else {
                let k = choose|k: int| 0 <= k < old_v.len() && old_v[k] == x;
                if k < pos {
                    assert(new_v[k] == x);
                } else {
                    assert(new_v[k + 1] == x);
                }
            }
        }
    }
}

/// The trimmed, non-empty values of a list as a sorted set.
pub fn normalized_set(values: &Vec<String>) -> (r: Vec<String>)
    ensures
        strictly_sorted(views(r@)),
        views(r@).to_set() == trimmed_nonempty(views(values@)),
{
    let mut out: Vec<String> = Vec::new();
    let mut k: usize = 0;
    assert(views(out@).to_set() =~= trimmed_nonempty(views(values@).take(0)));
    while k < values.len()
        invariant
            k <= values@.len(),
            strictly_sorted(views(out@)),
            views(out@).to_set() == trimmed_nonempty(views(values@).take(k as int)),
        decreases values@.len() - k,
    {
        let trimmed = trim_str(values[k].as_str());
        let ghost before = views(values@).take(k as int);
        let ghost next = views(values@).take(k + 1);
        assert(next =~= before.push(values@[k as int]@));
        if trimmed.unicode_len() > 0 {
            set_insert(&mut out, owned(trimmed));
        }
        assert(views(out@).to_set() =~= trimmed_nonempty(next)) by {
            assert forall|t: Seq<char>| trimmed_nonempty(next).contains(t) implies views(out@).to_set().contains(t) by {
                let i = choose|i: int| 0 <= i < next.len() && trim(next[i]) == t;
                if i < before.len() {
                    assert(trim(before[i]) == t);
                    assert(trimmed_nonempty(before).contains(t));
                }
            }
            assert forall|t: Seq<char>| views(out@).to_set().contains(t) implies trimmed_nonempty(next).contains(t) by {
                if trimmed_nonempty(before).contains(t) {
                    let i = choose|i: int| 0 <= i < before.len() && trim(before[i]) == t;
                    assert(next[i] == before[i]);
                } else {
                    assert(trim(next[k as int]) == t);
                }
            }
        }
        k = k + 1;
    }
    assert(views(values@).take(k as int) =~= views(values@));
    out
}

/// The strictly sorted sequence holding exactly the strings of `s`.
pub open spec fn sorted_seq_of(s: Set<Seq<char>>) -> Seq<Seq<char>> {
    choose|q: Seq<Seq<char>>| strictly_sorted(q) && q.to_set() == s
}

proof fn lemma_sorted_first_is_least(a: Seq<Seq<char>>, x: Seq<char>)
    requires
        strictly_sorted(a),
        a.len() > 0,
        a.contains(x),
    ensures
        seq_order(a[0], x) <= 0,
{
    let k = choose|k: int| 0 <= k < a.len() && a[k] == x;
    if k > 0 {
        assert(seq_order(a[0], a[k]) < 0);
    } else {
        lemma_seq_order_antisymmetric(a[0], x);
    }
}

proof fn lemma_sorted_tail_set(a: Seq<Seq<char>>)
    requires
        strictly_sorted(a),
        a.len() > 0,
    ensures
        a.drop_first().to_set() == a.to_set().remove(a[0]),
{
    assert forall|x: Seq<char>| a.drop_first().to_set().contains(x) <==> a.to_set().remove(a[0]).contains(x) by {
        if a.drop_first().contains(x) {
            let k = choose|k: int| 0 <= k < a.drop_first().len() && a.drop_first()[k] == x;
            assert(a[k + 1] == x);
            assert(seq_order(a[0], a[k + 1]) < 0);
            lemma_seq_order_antisymmetric(a[0], x);
        }
        if a.contains(x) && x != a[0] {
            let k = choose|k: int| 0 <= k < a.len() && a[k] == x;
            assert(k != 0);
            assert(a.drop_first()[k - 1] == x);
        }
    }
    assert(a.drop_first().to_set() =~= a.to_set().remove(a[0]));
}

/// Two strictly sorted sequences with the same elements are equal.
pub proof fn lemma_sorted_unique(a: Seq<Seq<char>>, b: Seq<Seq<char>>)
    requires
        strictly_sorted(a),
        strictly_sorted(b),
        a.to_set() == b.to_set(),
    ensures
        a == b,
    decreases a.len(),
{
    if a.len() == 0 {
        if b.len() > 0 {
            assert(b.to_set().contains(b[0]));
            assert(!a.to_set().contains(b[0]));
        }
        assert(a =~= b);
    } else {
        assert(a.to_set().contains(a[0]));
        assert(b.len() > 0) by {
            if b.len() == 0 {
                assert(!b.to_set().contains(a[0]));
            }
        }
        assert(b.to_set().contains(b[0]));
        lemma_sorted_first_is_least(a, b[0]);
        lemma_sorted_first_is_least(b, a[0]);
        lemma_seq_order_antisymmetric(a[0], b[0]);
        assert(a[0] == b[0]);
        lemma_sorted_tail_set(a);
        lemma_sorted_tail_set(b);
        assert(strictly_sorted(a.drop_first()));
        assert(strictly_sorted(b.drop_first()));
        lemma_sorted_unique(a.drop_first(), b.drop_first());
        assert forall|i: int| 0 <= i < a.len() implies a[i] == b[i] by {
            if i > 0 {
                assert(a[i] == a.drop_first()[i - 1]);
                assert(b[i] == b.drop_first()[i - 1]);
            }
        }
        assert(a =~= b);
    }
}

/// A strictly sorted sequence is the sorted sequence of its elements.
pub proof fn lemma_sorted_seq_of(q: Seq<Seq<char>>)
    requires
        strictly_sorted(q),
    ensures
        sorted_seq_of(q.to_set()) == q,
{
    let r = sorted_seq_of(q.to_set());
    assert(strictly_sorted(q) && q.to_set() == q.to_set());
    lemma_sorted_unique(r, q);
}

/// Order of text pairs: by first, then by second.
pub open spec fn pair_order(a: (Seq<char>, Seq<char>), b: (Seq<char>, Seq<char>)) -> int {
    if seq_order(a.0, b.0) != 0 {
        seq_order(a.0, b.0)
    } else {
        seq_order(a.1, b.1)
    }
}

pub open spec fn pair_views(v: Seq<(String, String)>) -> Seq<(Seq<char>, Seq<char>)> {
    v.map_values(|p: (String, String)| (p.0@, p.1@))
}

/// Strictly increasing in `pair_order`.
pub open spec fn pairs_strictly_sorted(s: Seq<(Seq<char>, Seq<char>)>) -> bool {
    forall|i: int, j: int| 0 <= i < j < s.len() ==> pair_order(#[trigger] s[i], #[trigger] s[j]) < 0
}

proof fn lemma_pair_order(a: (Seq<char>, Seq<char>), b: (Seq<char>, Seq<char>), c: (Seq<char>, Seq<char>))
    ensures
        pair_order(a, b) == -pair_order(b, a),
        pair_order(a, b) == 0 <==> a == b,
        pair_order(a, b) <= 0 && pair_order(b, c) <= 0 ==> pair_order(a, c) <= 0,
        pair_order(a, b) < 0 && pair_order(b, c) < 0 ==> pair_order(a, c) < 0,
{
    lemma_seq_order_antisymmetric(a.0, b.0);
    lemma_seq_order_antisymmetric(a.1, b.1);
    lemma_seq_order_antisymmetric(b.0, c.0);
    lemma_seq_order_antisymmetric(b.1, c.1);
    lemma_seq_order_antisymmetric(a.0, c.0);
    lemma_seq_order_antisymmetric(a.1, c.1);
    if seq_order(a.0, b.0) <= 0 && seq_order(b.0, c.0) <= 0 {
        lemma_seq_order_transitive(a.0, b.0, c.0);
    }
    if seq_order(a.1, b.1) <= 0 && seq_order(b.1, c.1) <= 0 {
        lemma_seq_order_transitive(a.1, b.1, c.1);
    }
}

fn pair_compare(a: &(String, String), b: &(String, String)) -> (r: i8)
    ensures
        r as int == pair_order((a.0@, a.1@), (b.0@, b.1@)),
{
    let o = str_order(a.0.as_str(), b.0.as_str());
    if o != 0 {
        o
    } else {
        str_order(a.1.as_str(), b.1.as_str())
    }
}

/// Adds a pair to a strictly sorted set of pairs.
pub fn pair_insert(v: &mut Vec<(String, String)>, item: (String, String))
    requires
        pairs_strictly_sorted(pair_views(old(v)@)),
    ensures
        pairs_strictly_sorted(pair_views(final(v)@)),
        pair_views(final(v)@).to_set() == pair_views(old(v)@).to_set().insert((item.0@, item.1@)),
{
    let ghost old_v = pair_views(v@);
    let ghost x = (item.0@, item.1@);
    let mut i: usize = 0;
    while i < v.len()
        invariant
            i <= v@.len(),
            pair_views(v@) == old_v,
            pairs_strictly_sorted(old_v),
            x == (item.0@, item.1@),
            forall|j: int| 0 <= j < i ==> pair_order(#[trigger] old_v[j], x) < 0,
        ensures
            i <= v@.len(),
            pair_views(v@) == old_v,
            forall|j: int| 0 <= j < i ==> pair_order(#[trigger] old_v[j], x) < 0,
            i < v@.len() ==> pair_order(old_v[i as int], x) > 0,
        decreases v@.len() - i,
    {
        let o = pair_compare(&v[i], &item);
        assert(old_v[i as int] == (v@[i as int].0@, v@[i as int].1@));
        if o == 0 {
            proof {
                lemma_pair_order(old_v[i as int], x, x);
                assert(old_v.to_set().insert(x) =~= old_v.to_set()) by {
                    assert(old_v.contains(x));
                }
            }
            return;
        }
        if o > 0 {
            break;
        }
        i = i + 1;
    }
    let ghost pos = i as int;
    v.insert(i, item);
    let ghost new_v = pair_views(v@);
    assert forall|k: int| 0 <= k < new_v.len() implies new_v[k] == (if k < pos {
        old_v[k]
    } else if k == pos {
        x
    } else {
        old_v[k - 1]
    }) by {}
    assert forall|a: int, b: int| 0 <= a < b < new_v.len() implies pair_order(#[trigger] new_v[a], #[trigger] new_v[b]) < 0 by {
        if a < pos && b == pos {
        } else if a == pos && b > pos {
            lemma_pair_order(x, old_v[pos], old_v[b - 1]);
            if b - 1 > pos {
                assert(pair_order(old_v[pos], old_v[b - 1]) < 0);
            }
            lemma_pair_order(old_v[pos], x, x);
        } else if a < pos && b > pos {
            lemma_pair_order(old_v[a], x, old_v[b - 1]);
            lemma_pair_order(x, old_v[pos], old_v[b - 1]);
            lemma_pair_order(old_v[pos], x, x);
            if b - 1 > pos {
                assert(pair_order(old_v[pos], old_v[b - 1]) < 0);
            }
        } else if a < pos && b < pos {
        } else {
            assert(pair_order(old_v[a - 1], old_v[b - 1]) < 0);
        }
    }
    assert(new_v.to_set() =~= old_v.to_set().insert(x)) by {
        assert forall|y: (Seq<char>, Seq<char>)| new_v.contains(y) implies old_v.to_set().insert(x).contains(y) by {
            let k = choose|k: int| 0 <= k < new_v.len() && new_v[k] == y;
            if k < pos {
                assert(old_v[k] == y);
            } else if k > pos {
                assert(old_v[k - 1] == y);
            }
        }
        assert forall|y: (Seq<char>, Seq<char>)| old_v.to_set().insert(x).contains(y) implies new_v.contains(y) by {
            if y == x {
                assert(new_v[pos] == y);
            } else {
                let k = choose|k: int| 0 <= k < old_v.len() && old_v[k] == y;
                if k < pos {
                    assert(new_v[k] == y);
                } else {
                    assert(new_v[k + 1] == y);
                }
            }
        }
    }
}

} // verus!
