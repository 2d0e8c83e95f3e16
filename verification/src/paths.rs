//! Slash-separated path handling on plain strings: components, prefix tests
//! and repository-relative rendering.
use vstd::prelude::*;

use crate::text::{index_of, lemma_index_of, push_char, push_str, split_char, split_on, str_eq, views};

verus! {

/// Drops empty and `.` segments, keeping the others in order.
pub open spec fn keep_parts(segs: Seq<Seq<char>>) -> Seq<Seq<char>>
    decreases segs.len(),
{
    if segs.len() == 0 {
        Seq::empty()
    } else {
        let rest = keep_parts(segs.drop_first());
        if segs[0].len() == 0 || segs[0] == seq!['.'] {
            rest
        } else {
            seq![segs[0]] + rest
        }
    }
}

/// The components of a path, as `std::path::Path::components` yields them on
/// Unix: a leading `/` is the root component, a leading `.` the current-dir
/// component, and empty or `.` segments elsewhere are dropped.
pub open spec fn path_components(p: Seq<char>) -> Seq<Seq<char>> {
    let segs = split_on(p, '/');
    if p.len() == 0 {
        Seq::empty()
    } else if p[0] == '/' {
        seq![seq!['/']] + keep_parts(segs.drop_first())
    } else if segs[0] == seq!['.'] {
        seq![seq!['.']] + keep_parts(segs.drop_first())
    } else {
        keep_parts(segs)
    }
}

/// `a` is a prefix of `b`.
pub open spec fn seq_prefix<A>(a: Seq<A>, b: Seq<A>) -> bool {
    a.len() <= b.len() && b.take(a.len() as int) == a
}

/// Component-wise prefix test, as `Path::starts_with`.
pub open spec fn path_starts_with(path: Seq<char>, base: Seq<char>) -> bool {
    seq_prefix(path_components(base), path_components(path))
}

pub proof fn lemma_split_nonempty(s: Seq<char>, c: char)
    ensures
        split_on(s, c).len() >= 1,
        split_on(s, c)[0] == (if index_of(s, c) < 0 { s } else { s.take(index_of(s, c)) }),
{
    lemma_index_of(s, c);
}

fn keep_parts_exec(segs: &Vec<String>, from: usize) -> (r: Vec<String>)
    requires
        from <= segs@.len(),
    ensures
        views(r@) == keep_parts(views(segs@).skip(from as int)),
{
    let mut out: Vec<String> = Vec::new();
    let mut i: usize = from;
    assert(views(out@) =~= Seq::<Seq<char>>::empty());
    while i < segs.len()
        invariant
            from <= i <= segs@.len(),
            keep_parts(views(segs@).skip(from as int)) == views(out@) + keep_parts(
                views(segs@).skip(i as int),
            ),
        decreases segs@.len() - i,
    {
        let seg = &segs[i];
        let ghost tail = views(segs@).skip(i as int);
        assert(tail[0] == seg@);
        assert(tail.drop_first() =~= views(segs@).skip(i + 1));
        let n = seg.as_str().unicode_len();
        let is_dot = str_eq(seg.as_str(), ".");
        proof {
            reveal_strlit(".");
            assert("."@ =~= seq!['.']);
        }
        if n == 0 || is_dot {
            assert(seg@.len() == 0 || seg@ =~= seq!['.']);
        } else {
            assert(!(seg@ =~= seq!['.']));
            let ghost before = out@;
            out.push(seg.clone());
            assert(views(out@) =~= views(before) + seq![seg@]);
        }
        i = i + 1;
    }
    assert(views(segs@).skip(i as int) =~= Seq::<Seq<char>>::empty());
    assert(views(out@) + keep_parts(Seq::<Seq<char>>::empty()) =~= views(out@));
    out
}

/// The components of a path (see `path_components`).
pub fn components(p: &str) -> (r: Vec<String>)
    ensures
        views(r@) == path_components(p@),
{
    let segs = split_char(p, '/');
    proof {
        lemma_split_nonempty(p@, '/');
    }
    let n = p.unicode_len();
    if n == 0 {
        return Vec::new();
    }
    assert(views(segs@)[0] == segs@[0]@);
    assert(views(segs@).skip(1) =~= views(segs@).drop_first());
    assert(views(segs@).skip(0) =~= views(segs@));
    if p.get_char(0) == '/' {
        let mut out: Vec<String> = Vec::new();
        let mut root = String::new();
        push_char(&mut root, '/');
        out.push(root);
        let rest = keep_parts_exec(&segs, 1);
        let mut k: usize = 0;
        let ghost first = views(out@);
        assert(first =~= seq![seq!['/']]);
        while k < rest.len()
            invariant
                k <= rest@.len(),
                views(out@) == first + views(rest@).take(k as int),
            decreases rest@.len() - k,
        {
            let ghost before = out@;
            out.push(rest[k].clone());
            assert(views(out@) =~= views(before).push(rest@[k as int]@));
            assert(views(rest@).take(k + 1) =~= views(rest@).take(k as int).push(rest@[k as int]@));
            k = k + 1;
        }
        assert(views(rest@).take(k as int) =~= views(rest@));
        out
    } else {
        let first_is_dot = str_eq(segs[0].as_str(), ".");
        proof {
            reveal_strlit(".");
            assert("."@ =~= seq!['.']);
        }
        if first_is_dot {
            assert(segs@[0]@ =~= seq!['.']);
            let mut out: Vec<String> = Vec::new();
            out.push(segs[0].clone());
            let rest = keep_parts_exec(&segs, 1);
            let mut k: usize = 0;
            let ghost first = views(out@);
            assert(first =~= seq![seq!['.']]);
            while k < rest.len()
                invariant
                    k <= rest@.len(),
                    views(out@) == first + views(rest@).take(k as int),
                decreases rest@.len() - k,
            {
                let ghost before = out@;
                out.push(rest[k].clone());
                assert(views(out@) =~= views(before).push(rest@[k as int]@));
                assert(views(rest@).take(k + 1) =~= views(rest@).take(k as int).push(rest@[k as int]@));
                k = k + 1;
            }
            assert(views(rest@).take(k as int) =~= views(rest@));
            out
        } else {
            assert(!(views(segs@)[0] =~= seq!['.']));
            keep_parts_exec(&segs, 0)
        }
    }
}


/// Whether `a` is a prefix of `b`, comparing string contents.
pub fn strings_prefix(a: &Vec<String>, b: &Vec<String>) -> (r: bool)
    ensures
        r == seq_prefix(views(a@), views(b@)),
{
    if a.len() > b.len() {
        return false;
    }
    let mut i: usize = 0;
    while i < a.len()
        invariant
            a@.len() <= b@.len(),
            i <= a@.len(),
            forall|j: int| 0 <= j < i ==> a@[j]@ == b@[j]@,
        decreases a@.len() - i,
    {
        if !str_eq(a[i].as_str(), b[i].as_str()) {
            assert(views(b@).take(a@.len() as int)[i as int] != views(a@)[i as int]);
            return false;
        }
        i = i + 1;
    }
    assert(views(b@).take(a@.len() as int) =~= views(a@));
    true
}

/// Whether any string of `v` has the contents `t`.
pub fn strings_contain(v: &Vec<String>, t: &str) -> (r: bool)
    ensures
        r == views(v@).contains(t@),
{
    let mut i: usize = 0;
    while i < v.len()
        invariant
            i <= v@.len(),
            forall|j: int| 0 <= j < i ==> v@[j]@ != t@,
        decreases v@.len() - i,
    {
        if str_eq(v[i].as_str(), t) {
            assert(views(v@)[i as int] == t@);
            return true;
        }
        i = i + 1;
    }
    assert forall|j: int| 0 <= j < views(v@).len() implies views(v@)[j] != t@ by {
        assert(views(v@)[j] == v@[j]@);
    }
    false
}

/// Component-wise prefix test, as `Path::starts_with`.
pub fn starts_with_path(path: &str, base: &str) -> (r: bool)
    ensures
        r == path_starts_with(path@, base@),
{
    let pc = components(path);
    let bc = components(base);
    strings_prefix(&bc, &pc)
}

/// Joins parts with a separator character.
pub open spec fn join_with(parts: Seq<Seq<char>>, sep: char) -> Seq<char>
    decreases parts.len(),
{
    if parts.len() == 0 {
        Seq::empty()
    } else if parts.len() == 1 {
        parts[0]
    } else {
        join_with(parts.drop_last(), sep).push(sep) + parts.last()
    }
}

/// Joins strings with a separator character.
pub fn join_strings(parts: &Vec<String>, from: usize, sep: char) -> (r: String)
    requires
        from <= parts@.len(),
    ensures
        r@ == join_with(views(parts@).skip(from as int), sep),
{
    let mut out = String::new();
    let mut i: usize = from;
    assert(views(parts@).skip(from as int).take(0) =~= Seq::<Seq<char>>::empty());
    while i < parts.len()
        invariant
            from <= i <= parts@.len(),
            out@ == join_with(views(parts@).skip(from as int).take(i - from), sep),
        decreases parts@.len() - i,
    {
        let ghost all = views(parts@).skip(from as int);
        let ghost prev = all.take(i - from);
        let ghost next = all.take(i + 1 - from);
        assert(next.drop_last() =~= prev);
        assert(next.last() == parts@[i as int]@);
        if i > from {
            push_char(&mut out, sep);
        }
        push_str(&mut out, parts[i].as_str());
        if i == from {
            assert(next =~= seq![parts@[i as int]@]);
        }
        i = i + 1;
    }
    assert(views(parts@).skip(from as int).take(i - from) =~= views(parts@).skip(from as int));
    out
}

/// Backslashes rewritten as forward slashes.
pub open spec fn forward_slashes(p: Seq<char>) -> Seq<char> {
    p.map_values(|c: char| if c == '\\' { '/' } else { c })
}

/// Rewrites backslashes as forward slashes.
pub fn normalize_path(p: &str) -> (r: String)
    ensures
        r@ == forward_slashes(p@),
{
    let n = p.unicode_len();
    let mut out = String::new();
    let mut i: usize = 0;
    while i < n
        invariant
            n == p@.len(),
            i <= n,
            out@ == forward_slashes(p@.take(i as int)),
        decreases n - i,
    {
        let c = p.get_char(i);
        if c == '\\' {
            push_char(&mut out, '/');
        } else {
            push_char(&mut out, c);
        }
        assert(forward_slashes(p@.take(i + 1)) =~= forward_slashes(p@.take(i as int)).push(
            if c == '\\' { '/' } else { c },
        ));
        i = i + 1;
    }
    assert(p@.take(n as int) =~= p@);
    out
}

/// A path rendered relative to `root`: the components after the root joined
/// with `/` when the path lies under `root`, otherwise the path itself with
/// forward slashes.
pub open spec fn repo_relative(root: Seq<char>, path: Seq<char>) -> Seq<char> {
    if path_starts_with(path, root) {
        join_with(path_components(path).skip(path_components(root).len() as int), '/')
    } else {
        forward_slashes(path)
    }
}

/// Renders `path` relative to `root` (see `repo_relative`).
pub fn normalize_repo_relative(root: &str, path: &str) -> (r: String)
    ensures
        r@ == repo_relative(root@, path@),
{
    let pc = components(path);
    let rc = components(root);
    if strings_prefix(&rc, &pc) {
        join_strings(&pc, rc.len(), '/')
    } else {
        normalize_path(path)
    }
}

} // verus!
