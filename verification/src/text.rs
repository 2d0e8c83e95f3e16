use vstd::prelude::*;
use vstd::string::*;

verus! {

/// The Unicode scalar value of a character, as an integer.
pub open spec fn code_of(c: char) -> int {
    c as int
}

/// Lexicographic three-way ordering of two character sequences by code point:
/// -1 when `a` sorts first, 0 when equal, 1 when `b` sorts first.
/// This is the order of `str`/`String` comparison in Rust (UTF-8 byte order
/// coincides with code point order).
pub open spec fn seq_order(a: Seq<char>, b: Seq<char>) -> int
    decreases a.len(),
{
    if a.len() == 0 {
        if b.len() == 0 { 0 } else { -1 }
    } else if b.len() == 0 {
        1
    } else if code_of(a[0]) < code_of(b[0]) {
        -1
    } else if code_of(a[0]) > code_of(b[0]) {
        1
    } else {
        seq_order(a.drop_first(), b.drop_first())
    }
}

pub proof fn lemma_seq_order_antisymmetric(a: Seq<char>, b: Seq<char>)
    ensures
        seq_order(a, b) == -seq_order(b, a),
        -1 <= seq_order(a, b) <= 1,
        seq_order(a, b) == 0 <==> a == b,
    decreases a.len(),
{
    if a.len() > 0 && b.len() > 0 {
        lemma_seq_order_antisymmetric(a.drop_first(), b.drop_first());
        if code_of(a[0]) == code_of(b[0]) {
            assert(a[0] == b[0]);
            if a.drop_first() == b.drop_first() {
                assert forall|i: int| 0 <= i < a.len() implies a[i] == b[i] by {
                    if i > 0 {
                        assert(a[i] == a.drop_first()[i - 1]);
                        assert(b[i] == b.drop_first()[i - 1]);
                    }
                }
                assert(a =~= b);
            }
            if a == b {
                assert(a.drop_first() =~= b.drop_first());
            }
        }
    } else if a.len() == 0 && b.len() == 0 {
        assert(a =~= b);
    }
}

pub proof fn lemma_seq_order_transitive(a: Seq<char>, b: Seq<char>, c: Seq<char>)
    requires
        seq_order(a, b) <= 0,
        seq_order(b, c) <= 0,
    ensures
        seq_order(a, c) <= 0,
    decreases a.len(),
{
    lemma_seq_order_antisymmetric(a, b);
    lemma_seq_order_antisymmetric(b, c);
    if a.len() > 0 && b.len() > 0 && c.len() > 0 {
        if code_of(a[0]) == code_of(b[0]) && code_of(b[0]) == code_of(c[0]) {
            lemma_seq_order_transitive(a.drop_first(), b.drop_first(), c.drop_first());
        }
    }
}

/// Three-way comparison of two strings in the order of `seq_order`.
pub fn str_order(a: &str, b: &str) -> (r: i8)
    ensures
        r as int == seq_order(a@, b@),
{
    let la = a.unicode_len();
    let lb = b.unicode_len();
    let mut i: usize = 0;
    assert(a@.skip(0) =~= a@);
    assert(b@.skip(0) =~= b@);
    while i < la && i < lb
        invariant
            la == a@.len(),
            lb == b@.len(),
            i <= la,
            i <= lb,
            seq_order(a@, b@) == seq_order(a@.skip(i as int), b@.skip(i as int)),
        decreases la - i,
    {
        let ca = a.get_char(i);
        let cb = b.get_char(i);
        let ua: u32 = ca as u32;
        let ub: u32 = cb as u32;
        if ua < ub {
            return -1;
        }
        if ua > ub {
            return 1;
        }
        assert(a@.skip(i as int).drop_first() =~= a@.skip(i + 1));
        assert(b@.skip(i as int).drop_first() =~= b@.skip(i + 1));
        i = i + 1;
    }
    if i < la {
        1
    } else if i < lb {
        -1
    } else {
        0
    }
}


/// Whether two strings hold the same characters.
pub fn str_eq(a: &str, b: &str) -> (r: bool)
    ensures
        r == (a@ == b@),
{
    proof {
        lemma_seq_order_antisymmetric(a@, b@);
    }
    str_order(a, b) == 0
}

/// `p` is a prefix of `s`.
pub open spec fn has_prefix(s: Seq<char>, p: Seq<char>) -> bool {
    p.len() <= s.len() && s.subrange(0, p.len() as int) == p
}

/// `p` is a suffix of `s`.
pub open spec fn has_suffix(s: Seq<char>, p: Seq<char>) -> bool {
    p.len() <= s.len() && s.subrange(s.len() - p.len(), s.len() as int) == p
}

pub fn str_starts_with(s: &str, p: &str) -> (r: bool)
    ensures
        r == has_prefix(s@, p@),
{
    let ls = s.unicode_len();
    let lp = p.unicode_len();
    if lp > ls {
        return false;
    }
    let mut i: usize = 0;
    while i < lp
        invariant
            ls == s@.len(),
            lp == p@.len(),
            lp <= ls,
            i <= lp,
            forall|j: int| 0 <= j < i ==> s@[j] == p@[j],
        decreases lp - i,
    {
        if s.get_char(i) != p.get_char(i) {
            assert(s@.subrange(0, lp as int)[i as int] != p@[i as int]);
            return false;
        }
        i = i + 1;
    }
    assert(s@.subrange(0, lp as int) =~= p@);
    true
}

pub fn str_ends_with(s: &str, p: &str) -> (r: bool)
    ensures
        r == has_suffix(s@, p@),
{
    let ls = s.unicode_len();
    let lp = p.unicode_len();
    if lp > ls {
        return false;
    }
    let off = ls - lp;
    let mut i: usize = 0;
    while i < lp
        invariant
            ls == s@.len(),
            lp == p@.len(),
            lp <= ls,
            off == ls - lp,
            i <= lp,
            forall|j: int| 0 <= j < i ==> s@[off + j] == p@[j],
        decreases lp - i,
    {
        if s.get_char(off + i) != p.get_char(i) {
            assert(s@.subrange(off as int, ls as int)[i as int] != p@[i as int]);
            return false;
        }
        i = i + 1;
    }
    assert(s@.subrange(off as int, ls as int) =~= p@);
    true
}

pub fn str_contains_char(s: &str, c: char) -> (r: bool)
    ensures
        r == s@.contains(c),
{
    let ls = s.unicode_len();
    let mut i: usize = 0;
    while i < ls
        invariant
            ls == s@.len(),
            i <= ls,
            forall|j: int| 0 <= j < i ==> s@[j] != c,
        decreases ls - i,
    {
        if s.get_char(i) == c {
            assert(s@[i as int] == c);
            return true;
        }
        i = i + 1;
    }
    false
}

/// Index of the first occurrence of `c` in `s`, or -1.
pub open spec fn index_of(s: Seq<char>, c: char) -> int
    decreases s.len(),
{
    if s.len() == 0 {
        -1
    } else if s[0] == c {
        0
    } else {
        let r = index_of(s.drop_first(), c);
        if r < 0 { -1 } else { r + 1 }
    }
}

pub proof fn lemma_index_of(s: Seq<char>, c: char)
    ensures
        -1 <= index_of(s, c) < s.len(),
        index_of(s, c) == -1 <==> !s.contains(c),
        index_of(s, c) >= 0 ==> s[index_of(s, c)] == c,
        forall|j: int| 0 <= j < index_of(s, c) ==> s[j] != c,
        index_of(s, c) == -1 ==> forall|j: int| 0 <= j < s.len() ==> s[j] != c,
    decreases s.len(),
{
    if s.len() > 0 {
        lemma_index_of(s.drop_first(), c);
        if s[0] != c {
            assert forall|j: int| 0 < j < s.len() implies s[j] == s.drop_first()[j - 1] by {}
            if s.drop_first().contains(c) {
                let k = choose|k: int| 0 <= k < s.drop_first().len() && s.drop_first()[k] == c;
                assert(s[k + 1] == c);
            }
            if s.contains(c) {
                let k = choose|k: int| 0 <= k < s.len() && s[k] == c;
                assert(s.drop_first()[k - 1] == c);
            }
        } else {
            assert(s.contains(c));
        }
    }
}

/// Position of the first `c` in `s`, if any.
pub fn find_char(s: &str, c: char) -> (r: Option<usize>)
    ensures
        match r {
            Some(i) => i as int == index_of(s@, c),
            None => index_of(s@, c) == -1,
        },
{
    proof {
        lemma_index_of(s@, c);
    }
    let ls = s.unicode_len();
    let mut i: usize = 0;
    while i < ls
        invariant
            ls == s@.len(),
            i <= ls,
            forall|j: int| 0 <= j < i ==> s@[j] != c,
            -1 <= index_of(s@, c) < s@.len(),
            index_of(s@, c) >= 0 ==> s@[index_of(s@, c)] == c,
            index_of(s@, c) == -1 <==> !s@.contains(c),
            forall|j: int| 0 <= j < index_of(s@, c) ==> s@[j] != c,
        decreases ls - i,
    {
        if s.get_char(i) == c {
            return Some(i);
        }
        i = i + 1;
    }
    None
}

/// `p` occurs in `s`.
pub open spec fn contains_text(s: Seq<char>, p: Seq<char>) -> bool {
    exists|i: int| 0 <= i && i + p.len() <= s.len() && #[trigger] s.subrange(i, i + p.len()) == p
}

/// Whether `p` occurs in `s`, like `str::contains` with a string pattern.
pub fn str_contains(s: &str, p: &str) -> (r: bool)
    ensures
        r == contains_text(s@, p@),
{
    let ls = s.unicode_len();
    let lp = p.unicode_len();
    if lp > ls {
        return false;
    }
    let mut i: usize = 0;
    loop
        invariant
            ls == s@.len(),
            lp == p@.len(),
            lp <= ls,
            i <= ls - lp,
            forall|j: int| 0 <= j < i ==> #[trigger] s@.subrange(j, j + lp) != p@,
        decreases ls - lp - i,
    {
        let rest = slice_chars(s, i, ls);
        assert(rest@.subrange(0, lp as int) =~= s@.subrange(i as int, i + lp));
        if str_starts_with(rest, p) {
            return true;
        }
        if i == ls - lp {
            return false;
        }
        i = i + 1;
    }
}

/// Appends one character.
#[verifier::external_body]
pub fn push_char(s: &mut String, c: char)
    ensures
        final(s)@ == old(s)@.push(c),
{
    s.push(c);
}

/// Appends a string slice.
pub fn push_str(s: &mut String, t: &str)
    ensures
        final(s)@ == old(s)@ + t@,
{
    s.append(t);
}

/// An owned copy of a string slice.
pub fn owned(t: &str) -> (r: String)
    ensures
        r@ == t@,
{
    t.to_owned()
}

/// A substring by character positions.
pub fn slice_chars(t: &str, from: usize, to: usize) -> (r: &str)
    requires
        from <= to <= t@.len(),
    ensures
        r@ == t@.subrange(from as int, to as int),
{
    t.substring_char(from, to)
}

/// The decimal digit character for `d < 10`.
pub open spec fn digit_char(d: int) -> char {
    if d == 0 { '0' } else if d == 1 { '1' } else if d == 2 { '2' } else if d == 3 { '3' }
    else if d == 4 { '4' } else if d == 5 { '5' } else if d == 6 { '6' } else if d == 7 { '7' }
    else if d == 8 { '8' } else { '9' }
}

/// Base-10 rendering of a natural number, without leading zeros.
pub open spec fn decimal(n: nat) -> Seq<char>
    decreases n,
{
    if n < 10 {
        seq![digit_char(n as int)]
    } else {
        decimal(n / 10).push(digit_char((n % 10) as int))
    }
}

fn digit_of(d: u64) -> (c: char)
    requires
        d < 10,
    ensures
        c == digit_char(d as int),
{
    if d == 0 { '0' } else if d == 1 { '1' } else if d == 2 { '2' } else if d == 3 { '3' }
    else if d == 4 { '4' } else if d == 5 { '5' } else if d == 6 { '6' } else if d == 7 { '7' }
    else if d == 8 { '8' } else { '9' }
}

/// Appends the decimal rendering of `n`.
pub fn push_decimal(s: &mut String, n: u64)
    ensures
        final(s)@ == old(s)@ + decimal(n as nat),
    decreases n,
{
    if n >= 10 {
        push_decimal(s, n / 10);
    }
    push_char(s, digit_of(n % 10));
    assert(final(s)@ =~= old(s)@ + decimal(n as nat)) by {
        if n >= 10 {
            assert(decimal(n as nat) == decimal((n / 10) as nat).push(digit_char((n % 10) as int)));
        }
    };
}

/// The decimal rendering of `n` as a new string.
pub fn decimal_string(n: u64) -> (r: String)
    ensures
        r@ == decimal(n as nat),
{
    let mut s = String::new();
    push_decimal(&mut s, n);
    assert(s@ =~= decimal(n as nat));
    s
}


/// The character contents of a sequence of strings.
pub open spec fn views(v: Seq<String>) -> Seq<Seq<char>> {
    v.map_values(|x: String| x@)
}

/// Splits `s` at every `c`, like `str::split` with a char pattern.
pub open spec fn split_on(s: Seq<char>, c: char) -> Seq<Seq<char>>
    decreases s.len(),
{
    let i = index_of(s, c);
    if i < 0 {
        seq![s]
    } else {
        proof {
            lemma_index_of(s, c);
        }
        seq![s.take(i)] + split_on(s.skip(i + 1), c)
    }
}

/// Splits a string at every `c`.
pub fn split_char(s: &str, c: char) -> (r: Vec<String>)
    ensures
        views(r@) == split_on(s@, c),
{
    let mut out: Vec<String> = Vec::new();
    let mut rest: &str = s;
    loop
        invariant
            split_on(s@, c) == views(out@) + split_on(rest@, c),
        decreases rest@.len(),
    {
        let n = rest.unicode_len();
        match find_char(rest, c) {
            None => {
                let piece = owned(rest);
                proof {
                    assert(split_on(rest@, c) == seq![rest@]);
                }
                let ghost before = out@;
                out.push(piece);
                assert(views(out@) =~= views(before) + seq![rest@]);
                return out;
            },
            Some(i) => {
                proof {
                    lemma_index_of(rest@, c);
                }
                let piece = owned(slice_chars(rest, 0, i));
                let ghost before = out@;
                out.push(piece);
                assert(views(out@) =~= views(before) + seq![rest@.take(i as int)]);
                let next = slice_chars(rest, i + 1, n);
                assert(next@ =~= rest@.skip(i + 1));
                assert(split_on(rest@, c) == seq![rest@.take(i as int)] + split_on(next@, c));
                assert(split_on(s@, c) =~= views(out@) + split_on(next@, c));
                rest = next;
            },
        }
    }
}


/// Unicode `White_Space`, the property behind `char::is_whitespace`.
pub open spec fn is_ws(c: char) -> bool {
    let u = code_of(c);
    (0x9 <= u <= 0xD) || u == 0x20 || u == 0x85 || u == 0xA0 || u == 0x1680 || (0x2000 <= u
        <= 0x200A) || u == 0x2028 || u == 0x2029 || u == 0x202F || u == 0x205F || u == 0x3000
}

pub fn is_whitespace_char(c: char) -> (r: bool)
    ensures
        r == is_ws(c),
{
    let u: u32 = c as u32;
    (0x9 <= u && u <= 0xD) || u == 0x20 || u == 0x85 || u == 0xA0 || u == 0x1680 || (0x2000 <= u
        && u <= 0x200A) || u == 0x2028 || u == 0x2029 || u == 0x202F || u == 0x205F || u == 0x3000
}

/// The characters stripped by a trim: `/` when `slash`, whitespace otherwise.
pub open spec fn strip_sel(slash: bool, c: char) -> bool {
    if slash { c == '/' } else { is_ws(c) }
}

fn strip_sel_exec(slash: bool, c: char) -> (r: bool)
    ensures
        r == strip_sel(slash, c),
{
    if slash { c == '/' } else { is_whitespace_char(c) }
}

/// `s` without its leading run of stripped characters.
pub open spec fn trim_start_sel(s: Seq<char>, slash: bool) -> Seq<char>
    decreases s.len(),
{
    if s.len() > 0 && strip_sel(slash, s[0]) {
        trim_start_sel(s.drop_first(), slash)
    } else {
        s
    }
}

/// `s` without its trailing run of stripped characters.
pub open spec fn trim_end_sel(s: Seq<char>, slash: bool) -> Seq<char>
    decreases s.len(),
{
    if s.len() > 0 && strip_sel(slash, s.last()) {
        trim_end_sel(s.drop_last(), slash)
    } else {
        s
    }
}

/// `str::trim`: leading and trailing whitespace removed.
pub open spec fn trim(s: Seq<char>) -> Seq<char> {
    trim_end_sel(trim_start_sel(s, false), false)
}

/// `str::trim_matches('/')`: leading and trailing slashes removed.
pub open spec fn trim_slashes(s: Seq<char>) -> Seq<char> {
    trim_end_sel(trim_start_sel(s, true), true)
}

fn trim_start_exec(s: &str, slash: bool) -> (r: &str)
    ensures
        r@ == trim_start_sel(s@, slash),
{
    let n = s.unicode_len();
    let mut i: usize = 0;
    assert(s@.skip(0) =~= s@);
    while i < n && strip_sel_exec(slash, s.get_char(i))
        invariant
            n == s@.len(),
            i <= n,
            trim_start_sel(s@, slash) == trim_start_sel(s@.skip(i as int), slash),
        decreases n - i,
    {
        assert(s@.skip(i as int).drop_first() =~= s@.skip(i + 1));
        i = i + 1;
    }
    let r = slice_chars(s, i, n);
    assert(r@ =~= s@.skip(i as int));
    r
}

fn trim_end_exec(s: &str, slash: bool) -> (r: &str)
    ensures
        r@ == trim_end_sel(s@, slash),
{
    let n = s.unicode_len();
    let mut j: usize = n;
    assert(s@.take(n as int) =~= s@);
    while j > 0 && strip_sel_exec(slash, s.get_char(j - 1))
        invariant
            n == s@.len(),
            j <= n,
            trim_end_sel(s@, slash) == trim_end_sel(s@.take(j as int), slash),
        decreases j,
    {
        assert(s@.take(j as int).drop_last() =~= s@.take(j - 1));
        assert(s@.take(j as int).last() == s@[j - 1]);
        j = j - 1;
    }
    if j > 0 {
        assert(s@.take(j as int).last() == s@[j - 1]);
    }
    let r = slice_chars(s, 0, j);
    assert(r@ =~= s@.take(j as int));
    r
}

/// `str::trim`.
pub fn trim_str(s: &str) -> (r: &str)
    ensures
        r@ == trim(s@),
{
    trim_end_exec(trim_start_exec(s, false), false)
}

/// `str::trim_matches('/')`.
pub fn trim_slashes_str(s: &str) -> (r: &str)
    ensures
        r@ == trim_slashes(s@),
{
    trim_end_exec(trim_start_exec(s, true), true)
}

/// Index of the last occurrence of `c` in `s`, or -1.
pub open spec fn last_index_of(s: Seq<char>, c: char) -> int
    decreases s.len(),
{
    if s.len() == 0 {
        -1
    } else if s.last() == c {
        s.len() - 1
    } else {
        last_index_of(s.drop_last(), c)
    }
}

/// The part of `s` after its last `c` (all of `s` when there is none),
/// as `s.rsplit(c).next()`.
pub open spec fn after_last(s: Seq<char>, c: char) -> Seq<char> {
    s.skip(last_index_of(s, c) + 1)
}

pub fn after_last_char(s: &str, c: char) -> (r: &str)
    ensures
        r@ == after_last(s@, c),
{
    let n = s.unicode_len();
    let mut j: usize = n;
    assert(s@.take(n as int) =~= s@);
    while j > 0 && s.get_char(j - 1) != c
        invariant
            n == s@.len(),
            j <= n,
            last_index_of(s@, c) == last_index_of(s@.take(j as int), c),
        decreases j,
    {
        assert(s@.take(j as int).drop_last() =~= s@.take(j - 1));
        assert(s@.take(j as int).last() == s@[j - 1]);
        j = j - 1;
    }
    if j > 0 {
        assert(s@.take(j as int).last() == s@[j - 1]);
    }
    let r = slice_chars(s, j, n);
    assert(r@ =~= s@.skip(j as int));
    r
}

/// Joins texts with a separator text.
pub open spec fn join_text(parts: Seq<Seq<char>>, sep: Seq<char>) -> Seq<char>
    decreases parts.len(),
{
    if parts.len() == 0 {
        Seq::empty()
    } else if parts.len() == 1 {
        parts[0]
    } else {
        join_text(parts.drop_last(), sep) + sep + parts.last()
    }
}

/// Joins strings with a separator, like `[String]::join`.
pub fn join_text_exec(parts: &Vec<String>, sep: &str) -> (r: String)
    ensures
        r@ == join_text(views(parts@), sep@),
{
    let mut out = String::new();
    let mut i: usize = 0;
    while i < parts.len()
        invariant
            i <= parts@.len(),
            out@ == join_text(views(parts@).take(i as int), sep@),
        decreases parts@.len() - i,
    {
        let ghost prev = views(parts@).take(i as int);
        assert(views(parts@).take(i + 1).drop_last() =~= prev);
        assert(views(parts@).take(i + 1).last() == parts@[i as int]@);
        if i > 0 {
            push_str(&mut out, sep);
        } else {
            assert(views(parts@).take(1) =~= seq![parts@[0]@]);
        }
        push_str(&mut out, parts[i].as_str());
        i = i + 1;
    }
    assert(views(parts@).take(i as int) =~= views(parts@));
    out
}

/// `s` with every leading repetition of the non-empty `p` removed
/// (`str::trim_start_matches`).
pub open spec fn strip_all(s: Seq<char>, p: Seq<char>) -> Seq<char>
    decreases s.len(),
{
    if p.len() > 0 && has_prefix(s, p) {
        strip_all(s.skip(p.len() as int), p)
    } else {
        s
    }
}

/// Removes every leading repetition of the non-empty `p`.
pub fn strip_all_exec<'a>(s: &'a str, p: &str) -> (r: &'a str)
    requires
        p@.len() > 0,
    ensures
        r@ == strip_all(s@, p@),
{
    let mut cur = s;
    let n = p.unicode_len();
    while str_starts_with(cur, p)
        invariant
            n == p@.len(),
            n > 0,
            strip_all(s@, p@) == strip_all(cur@, p@),
        decreases cur@.len(),
    {
        let len = cur.unicode_len();
        let next = slice_chars(cur, n, len);
        assert(next@ =~= cur@.skip(n as int));
        cur = next;
    }
    cur
}

/// `s` without the suffix `p`, when it has it.
pub open spec fn strip_suffix_or_keep(s: Seq<char>, p: Seq<char>) -> Seq<char> {
    if has_suffix(s, p) {
        s.take(s.len() - p.len())
    } else {
        s
    }
}

pub fn strip_suffix_or_keep_exec<'a>(s: &'a str, p: &str) -> (r: &'a str)
    ensures
        r@ == strip_suffix_or_keep(s@, p@),
{
    if str_ends_with(s, p) {
        let len = s.unicode_len();
        let r = slice_chars(s, 0, len - p.unicode_len());
        assert(r@ =~= s@.take(s@.len() - p@.len()));
        r
    } else {
        s
    }
}

/// Rust's `Debug` rendering of a list of strings: `["a", "b"]`, each string
/// quoted and escaped as `str`'s `Debug` does.
pub uninterp spec fn debug_list(items: Seq<Seq<char>>) -> Seq<char>;

/// `format!("{:?}", v)` for a list of strings.
#[verifier::external_body]
pub fn debug_strings(v: &Vec<String>) -> (r: String)
    ensures
        r@ == debug_list(views(v@)),
{
    format!("{:?}", v)
}

/// Rust's `Debug` rendering of an optional string: `None`, or `Some("..")`
/// with the string quoted and escaped as `str`'s `Debug` does.
pub uninterp spec fn debug_opt(o: Option<Seq<char>>) -> Seq<char>;

/// `format!("{:?}", o)` for an optional string.
#[verifier::external_body]
pub fn debug_opt_string(o: &Option<String>) -> (r: String)
    ensures
        r@ == debug_opt(match o {
            Some(s) => Some(s@),
            None => None,
        }),
{
    format!("{:?}", o)
}

/// A copy of a list of strings.
pub fn copy_strings(v: &[String]) -> (r: Vec<String>)
    ensures
        views(r@) == views(v@),
{
    let mut out: Vec<String> = Vec::new();
    let mut i: usize = 0;
    while i < v.len()
        invariant
            i <= v@.len(),
            views(out@) == views(v@).take(i as int),
        decreases v@.len() - i,
    {
        let ghost prev = views(out@);
        out.push(v[i].clone());
        assert(views(out@) =~= prev.push(v@[i as int]@));
        assert(views(v@).take(i + 1) =~= views(v@).take(i as int).push(v@[i as int]@));
        i = i + 1;
    }
    assert(views(v@).take(i as int) =~= views(v@));
    out
}

} // verus!
