//! Parsing of `git cat-file --batch -Z` output: for each requested object,
//! a NUL-terminated header, then (for a blob) its bytes and a NUL.
use vstd::prelude::*;
use vstd::slice::{slice_subrange, slice_to_vec};
use vstd::utf8::{decode_utf8, valid_utf8};

use super::git::{nul_index, lemma_nul_index, PolicyGitError};
use crate::text::{code_of, has_suffix, is_whitespace_char, is_ws, owned, push_str, slice_chars, str_ends_with, str_eq, views};
use crate::utf8::decode_utf8_bytes;

verus! {

/// `s` without its leading whitespace.
pub open spec fn skip_ws(s: Seq<char>) -> Seq<char>
    decreases s.len(),
{
    if s.len() > 0 && is_ws(s[0]) {
        skip_ws(s.drop_first())
    } else {
        s
    }
}

/// Length of the run of non-whitespace characters that starts `s`.
pub open spec fn word_len(s: Seq<char>) -> nat
    decreases s.len(),
{
    if s.len() > 0 && !is_ws(s[0]) {
        1 + word_len(s.drop_first())
    } else {
        0
    }
}

pub proof fn lemma_skip_ws(s: Seq<char>)
    ensures
        skip_ws(s).len() <= s.len(),
        skip_ws(s).len() > 0 ==> !is_ws(skip_ws(s)[0]),
        skip_ws(s) == s.skip(s.len() - skip_ws(s).len()),
    decreases s.len(),
{
    if s.len() > 0 && is_ws(s[0]) {
        lemma_skip_ws(s.drop_first());
        assert(s.drop_first().skip(s.drop_first().len() - skip_ws(s.drop_first()).len()) =~= s.skip(
            s.len() - skip_ws(s).len(),
        ));
    } else {
        assert(s.skip(0) =~= s);
    }
}

pub proof fn lemma_word_len(s: Seq<char>)
    ensures
        word_len(s) <= s.len(),
        s.len() > 0 && !is_ws(s[0]) ==> word_len(s) >= 1,
        forall|i: int| 0 <= i < word_len(s) ==> !is_ws(#[trigger] s[i]),
        word_len(s) < s.len() ==> is_ws(s[word_len(s) as int]),
    decreases s.len(),
{
    if s.len() > 0 && !is_ws(s[0]) {
        lemma_word_len(s.drop_first());
        assert forall|i: int| 0 <= i < word_len(s) implies !is_ws(#[trigger] s[i]) by {
            if i > 0 {
                assert(s[i] == s.drop_first()[i - 1]);
            }
        }
        if word_len(s) < s.len() {
            assert(s[word_len(s) as int] == s.drop_first()[word_len(s) - 1]);
        }
    }
}

/// The whitespace-separated fields of `s`, like `str::split_whitespace`.
pub open spec fn ws_fields(s: Seq<char>) -> Seq<Seq<char>>
    decreases s.len(),
{
    let t = skip_ws(s);
    if t.len() == 0 {
        Seq::empty()
    } else {
        let n = word_len(t);
        proof {
            lemma_skip_ws(s);
            lemma_word_len(t);
        }
        seq![t.take(n as int)] + ws_fields(t.skip(n as int))
    }
}

proof fn lemma_skip_ws_from(s: Seq<char>, i: int, j: int)
    requires
        0 <= i <= j <= s.len(),
        forall|k: int| i <= k < j ==> is_ws(#[trigger] s[k]),
        j == s.len() || !is_ws(s[j]),
    ensures
        skip_ws(s.skip(i)) == s.skip(j),
    decreases j - i,
{
    if i < j {
        assert(s.skip(i)[0] == s[i]);
        assert(s.skip(i).drop_first() =~= s.skip(i + 1));
        lemma_skip_ws_from(s, i + 1, j);
    } else {
        if j < s.len() {
            assert(s.skip(j)[0] == s[j]);
        }
    }
}

proof fn lemma_word_len_from(s: Seq<char>, j: int, k: int)
    requires
        0 <= j <= k <= s.len(),
        forall|q: int| j <= q < k ==> !is_ws(#[trigger] s[q]),
        k == s.len() || is_ws(s[k]),
    ensures
        word_len(s.skip(j)) == k - j,
    decreases k - j,
{
    if j < k {
        assert(s.skip(j)[0] == s[j]);
        assert(s.skip(j).drop_first() =~= s.skip(j + 1));
        lemma_word_len_from(s, j + 1, k);
    } else {
        if k < s.len() {
            assert(s.skip(k)[0] == s[k]);
        }
    }
}

/// Splits at whitespace, dropping empty fields (see `ws_fields`).
pub fn split_whitespace(s: &str) -> (r: Vec<String>)
    ensures
        views(r@) == ws_fields(s@),
{
    let n = s.unicode_len();
    let mut out: Vec<String> = Vec::new();
    let mut i: usize = 0;
    assert(s@.skip(0) =~= s@);
    loop
        invariant
            n == s@.len(),
            i <= n,
            ws_fields(s@) == views(out@) + ws_fields(s@.skip(i as int)),
        decreases n - i,
    {
        let mut j = i;
        while j < n && is_whitespace_char(s.get_char(j))
            invariant
                n == s@.len(),
                i <= j <= n,
                forall|k: int| i <= k < j ==> is_ws(#[trigger] s@[k]),
            decreases n - j,
        {
            j = j + 1;
        }
        proof {
            lemma_skip_ws_from(s@, i as int, j as int);
        }
        if j == n {
            assert(s@.skip(j as int) =~= Seq::<char>::empty());
            assert(ws_fields(s@.skip(i as int)) =~= Seq::<Seq<char>>::empty());
            assert(views(out@) + Seq::<Seq<char>>::empty() =~= views(out@));
            return out;
        }
        let mut k = j;
        while k < n && !is_whitespace_char(s.get_char(k))
            invariant
                n == s@.len(),
                j <= k <= n,
                forall|q: int| j <= q < k ==> !is_ws(#[trigger] s@[q]),
            decreases n - k,
        {
            k = k + 1;
        }
        proof {
            lemma_word_len_from(s@, j as int, k as int);
            assert(s@.skip(j as int).take(k - j) =~= s@.subrange(j as int, k as int));
            assert(s@.skip(j as int).skip(k - j) =~= s@.skip(k as int));
            assert(s@.skip(j as int)[0] == s@[j as int]);
        }
        let word = owned(slice_chars(s, j, k));
        let ghost before = views(out@);
        out.push(word);
        assert(views(out@) =~= before.push(s@.subrange(j as int, k as int)));
        assert(ws_fields(s@.skip(i as int)) == seq![s@.subrange(j as int, k as int)] + ws_fields(s@.skip(k as int)));
        assert(ws_fields(s@) =~= views(out@) + ws_fields(s@.skip(k as int)));
        i = k;
    }
}

pub open spec fn is_digit(c: char) -> bool {
    48 <= code_of(c) <= 57
}

/// The value of a string of decimal digits.
pub open spec fn digits_value(s: Seq<char>) -> int
    decreases s.len(),
{
    if s.len() == 0 {
        0
    } else {
        digits_value(s.drop_last()) * 10 + (code_of(s.last()) - 48)
    }
}

/// The digits of an unsigned number: without one leading `+`.
pub open spec fn unsigned_digits(s: Seq<char>) -> Seq<char> {
    if s.len() > 0 && s[0] == '+' {
        s.drop_first()
    } else {
        s
    }
}

pub open spec fn all_digits(d: Seq<char>) -> bool {
    forall|i: int| 0 <= i < d.len() ==> is_digit(#[trigger] d[i])
}

/// `usize::from_str`: an optional `+`, then one or more decimal digits whose
/// value fits in `usize`.
pub open spec fn parse_usize(s: Seq<char>) -> Option<int> {
    let d = unsigned_digits(s);
    if d.len() > 0 && all_digits(d) && digits_value(d) <= usize::MAX {
        Some(digits_value(d))
    } else {
        None
    }
}

proof fn lemma_digits_prefix(d: Seq<char>, k: int)
    requires
        0 <= k <= d.len(),
        forall|i: int| 0 <= i < d.len() ==> is_digit(#[trigger] d[i]),
    ensures
        0 <= digits_value(d.take(k)) <= digits_value(d),
    decreases d.len() - k,
{
    if k < d.len() {
        lemma_digits_prefix(d, k + 1);
        assert(d.take(k + 1).drop_last() =~= d.take(k));
        assert(d.take(k + 1).last() == d[k]);
        assert(is_digit(d[k]));
        lemma_digits_nonneg(d.take(k));
    } else {
        assert(d.take(k) =~= d);
        lemma_digits_nonneg(d);
    }
}

proof fn lemma_digits_nonneg(d: Seq<char>)
    requires
        forall|i: int| 0 <= i < d.len() ==> is_digit(#[trigger] d[i]),
    ensures
        digits_value(d) >= 0,
    decreases d.len(),
{
    if d.len() > 0 {
        assert(is_digit(d.last()));
        assert forall|i: int| 0 <= i < d.drop_last().len() implies is_digit(#[trigger] d.drop_last()[i]) by {
            assert(d.drop_last()[i] == d[i]);
        }
        lemma_digits_nonneg(d.drop_last());
    }
}

/// Parses a `usize` (see `parse_usize`).
pub fn parse_usize_exec(s: &str) -> (r: Option<usize>)
    ensures
        match r {
            Some(v) => parse_usize(s@) == Some(v as int),
            None => parse_usize(s@) is None,
        },
{
    let n = s.unicode_len();
    let start: usize = if n > 0 && s.get_char(0) == '+' { 1 } else { 0 };
    let ghost d = unsigned_digits(s@);
    assert(d =~= s@.skip(start as int));
    if start == n {
        assert(d.len() == 0);
        return None;
    }
    let mut value: usize = 0;
    let mut k: usize = start;
    assert(d.take(0) =~= Seq::<char>::empty());
    while k < n
        invariant
            n == s@.len(),
            start <= k <= n,
            d == s@.skip(start as int),
            d == unsigned_digits(s@),
            forall|i: int| 0 <= i < k - start ==> is_digit(#[trigger] d[i]),
            value as int == digits_value(d.take(k - start)),
        decreases n - k,
    {
        let c = s.get_char(k);
        assert(d[k - start] == c);
        let u = c as u32;
        if !(48 <= u && u <= 57) {
            assert(!is_digit(d[k - start]));
            assert(!all_digits(d));
            return None;
        }
        assert(is_digit(d[k - start]));
        let digit = (u - 48) as usize;
        assert(d.take(k - start + 1).drop_last() =~= d.take(k - start));
        assert(d.take(k - start + 1).last() == c);
        match value.checked_mul(10) {
            Some(m) => match m.checked_add(digit) {
                Some(v) => {
                    value = v;
                },
                None => {
                    proof {
                        lemma_overflow_stays(d, k - start + 1);
                    }
                    return None;
                },
            },
            None => {
                proof {
                    lemma_overflow_stays(d, k - start + 1);
                }
                return None;
            },
        }
        k = k + 1;
    }
    assert(d.take(k - start) =~= d);
    Some(value)
}

/// Once a prefix of digits overflows, the digits as a whole overflow (or
/// are not all digits).
proof fn lemma_overflow_stays(d: Seq<char>, k: int)
    requires
        0 < k <= d.len(),
        forall|i: int| 0 <= i < k ==> is_digit(#[trigger] d[i]),
        digits_value(d.take(k)) > usize::MAX,
    ensures
        parse_usize_digits_fail(d),
{
    if all_digits(d) {
        lemma_digits_prefix(d, k);
    }
}

pub open spec fn parse_usize_digits_fail(d: Seq<char>) -> bool {
    !(all_digits(d) && digits_value(d) <= usize::MAX)
}

/// One record of the output at `cursor`, requested as `at`
/// (`reference:path`): a missing object, or a blob's bytes, with the cursor
/// after the record; or the error message.
pub open spec fn batch_record(at: Seq<char>, raw: Seq<u8>, cursor: int) -> Result<(Option<Seq<u8>>, int), Seq<char>> {
    let rest = raw.skip(cursor);
    let k = nul_index(rest);
    if cursor > raw.len() || k < 0 {
        Err("truncated git cat-file output while reading header for "@ + at)
    } else if !valid_utf8(rest.take(k)) {
        Err("non-UTF-8 header in git cat-file output for "@ + at)
    } else {
        let text = decode_utf8(rest.take(k));
        let next = cursor + k + 1;
        if has_suffix(text, " missing"@) {
            Ok((None, next))
        } else {
            let f = ws_fields(text);
            if f.len() < 3 {
                Err("malformed cat-file header for "@ + at + ": "@ + text)
            } else if f[1] != "blob"@ {
                Err("expected blob for "@ + at + ", got '"@ + f[1] + "' ("@ + text + ")"@)
            } else {
                match parse_usize(f[2]) {
                    None => Err("invalid blob size in header for "@ + at + ": "@ + text),
                    Some(size) => if next + size > usize::MAX {
                        Err("blob size overflow for "@ + at)
                    } else if next + size > raw.len() {
                        Err("truncated git cat-file output while reading blob for "@ + at)
                    } else if next + size == raw.len() || raw[next + size] != 0 {
                        Err("missing NUL separator after blob for "@ + at)
                    } else {
                        Ok((Some(raw.subrange(next, next + size)), next + size + 1))
                    },
                }
            }
        }
    }
}

/// The records for `paths` from `cursor` on: the blobs (or `None` for
/// missing objects), or the first error.
pub open spec fn batch_records(reference: Seq<char>, paths: Seq<Seq<char>>, raw: Seq<u8>, cursor: int) -> Result<
    Seq<Option<Seq<u8>>>,
    Seq<char>,
>
    decreases paths.len(),
{
    if paths.len() == 0 {
        Ok(Seq::empty())
    } else {
        match batch_record(reference + ":"@ + paths[0], raw, cursor) {
            Err(e) => Err(e),
            Ok((blob, next)) => match batch_records(reference, paths.drop_first(), raw, next) {
                Err(e) => Err(e),
                Ok(rest) => Ok(seq![blob] + rest),
            },
        }
    }
}

pub open spec fn blob_views(v: Seq<Option<Vec<u8>>>) -> Seq<Option<Seq<u8>>> {
    v.map_values(
        |o: Option<Vec<u8>>|
            match o {
                Some(b) => Some(b@),
                None => None,
            },
    )
}

fn batch_error(message: String) -> (r: PolicyGitError)
    ensures
        r.spec_code() == "git.batch_parse_error"@,
        r.spec_message() == message@,
{
    PolicyGitError::new("git.batch_parse_error", message)
}

fn message_for(prefix: &str, at: &str) -> (r: String)
    ensures
        r@ == prefix@ + at@,
{
    let mut m = owned(prefix);
    push_str(&mut m, at);
    m
}

fn read_record(at: &str, raw: &[u8], cursor: usize) -> (r: Result<(Option<Vec<u8>>, usize), PolicyGitError>)
    ensures
        match batch_record(at@, raw@, cursor as int) {
            Ok((blob, next)) => r matches Ok((b, n)) && n == next && match b {
                Some(v) => blob == Some(v@),
                None => blob is None,
            },
            Err(m) => r matches Err(e) && e.spec_code() == "git.batch_parse_error"@ && e.spec_message() == m,
        },
{
    proof {
        reveal_strlit(" missing");
        reveal_strlit("blob");
    }
    let n = raw.len();
    if cursor > n {
        return Err(batch_error(message_for("truncated git cat-file output while reading header for ", at)));
    }
    let ghost rest = raw@.skip(cursor as int);
    proof {
        lemma_nul_index(rest);
    }
    let mut j: usize = cursor;
    while j < n && raw[j] != 0
        invariant
            n == raw@.len(),
            cursor <= j <= n,
            forall|q: int| cursor <= q < j ==> raw@[q] != 0,
        decreases n - j,
    {
        j = j + 1;
    }
    if j == n {
        proof {
            if nul_index(rest) >= 0 {
                assert(rest[nul_index(rest)] == raw@[cursor + nul_index(rest)]);
            }
        }
        return Err(batch_error(message_for("truncated git cat-file output while reading header for ", at)));
    }
    let k = j - cursor;
    assert(nul_index(rest) == k) by {
        assert(rest[k as int] == raw@[j as int]);
        if nul_index(rest) < k && nul_index(rest) >= 0 {
            assert(rest[nul_index(rest)] == raw@[cursor + nul_index(rest)]);
        }
        if nul_index(rest) > k {
            assert(rest[k as int] == 0);
        }
    }
    let header = slice_subrange(raw, cursor, j);
    assert(header@ =~= rest.take(k as int));
    let text = match decode_utf8_bytes(header) {
        Some(t) => t,
        None => {
            return Err(batch_error(message_for("non-UTF-8 header in git cat-file output for ", at)));
        },
    };
    let next = j + 1;
    if str_ends_with(text.as_str(), " missing") {
        return Ok((None, next));
    }
    let f = split_whitespace(text.as_str());
    if f.len() < 3 {
        let mut m = message_for("malformed cat-file header for ", at);
        push_str(&mut m, ": ");
        push_str(&mut m, text.as_str());
        return Err(batch_error(m));
    }
    if !str_eq(f[1].as_str(), "blob") {
        let mut m = message_for("expected blob for ", at);
        push_str(&mut m, ", got '");
        push_str(&mut m, f[1].as_str());
        push_str(&mut m, "' (");
        push_str(&mut m, text.as_str());
        push_str(&mut m, ")");
        return Err(batch_error(m));
    }
    let size = match parse_usize_exec(f[2].as_str()) {
        Some(v) => v,
        None => {
            let mut m = message_for("invalid blob size in header for ", at);
            push_str(&mut m, ": ");
            push_str(&mut m, text.as_str());
            return Err(batch_error(m));
        },
    };
    let end = match next.checked_add(size) {
        Some(e) => e,
        None => {
            return Err(batch_error(message_for("blob size overflow for ", at)));
        },
    };
    if end > n {
        return Err(batch_error(message_for("truncated git cat-file output while reading blob for ", at)));
    }
    if end == n || raw[end] != 0 {
        return Err(batch_error(message_for("missing NUL separator after blob for ", at)));
    }
    let blob = slice_to_vec(slice_subrange(raw, next, end));
    assert(blob@ =~= raw@.subrange(next as int, end as int));
    Ok((Some(blob), end + 1))
}

/// Parses `git cat-file --batch -Z` output for objects requested as
/// `reference:path`, one per path in order (see `batch_records`): each is
/// `None` when git reports it missing, else the blob's bytes. Every error
/// carries the code `git.batch_parse_error`.
pub fn parse_batch_output(reference: &str, spec_paths: &[String], raw: &[u8]) -> (r: Result<
    Vec<Option<Vec<u8>>>,
    PolicyGitError,
>)
    ensures
        match batch_records(reference@, views(spec_paths@), raw@, 0) {
            Ok(blobs) => r matches Ok(v) && blob_views(v@) == blobs,
            Err(m) => r matches Err(e) && e.spec_code() == "git.batch_parse_error"@ && e.spec_message() == m,
        },
{
    let ghost ps = views(spec_paths@);
    let mut blobs: Vec<Option<Vec<u8>>> = Vec::new();
    let mut cursor: usize = 0;
    let mut i: usize = 0;
    assert(ps.skip(0) =~= ps);
    while i < spec_paths.len()
        invariant
            ps == views(spec_paths@),
            i <= spec_paths@.len(),
            batch_records(reference@, ps, raw@, 0) == match batch_records(reference@, ps.skip(i as int), raw@, cursor as int) {
                Ok(rest) => Ok(blob_views(blobs@) + rest),
                Err(e) => Err(e),
            },
        decreases spec_paths@.len() - i,
    {
        let mut at = owned(reference);
        push_str(&mut at, ":");
        push_str(&mut at, spec_paths[i].as_str());
        let ghost tail = ps.skip(i as int);
        assert(tail[0] == spec_paths@[i as int]@);
        assert(tail.drop_first() =~= ps.skip(i + 1));
        match read_record(at.as_str(), raw, cursor) {
            Ok((blob, next)) => {
                let ghost before = blob_views(blobs@);
                blobs.push(blob);
                assert(blob_views(blobs@) =~= before.push(blob_views(blobs@).last()));
                proof {
                    assert(blob_views(blobs@) =~= before + seq![blob_views(blobs@).last()]);
                    assert forall|rest: Seq<Option<Seq<u8>>>| before + (seq![blob_views(blobs@).last()] + rest) =~= blob_views(blobs@) + rest by {}
                }
                cursor = next;
            },
            Err(e) => {
                return Err(e);
            },
        }
        i = i + 1;
    }
    assert(ps.skip(i as int) =~= Seq::<Seq<char>>::empty());
    assert(blob_views(blobs@) + Seq::<Option<Seq<u8>>>::empty() =~= blob_views(blobs@));
    Ok(blobs)
}

} // verus!
