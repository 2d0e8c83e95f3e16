//! Canonical compact JSON text of parameter values: object members sorted
//! by key, strings quoted as `serde_json` quotes them.
use vstd::prelude::*;

use crate::spec::types::JsonValue;
use crate::strset::{lemma_sorted_seq_of, set_insert, sorted_seq_of, strictly_sorted};
use crate::text::{join_text, join_text_exec, owned, push_str, str_eq, views};

verus! {

/// A lowercase hexadecimal digit.
pub open spec fn hex_digit(d: int) -> char {
    if d < 10 {
        (48 + d) as char
    } else {
        (87 + d) as char
    }
}

/// How `serde_json` writes one character inside a string literal: `"` and
/// `\` escaped with a backslash, backspace, form feed, newline, carriage
/// return and tab as `\b \f \n \r \t`, other control characters below
/// 0x20 as `\u00XX` (lowercase hex), everything else as itself.
pub open spec fn json_escaped_char(c: char) -> Seq<char> {
    let u = c as int;
    if c == '"' {
        seq!['\\', '"']
    } else if c == '\\' {
        seq!['\\', '\\']
    } else if u == 8 {
        seq!['\\', 'b']
    } else if u == 12 {
        seq!['\\', 'f']
    } else if u == 10 {
        seq!['\\', 'n']
    } else if u == 13 {
        seq!['\\', 'r']
    } else if u == 9 {
        seq!['\\', 't']
    } else if u < 32 {
        seq!['\\', 'u', '0', '0', hex_digit(u / 16), hex_digit(u % 16)]
    } else {
        seq![c]
    }
}

/// The characters of a text, each written as `json_escaped_char`.
pub open spec fn json_escaped(s: Seq<char>) -> Seq<char>
    decreases s.len(),
{
    if s.len() == 0 {
        Seq::empty()
    } else {
        json_escaped(s.drop_last()) + json_escaped_char(s.last())
    }
}

/// The JSON string literal `serde_json` writes for a text: the escaped text
/// in double quotes.
#[verifier::opaque]
pub open spec fn json_quoted(s: Seq<char>) -> Seq<char> {
    seq!['"'] + json_escaped(s) + seq!['"']
}

/// `serde_json::to_string` of a string slice, which cannot fail.
#[verifier::external_body]
pub(crate) fn json_quote(s: &str) -> (r: String)
    ensures
        r@ == json_quoted(s@),
{
    serde_json::to_string(s).unwrap_or_default()
}

/// Position of the first member named `key`, or the length.
pub open spec fn first_member(m: Seq<(String, JsonValue)>, key: Seq<char>) -> int
    decreases m.len(),
{
    if m.len() == 0 {
        0
    } else if m[0].0@ == key {
        0
    } else {
        1 + first_member(m.drop_first(), key)
    }
}

/// The member names of an object.
pub open spec fn member_keys(m: Seq<(String, JsonValue)>) -> Set<Seq<char>> {
    Set::new(|k: Seq<char>| exists|i: int| 0 <= i < m.len() && m[i].0@ == k)
}

/// The names of the first `k` members.
pub open spec fn keys_upto(m: Seq<(String, JsonValue)>, k: int) -> Set<Seq<char>> {
    Set::new(|key: Seq<char>| exists|i: int| 0 <= i < k && #[trigger] m[i].0@ == key)
}

/// Canonical JSON text: compact, object members sorted by name with the
/// first member of each name kept.
pub open spec fn canonical_json(v: JsonValue) -> Seq<char>
    decreases v,
{
    match v {
        JsonValue::Null => "null"@,
        JsonValue::Bool(b) => if b { "true"@ } else { "false"@ },
        JsonValue::Number(n) => n@,
        JsonValue::Str(s) => json_quoted(s@),
        JsonValue::Array(items) => "["@ + join_text(canonical_items(items@), ","@) + "]"@,
        JsonValue::Object(m) => "{"@ + join_text(canonical_members(m@, sorted_seq_of(member_keys(m@))), ","@)
            + "}"@,
    }
}

/// The canonical texts of array items.
pub open spec fn canonical_items(items: Seq<JsonValue>) -> Seq<Seq<char>>
    decreases items,
{
    Seq::new(items.len(), |i: int| if 0 <= i < items.len() { canonical_json(items[i]) } else { Seq::empty() })
}

/// The canonical texts of object members, in the order of `keys`.
pub open spec fn canonical_members(m: Seq<(String, JsonValue)>, keys: Seq<Seq<char>>) -> Seq<Seq<char>>
    decreases m,
{
    Seq::new(
        keys.len(),
        |i: int|
            {
                let j = first_member(m, keys[i]);
                if 0 <= j < m.len() {
                    json_quoted(keys[i]) + ":"@ + canonical_json(m[j].1)
                } else {
                    Seq::empty()
                }
            },
    )
}

proof fn lemma_first_member(m: Seq<(String, JsonValue)>, key: Seq<char>)
    ensures
        0 <= first_member(m, key) <= m.len(),
        first_member(m, key) < m.len() ==> m[first_member(m, key)].0@ == key,
        member_keys(m).contains(key) ==> first_member(m, key) < m.len(),
    decreases m.len(),
{
    if m.len() > 0 {
        lemma_first_member(m.drop_first(), key);
        if m[0].0@ != key && member_keys(m).contains(key) {
            let i = choose|i: int| 0 <= i < m.len() && m[i].0@ == key;
            assert(m.drop_first()[i - 1].0@ == key);
            assert(member_keys(m.drop_first()).contains(key));
        }
    }
}

fn find_member(m: &Vec<(String, JsonValue)>, key: &str) -> (r: usize)
    ensures
        r as int == first_member(m@, key@),
{
    let mut i: usize = 0;
    assert(m@.skip(0) =~= m@);
    while i < m.len()
        invariant
            i <= m@.len(),
            first_member(m@, key@) == i + first_member(m@.skip(i as int), key@),
        decreases m@.len() - i,
    {
        let ghost rest = m@.skip(i as int);
        assert(rest[0] == m@[i as int]);
        if str_eq(m[i].0.as_str(), key) {
            return i;
        }
        assert(rest.drop_first() =~= m@.skip(i + 1));
        i = i + 1;
    }
    i
}

/// The canonical JSON text of a value (see `canonical_json`).
pub fn render_canonical_json(v: &JsonValue) -> (r: String)
    ensures
        r@ == canonical_json(*v),
    decreases v,
{
    match v {
        JsonValue::Null => {
            assert(canonical_json(JsonValue::Null) == "null"@);
            owned("null")
        },
        JsonValue::Bool(b) => {
            let r = owned(if *b { "true" } else { "false" });
            assert(r@ == canonical_json(*v));
            r
        },
        JsonValue::Number(n) => {
            let r = n.clone();
            assert(r@ == canonical_json(*v));
            r
        },
        JsonValue::Str(s) => {
            let r = json_quote(s.as_str());
            assert(r@ == canonical_json(*v));
            r
        },
        JsonValue::Array(items) => {
            let ghost texts = canonical_items(items@);
            let mut parts: Vec<String> = Vec::new();
            let mut i: usize = 0;
            while i < items.len()
                invariant
                    *v == JsonValue::Array(*items),
                    texts == canonical_items(items@),
                    i <= items@.len(),
                    parts@.len() == i,
                    forall|k: int| 0 <= k < i ==> (#[trigger] parts@[k])@ == texts[k],
                decreases items@.len() - i,
            {
                proof {
                    assert(decreases_to!(*v => (*v)->Array_0));
                    assert(decreases_to!((*v)->Array_0 => (*v)->Array_0@));
                    assert(decreases_to!(items@ => items@[i as int]));
                    assert(decreases_to!(*v => items@[i as int]));
                }
                let t = render_canonical_json(&items[i]);
                parts.push(t);
                i = i + 1;
            }
            assert(views(parts@) =~= texts);
            let mut out = owned("[");
            let joined = join_text_exec(&parts, ",");
            push_str(&mut out, joined.as_str());
            push_str(&mut out, "]");
            assert(out@ =~= canonical_json(*v));
            out
        },
        JsonValue::Object(m) => {
            let mut keys: Vec<String> = Vec::new();
            let mut k: usize = 0;
            assert(views(keys@).to_set() =~= keys_upto(m@, 0));
            while k < m.len()
                invariant
                    k <= m@.len(),
                    strictly_sorted(views(keys@)),
                    views(keys@).to_set() == keys_upto(m@, k as int),
                decreases m@.len() - k,
            {
                set_insert(&mut keys, m[k].0.clone());
                proof {
                    let prev = keys_upto(m@, k as int);
                    let next = keys_upto(m@, k + 1);
                    assert forall|key: Seq<char>| next.contains(key) <==> prev.insert(m@[k as int].0@).contains(key) by {
                        if next.contains(key) {
                            let i = choose|i: int| 0 <= i < k + 1 && #[trigger] m@[i].0@ == key;
                            if i < k {
                                assert(prev.contains(key));
                            }
                        }
                        if prev.contains(key) {
                            let i = choose|i: int| 0 <= i < k && #[trigger] m@[i].0@ == key;
                            assert(next.contains(key));
                        }
                        if key == m@[k as int].0@ {
                            assert(next.contains(key));
                        }
                    }
                    assert(views(keys@).to_set() =~= next);
                }
                k = k + 1;
            }
            assert(views(keys@).to_set() =~= member_keys(m@)) by {
                assert forall|key: Seq<char>| keys_upto(m@, m@.len() as int).contains(key) <==> member_keys(m@).contains(key) by {
                    if member_keys(m@).contains(key) {
                        let i = choose|i: int| 0 <= i < m@.len() && m@[i].0@ == key;
                        assert(keys_upto(m@, m@.len() as int).contains(key));
                    }
                }
            }
            proof {
                lemma_sorted_seq_of(views(keys@));
            }
            let ghost sk = sorted_seq_of(member_keys(m@));
            let ghost texts = canonical_members(m@, sk);
            let mut parts: Vec<String> = Vec::new();
            let mut i: usize = 0;
            while i < keys.len()
                invariant
                    *v == JsonValue::Object(*m),
                    sk == sorted_seq_of(member_keys(m@)),
                    texts == canonical_members(m@, sk),
                    i <= keys@.len(),
                    views(keys@) == sk,
                    forall|x: Seq<char>| #[trigger] sk.contains(x) ==> member_keys(m@).contains(x),
                    parts@.len() == i,
                    forall|q: int| 0 <= q < i ==> (#[trigger] parts@[q])@ == texts[q],
                decreases keys@.len() - i,
            {
                let key = keys[i].as_str();
                assert(sk[i as int] == key@);
                assert(sk.contains(key@));
                proof {
                    lemma_first_member(m@, key@);
                }
                let j = find_member(m, key);
                proof {
                    assert(decreases_to!(*v => (*v)->Object_0));
                    assert(decreases_to!((*v)->Object_0 => (*v)->Object_0@));
                    assert(decreases_to!(m@ => m@[j as int]));
                    assert(decreases_to!(m@[j as int] => m@[j as int].1));
                    assert(decreases_to!(*v => m@[j as int].1));
                }
                let mut t = json_quote(key);
                push_str(&mut t, ":");
                let val = render_canonical_json(&m[j].1);
                push_str(&mut t, val.as_str());
                parts.push(t);
                i = i + 1;
            }
            assert(views(parts@) =~= texts);
            let mut out = owned("{");
            let joined = join_text_exec(&parts, ",");
            push_str(&mut out, joined.as_str());
            push_str(&mut out, "}");
            assert(out@ =~= canonical_json(*v));
            out
        },
    }
}

} // verus!
