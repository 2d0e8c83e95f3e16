//! Parsing of `git diff --name-status -z` output into spec-file changes.
use vstd::prelude::*;
use vstd::slice::{slice_subrange, slice_to_vec};
use vstd::utf8::{decode_utf8, valid_utf8};

use crate::spec::types::SpecFile;
use crate::strset::{set_insert, strictly_sorted};
use crate::text::{has_suffix, owned, push_char, push_str, str_ends_with, views};
use crate::utf8::decode_utf8_bytes;

verus! {

/// Spec files changed between two refs, as discovered from git.
#[derive(Debug, Clone, PartialEq, Eq, Default)]
pub struct DiscoveredSpecFileChanges {
    /// Added, modified or type-changed spec paths, sorted and without duplicates.
    pub changed_spec_paths: Vec<String>,
    pub fail_closed_operations: Vec<FailClosedSpecOperation>,
}

/// An operation on a spec file that policy diffing refuses to judge silently.
#[derive(Debug, Clone, PartialEq, Eq)]
pub enum FailClosedSpecOperation {
    Deletion { path: String },
    RenameOrCopy {
        status: String,
        from_path: String,
        to_path: String,
        semantic_pairing: RenameCopySemanticPairing,
    },
}

/// Whether a renamed or copied spec keeps its meaning.
#[derive(Debug, Clone, Copy, PartialEq, Eq, Default)]
pub enum RenameCopySemanticPairing {
    #[default]
    Unassessed,
    Equivalent,
    Different,
    Inconclusive,
}

/// A spec file as it stands at the base and at the head ref (absent where
/// it does not exist).
#[derive(Debug)]
pub struct SpecSnapshotPair {
    pub spec_path: String,
    pub base_spec: Option<SpecFile>,
    pub head_spec: Option<SpecFile>,
}

/// An error from git interaction, with a stable code.
#[derive(Debug, Clone, PartialEq, Eq)]
pub struct PolicyGitError {
    code: &'static str,
    message: String,
}

impl PolicyGitError {
    pub(crate) fn new(code: &'static str, message: String) -> (r: Self)
        ensures
            r.spec_code() == code@,
            r.spec_message() == message@,
    {
        PolicyGitError { code, message }
    }

    pub closed spec fn spec_code(&self) -> Seq<char> {
        self.code@
    }

    pub closed spec fn spec_message(&self) -> Seq<char> {
        self.message@
    }

    pub fn code(&self) -> (r: &'static str)
        ensures
            r@ == self.spec_code(),
    {
        self.code
    }

    pub fn message(&self) -> (r: &str)
        ensures
            r@ == self.spec_message(),
    {
        self.message.as_str()
    }
}

/// Index of the first NUL byte, or -1.
pub open spec fn nul_index(s: Seq<u8>) -> int
    decreases s.len(),
{
    if s.len() == 0 {
        -1
    } else if s[0] == 0 {
        0
    } else {
        let r = nul_index(s.drop_first());
        if r < 0 { -1 } else { r + 1 }
    }
}

pub proof fn lemma_nul_index(s: Seq<u8>)
    ensures
        -1 <= nul_index(s) < s.len(),
        nul_index(s) >= 0 ==> s[nul_index(s)] == 0,
        forall|j: int| 0 <= j < nul_index(s) ==> s[j] != 0,
        nul_index(s) == -1 ==> forall|j: int| 0 <= j < s.len() ==> s[j] != 0,
    decreases s.len(),
{
    if s.len() > 0 {
        lemma_nul_index(s.drop_first());
        assert forall|j: int| 0 < j < s.len() implies s[j] == s.drop_first()[j - 1] by {}
    }
}

/// The non-empty NUL-separated tokens of `raw`, in order.
pub open spec fn nul_tokens(raw: Seq<u8>) -> Seq<Seq<u8>>
    decreases raw.len(),
{
    if raw.len() == 0 {
        Seq::empty()
    } else {
        let i = nul_index(raw);
        if i < 0 {
            seq![raw]
        } else {
            proof {
                lemma_nul_index(raw);
            }
            let rest = nul_tokens(raw.skip(i + 1));
            if i == 0 { rest } else { seq![raw.take(i)] + rest }
        }
    }
}

/// A fail-closed operation as plain values.
pub ghost enum OpModel {
    Deletion { path: Seq<char> },
    RenameOrCopy {
        status: Seq<char>,
        from_path: Seq<char>,
        to_path: Seq<char>,
        pairing: RenameCopySemanticPairing,
    },
}

pub open spec fn op_model(op: FailClosedSpecOperation) -> OpModel {
    match op {
        FailClosedSpecOperation::Deletion { path } => OpModel::Deletion { path: path@ },
        FailClosedSpecOperation::RenameOrCopy { status, from_path, to_path, semantic_pairing } =>
            OpModel::RenameOrCopy {
            status: status@,
            from_path: from_path@,
            to_path: to_path@,
            pairing: semantic_pairing,
        },
    }
}

pub open spec fn op_models(ops: Seq<FailClosedSpecOperation>) -> Seq<OpModel> {
    ops.map_values(|op: FailClosedSpecOperation| op_model(op))
}

/// A path names a spec file.
pub open spec fn is_spec_path(p: Seq<char>) -> bool {
    has_suffix(p, ".spec.yml"@)
}

/// What a parse yields: changed spec paths (in order of appearance) and
/// fail-closed operations, or an error message.
pub type NameStatusModel = Result<(Seq<Seq<char>>, Seq<OpModel>), Seq<char>>;

pub open spec fn prepend(paths: Seq<Seq<char>>, ops: Seq<OpModel>, r: NameStatusModel) -> NameStatusModel {
    match r {
        Ok((p, o)) => Ok((paths + p, ops + o)),
        Err(m) => Err(m),
    }
}

pub open spec fn msg_non_utf8_status() -> Seq<char> {
    "git diff emitted non-UTF-8 status token"@
}

pub open spec fn msg_non_utf8_path() -> Seq<char> {
    "git diff emitted non-UTF-8 path token"@
}

pub open spec fn msg_empty_status() -> Seq<char> {
    "encountered empty git status token"@
}

pub open spec fn msg_truncated(status: Seq<char>) -> Seq<char> {
    "truncated git diff output after status '"@ + status + "'"@
}

pub open spec fn msg_unsupported(kind: char) -> Seq<char> {
    "unsupported git status '"@ + seq![kind] + "' in diff output"@
}

/// The meaning of a token stream of `git diff --name-status -z`: each status
/// token (`A`, `M`, `T`, `D` followed by one path; `R`, `C` followed by two)
/// is read in turn; the first malformed entry decides the error.
pub open spec fn name_status_model(tokens: Seq<Seq<u8>>) -> NameStatusModel
    decreases tokens.len(),
{
    if tokens.len() == 0 {
        Ok((Seq::empty(), Seq::empty()))
    } else if !valid_utf8(tokens[0]) {
        Err(msg_non_utf8_status())
    } else {
        let status = decode_utf8(tokens[0]);
        if status.len() == 0 {
            Err(msg_empty_status())
        } else {
            let k = status[0];
            if k == 'A' || k == 'M' || k == 'T' || k == 'D' {
                if tokens.len() < 2 {
                    Err(msg_truncated(status))
                } else if !valid_utf8(tokens[1]) {
                    Err(msg_non_utf8_path())
                } else {
                    let path = decode_utf8(tokens[1]);
                    let rest = name_status_model(tokens.skip(2));
                    if !is_spec_path(path) {
                        rest
                    } else if k == 'D' {
                        prepend(Seq::empty(), seq![OpModel::Deletion { path }], rest)
                    } else {
                        prepend(seq![path], Seq::empty(), rest)
                    }
                }
            } else if k == 'R' || k == 'C' {
                if tokens.len() < 2 {
                    Err(msg_truncated(status))
                } else if !valid_utf8(tokens[1]) {
                    Err(msg_non_utf8_path())
                } else if tokens.len() < 3 {
                    Err(msg_truncated(status))
                } else if !valid_utf8(tokens[2]) {
                    Err(msg_non_utf8_path())
                } else {
                    let from_path = decode_utf8(tokens[1]);
                    let to_path = decode_utf8(tokens[2]);
                    let rest = name_status_model(tokens.skip(3));
                    if is_spec_path(from_path) || is_spec_path(to_path) {
                        prepend(
                            Seq::empty(),
                            seq![
                                OpModel::RenameOrCopy {
                                    status,
                                    from_path,
                                    to_path,
                                    pairing: RenameCopySemanticPairing::Unassessed,
                                },
                            ],
                            rest,
                        )
                    } else {
                        rest
                    }
                }
            } else {
                Err(msg_unsupported(k))
            }
        }
    }
}

proof fn lemma_prepend_assoc(p1: Seq<Seq<char>>, o1: Seq<OpModel>, p2: Seq<Seq<char>>, o2: Seq<OpModel>, r: NameStatusModel)
    ensures
        prepend(p1, o1, prepend(p2, o2, r)) == prepend(p1 + p2, o1 + o2, r),
{
    match r {
        Ok((p, o)) => {
            assert(p1 + (p2 + p) =~= (p1 + p2) + p);
            assert(o1 + (o2 + o) =~= (o1 + o2) + o);
        },
        Err(_) => {},
    }
}

fn split_nul_tokens(raw: &[u8]) -> (r: Vec<Vec<u8>>)
    ensures
        r@.map_values(|t: Vec<u8>| t@) == nul_tokens(raw@),
{
    let n = raw.len();
    let mut out: Vec<Vec<u8>> = Vec::new();
    let mut pos: usize = 0;
    assert(raw@.skip(0) =~= raw@);
    while pos < n
        invariant
            n == raw@.len(),
            pos <= n,
            nul_tokens(raw@) == out@.map_values(|t: Vec<u8>| t@) + nul_tokens(raw@.skip(pos as int)),
        decreases n - pos,
    {
        let ghost rest = raw@.skip(pos as int);
        proof {
            lemma_nul_index(rest);
        }
        let mut j: usize = pos;
        while j < n && raw[j] != 0
            invariant
                n == raw@.len(),
                pos <= j <= n,
                rest == raw@.skip(pos as int),
                forall|k: int| pos <= k < j ==> raw@[k] != 0,
            decreases n - j,
        {
            j = j + 1;
        }
        let ghost before = out@.map_values(|t: Vec<u8>| t@);
        if j == n {
            assert forall|k: int| 0 <= k < rest.len() implies rest[k] != 0 by {
                assert(rest[k] == raw@[pos + k]);
            }
            proof {
                if nul_index(rest) >= 0 {
                    assert(rest[nul_index(rest)] == 0);
                }
            }
            assert(nul_tokens(rest) == seq![rest]);
            let tok = slice_to_vec(slice_subrange(raw, pos, n));
            assert(tok@ =~= rest);
            out.push(tok);
            assert(out@.map_values(|t: Vec<u8>| t@) =~= before.push(rest));
            assert(raw@.skip(n as int) =~= Seq::<u8>::empty());
            assert(nul_tokens(raw@) =~= out@.map_values(|t: Vec<u8>| t@) + nul_tokens(
                raw@.skip(n as int),
            ));
            pos = n;
        } else {
            let i = j - pos;
            assert(rest[i as int] == 0);
            assert forall|k: int| 0 <= k < i implies rest[k] != 0 by {
                assert(rest[k] == raw@[pos + k]);
            }
            assert(nul_index(rest) == i) by {
                if nul_index(rest) < i {
                    if nul_index(rest) >= 0 {
                        assert(rest[nul_index(rest)] == 0);
                    }
                }
            }
            assert(rest.skip(i + 1) =~= raw@.skip(j + 1));
            if i > 0 {
                let tok = slice_to_vec(slice_subrange(raw, pos, j));
                assert(tok@ =~= rest.take(i as int));
                out.push(tok);
                assert(out@.map_values(|t: Vec<u8>| t@) =~= before.push(rest.take(i as int)));
                assert(nul_tokens(rest) == seq![rest.take(i as int)] + nul_tokens(raw@.skip(j + 1)));
                assert(nul_tokens(raw@) =~= out@.map_values(|t: Vec<u8>| t@) + nul_tokens(
                    raw@.skip(j + 1),
                ));
            }
            pos = j + 1;
        }
    }
    assert(raw@.skip(pos as int) =~= Seq::<u8>::empty());
    assert(out@.map_values(|t: Vec<u8>| t@) + nul_tokens(raw@.skip(pos as int)) =~= out@.map_values(
        |t: Vec<u8>| t@,
    ));
    out
}

fn diff_error(message: String) -> (r: PolicyGitError)
    ensures
        r.code@ == "git.diff_parse_error"@,
        r.message@ == message@,
{
    let code: &'static str = "git.diff_parse_error";
    PolicyGitError::new(code, message)
}

fn truncated_error(status: &str) -> (r: PolicyGitError)
    ensures
        r.code@ == "git.diff_parse_error"@,
        r.message@ == msg_truncated(status@),
{
    let mut m = owned("truncated git diff output after status '");
    push_str(&mut m, status);
    push_str(&mut m, "'");
    diff_error(m)
}

/// Parses NUL-separated `git diff --name-status -z` output.
///
/// Added, modified and type-changed `.spec.yml` paths are collected (sorted,
/// without duplicates); deletions and renames/copies touching a `.spec.yml`
/// path become fail-closed operations, in order. Every error carries the code
/// `git.diff_parse_error`.
pub fn parse_name_status_z(raw: &[u8]) -> (r: Result<DiscoveredSpecFileChanges, PolicyGitError>)
    ensures
        r is Ok <==> name_status_model(nul_tokens(raw@)) is Ok,
        r matches Ok(d) ==> ({
            let m = name_status_model(nul_tokens(raw@))->Ok_0;
            &&& strictly_sorted(views(d.changed_spec_paths@))
            &&& views(d.changed_spec_paths@).to_set() == m.0.to_set()
            &&& op_models(d.fail_closed_operations@) == m.1
        }),
        r matches Err(e) ==> e.spec_code() == "git.diff_parse_error"@ && e.spec_message() == name_status_model(
            nul_tokens(raw@),
        )->Err_0,
{
    let tokens = split_nul_tokens(raw);
    let ghost toks = tokens@.map_values(|t: Vec<u8>| t@);
    let mut changed: Vec<String> = Vec::new();
    let mut ops: Vec<FailClosedSpecOperation> = Vec::new();
    let ghost mut paths: Seq<Seq<char>> = Seq::empty();
    let mut index: usize = 0;
    assert(toks.skip(0) =~= toks);
    assert(prepend(Seq::empty(), Seq::empty(), name_status_model(toks)) =~= name_status_model(toks)) by {
        match name_status_model(toks) {
            Ok((p, o)) => {
                assert(Seq::<Seq<char>>::empty() + p =~= p);
                assert(Seq::<OpModel>::empty() + o =~= o);
            },
            Err(_) => {},
        }
    };
    while index < tokens.len()
        invariant
            toks == tokens@.map_values(|t: Vec<u8>| t@),
            toks == nul_tokens(raw@),
            index <= tokens@.len(),
            name_status_model(toks) == prepend(paths, op_models(ops@), name_status_model(toks.skip(index as int))),
            strictly_sorted(views(changed@)),
            views(changed@).to_set() == paths.to_set(),
        decreases tokens@.len() - index,
    {
        let ghost rest = toks.skip(index as int);
        assert(rest[0] == tokens@[index as int]@);
        let status = match decode_utf8_bytes(tokens[index].as_slice()) {
            Some(s) => s,
            None => {
                return Err(diff_error(owned("git diff emitted non-UTF-8 status token")));
            },
        };
        let slen = status.as_str().unicode_len();
        if slen == 0 {
            return Err(diff_error(owned("encountered empty git status token")));
        }
        let k = status.as_str().get_char(0);
        let ghost ops_before = op_models(ops@);
        if k == 'A' || k == 'M' || k == 'T' || k == 'D' {
            if index + 1 >= tokens.len() {
                return Err(truncated_error(status.as_str()));
            }
            assert(rest[1] == tokens@[index + 1]@);
            let path = match decode_utf8_bytes(tokens[index + 1].as_slice()) {
                Some(p) => p,
                None => {
                    return Err(diff_error(owned("git diff emitted non-UTF-8 path token")));
                },
            };
            assert(rest.skip(2) =~= toks.skip(index + 2));
            let is_spec = str_ends_with(path.as_str(), ".spec.yml");
            if is_spec {
                if k == 'D' {
                    ops.push(FailClosedSpecOperation::Deletion { path });
                    assert(op_models(ops@) =~= ops_before + seq![OpModel::Deletion { path: path@ }]);
                    proof {
                        lemma_prepend_assoc(paths, ops_before, Seq::empty(), seq![OpModel::Deletion { path: path@ }], name_status_model(toks.skip(index + 2)));
                        assert(paths + Seq::<Seq<char>>::empty() =~= paths);
                    }
                } else {
                    let ghost pv = path@;
                    set_insert(&mut changed, path);
                    proof {
                        lemma_prepend_assoc(paths, ops_before, seq![pv], Seq::empty(), name_status_model(toks.skip(index + 2)));
                        assert(ops_before + Seq::<OpModel>::empty() =~= ops_before);
                        assert((paths + seq![pv]).to_set() =~= paths.to_set().insert(pv)) by {
                            let q = paths + seq![pv];
                            assert forall|x: Seq<char>| q.contains(x) implies paths.to_set().insert(pv).contains(x) by {
                                let j = choose|j: int| 0 <= j < q.len() && q[j] == x;
                                if j < paths.len() {
                                    assert(paths[j] == x);
                                }
                            }
                            assert forall|x: Seq<char>| paths.to_set().insert(pv).contains(x) implies q.contains(x) by {
                                if x == pv {
                                    assert(q[paths.len() as int] == x);
                                } else {
                                    let j = choose|j: int| 0 <= j < paths.len() && paths[j] == x;
                                    assert(q[j] == x);
                                }
                            }
                        }
                        paths = paths + seq![pv];
                    }
                }
            }
            index = index + 2;
        } else if k == 'R' || k == 'C' {
            if index + 1 >= tokens.len() {
                return Err(truncated_error(status.as_str()));
            }
            assert(rest[1] == tokens@[index + 1]@);
            let from_path = match decode_utf8_bytes(tokens[index + 1].as_slice()) {
                Some(p) => p,
                None => {
                    return Err(diff_error(owned("git diff emitted non-UTF-8 path token")));
                },
            };
            if index + 2 >= tokens.len() {
                return Err(truncated_error(status.as_str()));
            }
            assert(rest[2] == tokens@[index + 2]@);
            let to_path = match decode_utf8_bytes(tokens[index + 2].as_slice()) {
                Some(p) => p,
                None => {
                    return Err(diff_error(owned("git diff emitted non-UTF-8 path token")));
                },
            };
            assert(rest.skip(3) =~= toks.skip(index + 3));
            let spec_from = str_ends_with(from_path.as_str(), ".spec.yml");
            let spec_to = str_ends_with(to_path.as_str(), ".spec.yml");
            if spec_from || spec_to {
                let ghost m = OpModel::RenameOrCopy {
                    status: status@,
                    from_path: from_path@,
                    to_path: to_path@,
                    pairing: RenameCopySemanticPairing::Unassessed,
                };
                ops.push(
                    FailClosedSpecOperation::RenameOrCopy {
                        status,
                        from_path,
                        to_path,
                        semantic_pairing: RenameCopySemanticPairing::Unassessed,
                    },
                );
                assert(op_models(ops@) =~= ops_before + seq![m]);
                proof {
                    lemma_prepend_assoc(paths, ops_before, Seq::empty(), seq![m], name_status_model(toks.skip(index + 3)));
                    assert(paths + Seq::<Seq<char>>::empty() =~= paths);
                }
            }
            index = index + 3;
        } else {
            let mut m = owned("unsupported git status '");
            push_char(&mut m, k);
            push_str(&mut m, "' in diff output");
            return Err(diff_error(m));
        }
    }
    assert(toks.skip(index as int) =~= Seq::<Seq<u8>>::empty());
    let result = DiscoveredSpecFileChanges { changed_spec_paths: changed, fail_closed_operations: ops };
    assert(op_models(ops@) + Seq::<OpModel>::empty() =~= op_models(ops@));
    assert(paths + Seq::<Seq<char>>::empty() =~= paths);
    Ok(result)
}

} // verus!
