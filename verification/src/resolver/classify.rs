//! Classification of import specifiers and resolved paths.
use vstd::prelude::*;

use super::ResolvedImport;
use crate::paths::{components, path_components, path_starts_with, starts_with_path, strings_contain};
use crate::text::{
    has_prefix, index_of, lemma_index_of, owned, slice_chars, str_eq, str_starts_with, views,
};

verus! {

/// The Node.js builtin module names (current stable builtins plus long-standing
/// internal aliases that may appear in dependency graphs).
pub open spec fn is_builtin_name(name: Seq<char>) -> bool {
    ||| name == "_http_agent"@
    ||| name == "_http_client"@
    ||| name == "_http_common"@
    ||| name == "_http_incoming"@
    ||| name == "_http_outgoing"@
    ||| name == "_http_server"@
    ||| name == "_stream_duplex"@
    ||| name == "_stream_passthrough"@
    ||| name == "_stream_readable"@
    ||| name == "_stream_transform"@
    ||| name == "_stream_wrap"@
    ||| name == "_stream_writable"@
    ||| name == "_tls_common"@
    ||| name == "_tls_wrap"@
    ||| name == "assert"@
    ||| name == "async_hooks"@
    ||| name == "buffer"@
    ||| name == "child_process"@
    ||| name == "cluster"@
    ||| name == "console"@
    ||| name == "constants"@
    ||| name == "crypto"@
    ||| name == "dgram"@
    ||| name == "diagnostics_channel"@
    ||| name == "dns"@
    ||| name == "domain"@
    ||| name == "events"@
    ||| name == "fs"@
    ||| name == "http"@
    ||| name == "http2"@
    ||| name == "https"@
    ||| name == "inspector"@
    ||| name == "module"@
    ||| name == "net"@
    ||| name == "os"@
    ||| name == "path"@
    ||| name == "perf_hooks"@
    ||| name == "process"@
    ||| name == "punycode"@
    ||| name == "querystring"@
    ||| name == "readline"@
    ||| name == "repl"@
    ||| name == "sea"@
    ||| name == "sqlite"@
    ||| name == "stream"@
    ||| name == "string_decoder"@
    ||| name == "sys"@
    ||| name == "test"@
    ||| name == "timers"@
    ||| name == "tls"@
    ||| name == "trace_events"@
    ||| name == "tty"@
    ||| name == "url"@
    ||| name == "util"@
    ||| name == "v8"@
    ||| name == "vm"@
    ||| name == "wasi"@
    ||| name == "worker_threads"@
    ||| name == "zlib"@
}

fn is_builtin_exact(name: &str) -> (r: bool)
    ensures
        r == is_builtin_name(name@),
{
    str_eq(name, "_http_agent")
        || str_eq(name, "_http_client")
        || str_eq(name, "_http_common")
        || str_eq(name, "_http_incoming")
        || str_eq(name, "_http_outgoing")
        || str_eq(name, "_http_server")
        || str_eq(name, "_stream_duplex")
        || str_eq(name, "_stream_passthrough")
        || str_eq(name, "_stream_readable")
        || str_eq(name, "_stream_transform")
        || str_eq(name, "_stream_wrap")
        || str_eq(name, "_stream_writable")
        || str_eq(name, "_tls_common")
        || str_eq(name, "_tls_wrap")
        || str_eq(name, "assert")
        || str_eq(name, "async_hooks")
        || str_eq(name, "buffer")
        || str_eq(name, "child_process")
        || str_eq(name, "cluster")
        || str_eq(name, "console")
        || str_eq(name, "constants")
        || str_eq(name, "crypto")
        || str_eq(name, "dgram")
        || str_eq(name, "diagnostics_channel")
        || str_eq(name, "dns")
        || str_eq(name, "domain")
        || str_eq(name, "events")
        || str_eq(name, "fs")
        || str_eq(name, "http")
        || str_eq(name, "http2")
        || str_eq(name, "https")
        || str_eq(name, "inspector")
        || str_eq(name, "module")
        || str_eq(name, "net")
        || str_eq(name, "os")
        || str_eq(name, "path")
        || str_eq(name, "perf_hooks")
        || str_eq(name, "process")
        || str_eq(name, "punycode")
        || str_eq(name, "querystring")
        || str_eq(name, "readline")
        || str_eq(name, "repl")
        || str_eq(name, "sea")
        || str_eq(name, "sqlite")
        || str_eq(name, "stream")
        || str_eq(name, "string_decoder")
        || str_eq(name, "sys")
        || str_eq(name, "test")
        || str_eq(name, "timers")
        || str_eq(name, "tls")
        || str_eq(name, "trace_events")
        || str_eq(name, "tty")
        || str_eq(name, "url")
        || str_eq(name, "util")
        || str_eq(name, "v8")
        || str_eq(name, "vm")
        || str_eq(name, "wasi")
        || str_eq(name, "worker_threads")
        || str_eq(name, "zlib")
}

/// The specifier with a leading `node:` removed, if present.
pub open spec fn without_node_prefix(s: Seq<char>) -> Seq<char> {
    if has_prefix(s, "node:"@) {
        s.skip("node:"@.len() as int)
    } else {
        s
    }
}

/// The part of `s` before the first `/` (all of `s` when there is none).
pub open spec fn before_slash(s: Seq<char>) -> Seq<char> {
    let i = index_of(s, '/');
    if i < 0 { s } else { s.take(i) }
}

/// A builtin name, possibly followed by a subpath (`fs/promises`).
pub open spec fn is_builtin_with_subpath(name: Seq<char>) -> bool {
    is_builtin_name(before_slash(name))
}

/// Bare (`fs`) or explicit (`node:fs/promises`) reference to a builtin.
pub open spec fn spec_is_node_builtin(specifier: Seq<char>) -> bool {
    is_builtin_with_subpath(without_node_prefix(specifier))
}

/// Reference to a builtin through the explicit `node:` prefix.
pub open spec fn spec_is_explicit_node_builtin(specifier: Seq<char>) -> bool {
    has_prefix(specifier, "node:"@) && is_builtin_with_subpath(without_node_prefix(specifier))
}

/// npm package name of a bare specifier: `@scope/pkg/sub` gives `@scope/pkg`,
/// `lodash/fp` gives `lodash`; a `node:` prefix is dropped first.
pub open spec fn package_name_of(specifier: Seq<char>) -> Seq<char> {
    let w = without_node_prefix(specifier);
    if w.len() > 0 && w[0] == '@' {
        let first = index_of(w, '/');
        if first < 0 {
            w
        } else {
            let second = index_of(w.skip(first + 1), '/');
            if second < 0 {
                w
            } else {
                w.take(first + 1 + second)
            }
        }
    } else {
        before_slash(w)
    }
}

/// Some component of the path is exactly `node_modules`.
pub open spec fn spec_in_node_modules(path: Seq<char>) -> bool {
    path_components(path).contains("node_modules"@)
}

fn strip_node_prefix(specifier: &str) -> (r: &str)
    ensures
        r@ == without_node_prefix(specifier@),
{
    if str_starts_with(specifier, "node:") {
        let n = specifier.unicode_len();
        let k = "node:".unicode_len();
        slice_chars(specifier, k, n)
    } else {
        specifier
    }
}

fn before_first_slash(s: &str) -> (r: &str)
    ensures
        r@ == before_slash(s@),
{
    proof {
        lemma_index_of(s@, '/');
    }
    match crate::text::find_char(s, '/') {
        Some(i) => slice_chars(s, 0, i),
        None => s,
    }
}

fn is_node_builtin_name(name: &str) -> (r: bool)
    ensures
        r == is_builtin_with_subpath(name@),
{
    is_builtin_exact(before_first_slash(name))
}

/// Check whether the specifier references a Node.js builtin module.
///
/// Accepts both bare (`fs`) and explicit `node:` (`node:fs/promises`) forms.
pub fn is_node_builtin(specifier: &str) -> (r: bool)
    ensures
        r == spec_is_node_builtin(specifier@),
{
    is_node_builtin_name(strip_node_prefix(specifier))
}

/// Check whether the specifier explicitly references a builtin with `node:` prefix.
pub fn is_explicit_node_builtin(specifier: &str) -> (r: bool)
    ensures
        r == spec_is_explicit_node_builtin(specifier@),
{
    if str_starts_with(specifier, "node:") {
        is_node_builtin_name(strip_node_prefix(specifier))
    } else {
        false
    }
}

/// Extract npm package name from a bare package specifier.
///
/// - `@scope/pkg/sub/path` -> `@scope/pkg`
/// - `lodash/fp` -> `lodash`
pub fn extract_package_name(specifier: &str) -> (r: &str)
    ensures
        r@ == package_name_of(specifier@),
{
    let w = strip_node_prefix(specifier);
    let n = w.unicode_len();
    if n > 0 && w.get_char(0) == '@' {
        proof {
            lemma_index_of(w@, '/');
        }
        match crate::text::find_char(w, '/') {
            None => w,
            Some(first) => {
                let rest = slice_chars(w, first + 1, n);
                assert(rest@ =~= w@.skip(first + 1));
                proof {
                    lemma_index_of(rest@, '/');
                }
                match crate::text::find_char(rest, '/') {
                    None => w,
                    Some(second) => slice_chars(w, 0, first + 1 + second),
                }
            },
        }
    } else {
        before_first_slash(w)
    }
}

fn is_in_node_modules(path: &str) -> (r: bool)
    ensures
        r == spec_in_node_modules(path@),
{
    let parts = components(path);
    strings_contain(&parts, "node_modules")
}

/// Classify a resolved path as first-party, third-party, or unresolvable.
///
/// An explicit `node:` builtin or a path with a `node_modules` component is
/// third-party (named by its package); otherwise a path under the project
/// root is first-party; anything else is unresolvable.
pub fn classify_resolution(project_root: &str, resolved_path: &str, specifier: &str) -> (r:
    ResolvedImport)
    ensures
        spec_is_explicit_node_builtin(specifier@) || spec_in_node_modules(resolved_path@)
            ==> (r matches ResolvedImport::ThirdParty { package_name } && package_name@
            == package_name_of(specifier@)),
        !spec_is_explicit_node_builtin(specifier@) && !spec_in_node_modules(resolved_path@)
            && path_starts_with(resolved_path@, project_root@) ==> (r matches
            ResolvedImport::FirstParty { resolved_path: p, module_id } && p@ == resolved_path@
            && module_id is None),
        !spec_is_explicit_node_builtin(specifier@) && !spec_in_node_modules(resolved_path@)
            && !path_starts_with(resolved_path@, project_root@) ==> (r matches
            ResolvedImport::Unresolvable { specifier: s, reason } && s@ == specifier@ && reason@
            == "resolved path is outside project root"@),
{
    if is_explicit_node_builtin(specifier) {
        return ResolvedImport::ThirdParty { package_name: owned(extract_package_name(specifier)) };
    }
    if is_in_node_modules(resolved_path) {
        return ResolvedImport::ThirdParty { package_name: owned(extract_package_name(specifier)) };
    }
    if starts_with_path(resolved_path, project_root) {
        return ResolvedImport::FirstParty { resolved_path: owned(resolved_path), module_id: None };
    }
    ResolvedImport::Unresolvable {
        specifier: owned(specifier),
        reason: owned("resolved path is outside project root"),
    }
}

} // verus!

verus! {

/// Bare or `node:`-prefixed, a name without `/` refers to a builtin exactly
/// when it is one of the builtin names.
pub proof fn lemma_builtin_reference(name: Seq<char>)
    requires
        !name.contains('/'),
    ensures
        spec_is_explicit_node_builtin("node:"@ + name) == is_builtin_name(name),
        spec_is_node_builtin("node:"@ + name) == is_builtin_name(name),
        !has_prefix(name, "node:"@) ==> spec_is_node_builtin(name) == is_builtin_name(name),
{
    reveal_strlit("node:");
    let s = "node:"@ + name;
    assert(s.subrange(0, 5) =~= "node:"@);
    assert(s.skip(5) =~= name);
    lemma_index_of(name, '/');
}

/// Node's builtin modules `_http_agent`, `_http_client`, `_http_common`, `_http_incoming`, `_http_outgoing`, `_http_server`, `_stream_duplex`, `_stream_passthrough` are builtins, bare and
/// with the `node:` prefix.
pub proof fn law_node_builtins_1()
    ensures
        spec_is_node_builtin("_http_agent"@),
        spec_is_explicit_node_builtin("node:"@ + "_http_agent"@),
        spec_is_node_builtin("_http_client"@),
        spec_is_explicit_node_builtin("node:"@ + "_http_client"@),
        spec_is_node_builtin("_http_common"@),
        spec_is_explicit_node_builtin("node:"@ + "_http_common"@),
        spec_is_node_builtin("_http_incoming"@),
        spec_is_explicit_node_builtin("node:"@ + "_http_incoming"@),
        spec_is_node_builtin("_http_outgoing"@),
        spec_is_explicit_node_builtin("node:"@ + "_http_outgoing"@),
        spec_is_node_builtin("_http_server"@),
        spec_is_explicit_node_builtin("node:"@ + "_http_server"@),
        spec_is_node_builtin("_stream_duplex"@),
        spec_is_explicit_node_builtin("node:"@ + "_stream_duplex"@),
        spec_is_node_builtin("_stream_passthrough"@),
        spec_is_explicit_node_builtin("node:"@ + "_stream_passthrough"@),
{
    reveal_strlit("node:");
    reveal_strlit("_http_agent");
    assert(!"_http_agent"@.contains('/'));
    if "_http_agent"@.len() >= 5 {
        assert("_http_agent"@.subrange(0, 5)[0] == "_http_agent"@[0]);
        assert("_http_agent"@.subrange(0, 5)[1] == "_http_agent"@[1]);
    }
    lemma_builtin_reference("_http_agent"@);
    reveal_strlit("_http_client");
    assert(!"_http_client"@.contains('/'));
    if "_http_client"@.len() >= 5 {
        assert("_http_client"@.subrange(0, 5)[0] == "_http_client"@[0]);
        assert("_http_client"@.subrange(0, 5)[1] == "_http_client"@[1]);
    }
    lemma_builtin_reference("_http_client"@);
    reveal_strlit("_http_common");
    assert(!"_http_common"@.contains('/'));
    if "_http_common"@.len() >= 5 {
        assert("_http_common"@.subrange(0, 5)[0] == "_http_common"@[0]);
        assert("_http_common"@.subrange(0, 5)[1] == "_http_common"@[1]);
    }
    lemma_builtin_reference("_http_common"@);
    reveal_strlit("_http_incoming");
    assert(!"_http_incoming"@.contains('/'));
    if "_http_incoming"@.len() >= 5 {
        assert("_http_incoming"@.subrange(0, 5)[0] == "_http_incoming"@[0]);
        assert("_http_incoming"@.subrange(0, 5)[1] == "_http_incoming"@[1]);
    }
    lemma_builtin_reference("_http_incoming"@);
    reveal_strlit("_http_outgoing");
    assert(!"_http_outgoing"@.contains('/'));
    if "_http_outgoing"@.len() >= 5 {
        assert("_http_outgoing"@.subrange(0, 5)[0] == "_http_outgoing"@[0]);
        assert("_http_outgoing"@.subrange(0, 5)[1] == "_http_outgoing"@[1]);
    }
    lemma_builtin_reference("_http_outgoing"@);
    reveal_strlit("_http_server");
    assert(!"_http_server"@.contains('/'));
    if "_http_server"@.len() >= 5 {
        assert("_http_server"@.subrange(0, 5)[0] == "_http_server"@[0]);
        assert("_http_server"@.subrange(0, 5)[1] == "_http_server"@[1]);
    }
    lemma_builtin_reference("_http_server"@);
    reveal_strlit("_stream_duplex");
    assert(!"_stream_duplex"@.contains('/'));
    if "_stream_duplex"@.len() >= 5 {
        assert("_stream_duplex"@.subrange(0, 5)[0] == "_stream_duplex"@[0]);
        assert("_stream_duplex"@.subrange(0, 5)[1] == "_stream_duplex"@[1]);
    }
    lemma_builtin_reference("_stream_duplex"@);
    reveal_strlit("_stream_passthrough");
    assert(!"_stream_passthrough"@.contains('/'));
    if "_stream_passthrough"@.len() >= 5 {
        assert("_stream_passthrough"@.subrange(0, 5)[0] == "_stream_passthrough"@[0]);
        assert("_stream_passthrough"@.subrange(0, 5)[1] == "_stream_passthrough"@[1]);
    }
    lemma_builtin_reference("_stream_passthrough"@);
}

/// Node's builtin modules `_stream_readable`, `_stream_transform`, `_stream_wrap`, `_stream_writable`, `_tls_common`, `_tls_wrap`, `assert`, `async_hooks` are builtins, bare and
/// with the `node:` prefix.
pub proof fn law_node_builtins_2()
    ensures
        spec_is_node_builtin("_stream_readable"@),
        spec_is_explicit_node_builtin("node:"@ + "_stream_readable"@),
        spec_is_node_builtin("_stream_transform"@),
        spec_is_explicit_node_builtin("node:"@ + "_stream_transform"@),
        spec_is_node_builtin("_stream_wrap"@),
        spec_is_explicit_node_builtin("node:"@ + "_stream_wrap"@),
        spec_is_node_builtin("_stream_writable"@),
        spec_is_explicit_node_builtin("node:"@ + "_stream_writable"@),
        spec_is_node_builtin("_tls_common"@),
        spec_is_explicit_node_builtin("node:"@ + "_tls_common"@),
        spec_is_node_builtin("_tls_wrap"@),
        spec_is_explicit_node_builtin("node:"@ + "_tls_wrap"@),
        spec_is_node_builtin("assert"@),
        spec_is_explicit_node_builtin("node:"@ + "assert"@),
        spec_is_node_builtin("async_hooks"@),
        spec_is_explicit_node_builtin("node:"@ + "async_hooks"@),
{
    reveal_strlit("node:");
    reveal_strlit("_stream_readable");
    assert(!"_stream_readable"@.contains('/'));
    if "_stream_readable"@.len() >= 5 {
        assert("_stream_readable"@.subrange(0, 5)[0] == "_stream_readable"@[0]);
        assert("_stream_readable"@.subrange(0, 5)[1] == "_stream_readable"@[1]);
    }
    lemma_builtin_reference("_stream_readable"@);
    reveal_strlit("_stream_transform");
    assert(!"_stream_transform"@.contains('/'));
    if "_stream_transform"@.len() >= 5 {
        assert("_stream_transform"@.subrange(0, 5)[0] == "_stream_transform"@[0]);
        assert("_stream_transform"@.subrange(0, 5)[1] == "_stream_transform"@[1]);
    }
    lemma_builtin_reference("_stream_transform"@);
    reveal_strlit("_stream_wrap");
    assert(!"_stream_wrap"@.contains('/'));
    if "_stream_wrap"@.len() >= 5 {
        assert("_stream_wrap"@.subrange(0, 5)[0] == "_stream_wrap"@[0]);
        assert("_stream_wrap"@.subrange(0, 5)[1] == "_stream_wrap"@[1]);
    }
    lemma_builtin_reference("_stream_wrap"@);
    reveal_strlit("_stream_writable");
    assert(!"_stream_writable"@.contains('/'));
    if "_stream_writable"@.len() >= 5 {
        assert("_stream_writable"@.subrange(0, 5)[0] == "_stream_writable"@[0]);
        assert("_stream_writable"@.subrange(0, 5)[1] == "_stream_writable"@[1]);
    }
    lemma_builtin_reference("_stream_writable"@);
    reveal_strlit("_tls_common");
    assert(!"_tls_common"@.contains('/'));
    if "_tls_common"@.len() >= 5 {
        assert("_tls_common"@.subrange(0, 5)[0] == "_tls_common"@[0]);
        assert("_tls_common"@.subrange(0, 5)[1] == "_tls_common"@[1]);
    }
    lemma_builtin_reference("_tls_common"@);
    reveal_strlit("_tls_wrap");
    assert(!"_tls_wrap"@.contains('/'));
    if "_tls_wrap"@.len() >= 5 {
        assert("_tls_wrap"@.subrange(0, 5)[0] == "_tls_wrap"@[0]);
        assert("_tls_wrap"@.subrange(0, 5)[1] == "_tls_wrap"@[1]);
    }
    lemma_builtin_reference("_tls_wrap"@);
    reveal_strlit("assert");
    assert(!"assert"@.contains('/'));
    if "assert"@.len() >= 5 {
        assert("assert"@.subrange(0, 5)[0] == "assert"@[0]);
        assert("assert"@.subrange(0, 5)[1] == "assert"@[1]);
    }
    lemma_builtin_reference("assert"@);
    reveal_strlit("async_hooks");
    assert(!"async_hooks"@.contains('/'));
    if "async_hooks"@.len() >= 5 {
        assert("async_hooks"@.subrange(0, 5)[0] == "async_hooks"@[0]);
        assert("async_hooks"@.subrange(0, 5)[1] == "async_hooks"@[1]);
    }
    lemma_builtin_reference("async_hooks"@);
}

/// Node's builtin modules `buffer`, `child_process`, `cluster`, `console`, `constants`, `crypto`, `dgram`, `diagnostics_channel` are builtins, bare and
/// with the `node:` prefix.
pub proof fn law_node_builtins_3()
    ensures
        spec_is_node_builtin("buffer"@),
        spec_is_explicit_node_builtin("node:"@ + "buffer"@),
        spec_is_node_builtin("child_process"@),
        spec_is_explicit_node_builtin("node:"@ + "child_process"@),
        spec_is_node_builtin("cluster"@),
        spec_is_explicit_node_builtin("node:"@ + "cluster"@),
        spec_is_node_builtin("console"@),
        spec_is_explicit_node_builtin("node:"@ + "console"@),
        spec_is_node_builtin("constants"@),
        spec_is_explicit_node_builtin("node:"@ + "constants"@),
        spec_is_node_builtin("crypto"@),
        spec_is_explicit_node_builtin("node:"@ + "crypto"@),
        spec_is_node_builtin("dgram"@),
        spec_is_explicit_node_builtin("node:"@ + "dgram"@),
        spec_is_node_builtin("diagnostics_channel"@),
        spec_is_explicit_node_builtin("node:"@ + "diagnostics_channel"@),
{
    reveal_strlit("node:");
    reveal_strlit("buffer");
    assert(!"buffer"@.contains('/'));
    if "buffer"@.len() >= 5 {
        assert("buffer"@.subrange(0, 5)[0] == "buffer"@[0]);
        assert("buffer"@.subrange(0, 5)[1] == "buffer"@[1]);
    }
    lemma_builtin_reference("buffer"@);
    reveal_strlit("child_process");
    assert(!"child_process"@.contains('/'));
    if "child_process"@.len() >= 5 {
        assert("child_process"@.subrange(0, 5)[0] == "child_process"@[0]);
        assert("child_process"@.subrange(0, 5)[1] == "child_process"@[1]);
    }
    lemma_builtin_reference("child_process"@);
    reveal_strlit("cluster");
    assert(!"cluster"@.contains('/'));
    if "cluster"@.len() >= 5 {
        assert("cluster"@.subrange(0, 5)[0] == "cluster"@[0]);
        assert("cluster"@.subrange(0, 5)[1] == "cluster"@[1]);
    }
    lemma_builtin_reference("cluster"@);
    reveal_strlit("console");
    assert(!"console"@.contains('/'));
    if "console"@.len() >= 5 {
        assert("console"@.subrange(0, 5)[0] == "console"@[0]);
        assert("console"@.subrange(0, 5)[1] == "console"@[1]);
    }
    lemma_builtin_reference("console"@);
    reveal_strlit("constants");
    assert(!"constants"@.contains('/'));
    if "constants"@.len() >= 5 {
        assert("constants"@.subrange(0, 5)[0] == "constants"@[0]);
        assert("constants"@.subrange(0, 5)[1] == "constants"@[1]);
    }
    lemma_builtin_reference("constants"@);
    reveal_strlit("crypto");
    assert(!"crypto"@.contains('/'));
    if "crypto"@.len() >= 5 {
        assert("crypto"@.subrange(0, 5)[0] == "crypto"@[0]);
        assert("crypto"@.subrange(0, 5)[1] == "crypto"@[1]);
    }
    lemma_builtin_reference("crypto"@);
    reveal_strlit("dgram");
    assert(!"dgram"@.contains('/'));
    if "dgram"@.len() >= 5 {
        assert("dgram"@.subrange(0, 5)[0] == "dgram"@[0]);
        assert("dgram"@.subrange(0, 5)[1] == "dgram"@[1]);
    }
    lemma_builtin_reference("dgram"@);
    reveal_strlit("diagnostics_channel");
    assert(!"diagnostics_channel"@.contains('/'));
    if "diagnostics_channel"@.len() >= 5 {
        assert("diagnostics_channel"@.subrange(0, 5)[0] == "diagnostics_channel"@[0]);
        assert("diagnostics_channel"@.subrange(0, 5)[1] == "diagnostics_channel"@[1]);
    }
    lemma_builtin_reference("diagnostics_channel"@);
}

/// Node's builtin modules `dns`, `domain`, `events`, `fs`, `http`, `http2`, `https`, `inspector` are builtins, bare and
/// with the `node:` prefix.
pub proof fn law_node_builtins_4()
    ensures
        spec_is_node_builtin("dns"@),
        spec_is_explicit_node_builtin("node:"@ + "dns"@),
        spec_is_node_builtin("domain"@),
        spec_is_explicit_node_builtin("node:"@ + "domain"@),
        spec_is_node_builtin("events"@),
        spec_is_explicit_node_builtin("node:"@ + "events"@),
        spec_is_node_builtin("fs"@),
        spec_is_explicit_node_builtin("node:"@ + "fs"@),
        spec_is_node_builtin("http"@),
        spec_is_explicit_node_builtin("node:"@ + "http"@),
        spec_is_node_builtin("http2"@),
        spec_is_explicit_node_builtin("node:"@ + "http2"@),
        spec_is_node_builtin("https"@),
        spec_is_explicit_node_builtin("node:"@ + "https"@),
        spec_is_node_builtin("inspector"@),
        spec_is_explicit_node_builtin("node:"@ + "inspector"@),
{
    reveal_strlit("node:");
    reveal_strlit("dns");
    assert(!"dns"@.contains('/'));
    if "dns"@.len() >= 5 {
        assert("dns"@.subrange(0, 5)[0] == "dns"@[0]);
        assert("dns"@.subrange(0, 5)[1] == "dns"@[1]);
    }
    lemma_builtin_reference("dns"@);
    reveal_strlit("domain");
    assert(!"domain"@.contains('/'));
    if "domain"@.len() >= 5 {
        assert("domain"@.subrange(0, 5)[0] == "domain"@[0]);
        assert("domain"@.subrange(0, 5)[1] == "domain"@[1]);
    }
    lemma_builtin_reference("domain"@);
    reveal_strlit("events");
    assert(!"events"@.contains('/'));
    if "events"@.len() >= 5 {
        assert("events"@.subrange(0, 5)[0] == "events"@[0]);
        assert("events"@.subrange(0, 5)[1] == "events"@[1]);
    }
    lemma_builtin_reference("events"@);
    reveal_strlit("fs");
    assert(!"fs"@.contains('/'));
    if "fs"@.len() >= 5 {
        assert("fs"@.subrange(0, 5)[0] == "fs"@[0]);
        assert("fs"@.subrange(0, 5)[1] == "fs"@[1]);
    }
    lemma_builtin_reference("fs"@);
    reveal_strlit("http");
    assert(!"http"@.contains('/'));
    if "http"@.len() >= 5 {
        assert("http"@.subrange(0, 5)[0] == "http"@[0]);
        assert("http"@.subrange(0, 5)[1] == "http"@[1]);
    }
    lemma_builtin_reference("http"@);
    reveal_strlit("http2");
    assert(!"http2"@.contains('/'));
    if "http2"@.len() >= 5 {
        assert("http2"@.subrange(0, 5)[0] == "http2"@[0]);
        assert("http2"@.subrange(0, 5)[1] == "http2"@[1]);
    }
    lemma_builtin_reference("http2"@);
    reveal_strlit("https");
    assert(!"https"@.contains('/'));
    if "https"@.len() >= 5 {
        assert("https"@.subrange(0, 5)[0] == "https"@[0]);
        assert("https"@.subrange(0, 5)[1] == "https"@[1]);
    }
    lemma_builtin_reference("https"@);
    reveal_strlit("inspector");
    assert(!"inspector"@.contains('/'));
    if "inspector"@.len() >= 5 {
        assert("inspector"@.subrange(0, 5)[0] == "inspector"@[0]);
        assert("inspector"@.subrange(0, 5)[1] == "inspector"@[1]);
    }
    lemma_builtin_reference("inspector"@);
}

/// Node's builtin modules `module`, `net`, `os`, `path`, `perf_hooks`, `process`, `punycode`, `querystring` are builtins, bare and
/// with the `node:` prefix.
pub proof fn law_node_builtins_5()
    ensures
        spec_is_node_builtin("module"@),
        spec_is_explicit_node_builtin("node:"@ + "module"@),
        spec_is_node_builtin("net"@),
        spec_is_explicit_node_builtin("node:"@ + "net"@),
        spec_is_node_builtin("os"@),
        spec_is_explicit_node_builtin("node:"@ + "os"@),
        spec_is_node_builtin("path"@),
        spec_is_explicit_node_builtin("node:"@ + "path"@),
        spec_is_node_builtin("perf_hooks"@),
        spec_is_explicit_node_builtin("node:"@ + "perf_hooks"@),
        spec_is_node_builtin("process"@),
        spec_is_explicit_node_builtin("node:"@ + "process"@),
        spec_is_node_builtin("punycode"@),
        spec_is_explicit_node_builtin("node:"@ + "punycode"@),
        spec_is_node_builtin("querystring"@),
        spec_is_explicit_node_builtin("node:"@ + "querystring"@),
{
    reveal_strlit("node:");
    reveal_strlit("module");
    assert(!"module"@.contains('/'));
    if "module"@.len() >= 5 {
        assert("module"@.subrange(0, 5)[0] == "module"@[0]);
        assert("module"@.subrange(0, 5)[1] == "module"@[1]);
    }
    lemma_builtin_reference("module"@);
    reveal_strlit("net");
    assert(!"net"@.contains('/'));
    if "net"@.len() >= 5 {
        assert("net"@.subrange(0, 5)[0] == "net"@[0]);
        assert("net"@.subrange(0, 5)[1] == "net"@[1]);
    }
    lemma_builtin_reference("net"@);
    reveal_strlit("os");
    assert(!"os"@.contains('/'));
    if "os"@.len() >= 5 {
        assert("os"@.subrange(0, 5)[0] == "os"@[0]);
        assert("os"@.subrange(0, 5)[1] == "os"@[1]);
    }
    lemma_builtin_reference("os"@);
    reveal_strlit("path");
    assert(!"path"@.contains('/'));
    if "path"@.len() >= 5 {
        assert("path"@.subrange(0, 5)[0] == "path"@[0]);
        assert("path"@.subrange(0, 5)[1] == "path"@[1]);
    }
    lemma_builtin_reference("path"@);
    reveal_strlit("perf_hooks");
    assert(!"perf_hooks"@.contains('/'));
    if "perf_hooks"@.len() >= 5 {
        assert("perf_hooks"@.subrange(0, 5)[0] == "perf_hooks"@[0]);
        assert("perf_hooks"@.subrange(0, 5)[1] == "perf_hooks"@[1]);
    }
    lemma_builtin_reference("perf_hooks"@);
    reveal_strlit("process");
    assert(!"process"@.contains('/'));
    if "process"@.len() >= 5 {
        assert("process"@.subrange(0, 5)[0] == "process"@[0]);
        assert("process"@.subrange(0, 5)[1] == "process"@[1]);
    }
    lemma_builtin_reference("process"@);
    reveal_strlit("punycode");
    assert(!"punycode"@.contains('/'));
    if "punycode"@.len() >= 5 {
        assert("punycode"@.subrange(0, 5)[0] == "punycode"@[0]);
        assert("punycode"@.subrange(0, 5)[1] == "punycode"@[1]);
    }
    lemma_builtin_reference("punycode"@);
    reveal_strlit("querystring");
    assert(!"querystring"@.contains('/'));
    if "querystring"@.len() >= 5 {
        assert("querystring"@.subrange(0, 5)[0] == "querystring"@[0]);
        assert("querystring"@.subrange(0, 5)[1] == "querystring"@[1]);
    }
    lemma_builtin_reference("querystring"@);
}

/// Node's builtin modules `readline`, `repl`, `sea`, `sqlite`, `stream`, `string_decoder`, `sys`, `test` are builtins, bare and
/// with the `node:` prefix.
pub proof fn law_node_builtins_6()
    ensures
        spec_is_node_builtin("readline"@),
        spec_is_explicit_node_builtin("node:"@ + "readline"@),
        spec_is_node_builtin("repl"@),
        spec_is_explicit_node_builtin("node:"@ + "repl"@),
        spec_is_node_builtin("sea"@),
        spec_is_explicit_node_builtin("node:"@ + "sea"@),
        spec_is_node_builtin("sqlite"@),
        spec_is_explicit_node_builtin("node:"@ + "sqlite"@),
        spec_is_node_builtin("stream"@),
        spec_is_explicit_node_builtin("node:"@ + "stream"@),
        spec_is_node_builtin("string_decoder"@),
        spec_is_explicit_node_builtin("node:"@ + "string_decoder"@),
        spec_is_node_builtin("sys"@),
        spec_is_explicit_node_builtin("node:"@ + "sys"@),
        spec_is_node_builtin("test"@),
        spec_is_explicit_node_builtin("node:"@ + "test"@),
{
    reveal_strlit("node:");
    reveal_strlit("readline");
    assert(!"readline"@.contains('/'));
    if "readline"@.len() >= 5 {
        assert("readline"@.subrange(0, 5)[0] == "readline"@[0]);
        assert("readline"@.subrange(0, 5)[1] == "readline"@[1]);
    }
    lemma_builtin_reference("readline"@);
    reveal_strlit("repl");
    assert(!"repl"@.contains('/'));
    if "repl"@.len() >= 5 {
        assert("repl"@.subrange(0, 5)[0] == "repl"@[0]);
        assert("repl"@.subrange(0, 5)[1] == "repl"@[1]);
    }
    lemma_builtin_reference("repl"@);
    reveal_strlit("sea");
    assert(!"sea"@.contains('/'));
    if "sea"@.len() >= 5 {
        assert("sea"@.subrange(0, 5)[0] == "sea"@[0]);
        assert("sea"@.subrange(0, 5)[1] == "sea"@[1]);
    }
    lemma_builtin_reference("sea"@);
    reveal_strlit("sqlite");
    assert(!"sqlite"@.contains('/'));
    if "sqlite"@.len() >= 5 {
        assert("sqlite"@.subrange(0, 5)[0] == "sqlite"@[0]);
        assert("sqlite"@.subrange(0, 5)[1] == "sqlite"@[1]);
    }
    lemma_builtin_reference("sqlite"@);
    reveal_strlit("stream");
    assert(!"stream"@.contains('/'));
    if "stream"@.len() >= 5 {
        assert("stream"@.subrange(0, 5)[0] == "stream"@[0]);
        assert("stream"@.subrange(0, 5)[1] == "stream"@[1]);
    }
    lemma_builtin_reference("stream"@);
    reveal_strlit("string_decoder");
    assert(!"string_decoder"@.contains('/'));
    if "string_decoder"@.len() >= 5 {
        assert("string_decoder"@.subrange(0, 5)[0] == "string_decoder"@[0]);
        assert("string_decoder"@.subrange(0, 5)[1] == "string_decoder"@[1]);
    }
    lemma_builtin_reference("string_decoder"@);
    reveal_strlit("sys");
    assert(!"sys"@.contains('/'));
    if "sys"@.len() >= 5 {
        assert("sys"@.subrange(0, 5)[0] == "sys"@[0]);
        assert("sys"@.subrange(0, 5)[1] == "sys"@[1]);
    }
    lemma_builtin_reference("sys"@);
    reveal_strlit("test");
    assert(!"test"@.contains('/'));
    if "test"@.len() >= 5 {
        assert("test"@.subrange(0, 5)[0] == "test"@[0]);
        assert("test"@.subrange(0, 5)[1] == "test"@[1]);
    }
    lemma_builtin_reference("test"@);
}

/// Node's builtin modules `timers`, `tls`, `trace_events`, `tty`, `url`, `util`, `v8`, `vm` are builtins, bare and
/// with the `node:` prefix.
pub proof fn law_node_builtins_7()
    ensures
        spec_is_node_builtin("timers"@),
        spec_is_explicit_node_builtin("node:"@ + "timers"@),
        spec_is_node_builtin("tls"@),
        spec_is_explicit_node_builtin("node:"@ + "tls"@),
        spec_is_node_builtin("trace_events"@),
        spec_is_explicit_node_builtin("node:"@ + "trace_events"@),
        spec_is_node_builtin("tty"@),
        spec_is_explicit_node_builtin("node:"@ + "tty"@),
        spec_is_node_builtin("url"@),
        spec_is_explicit_node_builtin("node:"@ + "url"@),
        spec_is_node_builtin("util"@),
        spec_is_explicit_node_builtin("node:"@ + "util"@),
        spec_is_node_builtin("v8"@),
        spec_is_explicit_node_builtin("node:"@ + "v8"@),
        spec_is_node_builtin("vm"@),
        spec_is_explicit_node_builtin("node:"@ + "vm"@),
{
    reveal_strlit("node:");
    reveal_strlit("timers");
    assert(!"timers"@.contains('/'));
    if "timers"@.len() >= 5 {
        assert("timers"@.subrange(0, 5)[0] == "timers"@[0]);
        assert("timers"@.subrange(0, 5)[1] == "timers"@[1]);
    }
    lemma_builtin_reference("timers"@);
    reveal_strlit("tls");
    assert(!"tls"@.contains('/'));
    if "tls"@.len() >= 5 {
        assert("tls"@.subrange(0, 5)[0] == "tls"@[0]);
        assert("tls"@.subrange(0, 5)[1] == "tls"@[1]);
    }
    lemma_builtin_reference("tls"@);
    reveal_strlit("trace_events");
    assert(!"trace_events"@.contains('/'));
    if "trace_events"@.len() >= 5 {
        assert("trace_events"@.subrange(0, 5)[0] == "trace_events"@[0]);
        assert("trace_events"@.subrange(0, 5)[1] == "trace_events"@[1]);
    }
    lemma_builtin_reference("trace_events"@);
    reveal_strlit("tty");
    assert(!"tty"@.contains('/'));
    if "tty"@.len() >= 5 {
        assert("tty"@.subrange(0, 5)[0] == "tty"@[0]);
        assert("tty"@.subrange(0, 5)[1] == "tty"@[1]);
    }
    lemma_builtin_reference("tty"@);
    reveal_strlit("url");
    assert(!"url"@.contains('/'));
    if "url"@.len() >= 5 {
        assert("url"@.subrange(0, 5)[0] == "url"@[0]);
        assert("url"@.subrange(0, 5)[1] == "url"@[1]);
    }
    lemma_builtin_reference("url"@);
    reveal_strlit("util");
    assert(!"util"@.contains('/'));
    if "util"@.len() >= 5 {
        assert("util"@.subrange(0, 5)[0] == "util"@[0]);
        assert("util"@.subrange(0, 5)[1] == "util"@[1]);
    }
    lemma_builtin_reference("util"@);
    reveal_strlit("v8");
    assert(!"v8"@.contains('/'));
    if "v8"@.len() >= 5 {
        assert("v8"@.subrange(0, 5)[0] == "v8"@[0]);
        assert("v8"@.subrange(0, 5)[1] == "v8"@[1]);
    }
    lemma_builtin_reference("v8"@);
    reveal_strlit("vm");
    assert(!"vm"@.contains('/'));
    if "vm"@.len() >= 5 {
        assert("vm"@.subrange(0, 5)[0] == "vm"@[0]);
        assert("vm"@.subrange(0, 5)[1] == "vm"@[1]);
    }
    lemma_builtin_reference("vm"@);
}

/// Node's builtin modules `wasi`, `worker_threads`, `zlib` are builtins, bare and
/// with the `node:` prefix.
pub proof fn law_node_builtins_8()
    ensures
        spec_is_node_builtin("wasi"@),
        spec_is_explicit_node_builtin("node:"@ + "wasi"@),
        spec_is_node_builtin("worker_threads"@),
        spec_is_explicit_node_builtin("node:"@ + "worker_threads"@),
        spec_is_node_builtin("zlib"@),
        spec_is_explicit_node_builtin("node:"@ + "zlib"@),
{
    reveal_strlit("node:");
    reveal_strlit("wasi");
    assert(!"wasi"@.contains('/'));
    if "wasi"@.len() >= 5 {
        assert("wasi"@.subrange(0, 5)[0] == "wasi"@[0]);
        assert("wasi"@.subrange(0, 5)[1] == "wasi"@[1]);
    }
    lemma_builtin_reference("wasi"@);
    reveal_strlit("worker_threads");
    assert(!"worker_threads"@.contains('/'));
    if "worker_threads"@.len() >= 5 {
        assert("worker_threads"@.subrange(0, 5)[0] == "worker_threads"@[0]);
        assert("worker_threads"@.subrange(0, 5)[1] == "worker_threads"@[1]);
    }
    lemma_builtin_reference("worker_threads"@);
    reveal_strlit("zlib");
    assert(!"zlib"@.contains('/'));
    if "zlib"@.len() >= 5 {
        assert("zlib"@.subrange(0, 5)[0] == "zlib"@[0]);
        assert("zlib"@.subrange(0, 5)[1] == "zlib"@[1]);
    }
    lemma_builtin_reference("zlib"@);
}

} // verus!
