//! Choosing the spec files among the files found under the spec
//! directories, and the order of the loaded specs.
use vstd::prelude::*;

use crate::order::{lemma_opt_comps_order_facts, lemma_seq_order_facts, opt_comps_order, opt_components, opt_path_compare, sort_by_key, stable_sort, then, KeyOrdered};
use crate::rules::{compile_optional_globset_strict, glob_compile_outcome, glob_error_text, GlobCompileError};
use crate::glob::globset_matches;
use crate::spec::config::{include_dir_names, include_dir_set, SpecConfig};
use crate::spec::types::SpecFile;
use crate::spec::workspace_discovery::{skipped_dir, skipped_dir_exec};
use crate::text::{has_suffix, owned, push_char, push_str, split_char, split_on, str_ends_with, str_eq, str_order, seq_order, views};

verus! {

/// A file found while walking a spec directory: its path relative to the
/// project root (forward slashes) and its canonical path.
#[derive(Debug, Clone)]
pub struct WalkedFile {
    pub relative: String,
    pub canonical: String,
}

/// Why spec files could not be chosen.
#[derive(Debug, Clone, PartialEq, Eq)]
pub enum SpecSelectError {
    /// The exclude globs do not compile; `pattern` is `<globset>` as in the
    /// project's error messages.
    InvalidGlob { pattern: String, message: String },
}

/// The directory prefixes of a relative path and the path itself: the first
/// segment, the first two joined by `/`, and so on.
pub open spec fn path_prefixes(rel: Seq<char>) -> Seq<Seq<char>> {
    let segs = split_on(rel, '/');
    Seq::new(segs.len(), |k: int| crate::text::join_text(segs.take(k + 1), "/"@))
}

/// Whether the exclude set (when there is one) matches the path or one of
/// its directories.
pub open spec fn exclude_hits(excludes: Option<Seq<Seq<char>>>, rel: Seq<char>) -> bool {
    match excludes {
        Some(ps) => exists|k: int| 0 <= k < path_prefixes(rel).len() && globset_matches(ps, #[trigger] path_prefixes(rel)[k]),
        None => false,
    }
}

/// Whether a walked file is a spec file to load: no excluded default
/// directory (unless re-included) on its path, no exclude glob matching it
/// or a directory above it, and a name ending in `.spec.yml`.
pub open spec fn chosen(excludes: Option<Seq<Seq<char>>>, kept: Set<Seq<char>>, rel: Seq<char>) -> bool {
    !skipped_dir(rel, kept) && !exclude_hits(excludes, rel) && has_suffix(rel, ".spec.yml"@)
}

/// The canonical paths of the chosen files in walk order, each once.
pub open spec fn chosen_paths(excludes: Option<Seq<Seq<char>>>, kept: Set<Seq<char>>, w: Seq<WalkedFile>) -> Seq<Seq<char>>
    decreases w.len(),
{
    if w.len() == 0 {
        Seq::empty()
    } else {
        let r = chosen_paths(excludes, kept, w.drop_last());
        if chosen(excludes, kept, w.last().relative@) && !r.contains(w.last().canonical@) {
            r.push(w.last().canonical@)
        } else {
            r
        }
    }
}

/// The spec files to load, as `select_spec_files` chooses them.
pub open spec fn selected_spec_files(config: SpecConfig, w: Seq<WalkedFile>) -> Result<Seq<Seq<char>>, Seq<char>> {
    match glob_compile_outcome(views(config.exclude@)) {
        Err((_, m)) => Err(m),
        Ok(excludes) => Ok(chosen_paths(excludes, include_dir_names(views(config.include_dirs@)), w)),
    }
}

/// The patterns of an optional compiled set.
pub open spec fn compiled_patterns(set: Option<crate::rules::CompiledGlobSet>) -> Option<Seq<Seq<char>>> {
    match set {
        Some(s) => Some(views(s.patterns@)),
        None => None,
    }
}

fn exclude_hits_exec(set: &Option<crate::rules::CompiledGlobSet>, rel: &str) -> (r: bool)
    requires
        set matches Some(s) ==> s.ready(),
    ensures
        r == exclude_hits(compiled_patterns(*set), rel@),
{
    match set {
        None => false,
        Some(s) => {
            let segs = split_char(rel, '/');
            let ghost ps = views(s.patterns@);
            let ghost pre = path_prefixes(rel@);
            assert(pre.len() == segs@.len());
            let mut prefix = String::new();
            let mut k: usize = 0;
            while k < segs.len()
                invariant
                    views(segs@) == split_on(rel@, '/'),
                    compiled_patterns(*set) == Some(views(s.patterns@)),
                    pre == path_prefixes(rel@),
                    ps == views(s.patterns@),
                    s.ready(),
                    k <= segs@.len(),
                    k > 0 ==> prefix@ == crate::text::join_text(views(segs@).take(k as int), "/"@),
                    k == 0 ==> prefix@.len() == 0,
                    pre.len() == segs@.len(),
                    forall|j: int| 0 <= j < k ==> !globset_matches(ps, #[trigger] pre[j]),
                decreases segs@.len() - k,
            {
                proof {
                    reveal_strlit("/");
                }
                let ghost before = prefix@;
                if k > 0 {
                    push_char(&mut prefix, '/');
                }
                push_str(&mut prefix, segs[k].as_str());
                proof {
                    let t = views(segs@).take(k + 1);
                    assert(t.drop_last() =~= views(segs@).take(k as int));
                    assert(t.last() == segs@[k as int]@);
                    if k == 0 {
                        assert(t =~= seq![segs@[0]@]);
                        assert(prefix@ =~= segs@[0]@);
                    } else {
                        assert(crate::text::join_text(t, "/"@) == crate::text::join_text(t.drop_last(), "/"@) + "/"@
                            + t.last());
                        assert(prefix@ =~= before + "/"@ + segs@[k as int]@);
                    }
                    assert(prefix@ == crate::text::join_text(t, "/"@));
                    assert(pre[k as int] == crate::text::join_text(t, "/"@));
                }
                if s.is_match(prefix.as_str()) {
                    assert(globset_matches(ps, pre[k as int]));
                    assert(compiled_patterns(*set) == Some(ps));
                    assert(exclude_hits(Some(ps), rel@));
                    return true;
                }
                k = k + 1;
            }
            false
        },
    }
}

/// Chooses the spec files among the walked files (see
/// `selected_spec_files`); fails when the exclude globs do not compile.
pub fn select_spec_files(config: &SpecConfig, walked: &[WalkedFile]) -> (r: Result<Vec<String>, SpecSelectError>)
    ensures
        match r {
            Ok(v) => selected_spec_files(*config, walked@) == Ok::<Seq<Seq<char>>, Seq<char>>(views(v@)),
            Err(SpecSelectError::InvalidGlob { pattern, message }) => pattern@ == "<globset>"@
                && selected_spec_files(*config, walked@) == Err::<Seq<Seq<char>>, Seq<char>>(message@),
        },
{
    let compiled = compile_optional_globset_strict(&config.exclude);
    let set = match compiled {
        Ok(s) => s,
        Err(e) => {
            let message = match e {
                GlobCompileError::InvalidPattern { message, .. } => message,
                GlobCompileError::Build { message } => message,
            };
            return Err(SpecSelectError::InvalidGlob { pattern: owned("<globset>"), message });
        },
    };
    let ghost excludes = compiled_patterns(set);
    let kept = include_dir_set(config.include_dirs.as_slice());
    let ghost kset = include_dir_names(views(config.include_dirs@));
    let mut out: Vec<String> = Vec::new();
    let mut i: usize = 0;
    proof {
        reveal_strlit(".spec.yml");
    }
    while i < walked.len()
        invariant
            i <= walked@.len(),
            set matches Some(s) ==> s.ready(),
            excludes == (compiled_patterns(set)),
            views(kept@).to_set() == kset,
            views(out@) == chosen_paths(excludes, kset, walked@.take(i as int)),
        decreases walked@.len() - i,
    {
        let f = &walked[i];
        assert(walked@.take(i + 1).drop_last() =~= walked@.take(i as int));
        assert(walked@.take(i + 1).last() == *f);
        let rel = f.relative.as_str();
        if !skipped_dir_exec(rel, &kept) && !exclude_hits_exec(&set, rel) && str_ends_with(rel, ".spec.yml")
            && !crate::paths::strings_contain(&out, f.canonical.as_str()) {
            let ghost before = views(out@);
            out.push(f.canonical.clone());
            assert(views(out@) =~= before.push(f.canonical@));
        }
        i = i + 1;
    }
    assert(walked@.take(i as int) =~= walked@);
    Ok(out)
}

impl KeyOrdered for SpecFile {
    /// By module, then spec path (component-wise, none first).
    open spec fn key_order(a: Self, b: Self) -> int {
        then(
            seq_order(a.module@, b.module@),
            opt_comps_order(
                opt_components(match a.spec_path { Some(p) => Some(p@), None => None }),
                opt_components(match b.spec_path { Some(p) => Some(p@), None => None }),
            ),
        )
    }

    proof fn lemma_key_order(a: Self, b: Self, c: Self) {
        lemma_seq_order_facts(a.module@, b.module@, c.module@);
        lemma_opt_comps_order_facts(
            opt_components(match a.spec_path { Some(p) => Some(p@), None => None }),
            opt_components(match b.spec_path { Some(p) => Some(p@), None => None }),
            opt_components(match c.spec_path { Some(p) => Some(p@), None => None }),
        );
    }

    fn key_compare(&self, other: &Self) -> (r: i8) {
        let o = str_order(self.module.as_str(), other.module.as_str());
        if o != 0 {
            o
        } else {
            opt_path_compare(&self.spec_path, &other.spec_path)
        }
    }
}

/// Orders loaded specs by module, then spec path, keeping ties in order.
pub fn sort_specs(specs: &mut Vec<SpecFile>)
    ensures
        final(specs)@ == stable_sort(old(specs)@),
{
    sort_by_key(specs);
}

} // verus!
