//! The file dependency graph as the rules read it: import edges between
//! files and the module each file belongs to.
use vstd::prelude::*;

use crate::strset::{set_insert, strictly_sorted};
use crate::text::{str_eq, views};

verus! {

/// How one file depends on another.
#[derive(Debug, Clone, Copy, PartialEq, Eq, Structural)]
pub enum EdgeKind {
    /// A value import or re-export.
    RuntimeImport,
    /// An `import type` / `export type` edge.
    TypeOnlyImport,
    /// A dynamic `import(..)` or `require(..)` edge.
    DynamicImport,
}

/// An import from one file to another.
#[derive(Debug, Clone, PartialEq, Eq)]
pub struct GraphEdge {
    pub from: String,
    pub to: String,
    pub specifier: String,
    pub kind: EdgeKind,
    /// Byte span of the import in the source file, when known.
    pub span_start: Option<u32>,
    pub span_end: Option<u32>,
    /// Position of the import, when the edge carries one.
    pub line: Option<u32>,
    pub column: Option<u32>,
    /// Whether an ignore comment covers the whole edge.
    pub ignored_by_comment: bool,
}

/// An import statement as a file's analysis records it.
#[derive(Debug, Clone, PartialEq, Eq)]
pub struct ImportInfo {
    pub specifier: String,
    pub span_start: u32,
    pub span_end: u32,
    pub line: u32,
    pub column: u32,
    /// The text of an ignore comment attached to the import, if any.
    pub ignore_comment: Option<String>,
}

/// A re-export statement: `export * from ..` (a star) or `export { a, b } from ..`.
#[derive(Debug, Clone, PartialEq, Eq)]
pub struct ReExportInfo {
    pub specifier: String,
    pub line: u32,
    pub column: u32,
    pub is_star: bool,
    pub names: Vec<String>,
}

/// A module specifier referenced at a position (a `require(..)` or a
/// dynamic `import(..)`).
#[derive(Debug, Clone, PartialEq, Eq)]
pub struct SpecifierSite {
    pub specifier: String,
    pub line: u32,
    pub column: u32,
}

/// What the analysis of a file found besides its imports: the names it
/// exports (`__default` for its default export), its re-exports, its
/// `require` calls and its dynamic imports.
#[derive(Debug, Clone, PartialEq, Eq)]
pub struct FileAnalysis {
    pub path: String,
    pub exports: Vec<String>,
    pub re_exports: Vec<ReExportInfo>,
    pub require_calls: Vec<SpecifierSite>,
    pub dynamic_imports: Vec<SpecifierSite>,
}

/// Import edges, the owning module of each file (the first entry for a
/// file counts), the import statements of each file (likewise) and the
/// analysis of each file.
#[derive(Debug, Clone, PartialEq, Eq)]
pub struct DependencyGraph {
    pub edges: Vec<GraphEdge>,
    pub file_modules: Vec<(String, String)>,
    pub file_imports: Vec<(String, Vec<ImportInfo>)>,
    pub file_analyses: Vec<FileAnalysis>,
}

/// A strongly connected component of the file graph that forms a cycle:
/// its files and the modules owning them, each sorted.
#[derive(Debug, Clone, PartialEq, Eq)]
pub struct CycleComponent {
    pub files: Vec<String>,
    pub modules: Vec<String>,
}

impl CycleComponent {
    /// The cycle stays within one module.
    pub open spec fn internal(self) -> bool {
        self.modules@.len() == 1
    }

    /// The cycle crosses modules.
    pub open spec fn external(self) -> bool {
        self.modules@.len() > 1
    }

    pub fn is_internal(&self) -> (r: bool)
        ensures
            r == self.internal(),
    {
        self.modules.len() == 1
    }

    pub fn is_external(&self) -> (r: bool)
        ensures
            r == self.external(),
    {
        self.modules.len() > 1
    }
}

/// The module of the first entry for `file`.
pub open spec fn module_lookup(entries: Seq<(String, String)>, file: Seq<char>) -> Option<Seq<char>>
    decreases entries.len(),
{
    if entries.len() == 0 {
        None
    } else if entries[0].0@ == file {
        Some(entries[0].1@)
    } else {
        module_lookup(entries.drop_first(), file)
    }
}

/// The import statements of the first entry for `file`; none when there is no entry.
pub open spec fn imports_lookup(entries: Seq<(String, Vec<ImportInfo>)>, file: Seq<char>) -> Seq<ImportInfo>
    decreases entries.len(),
{
    if entries.len() == 0 {
        Seq::empty()
    } else if entries[0].0@ == file {
        entries[0].1@
    } else {
        imports_lookup(entries.drop_first(), file)
    }
}

/// Every module that owns a file.
pub open spec fn module_set(entries: Seq<(String, String)>) -> Set<Seq<char>> {
    Set::new(|m: Seq<char>| exists|i: int| 0 <= i < entries.len() && #[trigger] entries[i].1@ == m)
}

impl DependencyGraph {
    pub open spec fn module_of(self, file: Seq<char>) -> Option<Seq<char>> {
        module_lookup(self.file_modules@, file)
    }

    /// The module owning `file`, if any.
    pub fn module_of_file(&self, file: &str) -> (r: Option<&str>)
        ensures
            match r {
                Some(m) => self.module_of(file@) == Some(m@),
                None => self.module_of(file@) is None,
            },
    {
        let mut i: usize = 0;
        assert(self.file_modules@.skip(0) =~= self.file_modules@);
        while i < self.file_modules.len()
            invariant
                i <= self.file_modules@.len(),
                self.module_of(file@) == module_lookup(self.file_modules@.skip(i as int), file@),
            decreases self.file_modules@.len() - i,
        {
            let ghost rest = self.file_modules@.skip(i as int);
            assert(rest[0] == self.file_modules@[i as int]);
            if str_eq(self.file_modules[i].0.as_str(), file) {
                return Some(self.file_modules[i].1.as_str());
            }
            assert(rest.drop_first() =~= self.file_modules@.skip(i + 1));
            i = i + 1;
        }
        None
    }

    pub open spec fn imports_of(self, file: Seq<char>) -> Seq<ImportInfo> {
        imports_lookup(self.file_imports@, file)
    }

    /// The import statements recorded for `file`.
    pub fn imports_of_file(&self, file: &str) -> (r: &[ImportInfo])
        ensures
            r@ == self.imports_of(file@),
    {
        let mut i: usize = 0;
        assert(self.file_imports@.skip(0) =~= self.file_imports@);
        while i < self.file_imports.len()
            invariant
                i <= self.file_imports@.len(),
                self.imports_of(file@) == imports_lookup(self.file_imports@.skip(i as int), file@),
            decreases self.file_imports@.len() - i,
        {
            let ghost rest = self.file_imports@.skip(i as int);
            assert(rest[0] == self.file_imports@[i as int]);
            if str_eq(self.file_imports[i].0.as_str(), file) {
                return self.file_imports[i].1.as_slice();
            }
            assert(rest.drop_first() =~= self.file_imports@.skip(i + 1));
            i = i + 1;
        }
        &[]
    }

    /// The modules owning files, sorted and without duplicates.
    pub fn modules(&self) -> (r: Vec<String>)
        ensures
            strictly_sorted(views(r@)),
            views(r@).to_set() == module_set(self.file_modules@),
    {
        let mut out: Vec<String> = Vec::new();
        let mut i: usize = 0;
        assert(views(out@).to_set() =~= module_set(self.file_modules@.take(0)));
        while i < self.file_modules.len()
            invariant
                i <= self.file_modules@.len(),
                strictly_sorted(views(out@)),
                views(out@).to_set() == module_set(self.file_modules@.take(i as int)),
            decreases self.file_modules@.len() - i,
        {
            set_insert(&mut out, self.file_modules[i].1.clone());
            let ghost prev = self.file_modules@.take(i as int);
            let ghost next = self.file_modules@.take(i + 1);
            assert(views(out@).to_set() =~= module_set(next)) by {
                assert forall|m: Seq<char>| module_set(next).contains(m) <==> module_set(prev).insert(
                    self.file_modules@[i as int].1@,
                ).contains(m) by {
                    if module_set(next).contains(m) {
                        let j = choose|j: int| 0 <= j < next.len() && #[trigger] next[j].1@ == m;
                        if j < i {
                            assert(prev[j].1@ == m);
                        }
                    }
                    if module_set(prev).contains(m) {
                        let j = choose|j: int| 0 <= j < prev.len() && #[trigger] prev[j].1@ == m;
                        assert(next[j].1@ == m);
                    }
                    if m == self.file_modules@[i as int].1@ {
                        assert(next[i as int].1@ == m);
                    }
                }
            }
            i = i + 1;
        }
        assert(self.file_modules@.take(i as int) =~= self.file_modules@);
        out
    }
}

} // verus!
