//! The files of a workspace with their syntax, imports and exports, and the
//! questions that can be asked of one file: which symbol stands at a position,
//! where a symbol is used, what is exported.

use vstd::prelude::*;
use vstd::utf8::encode_utf8;
use crate::error::DominoError;
use crate::paths::{is_same_path, same_path};
use crate::extract::{
    export_views, exports_of, extract_exports, extract_imports, import_views, imports_of,
};
use crate::resolver::{
    export_settled, file_settled, import_settled, keeps, remembered, resolve_modules, same_but_resolved,
    same_import, CachedResolution, ModuleResolver,
};
use crate::semantic::symbols::{lemma_nothing_covers, symbol_at_byte, symbol_at_offset};
use crate::seqs::gather;
use crate::syntax::{
    analysed, are_nodes_of, are_symbols_of, nodes_wf, parse_module, AstNode, SymbolEntry,
};
use crate::text::{holds_text, str_eq};
use crate::types::{opt_text, texts, Export, Import, ImportView, Project, Reference, ReferenceView};
use crate::utils::{
    lemma_line_col_bound, line_col_at, line_to_offset, offset_of_line, offset_to_line_col,
};

verus! {

/// One source file with what the analysis reads from it.
#[derive(Debug, Clone)]
pub struct FileSemanticData {
    /// Path relative to the workspace root.
    pub path: String,
    /// The text of the file.
    pub source: String,
    /// Its syntax, in document order.
    pub nodes: Vec<AstNode>,
    /// Its bindings, with the offsets of their uses.
    pub symbols: Vec<SymbolEntry>,
    pub imports: Vec<Import>,
    pub exports: Vec<Export>,
    /// For each export, the file that what it re-exports from resolves to,
    /// once that is known.
    pub export_files: Vec<Option<String>>,
}

impl FileSemanticData {
    /// The syntax is well formed, the text is shorter than the largest
    /// number of the machine, and every export has its slot for a file.
    pub open spec fn wf(&self) -> bool {
        &&& nodes_wf(self.nodes@)
        &&& encode_utf8(self.source@).len() < usize::MAX
        &&& self.export_files@.len() == self.exports@.len()
    }

    /// The bytes of the text.
    pub open spec fn bytes(&self) -> Seq<u8> {
        encode_utf8(self.source@)
    }

    /// Line and column of the byte at `offset`, counted from 1.
    pub open spec fn position(&self, offset: usize) -> (usize, usize) {
        (
            line_col_at(self.bytes(), offset as nat).0 as usize,
            line_col_at(self.bytes(), offset as nat).1 as usize,
        )
    }

    /// The offsets of the uses of the symbols named `name` among the first
    /// `count` symbols, symbol by symbol.
    pub open spec fn offsets(&self, name: Seq<char>, count: int) -> Seq<usize>
        decreases count,
    {
        if count <= 0 || count > self.symbols@.len() {
            Seq::empty()
        } else if self.symbols@[count - 1].name@ == name {
            self.offsets(name, count - 1) + self.symbols@[count - 1].references@
        } else {
            self.offsets(name, count - 1)
        }
    }

    /// The offsets of the bytes at which `name` is used in the file.
    pub open spec fn local_offsets(&self, name: Seq<char>) -> Seq<usize> {
        self.offsets(name, self.symbols@.len() as int)
    }

    /// The positions at which `name` is used in the file: line and column of
    /// each use.
    pub open spec fn local_uses(&self, name: Seq<char>) -> Seq<(usize, usize)> {
        self.local_offsets(name).map_values(|offset: usize| self.position(offset))
    }

    /// The top-level symbol around the byte at `offset`.
    pub open spec fn symbol_around(&self, offset: usize) -> Option<Seq<char>> {
        symbol_at_offset(self.nodes@, offset as nat)
    }

    /// The top-level symbol at a line and a column added to the offset of the
    /// line.
    pub open spec fn symbol_at(&self, line: usize, column: usize) -> Option<Seq<char>> {
        symbol_at_offset(self.nodes@, (offset_of_line(self.bytes(), line as nat) + column) as nat)
    }

    /// Whether the file exports `name`, under that name or from that name.
    pub open spec fn exports_symbol(&self, name: Seq<char>) -> bool {
        exists|k: int|
            0 <= k < self.exports@.len() && ((#[trigger] self.exports@[k]).exported_name@ == name
                || opt_text(self.exports@[k].local_name) == Some(name))
    }

    /// Whether a use of `name` stands inside the top-level symbol `container`.
    pub open spec fn used_inside(&self, name: Seq<char>, container: Seq<char>) -> bool {
        exists|r: int|
            0 <= r < self.local_offsets(name).len() && self.symbol_around(#[trigger] self.local_offsets(name)[r])
                == Some(container)
    }

    /// The exported name of export `k` if it is declared in this file, is not
    /// `name` itself and holds a use of `name`.
    pub open spec fn export_using(&self, name: Seq<char>, k: int) -> Option<Seq<char>> {
        let e = self.exports@[k]@;
        if 0 <= k < self.exports@.len() && e.re_export_from is None && e.inner_name() != name
            && self.used_inside(name, e.inner_name()) {
            Some(e.exported_name)
        } else {
            None
        }
    }

    /// The names of the exports that use `name`, in the order of the exports.
    pub open spec fn exports_using(&self, name: Seq<char>) -> Seq<Seq<char>> {
        gather(self.exports@.len() as int, |k: int| self.export_using(name, k))
    }

    /// Whether the file is well formed.
    pub fn is_well_formed(&self) -> (r: bool)
        ensures
            r == self.wf(),
    {
        if self.export_files.len() != self.exports.len() || self.source.as_str().as_bytes().len() == usize::MAX {
            return false;
        }
        let mut i: usize = 0;
        while i < self.nodes.len()
            invariant
                i <= self.nodes.len(),
                self.export_files@.len() == self.exports@.len(),
                encode_utf8(self.source@).len() < usize::MAX,
                forall|j: int|
                    0 <= j < i ==> (#[trigger] self.nodes@[j]).parent <= j && self.nodes@[j].start
                        <= self.nodes@[j].end,
            decreases self.nodes.len() - i,
        {
            if self.nodes[i].parent > i || self.nodes[i].start > self.nodes[i].end {
                return false;
            }
            i += 1;
        }
        true
    }

    /// No import and no re-export of the file has a resolution.
    pub open spec fn is_unresolved(&self) -> bool {
        &&& forall|k: int| 0 <= k < self.imports@.len() ==> (#[trigger] self.imports@[k]).resolved_file is None
        &&& forall|k: int| 0 <= k < self.export_files@.len() ==> (#[trigger] self.export_files@[k]) is None
    }

    /// The file holds what the analysis of its text under its path gives:
    /// its nodes and symbols are those of the analysed text, its exports are
    /// those of the nodes, and so are its imports but for what they resolve
    /// to.
    pub open spec fn is_analysed(&self) -> bool {
        &&& are_nodes_of(self.nodes@, analysed(self.source@, self.path@).0)
        &&& are_symbols_of(self.symbols@, analysed(self.source@, self.path@).1)
        &&& import_views(self.imports@).map_values(|v: ImportView| unresolved(v)) == imports_of(self.nodes@)
        &&& export_views(self.exports@) == exports_of(self.nodes@)
    }

    /// Every import of the file, and every export that re-exports from a
    /// module, resolves to what `cache` remembers for its specifier in the
    /// file.
    pub open spec fn is_resolved_by(&self, cache: Seq<CachedResolution>) -> bool {
        &&& forall|k: int|
            0 <= k < self.imports@.len() ==> remembered(cache, self.path@, (#[trigger] self.imports@[k]).from_module@)
                == Some(opt_text(self.imports@[k].resolved_file))
        &&& forall|k: int|
            0 <= k < self.exports@.len() && (#[trigger] self.exports@[k]).re_export_from is Some ==> remembered(
                cache,
                self.path@,
                self.exports@[k].re_export_from.unwrap()@,
            ) == Some(opt_text(self.export_files@[k]))
    }

    /// Parses `source` and reads its imports and exports.
    pub fn analyze_file(path: &str, source: &str) -> (file: FileSemanticData)
        requires
            encode_utf8(source@).len() < usize::MAX,
        ensures
            file.wf(),
            file.path@ == path@,
            file.source@ == source@,
            import_views(file.imports@) == imports_of(file.nodes@),
            export_views(file.exports@) == exports_of(file.nodes@),
            file.is_unresolved(),
            file.is_analysed(),
    {
        let tree = parse_module(source, path);
        let file = FileSemanticData::from_syntax(path, source, tree.nodes, tree.symbols);
        assert(import_views(file.imports@).map_values(|v: ImportView| unresolved(v)) =~= import_views(file.imports@));
        file
    }

    /// The file with the given syntax: its imports and exports are read from
    /// the nodes.
    pub fn from_syntax(path: &str, source: &str, nodes: Vec<AstNode>, symbols: Vec<SymbolEntry>) -> (file:
        FileSemanticData)
        requires
            nodes_wf(nodes@),
            encode_utf8(source@).len() < usize::MAX,
        ensures
            file.wf(),
            file.path@ == path@,
            file.source@ == source@,
            file.nodes@ == nodes@,
            file.symbols@ == symbols@,
            import_views(file.imports@) == imports_of(nodes@),
            export_views(file.exports@) == exports_of(nodes@),
            file.is_unresolved(),
    {
        let imports = extract_imports(&nodes);
        let exports = extract_exports(&nodes);
        let mut export_files: Vec<Option<String>> = Vec::new();
        let mut k: usize = 0;
        while k < exports.len()
            invariant
                k <= exports.len(),
                export_files@.len() == k,
                forall|j: int| 0 <= j < export_files@.len() ==> export_files@[j] is None,
            decreases exports.len() - k,
        {
            export_files.push(None);
            k += 1;
        }
        FileSemanticData {
            path: path.to_owned(),
            source: source.to_owned(),
            nodes,
            symbols,
            imports,
            exports,
            export_files,
        }
    }

    /// The offsets at which `name` is used in the file: for every binding of
    /// that name, in the order of the symbol table, the offset of each of its
    /// uses.
    pub fn use_offsets(&self, name: &str) -> (out: Vec<usize>)
        ensures
            out@ == self.local_offsets(name@),
    {
        let mut out: Vec<usize> = Vec::new();
        let mut k: usize = 0;
        while k < self.symbols.len()
            invariant
                k <= self.symbols.len(),
                out@ == self.offsets(name@, k as int),
            decreases self.symbols.len() - k,
        {
            if str_eq(self.symbols[k].name.as_str(), name) {
                let ghost before = out@;
                let refs = &self.symbols[k].references;
                let mut r: usize = 0;
                assert(out@ =~= before + refs@.take(0));
                while r < refs.len()
                    invariant
                        r <= refs.len(),
                        out@ == before + refs@.take(r as int),
                    decreases refs.len() - r,
                {
                    out.push(refs[r]);
                    assert(refs@.take(r + 1) =~= refs@.take(r as int).push(refs@[r as int]));
                    assert(out@ =~= before + refs@.take(r + 1));
                    r += 1;
                }
                assert(refs@.take(refs.len() as int) =~= refs@);
            }
            k += 1;
        }
        out
    }

    /// The positions at which `name` is used in the file: line and column of
    /// each use, in the order of `use_offsets`.
    pub fn local_positions(&self, name: &str) -> (out: Vec<(usize, usize)>)
        requires
            self.wf(),
        ensures
            out@ == self.local_uses(name@),
    {
        let offsets = self.use_offsets(name);
        let ghost all = self.local_uses(name@);
        let mut out: Vec<(usize, usize)> = Vec::new();
        let mut r: usize = 0;
        assert(out@ =~= all.take(0));
        while r < offsets.len()
            invariant
                r <= offsets.len(),
                self.wf(),
                offsets@ == self.local_offsets(name@),
                all == self.local_uses(name@),
                out@ == all.take(r as int),
            decreases offsets.len() - r,
        {
            let offset = offsets[r];
            let at = offset_to_line_col(self.source.as_str(), offset);
            proof {
                lemma_line_col_bound(self.bytes(), offset as nat);
                assert(at == self.position(offset));
                assert(all.take(r + 1) =~= all.take(r as int).push(all[r as int]));
            }
            out.push(at);
            r += 1;
        }
        assert(all.take(offsets.len() as int) =~= all);
        out
    }

    /// The top-level symbol at `line` and `column`: the one that contains the
    /// byte `column` bytes after the start of the line.
    pub fn symbol_at_position(&self, line: usize, column: usize) -> (r: Option<String>)
        requires
            self.wf(),
        ensures
            opt_text(r) == self.symbol_at(line, column),
    {
        let ghost target = (offset_of_line(self.bytes(), line as nat) + column) as nat;
        let line_start = match line_to_offset(self.source.as_str(), line) {
            Some(offset) => offset,
            None => {
                proof {
                    lemma_nothing_covers(self.nodes@, target, self.nodes@.len() as int);
                }
                return None;
            },
        };
        if column > usize::MAX - line_start {
            proof {
                lemma_nothing_covers(self.nodes@, target, self.nodes@.len() as int);
            }
            return None;
        }
        symbol_at_byte(&self.nodes, line_start + column)
    }

    /// Whether the file exports `name`: some export has it as its exported
    /// name or as its local name.
    pub fn exports_name(&self, name: &str) -> (r: bool)
        ensures
            r == self.exports_symbol(name@),
    {
        let mut k: usize = 0;
        while k < self.exports.len()
            invariant
                k <= self.exports.len(),
                forall|j: int|
                    0 <= j < k ==> !((#[trigger] self.exports@[j]).exported_name@ == name@ || opt_text(
                        self.exports@[j].local_name,
                    ) == Some(name@)),
            decreases self.exports.len() - k,
        {
            let e = &self.exports[k];
            let local_matches = match &e.local_name {
                Some(local) => str_eq(local.as_str(), name),
                None => false,
            };
            if str_eq(e.exported_name.as_str(), name) || local_matches {
                return true;
            }
            k += 1;
        }
        false
    }

    /// The top-level symbols that hold a use of `name`, one entry for each
    /// use that stands in one.
    pub fn containers_of(&self, name: &str) -> (out: Vec<String>)
        requires
            self.wf(),
        ensures
            forall|c: Seq<char>| texts(out@).contains(c) <==> self.used_inside(name@, c),
    {
        let uses = self.use_offsets(name);
        let mut out: Vec<String> = Vec::new();
        let mut r: usize = 0;
        while r < uses.len()
            invariant
                r <= uses.len(),
                self.wf(),
                uses@ == self.local_offsets(name@),
                forall|c: Seq<char>|
                    texts(out@).contains(c) <==> exists|q: int|
                        0 <= q < r && self.symbol_around(#[trigger] uses@[q]) == Some(c),
            decreases uses.len() - r,
        {
            match symbol_at_byte(&self.nodes, uses[r]) {
                Some(c) => {
                    let ghost before = texts(out@);
                    let ghost cv = c@;
                    out.push(c);
                    proof {
                        assert(texts(out@) =~= before.push(cv));
                        assert forall|t: Seq<char>| texts(out@).contains(t) <==> exists|q: int|
                            0 <= q < r + 1 && self.symbol_around(#[trigger] uses@[q]) == Some(
                                t,
                            ) by {
                            if texts(out@).contains(t) {
                                let i = choose|i: int| 0 <= i < texts(out@).len() && texts(out@)[i] == t;
                                if i < before.len() {
                                    assert(before[i] == t);
                                    assert(before.contains(t));
                                } else {
                                    assert(self.symbol_around(uses@[r as int]) == Some(t));
                                }
                            }
                            if exists|q: int|
                                0 <= q < r + 1 && self.symbol_around(#[trigger] uses@[q]) == Some(
                                    t,
                                ) {
                                let q = choose|q: int|
                                    0 <= q < r + 1 && self.symbol_around(#[trigger] uses@[q])
                                        == Some(t);
                                if q < r {
                                    assert(before.contains(t));
                                    let i = choose|i: int| 0 <= i < before.len() && before[i] == t;
                                    assert(texts(out@)[i] == t);
                                } else {
                                    assert(texts(out@)[before.len() as int] == t);
                                }
                            }
                        }
                    }
                },
                None => {
                    proof {
                        assert forall|t: Seq<char>| texts(out@).contains(t) <==> exists|q: int|
                            0 <= q < r + 1 && self.symbol_around(#[trigger] uses@[q]) == Some(
                                t,
                            ) by {
                            if exists|q: int|
                                0 <= q < r + 1 && self.symbol_around(#[trigger] uses@[q]) == Some(
                                    t,
                                ) {
                                let q = choose|q: int|
                                    0 <= q < r + 1 && self.symbol_around(#[trigger] uses@[q])
                                        == Some(t);
                                assert(q < r);
                            }
                        }
                    }
                },
            }
            r += 1;
        }
        out
    }

    /// The exported names through which `name` is visible from outside: the
    /// exports that are declared in this file, are not `name` itself, and
    /// hold a use of `name`.
    pub fn exported_names_using(&self, name: &str) -> (out: Vec<String>)
        requires
            self.wf(),
        ensures
            texts(out@) == self.exports_using(name@),
    {
        let mut out: Vec<String> = Vec::new();
        if self.exports.len() == 0 {
            return out;
        }
        let containers = self.containers_of(name);
        let ghost pick = |k: int| self.export_using(name@, k);
        let mut k: usize = 0;
        while k < self.exports.len()
            invariant
                k <= self.exports.len(),
                pick == |k: int| self.export_using(name@, k),
                forall|c: Seq<char>| texts(containers@).contains(c) <==> self.used_inside(name@, c),
                texts(out@) == gather(k as int, pick),
            decreases self.exports.len() - k,
        {
            let e = &self.exports[k];
            let inner: &String = match &e.local_name {
                Some(local) => local,
                None => &e.exported_name,
            };
            assert(inner@ == e@.inner_name());
            if e.re_export_from.is_none() && !str_eq(inner.as_str(), name) && holds_text(
                &containers,
                inner.as_str(),
            ) {
                let ghost before = texts(out@);
                out.push(e.exported_name.clone());
                assert(texts(out@) =~= before.push(e.exported_name@));
            }
            k += 1;
        }
        out
    }
}

/// The first of the files from `from` on whose path is `path`, whatever
/// separates the components of either.
pub open spec fn find_path(files: Seq<FileSemanticData>, path: Seq<char>, from: int) -> Option<int>
    decreases files.len() - from,
{
    if from < 0 || from >= files.len() {
        None
    } else if same_path(files[from].path@, path) {
        Some(from)
    } else {
        find_path(files, path, from + 1)
    }
}

/// The file that import `k` of file `g` resolves to, if it is one of `files`.
pub open spec fn import_target(files: Seq<FileSemanticData>, g: int, k: int) -> Option<int> {
    match files[g].imports@[k].resolved_file {
        Some(p) => find_path(files, p@, 0),
        None => None,
    }
}

/// The file that export `k` of file `f` re-exports from, if it is one of `files`.
pub open spec fn export_target(files: Seq<FileSemanticData>, f: int, k: int) -> Option<int> {
    match files[f].export_files@[k] {
        Some(p) => find_path(files, p@, 0),
        None => None,
    }
}

/// The imports of file `g`, among its first `count`, that resolve to file
/// `target`: each as the pair of `g` and its index.
pub open spec fn importers_in(files: Seq<FileSemanticData>, target: int, g: int, count: int) -> Seq<
    (usize, usize),
> {
    gather(
        count,
        |k: int|
            if import_target(files, g, k) == Some(target) {
                Some((g as usize, k as usize))
            } else {
                None
            },
    )
}

/// The imports of the first `count` files that resolve to file `target`, file
/// by file.
pub open spec fn importers_of(files: Seq<FileSemanticData>, target: int, count: int) -> Seq<(usize, usize)>
    decreases count,
{
    if count <= 0 || count > files.len() {
        Seq::empty()
    } else {
        importers_of(files, target, count - 1) + importers_in(
            files,
            target,
            count - 1,
            files[count - 1].imports@.len() as int,
        )
    }
}

/// The import without what it resolves to.
pub open spec fn unresolved(import: ImportView) -> ImportView {
    ImportView { resolved_file: None, ..import }
}

/// A source file as it was read: its path, relative to the workspace root,
/// and its text.
#[derive(Debug, Clone)]
pub struct SourceText {
    pub path: String,
    pub text: String,
}

/// The file that is analysed for source `i`, if its text is short enough for
/// the machine: every text but one as long as the largest number.
pub open spec fn analysed_at(sources: Seq<SourceText>, i: int) -> Option<(Seq<char>, Seq<char>)> {
    if encode_utf8(sources[i].text@).len() < usize::MAX {
        Some((sources[i].path@, sources[i].text@))
    } else {
        None
    }
}

/// Path and text of each file.
pub open spec fn paths_and_texts(files: Seq<FileSemanticData>) -> Seq<(Seq<char>, Seq<char>)> {
    files.map_values(|f: FileSemanticData| (f.path@, f.source@))
}

/// The files of a workspace with the links between them: who imports from
/// whom, and where re-exports come from.
#[derive(Debug, Clone)]
pub struct WorkspaceAnalyzer {
    /// The analysed files. A path stands for the first file that has it.
    pub files: Vec<FileSemanticData>,
    /// The projects of the workspace.
    pub projects: Vec<Project>,
    /// For each file, the imports that resolve to it: the index of the
    /// importing file and of the import in it.
    pub import_index: Vec<Vec<(usize, usize)>>,
    /// For each file and each of its exports, the file that it re-exports
    /// from.
    pub export_links: Vec<Vec<Option<usize>>>,
}

impl WorkspaceAnalyzer {
    /// The files are well formed and every link points at a file, every
    /// index entry at an import.
    pub open spec fn wf(&self) -> bool {
        &&& forall|f: int| 0 <= f < self.files@.len() ==> (#[trigger] self.files@[f]).wf()
        &&& self.import_index@.len() == self.files@.len()
        &&& forall|f: int, j: int|
            0 <= f < self.import_index@.len() && 0 <= j < self.import_index@[f]@.len() ==> {
                let entry = #[trigger] self.import_index@[f]@[j];
                entry.0 < self.files@.len() && entry.1 < self.files@[entry.0 as int].imports@.len()
            }
        &&& self.export_links@.len() == self.files@.len()
        &&& forall|f: int|
            0 <= f < self.files@.len() ==> (#[trigger] self.export_links@[f])@.len()
                == self.files@[f].exports@.len()
        &&& forall|f: int, k: int|
            0 <= f < self.export_links@.len() && 0 <= k < self.export_links@[f]@.len() ==> match (
            #[trigger] self.export_links@[f]@[k]) {
                Some(t) => t < self.files@.len(),
                None => true,
            }
    }

    /// The links say what the resolved paths of the files say: a file is
    /// imported from by exactly the imports that resolve to its path, in the
    /// order of the files and of their imports; an export is linked to the
    /// file that has the path it resolves to.
    pub open spec fn linked(&self) -> bool {
        &&& forall|f: int|
            0 <= f < self.files@.len() ==> (#[trigger] self.import_index@[f])@ == importers_of(
                self.files@,
                f,
                self.files@.len() as int,
            )
        &&& forall|f: int, k: int|
            0 <= f < self.export_links@.len() && 0 <= k < self.export_links@[f]@.len() ==> match (
            #[trigger] self.export_links@[f]@[k]) {
                Some(t) => export_target(self.files@, f, k) == Some(t as int),
                None => export_target(self.files@, f, k) is None,
            }
    }

    /// Whether the analyzer is well formed.
    pub fn is_well_formed(&self) -> (r: bool)
        ensures
            r == self.wf(),
    {
        let n = self.files.len();
        if self.import_index.len() != n || self.export_links.len() != n {
            return false;
        }
        let mut f: usize = 0;
        while f < n
            invariant
                f <= n,
                n == self.files@.len(),
                self.import_index@.len() == n,
                self.export_links@.len() == n,
                forall|t: int| 0 <= t < f ==> (#[trigger] self.files@[t]).wf(),
                forall|t: int, j: int|
                    0 <= t < f && 0 <= j < self.import_index@[t]@.len() ==> {
                        let entry = #[trigger] self.import_index@[t]@[j];
                        entry.0 < self.files@.len() && entry.1 < self.files@[entry.0 as int].imports@.len()
                    },
                forall|t: int|
                    0 <= t < f ==> (#[trigger] self.export_links@[t])@.len() == self.files@[t].exports@.len(),
                forall|t: int, k: int|
                    0 <= t < f && 0 <= k < self.export_links@[t]@.len() ==> match (
                    #[trigger] self.export_links@[t]@[k]) {
                        Some(x) => x < self.files@.len(),
                        None => true,
                    },
            decreases n - f,
        {
            if !self.files[f].is_well_formed() || self.export_links[f].len() != self.files[f].exports.len() {
                return false;
            }
            let entries = &self.import_index[f];
            let mut j: usize = 0;
            while j < entries.len()
                invariant
                    j <= entries.len(),
                    f < n,
                    n == self.files@.len(),
                    entries == &self.import_index@[f as int],
                    forall|w: int|
                        0 <= w < j ==> {
                            let entry = #[trigger] entries@[w];
                            entry.0 < self.files@.len() && entry.1 < self.files@[entry.0 as int].imports@.len()
                        },
                decreases entries.len() - j,
            {
                let (g, k) = entries[j];
                if g >= n || k >= self.files[g].imports.len() {
                    return false;
                }
                j += 1;
            }
            let links = &self.export_links[f];
            let mut k: usize = 0;
            while k < links.len()
                invariant
                    k <= links.len(),
                    f < n,
                    n == self.files@.len(),
                    links == &self.export_links@[f as int],
                    forall|w: int|
                        0 <= w < k ==> match (#[trigger] links@[w]) {
                            Some(x) => x < self.files@.len(),
                            None => true,
                        },
                decreases links.len() - k,
            {
                match links[k] {
                    Some(x) => {
                        if x >= n {
                            return false;
                        }
                    },
                    None => {},
                }
                k += 1;
            }
            f += 1;
        }
        true
    }

    /// The index of the first file with the path `path`.
    pub fn file_index(&self, path: &str) -> (r: Option<usize>)
        ensures
            match r {
                Some(f) => find_path(self.files@, path@, 0) == Some(f as int) && f < self.files@.len(),
                None => find_path(self.files@, path@, 0) is None,
            },
    {
        find_file(&self.files, path)
    }

    /// Parses the sources, resolves what they import and re-export, and links
    /// the files: the analyzer of a workspace from the texts of its files. The
    /// files stand in the order of the sources.
    pub fn analyze_workspace(projects: Vec<Project>, sources: &Vec<SourceText>, resolver: &mut ModuleResolver) -> (analyzer:
        WorkspaceAnalyzer)
        ensures
            analyzer.wf(),
            analyzer.linked(),
            analyzer.projects@ == projects@,
            paths_and_texts(analyzer.files@) == gather(sources@.len() as int, |i: int| analysed_at(sources@, i)),
            forall|f: int| 0 <= f < analyzer.files@.len() ==> (#[trigger] analyzer.files@[f]).is_analysed(),
            forall|f: int|
                0 <= f < analyzer.files@.len() ==> (#[trigger] analyzer.files@[f]).is_resolved_by(
                    final(resolver).cache@,
                ),
            keeps(final(resolver).cache@, old(resolver).cache@),
            final(resolver).cwd@ == old(resolver).cwd@,
            final(resolver).profiler.on() == old(resolver).profiler.on(),
    {
        let mut files: Vec<FileSemanticData> = Vec::new();
        let ghost pick = |i: int| analysed_at(sources@, i);
        let mut i: usize = 0;
        assert(paths_and_texts(files@) =~= gather(0, pick));
        while i < sources.len()
            invariant
                i <= sources.len(),
                pick == |i: int| analysed_at(sources@, i),
                paths_and_texts(files@) == gather(i as int, pick),
                forall|f: int| 0 <= f < files@.len() ==> (#[trigger] files@[f]).wf(),
                forall|f: int| 0 <= f < files@.len() ==> (#[trigger] files@[f]).is_unresolved(),
                forall|f: int| 0 <= f < files@.len() ==> (#[trigger] files@[f]).is_analysed(),
            decreases sources.len() - i,
        {
            let source = &sources[i];
            if source.text.as_str().as_bytes().len() < usize::MAX {
                let ghost before = files@;
                let file = FileSemanticData::analyze_file(source.path.as_str(), source.text.as_str());
                files.push(file);
                assert(paths_and_texts(files@) =~= paths_and_texts(before).push((source.path@, source.text@)));
                assert forall|f: int| 0 <= f < files@.len() implies (#[trigger] files@[f]).is_unresolved()
                    && files@[f].is_analysed() by {
                    if f < before.len() {
                        assert(files@[f] == before[f]);
                    }
                }
                assert forall|f: int| 0 <= f < files@.len() implies (#[trigger] files@[f]).wf() by {
                    if f < before.len() {
                        assert(files@[f] == before[f]);
                    }
                }
            }
            i += 1;
        }
        let ghost parsed = files@;
        resolve_modules(&mut files, resolver);
        proof {
            assert(paths_and_texts(files@) =~= paths_and_texts(parsed)) by {
                assert forall|f: int| 0 <= f < files@.len() implies paths_and_texts(files@)[f] == paths_and_texts(
                    parsed,
                )[f] by {
                    assert(same_but_resolved(files@[f], parsed[f]));
                }
            }
            assert forall|f: int| 0 <= f < files@.len() implies (#[trigger] files@[f]).is_analysed()
                && files@[f].is_resolved_by(resolver.cache@) by {
                let file = files@[f];
                let before = parsed[f];
                assert(same_but_resolved(file, before));
                assert(file_settled(resolver.cache@, file, before));
                assert(before.is_unresolved() && before.is_analysed());
                assert forall|k: int| 0 <= k < file.imports@.len() implies unresolved(file.imports@[k]@) == unresolved(
                    before.imports@[k]@,
                ) by {
                    assert(same_import(file.imports@[k], before.imports@[k]));
                }
                assert(import_views(file.imports@).map_values(|v: ImportView| unresolved(v)) =~= import_views(
                    before.imports@,
                ).map_values(|v: ImportView| unresolved(v)));
                assert forall|k: int| 0 <= k < file.imports@.len() implies remembered(
                    resolver.cache@,
                    file.path@,
                    (#[trigger] file.imports@[k]).from_module@,
                ) == Some(opt_text(file.imports@[k].resolved_file)) by {
                    assert(import_settled(resolver.cache@, file, before, k));
                }
                assert forall|k: int|
                    0 <= k < file.exports@.len() && (#[trigger] file.exports@[k]).re_export_from is Some implies remembered(
                    resolver.cache@,
                    file.path@,
                    file.exports@[k].re_export_from.unwrap()@,
                ) == Some(opt_text(file.export_files@[k])) by {
                    assert(export_settled(resolver.cache@, file, before, k));
                    assert(before.wf());
                }
            }
        }
        WorkspaceAnalyzer::new(projects, files)
    }

    /// The analyzer of `files`, with the links that their resolved paths give.
    pub fn new(projects: Vec<Project>, files: Vec<FileSemanticData>) -> (analyzer: WorkspaceAnalyzer)
        requires
            forall|f: int| 0 <= f < files@.len() ==> (#[trigger] files@[f]).wf(),
        ensures
            analyzer.wf(),
            analyzer.linked(),
            analyzer.files@ == files@,
            analyzer.projects@ == projects@,
    {
        let import_index = build_import_index(&files);
        let export_links = build_export_links(&files);
        WorkspaceAnalyzer { files, projects, import_index, export_links }
    }

    /// The places where `symbol_name` is used inside the file `file_path`.
    /// A path that is none of the files' is an error.
    pub fn find_local_references(&self, file_path: &str, symbol_name: &str) -> (r: Result<
        Vec<Reference>,
        DominoError,
    >)
        requires
            self.wf(),
        ensures
            match r {
                Ok(refs) => find_path(self.files@, file_path@, 0) is Some && reference_views(refs@)
                    == self.files@[find_path(self.files@, file_path@, 0).unwrap()].local_uses(
                    symbol_name@,
                ).map_values(
                    |at: (usize, usize)|
                        ReferenceView { file_path: file_path@, line: at.0 as nat, column: at.1 as nat },
                ),
                Err(e) => find_path(self.files@, file_path@, 0) is None && e.is_missing_file(file_path@),
            },
    {
        let f = match self.file_index(file_path) {
            Some(f) => f,
            None => {
                return Err(DominoError::FileNotFound(file_path.to_owned()));
            },
        };
        let uses = self.files[f].local_positions(symbol_name);
        let ghost expected = uses@.map_values(
            |at: (usize, usize)|
                ReferenceView { file_path: file_path@, line: at.0 as nat, column: at.1 as nat },
        );
        let mut refs: Vec<Reference> = Vec::new();
        let mut i: usize = 0;
        while i < uses.len()
            invariant
                i <= uses.len(),
                expected == uses@.map_values(
                    |at: (usize, usize)|
                        ReferenceView { file_path: file_path@, line: at.0 as nat, column: at.1 as nat },
                ),
                reference_views(refs@) == expected.take(i as int),
            decreases uses.len() - i,
        {
            let (line, column) = uses[i];
            let ghost before = reference_views(refs@);
            let reference = Reference { file_path: file_path.to_owned(), line, column };
            refs.push(reference);
            assert(reference_views(refs@) =~= before.push(reference@));
            assert(expected.take(i + 1) =~= expected.take(i as int).push(expected[i as int]));
            i += 1;
        }
        assert(expected.take(uses.len() as int) =~= expected);
        Ok(refs)
    }

    /// Whether the file `file_path` exports `symbol_name`. No file, no export.
    pub fn is_symbol_exported(&self, file_path: &str, symbol_name: &str) -> (r: bool)
        ensures
            r == match find_path(self.files@, file_path@, 0) {
                Some(f) => self.files@[f].exports_symbol(symbol_name@),
                None => false,
            },
    {
        match self.file_index(file_path) {
            Some(f) => self.files[f].exports_name(symbol_name),
            None => false,
        }
    }

    /// The exported symbols of `file_path` that use `local_symbol`. No file,
    /// no such symbols.
    pub fn find_exported_symbols_using(&self, file_path: &str, local_symbol: &str) -> (r: Result<
        Vec<String>,
        DominoError,
    >)
        requires
            self.wf(),
        ensures
            r matches Ok(names) && texts(names@) == match find_path(self.files@, file_path@, 0) {
                Some(f) => self.files@[f].exports_using(local_symbol@),
                None => Seq::<Seq<char>>::empty(),
            },
    {
        match self.file_index(file_path) {
            Some(f) => Ok(self.files[f].exported_names_using(local_symbol)),
            None => {
                let names: Vec<String> = Vec::new();
                assert(texts(names@) =~= Seq::<Seq<char>>::empty());
                Ok(names)
            },
        }
    }

    /// The top-level symbol of `file_path` that contains the position: the
    /// smallest node that covers it decides, and from there the export
    /// statement around it, else the outermost named declaration. A path
    /// that is none of the files' is an error.
    pub fn find_node_at_line(&self, file_path: &str, line: usize, column: usize) -> (r: Result<
        Option<String>,
        DominoError,
    >)
        requires
            self.wf(),
        ensures
            match r {
                Ok(name) => find_path(self.files@, file_path@, 0) is Some && opt_text(name)
                    == self.files@[find_path(self.files@, file_path@, 0).unwrap()].symbol_at(line, column),
                Err(e) => find_path(self.files@, file_path@, 0) is None && e.is_missing_file(file_path@),
            },
    {
        match self.file_index(file_path) {
            Some(f) => Ok(self.files[f].symbol_at_position(line, column)),
            None => Err(DominoError::FileNotFound(file_path.to_owned())),
        }
    }
}

/// The views of a list of references.
pub open spec fn reference_views(refs: Seq<Reference>) -> Seq<ReferenceView> {
    refs.map_values(|r: Reference| r@)
}

fn find_file(files: &Vec<FileSemanticData>, path: &str) -> (r: Option<usize>)
    ensures
        match r {
            Some(f) => find_path(files@, path@, 0) == Some(f as int) && f < files@.len(),
            None => find_path(files@, path@, 0) is None,
        },
{
    let mut f: usize = 0;
    while f < files.len()
        invariant
            f <= files.len(),
            find_path(files@, path@, 0) == find_path(files@, path@, f as int),
        decreases files.len() - f,
    {
        if is_same_path(files[f].path.as_str(), path) {
            return Some(f);
        }
        f += 1;
    }
    None
}

fn find_target(files: &Vec<FileSemanticData>, path: &Option<String>) -> (r: Option<usize>)
    ensures
        match r {
            Some(t) => *path matches Some(p) && find_path(files@, p@, 0) == Some(t as int) && t < files@.len(),
            None => match *path {
                Some(p) => find_path(files@, p@, 0) is None,
                None => true,
            },
        },
{
    match path {
        Some(p) => find_file(files, p.as_str()),
        None => None,
    }
}

/// The reverse import index: for each file, the imports that resolve to it.
pub fn build_import_index(files: &Vec<FileSemanticData>) -> (index: Vec<Vec<(usize, usize)>>)
    ensures
        index@.len() == files@.len(),
        forall|f: int|
            0 <= f < files@.len() ==> (#[trigger] index@[f])@ == importers_of(files@, f, files@.len() as int),
        forall|f: int, j: int|
            0 <= f < index@.len() && 0 <= j < index@[f]@.len() ==> {
                let entry = #[trigger] index@[f]@[j];
                entry.0 < files@.len() && entry.1 < files@[entry.0 as int].imports@.len()
            },
{
    let n = files.len();
    let mut index: Vec<Vec<(usize, usize)>> = Vec::new();
    let mut f: usize = 0;
    while f < n
        invariant
            f <= n,
            index@.len() == f,
            forall|t: int| 0 <= t < f ==> (#[trigger] index@[t])@ == Seq::<(usize, usize)>::empty(),
        decreases n - f,
    {
        index.push(Vec::new());
        f += 1;
    }
    let mut g: usize = 0;
    while g < n
        invariant
            g <= n,
            n == files@.len(),
            index@.len() == n,
            forall|t: int| 0 <= t < n ==> (#[trigger] index@[t])@ == importers_of(files@, t, g as int),
            forall|t: int, j: int|
                0 <= t < index@.len() && 0 <= j < index@[t]@.len() ==> {
                    let entry = #[trigger] index@[t]@[j];
                    entry.0 < files@.len() && entry.1 < files@[entry.0 as int].imports@.len()
                },
        decreases n - g,
    {
        let imports = &files[g].imports;
        let mut k: usize = 0;
        while k < imports.len()
            invariant
                g < n,
                k <= imports.len(),
                n == files@.len(),
                imports == &files@[g as int].imports,
                index@.len() == n,
                forall|t: int|
                    0 <= t < n ==> (#[trigger] index@[t])@ == importers_of(files@, t, g as int) + importers_in(
                        files@,
                        t,
                        g as int,
                        k as int,
                    ),
                forall|t: int, j: int|
                    0 <= t < index@.len() && 0 <= j < index@[t]@.len() ==> {
                        let entry = #[trigger] index@[t]@[j];
                        entry.0 < files@.len() && entry.1 < files@[entry.0 as int].imports@.len()
                    },
            decreases imports.len() - k,
        {
            let ghost before = index@;
            match find_target(files, &imports[k].resolved_file) {
                Some(target) => {
                    let mut entries: Vec<(usize, usize)> = Vec::new();
                    std::mem::swap(&mut entries, &mut index[target]);
                    entries.push((g, k));
                    std::mem::swap(&mut entries, &mut index[target]);
                    proof {
                        assert(import_target(files@, g as int, k as int) == Some(target as int));
                        assert forall|t: int| 0 <= t < n implies (#[trigger] index@[t])@ == importers_of(
                            files@,
                            t,
                            g as int,
                        ) + importers_in(files@, t, g as int, k + 1) by {
                            if t == target {
                                assert(index@[t]@ =~= before[t]@.push((g, k)));
                            } else {
                                assert(index@[t] == before[t]);
                            }
                        }
                        assert forall|t: int, j: int|
                            0 <= t < index@.len() && 0 <= j < index@[t]@.len() implies {
                            let entry = #[trigger] index@[t]@[j];
                            entry.0 < files@.len() && entry.1 < files@[entry.0 as int].imports@.len()
                        } by {
                            if t == target {
                                if j < before[t]@.len() {
                                    assert(index@[t]@[j] == before[t]@[j]);
                                }
                            } else {
                                assert(index@[t] == before[t]);
                            }
                        }
                    }
                },
                None => {
                    assert(import_target(files@, g as int, k as int) is None);
                },
            }
            k += 1;
        }
        g += 1;
    }
    index
}

/// For each export of each file, the file that it re-exports from.
pub fn build_export_links(files: &Vec<FileSemanticData>) -> (links: Vec<Vec<Option<usize>>>)
    requires
        forall|f: int| 0 <= f < files@.len() ==> (#[trigger] files@[f]).wf(),
    ensures
        links@.len() == files@.len(),
        forall|f: int| 0 <= f < files@.len() ==> (#[trigger] links@[f])@.len() == files@[f].exports@.len(),
        forall|f: int, k: int|
            0 <= f < links@.len() && 0 <= k < links@[f]@.len() ==> match (#[trigger] links@[f]@[k]) {
                Some(t) => export_target(files@, f, k) == Some(t as int) && t < files@.len(),
                None => export_target(files@, f, k) is None,
            },
{
    let mut links: Vec<Vec<Option<usize>>> = Vec::new();
    let mut f: usize = 0;
    while f < files.len()
        invariant
            f <= files.len(),
            links@.len() == f,
            forall|t: int| 0 <= t < files@.len() ==> (#[trigger] files@[t]).wf(),
            forall|t: int| 0 <= t < f ==> (#[trigger] links@[t])@.len() == files@[t].exports@.len(),
            forall|t: int, k: int|
                0 <= t < links@.len() && 0 <= k < links@[t]@.len() ==> match (#[trigger] links@[t]@[k]) {
                    Some(x) => export_target(files@, t, k) == Some(x as int) && x < files@.len(),
                    None => export_target(files@, t, k) is None,
                },
        decreases files.len() - f,
    {
        let targets = &files[f].export_files;
        assert(files@[f as int].wf());
        let mut row: Vec<Option<usize>> = Vec::new();
        let mut k: usize = 0;
        while k < targets.len()
            invariant
                f < files.len(),
                k <= targets.len(),
                targets == &files@[f as int].export_files,
                row@.len() == k,
                forall|j: int|
                    0 <= j < k ==> match (#[trigger] row@[j]) {
                        Some(x) => export_target(files@, f as int, j) == Some(x as int) && x < files@.len(),
                        None => export_target(files@, f as int, j) is None,
                    },
            decreases targets.len() - k,
        {
            row.push(find_target(files, &targets[k]));
            k += 1;
        }
        let ghost before = links@;
        links.push(row);
        assert forall|t: int, k: int| 0 <= t < links@.len() && 0 <= k < links@[t]@.len() implies match (
        #[trigger] links@[t]@[k]) {
            Some(x) => export_target(files@, t, k) == Some(x as int) && x < files@.len(),
            None => export_target(files@, t, k) is None,
        } by {
            if t < f {
                assert(links@[t] == before[t]);
            }
        }
        f += 1;
    }
    links
}

} // verus!
