//! Where a symbol of one file is used in other files: through imports, and
//! through the files that re-export it.

use vstd::prelude::*;
use crate::error::DominoError;
use crate::graph::{closure, reaches, views, Expansion, KeyView, SymbolKey};
use crate::semantic::analyzer::{find_path, reference_views, FileSemanticData, WorkspaceAnalyzer};
use crate::seqs::{gather, lemma_gather_contains};
use crate::text::str_eq;
use crate::types::{ExportView, Reference, ReferenceView};
use crate::utils::{lemma_line_col_bound, offset_to_line_col};

verus! {

/// A use site: a file, by index, and the offset of the byte in it where the
/// use starts. Without an offset it stands for the whole file.
#[derive(Debug, Clone, Copy, PartialEq, Eq, Structural)]
pub struct Site {
    pub file: usize,
    pub offset: Option<usize>,
}

/// The export hands on the binding `name` of its file: from that local name,
/// or under that very name.
pub open spec fn hands_on(e: ExportView, name: Seq<char>) -> bool {
    e.local_name == Some(name) || (e.exported_name == name && e.local_name is None)
}

/// The file exports its binding `name` again.
pub open spec fn re_exports(file: FileSemanticData, name: Seq<char>) -> bool {
    exists|k: int| 0 <= k < file.exports@.len() && hands_on(#[trigger] file.exports@[k]@, name)
}

/// The key that entry `j` of the import index of the file of `from` leads
/// to: an importer of the symbol that exports it again, under its local name.
pub open spec fn importer_edge(a: &WorkspaceAnalyzer, from: KeyView, j: int) -> Option<KeyView> {
    let entry = a.import_index@[from.0]@[j];
    let import = a.files@[entry.0 as int].imports@[entry.1 as int]@;
    if import.imported_name == from.1 && re_exports(a.files@[entry.0 as int], import.local_name) {
        Some((entry.0 as int, import.local_name))
    } else {
        None
    }
}

/// The key that export `k` of the file of `from` leads to: where the file
/// re-exports the symbol from another file, the symbol in that file.
pub open spec fn forward_edge(a: &WorkspaceAnalyzer, from: KeyView, k: int) -> Option<KeyView> {
    let e = a.files@[from.0].exports@[k]@;
    if (e.exported_name == from.1 || e.local_name == Some(from.1)) && e.re_export_from is Some {
        match a.export_links@[from.0]@[k] {
            Some(t) => Some((t as int, from.1)),
            None => None,
        }
    } else {
        None
    }
}

/// The key that export `k` of file `x` leads to from `from`: where `x`
/// re-exports from the file of `from`, the symbol as `x` exports it. A
/// wildcard keeps the name; a named re-export of the symbol gives its
/// exported name.
pub open spec fn backward_edge(a: &WorkspaceAnalyzer, from: KeyView, x: int, k: int) -> Option<KeyView> {
    let e = a.files@[x].exports@[k]@;
    let linked = match a.export_links@[x]@[k] {
        Some(t) => t as int == from.0,
        None => false,
    };
    if e.re_export_from is Some && linked {
        if e.exported_name == "*"@ {
            Some((x, from.1))
        } else if e.inner_name() == from.1 {
            Some((x, e.exported_name))
        } else {
            None
        }
    } else {
        None
    }
}

/// The keys that the exports of file `x` lead to from `from`.
pub open spec fn backward_edges_in(a: &WorkspaceAnalyzer, from: KeyView, x: int, count: int) -> Seq<KeyView> {
    gather(count, |k: int| backward_edge(a, from, x, k))
}

/// The keys that the exports of the first `count` files lead to from `from`.
pub open spec fn backward_edges(a: &WorkspaceAnalyzer, from: KeyView, count: int) -> Seq<KeyView>
    decreases count,
{
    if count <= 0 || count > a.files@.len() {
        Seq::empty()
    } else {
        backward_edges(a, from, count - 1) + backward_edges_in(
            a,
            from,
            count - 1,
            a.files@[count - 1].exports@.len() as int,
        )
    }
}

/// The keys one step along a re-export chain from `from`.
pub open spec fn chain_successors(a: &WorkspaceAnalyzer, from: KeyView) -> Seq<KeyView> {
    if !(0 <= from.0 < a.files@.len()) {
        Seq::empty()
    } else {
        gather(a.import_index@[from.0]@.len() as int, |j: int| importer_edge(a, from, j)) + gather(
            a.files@[from.0].exports@.len() as int,
            |k: int| forward_edge(a, from, k),
        ) + backward_edges(a, from, a.files@.len() as int)
    }
}

/// The local names of the imports of the first `count` files.
pub open spec fn import_locals(files: Seq<FileSemanticData>, count: int) -> Seq<Seq<char>>
    decreases count,
{
    if count <= 0 || count > files.len() {
        Seq::empty()
    } else {
        import_locals(files, count - 1) + files[count - 1].imports@.map_values(
            |i: crate::types::Import| i.local_name@,
        )
    }
}

/// The exported names of the exports of the first `count` files.
pub open spec fn export_names(files: Seq<FileSemanticData>, count: int) -> Seq<Seq<char>>
    decreases count,
{
    if count <= 0 || count > files.len() {
        Seq::empty()
    } else {
        export_names(files, count - 1) + files[count - 1].exports@.map_values(
            |e: crate::types::Export| e.exported_name@,
        )
    }
}

/// Every name paired with every file below `count`.
pub open spec fn key_space(count: int, names: Seq<Seq<char>>) -> Seq<KeyView>
    decreases count,
{
    if count <= 0 {
        Seq::empty()
    } else {
        key_space(count - 1, names) + names.map_values(|n: Seq<char>| (count - 1, n))
    }
}

/// Every name paired with a file below `count` is in the key space.
pub proof fn lemma_key_space(count: int, names: Seq<Seq<char>>, file: int, name: Seq<char>)
    requires
        0 <= file < count,
        names.contains(name),
    ensures
        key_space(count, names).contains((file, name)),
    decreases count,
{
    let last = names.map_values(|n: Seq<char>| (count - 1, n));
    let before = key_space(count - 1, names);
    if file == count - 1 {
        let i = choose|i: int| 0 <= i < names.len() && names[i] == name;
        assert(last[i] == (file, name));
        assert((before + last)[before.len() + i] == (file, name));
    } else {
        lemma_key_space(count - 1, names, file, name);
        let i = choose|i: int| 0 <= i < before.len() && before[i] == (file, name);
        assert((before + last)[i] == (file, name));
    }
}

/// Every key of the key space pairs a file below `count` with one of the names.
pub proof fn lemma_key_space_names(count: int, names: Seq<Seq<char>>, key: KeyView)
    requires
        key_space(count, names).contains(key),
    ensures
        0 <= key.0 < count,
        names.contains(key.1),
    decreases count,
{
    if count <= 0 {
    } else {
        let last = names.map_values(|n: Seq<char>| (count - 1, n));
        let before = key_space(count - 1, names);
        let i = choose|i: int| 0 <= i < (before + last).len() && (before + last)[i] == key;
        if i < before.len() {
            assert(before[i] == key);
            lemma_key_space_names(count - 1, names, key);
        } else {
            assert(last[i - before.len()] == key);
            assert(names[i - before.len()] == key.1);
        }
    }
}

/// The local name of every import of the first `count` files is listed.
pub proof fn lemma_import_locals(files: Seq<FileSemanticData>, count: int, g: int, k: int)
    requires
        0 <= g < count <= files.len(),
        0 <= k < files[g].imports@.len(),
    ensures
        import_locals(files, count).contains(files[g].imports@[k].local_name@),
    decreases count,
{
    let before = import_locals(files, count - 1);
    let last = files[count - 1].imports@.map_values(|i: crate::types::Import| i.local_name@);
    if g == count - 1 {
        assert((before + last)[before.len() + k] == files[g].imports@[k].local_name@);
    } else {
        lemma_import_locals(files, count - 1, g, k);
        let i = choose|i: int| 0 <= i < before.len() && before[i] == files[g].imports@[k].local_name@;
        assert((before + last)[i] == files[g].imports@[k].local_name@);
    }
}

/// The exported name of every export of the first `count` files is listed.
pub proof fn lemma_export_names(files: Seq<FileSemanticData>, count: int, g: int, k: int)
    requires
        0 <= g < count <= files.len(),
        0 <= k < files[g].exports@.len(),
    ensures
        export_names(files, count).contains(files[g].exports@[k].exported_name@),
    decreases count,
{
    let before = export_names(files, count - 1);
    let last = files[count - 1].exports@.map_values(|e: crate::types::Export| e.exported_name@);
    if g == count - 1 {
        assert((before + last)[before.len() + k] == files[g].exports@[k].exported_name@);
    } else {
        lemma_export_names(files, count - 1, g, k);
        let i = choose|i: int| 0 <= i < before.len() && before[i] == files[g].exports@[k].exported_name@;
        assert((before + last)[i] == files[g].exports@[k].exported_name@);
    }
}

/// The names that a chain that starts at the name `seed` can pass through.
pub open spec fn chain_names(a: &WorkspaceAnalyzer, seed: Seq<char>) -> Seq<Seq<char>> {
    seq![seed] + import_locals(a.files@, a.files@.len() as int) + export_names(
        a.files@,
        a.files@.len() as int,
    )
}

/// The re-export chains of a workspace, for a symbol named `seed`.
pub struct ReexportChain<'a> {
    pub analyzer: &'a WorkspaceAnalyzer,
    pub seed: Ghost<Seq<char>>,
}

/// Whether `file` exports its binding `name` again.
pub fn is_re_exported(file: &FileSemanticData, name: &str) -> (r: bool)
    ensures
        r == re_exports(*file, name@),
{
    let mut k: usize = 0;
    while k < file.exports.len()
        invariant
            k <= file.exports.len(),
            forall|j: int| 0 <= j < k ==> !hands_on(#[trigger] file.exports@[j]@, name@),
        decreases file.exports.len() - k,
    {
        let e = &file.exports[k];
        let hit = match &e.local_name {
            Some(local) => str_eq(local.as_str(), name),
            None => str_eq(e.exported_name.as_str(), name),
        };
        if hit {
            assert(hands_on(file.exports@[k as int]@, name@));
            return true;
        }
        k += 1;
    }
    false
}

impl<'a> ReexportChain<'a> {
    fn importer_edges(&self, key: &SymbolKey) -> (out: Vec<SymbolKey>)
        requires
            self.analyzer.wf(),
            key.file < self.analyzer.files@.len(),
        ensures
            views(out@) == gather(
                self.analyzer.import_index@[key.file as int]@.len() as int,
                |j: int| importer_edge(self.analyzer, key@, j),
            ),
    {
        let a = self.analyzer;
        let entries = &a.import_index[key.file];
        let ghost pick = |j: int| importer_edge(a, key@, j);
        let mut out: Vec<SymbolKey> = Vec::new();
        let mut j: usize = 0;
        assert(views(out@) =~= gather(0, pick));
        while j < entries.len()
            invariant
                j <= entries.len(),
                a == self.analyzer,
                a.wf(),
                key.file < a.files@.len(),
                entries == &a.import_index@[key.file as int],
                pick == |j: int| importer_edge(a, key@, j),
                views(out@) == gather(j as int, pick),
            decreases entries.len() - j,
        {
            let (g, k) = entries[j];
            assert(entries@[j as int] == a.import_index@[key.file as int]@[j as int]);
            let import = &a.files[g].imports[k];
            if str_eq(import.imported_name.as_str(), key.name.as_str()) && is_re_exported(
                &a.files[g],
                import.local_name.as_str(),
            ) {
                let ghost before = views(out@);
                let next = SymbolKey::new(g, import.local_name.as_str());
                out.push(next);
                assert(views(out@) =~= before.push((g as int, import.local_name@)));
            }
            j += 1;
        }
        out
    }

    fn forward_edges(&self, key: &SymbolKey) -> (out: Vec<SymbolKey>)
        requires
            self.analyzer.wf(),
            key.file < self.analyzer.files@.len(),
        ensures
            views(out@) == gather(
                self.analyzer.files@[key.file as int].exports@.len() as int,
                |k: int| forward_edge(self.analyzer, key@, k),
            ),
    {
        let a = self.analyzer;
        let exports = &a.files[key.file].exports;
        let ghost pick = |k: int| forward_edge(a, key@, k);
        let mut out: Vec<SymbolKey> = Vec::new();
        let mut k: usize = 0;
        assert(views(out@) =~= gather(0, pick));
        while k < exports.len()
            invariant
                k <= exports.len(),
                a == self.analyzer,
                a.wf(),
                key.file < a.files@.len(),
                exports == &a.files@[key.file as int].exports,
                pick == |k: int| forward_edge(a, key@, k),
                views(out@) == gather(k as int, pick),
            decreases exports.len() - k,
        {
            let e = &exports[k];
            let local_hit = match &e.local_name {
                Some(local) => str_eq(local.as_str(), key.name.as_str()),
                None => false,
            };
            if (str_eq(e.exported_name.as_str(), key.name.as_str()) || local_hit) && e.re_export_from.is_some() {
                match a.export_links[key.file][k] {
                    Some(t) => {
                        let ghost before = views(out@);
                        out.push(SymbolKey::new(t, key.name.as_str()));
                        assert(views(out@) =~= before.push((t as int, key.name@)));
                    },
                    None => {},
                }
            }
            k += 1;
        }
        out
    }

    fn backward_edges_of(&self, key: &SymbolKey) -> (out: Vec<SymbolKey>)
        requires
            self.analyzer.wf(),
            key.file < self.analyzer.files@.len(),
        ensures
            views(out@) == backward_edges(self.analyzer, key@, self.analyzer.files@.len() as int),
    {
        let a = self.analyzer;
        let mut out: Vec<SymbolKey> = Vec::new();
        let mut x: usize = 0;
        assert(views(out@) =~= backward_edges(a, key@, 0));
        while x < a.files.len()
            invariant
                x <= a.files.len(),
                a == self.analyzer,
                a.wf(),
                views(out@) == backward_edges(a, key@, x as int),
            decreases a.files.len() - x,
        {
            let exports = &a.files[x].exports;
            let ghost pick = |k: int| backward_edge(a, key@, x as int, k);
            let ghost done = views(out@);
            let mut k: usize = 0;
            assert(views(out@) =~= done + gather(0, pick));
            while k < exports.len()
                invariant
                    x < a.files.len(),
                    k <= exports.len(),
                    a.wf(),
                    exports == &a.files@[x as int].exports,
                    pick == |k: int| backward_edge(a, key@, x as int, k),
                    views(out@) == done + gather(k as int, pick),
                decreases exports.len() - k,
            {
                let e = &exports[k];
                let linked = match a.export_links[x][k] {
                    Some(t) => t == key.file,
                    None => false,
                };
                if e.re_export_from.is_some() && linked {
                    let ghost before = views(out@);
                    if str_eq(e.exported_name.as_str(), "*") {
                        out.push(SymbolKey::new(x, key.name.as_str()));
                        assert(views(out@) =~= before.push((x as int, key.name@)));
                    } else {
                        let inner: &String = match &e.local_name {
                            Some(local) => local,
                            None => &e.exported_name,
                        };
                        assert(inner@ == e@.inner_name());
                        if str_eq(inner.as_str(), key.name.as_str()) {
                            out.push(SymbolKey::new(x, e.exported_name.as_str()));
                            assert(views(out@) =~= before.push((x as int, e.exported_name@)));
                        }
                    }
                }
                k += 1;
            }
            x += 1;
        }
        out
    }
}

proof fn lemma_backward_edges_contains(a: &WorkspaceAnalyzer, from: KeyView, count: int, to: KeyView)
    requires
        0 <= count <= a.files@.len(),
        backward_edges(a, from, count).contains(to),
    ensures
        exists|x: int, k: int|
            0 <= x < count && 0 <= k < a.files@[x].exports@.len() && #[trigger] backward_edge(a, from, x, k)
                == Some(to),
    decreases count,
{
    if count > 0 {
        let before = backward_edges(a, from, count - 1);
        let last = backward_edges_in(a, from, count - 1, a.files@[count - 1].exports@.len() as int);
        let i = choose|i: int| 0 <= i < (before + last).len() && (before + last)[i] == to;
        if i < before.len() {
            assert(before[i] == to);
            lemma_backward_edges_contains(a, from, count - 1, to);
        } else {
            assert(last[i - before.len()] == to);
            let pick = |k: int| backward_edge(a, from, count - 1, k);
            lemma_gather_contains(a.files@[count - 1].exports@.len() as int, pick, to);
            let k = choose|k: int|
                0 <= k < a.files@[count - 1].exports@.len() && #[trigger] pick(k) == Some(to);
            assert(backward_edge(a, from, count - 1, k) == Some(to));
        }
    }
}

impl<'a> Expansion for ReexportChain<'a> {
    open spec fn inv(&self) -> bool {
        self.analyzer.wf()
    }

    open spec fn domain(&self) -> Seq<KeyView> {
        key_space(self.analyzer.files@.len() as int, chain_names(self.analyzer, self.seed@))
    }

    open spec fn edge(&self, from: KeyView, to: KeyView) -> bool {
        chain_successors(self.analyzer, from).contains(to)
    }

    fn expand(&self, key: &SymbolKey) -> (out: Vec<SymbolKey>) {
        let a = self.analyzer;
        proof {
            lemma_key_space_names(a.files@.len() as int, chain_names(a, self.seed@), key@);
        }
        let mut out = self.importer_edges(key);
        let mut forward = self.forward_edges(key);
        let mut backward = self.backward_edges_of(key);
        let ghost first = views(out@);
        let ghost second = views(forward@);
        let ghost third = views(backward@);
        out.append(&mut forward);
        assert(views(out@) =~= first + second);
        out.append(&mut backward);
        assert(views(out@) =~= first + second + third);
        assert(views(out@) == chain_successors(a, key@));
        proof {
            let names = chain_names(a, self.seed@);
            let n = a.files@.len() as int;
            let locals = import_locals(a.files@, n);
            let exported = export_names(a.files@, n);
            assert forall|i: int| 0 <= i < out.len() implies self.domain().contains(#[trigger] out[i]@) by {
                let to = views(out@)[i];
                assert(to == out[i]@);
                assert(names.contains(key@.1));
                if i < first.len() {
                    assert(first[i] == to);
                    let pick = |j: int| importer_edge(a, key@, j);
                    lemma_gather_contains(a.import_index@[key.file as int]@.len() as int, pick, to);
                    let j = choose|j: int|
                        0 <= j < a.import_index@[key.file as int]@.len() && #[trigger] pick(j) == Some(to);
                    assert(importer_edge(a, key@, j) == Some(to));
                    let entry = a.import_index@[key.file as int]@[j];
                    lemma_import_locals(a.files@, n, entry.0 as int, entry.1 as int);
                    let w = choose|w: int| 0 <= w < locals.len() && locals[w] == to.1;
                    assert(names[1 + w] == to.1);
                    lemma_key_space(n, names, to.0, to.1);
                } else if i < first.len() + second.len() {
                    assert(second[i - first.len()] == to);
                    let pick = |k: int| forward_edge(a, key@, k);
                    lemma_gather_contains(a.files@[key.file as int].exports@.len() as int, pick, to);
                    let k = choose|k: int|
                        0 <= k < a.files@[key.file as int].exports@.len() && #[trigger] pick(k) == Some(to);
                    assert(forward_edge(a, key@, k) == Some(to));
                    assert(a.export_links@[key.file as int]@[k] is Some);
                    lemma_key_space(n, names, to.0, to.1);
                } else {
                    assert(third[i - first.len() - second.len()] == to);
                    assert(third.contains(to));
                    lemma_backward_edges_contains(a, key@, n, to);
                    let (x, k) = choose|x: int, k: int|
                        0 <= x < n && 0 <= k < a.files@[x].exports@.len() && #[trigger] backward_edge(
                            a,
                            key@,
                            x,
                            k,
                        ) == Some(to);
                    lemma_export_names(a.files@, n, x, k);
                    if to.1 != key@.1 {
                        let w = choose|w: int|
                            0 <= w < exported.len() && exported[w] == a.files@[x].exports@[k].exported_name@;
                        assert(names[1 + locals.len() + w] == to.1);
                    }
                    lemma_key_space(n, names, to.0, to.1);
                }
            }
        }
        out
    }
}

/// The uses of `name` in file `g`, as sites.
pub open spec fn local_sites(a: &WorkspaceAnalyzer, g: int, name: Seq<char>) -> Seq<Site> {
    a.files@[g].local_offsets(name).map_values(|offset: usize| Site { file: g as usize, offset: Some(offset) })
}

/// The sites that entry `j` of the import index of the file of `key` gives:
/// an import of the symbol gives the uses of its local name; an import of
/// the whole namespace gives the uses of the namespace, or, where it is an
/// `import()`, the whole importing file.
pub open spec fn entry_sites(a: &WorkspaceAnalyzer, key: KeyView, j: int) -> Seq<Site> {
    let entry = a.import_index@[key.0]@[j];
    let import = a.files@[entry.0 as int].imports@[entry.1 as int]@;
    let named = if import.imported_name == key.1 {
        local_sites(a, entry.0 as int, import.local_name)
    } else {
        Seq::empty()
    };
    let whole = if import.imported_name == "*"@ {
        if import.is_dynamic {
            seq![Site { file: entry.0, offset: None }]
        } else {
            local_sites(a, entry.0 as int, import.local_name)
        }
    } else {
        Seq::empty()
    };
    named + whole
}

/// The sites that the first `count` entries of the import index give.
pub open spec fn direct_sites(a: &WorkspaceAnalyzer, key: KeyView, count: int) -> Seq<Site>
    decreases count,
{
    if count <= 0 {
        Seq::empty()
    } else {
        direct_sites(a, key, count - 1) + entry_sites(a, key, count - 1)
    }
}

/// The sites where the symbol `key` is used by the files that import it from
/// its file.
pub open spec fn sites_of(a: &WorkspaceAnalyzer, key: KeyView) -> Seq<Site> {
    if 0 <= key.0 < a.files@.len() {
        direct_sites(a, key, a.import_index@[key.0]@.len() as int)
    } else {
        Seq::empty()
    }
}

/// `to` is reached from the symbol `name` of file `file` along re-exports.
pub open spec fn chain_reaches(a: &WorkspaceAnalyzer, file: int, name: Seq<char>, to: KeyView) -> bool {
    reaches(&ReexportChain { analyzer: a, seed: Ghost(name) }, (file, name), to)
}

/// `site` is a use, in another file, of the symbol `name` of file `file`:
/// a use by an importer of the symbol or of anything that a chain of
/// re-exports turns it into.
pub open spec fn is_cross_site(a: &WorkspaceAnalyzer, file: int, name: Seq<char>, site: Site) -> bool {
    exists|k: KeyView| chain_reaches(a, file, name, k) && #[trigger] sites_of(a, k).contains(site)
}

/// `v` stands for a use, in another file, of the symbol `name` of file `file`.
pub open spec fn is_cross_reference(a: &WorkspaceAnalyzer, file: int, name: Seq<char>, v: ReferenceView) -> bool {
    exists|site: Site| #[trigger] is_cross_site(a, file, name, site) && v == site_reference(a, site)
}

/// The reference that stands for `site`: line and column of the use,
/// counted from 1; line 0 and column 0 for a whole file.
pub open spec fn site_reference(a: &WorkspaceAnalyzer, site: Site) -> ReferenceView {
    let file = a.files@[site.file as int];
    match site.offset {
        Some(offset) => ReferenceView {
            file_path: file.path@,
            line: file.position(offset).0 as nat,
            column: file.position(offset).1 as nat,
        },
        None => ReferenceView { file_path: file.path@, line: 0, column: 0 },
    }
}

fn push_local_sites(a: &WorkspaceAnalyzer, g: usize, name: &str, out: &mut Vec<Site>)
    requires
        a.wf(),
        g < a.files@.len(),
    ensures
        final(out)@ == old(out)@ + local_sites(a, g as int, name@),
{
    let uses = a.files[g].use_offsets(name);
    let ghost all = local_sites(a, g as int, name@);
    let mut i: usize = 0;
    assert(out@ =~= old(out)@ + all.take(0));
    while i < uses.len()
        invariant
            i <= uses.len(),
            uses@ == a.files@[g as int].local_offsets(name@),
            all == local_sites(a, g as int, name@),
            out@ == old(out)@ + all.take(i as int),
        decreases uses.len() - i,
    {
        out.push(Site { file: g, offset: Some(uses[i]) });
        assert(all.take(i + 1) =~= all.take(i as int).push(all[i as int]));
        assert(out@ =~= old(out)@ + all.take(i + 1));
        i += 1;
    }
    assert(all.take(uses.len() as int) =~= all);
}

fn push_sites_of(a: &WorkspaceAnalyzer, key: &SymbolKey, out: &mut Vec<Site>)
    requires
        a.wf(),
    ensures
        final(out)@ == old(out)@ + sites_of(a, key@),
{
    if key.file >= a.files.len() {
        assert(out@ =~= old(out)@ + sites_of(a, key@));
        return ;
    }
    let entries = &a.import_index[key.file];
    let mut j: usize = 0;
    assert(out@ =~= old(out)@ + direct_sites(a, key@, 0));
    while j < entries.len()
        invariant
            j <= entries.len(),
            a.wf(),
            key.file < a.files@.len(),
            entries == &a.import_index@[key.file as int],
            out@ == old(out)@ + direct_sites(a, key@, j as int),
        decreases entries.len() - j,
    {
        let (g, k) = entries[j];
        assert(entries@[j as int] == a.import_index@[key.file as int]@[j as int]);
        let import = &a.files[g].imports[k];
        let ghost start = out@;
        if str_eq(import.imported_name.as_str(), key.name.as_str()) {
            push_local_sites(a, g, import.local_name.as_str(), out);
        }
        let ghost middle = out@;
        if str_eq(import.imported_name.as_str(), "*") {
            if import.is_dynamic {
                out.push(Site { file: g, offset: None });
                assert(out@ =~= middle + seq![Site { file: g, offset: None }]);
            } else {
                push_local_sites(a, g, import.local_name.as_str(), out);
            }
        }
        assert(out@ =~= start + entry_sites(a, key@, j as int));
        assert(out@ =~= old(out)@ + direct_sites(a, key@, j + 1));
        j += 1;
    }
}

/// The sites in other files where the symbol `name` of file `file` is used.
pub fn cross_file_sites(a: &WorkspaceAnalyzer, file: usize, name: &str) -> (out: Vec<Site>)
    requires
        a.wf(),
        file < a.files@.len(),
    ensures
        forall|site: Site| out@.contains(site) <==> is_cross_site(a, file as int, name@, site),
        forall|i: int| 0 <= i < out@.len() ==> (#[trigger] out@[i]).file < a.files@.len(),
{
    let chain = ReexportChain { analyzer: a, seed: Ghost(name@) };
    let start = SymbolKey::new(file, name);
    proof {
        let names = chain_names(a, name@);
        assert(names[0] == name@);
        lemma_key_space(a.files@.len() as int, names, file as int, name@);
    }
    let visited = closure(&chain, start);
    let mut out: Vec<Site> = Vec::new();
    let mut i: usize = 0;
    while i < visited.len()
        invariant
            i <= visited.len(),
            a.wf(),
            forall|site: Site|
                out@.contains(site) <==> exists|q: int|
                    0 <= q < i && #[trigger] sites_of(a, views(visited@)[q]).contains(site),
            forall|q: int| 0 <= q < out@.len() ==> (#[trigger] out@[q]).file < a.files@.len(),
        decreases visited.len() - i,
    {
        let ghost before = out@;
        push_sites_of(a, &visited[i], &mut out);
        proof {
            let added = sites_of(a, views(visited@)[i as int]);
            assert(views(visited@)[i as int] == visited@[i as int]@);
            assert(out@ == before + added);
            assert forall|site: Site| out@.contains(site) <==> exists|q: int|
                0 <= q < i + 1 && #[trigger] sites_of(a, views(visited@)[q]).contains(site) by {
                if out@.contains(site) {
                    let w = choose|w: int| 0 <= w < out@.len() && out@[w] == site;
                    if w < before.len() {
                        assert(before[w] == site);
                        assert(before.contains(site));
                    } else {
                        assert(added[w - before.len()] == site);
                        assert(sites_of(a, views(visited@)[i as int]).contains(site));
                    }
                }
                if exists|q: int|
                    0 <= q < i + 1 && #[trigger] sites_of(a, views(visited@)[q]).contains(site) {
                    let q = choose|q: int|
                        0 <= q < i + 1 && #[trigger] sites_of(a, views(visited@)[q]).contains(site);
                    if q < i {
                        assert(before.contains(site));
                        let w = choose|w: int| 0 <= w < before.len() && before[w] == site;
                        assert(out@[w] == site);
                    } else {
                        let w = choose|w: int| 0 <= w < added.len() && added[w] == site;
                        assert(out@[before.len() + w] == site);
                    }
                }
            }
            assert forall|q: int| 0 <= q < out@.len() implies (#[trigger] out@[q]).file < a.files@.len() by {
                if q >= before.len() {
                    assert(added[q - before.len()] == out@[q]);
                    lemma_sites_in_files(a, views(visited@)[i as int], a.import_index@[visited@[i as int].file as int]@.len() as int, q - before.len());
                }
            }
        }
        i += 1;
    }
    proof {
        assert forall|site: Site| out@.contains(site) <==> is_cross_site(a, file as int, name@, site) by {
            if out@.contains(site) {
                let q = choose|q: int|
                    0 <= q < visited.len() && #[trigger] sites_of(a, views(visited@)[q]).contains(site);
                assert(views(visited@).contains(views(visited@)[q]));
                assert(chain_reaches(a, file as int, name@, views(visited@)[q]));
            }
            if is_cross_site(a, file as int, name@, site) {
                let k = choose|k: KeyView|
                    chain_reaches(a, file as int, name@, k) && #[trigger] sites_of(a, k).contains(site);
                assert(views(visited@).contains(k));
                let q = choose|q: int| 0 <= q < views(visited@).len() && views(visited@)[q] == k;
                assert(sites_of(a, views(visited@)[q]).contains(site));
            }
        }
    }
    out
}

/// Every site that the import index gives lies in one of the files.
pub proof fn lemma_sites_in_files(a: &WorkspaceAnalyzer, key: KeyView, count: int, i: int)
    requires
        a.wf(),
        0 <= key.0 < a.files@.len(),
        0 <= count <= a.import_index@[key.0]@.len(),
        0 <= i < direct_sites(a, key, count).len(),
    ensures
        direct_sites(a, key, count)[i].file < a.files@.len(),
    decreases count,
{
    if count > 0 {
        let before = direct_sites(a, key, count - 1);
        if i < before.len() {
            lemma_sites_in_files(a, key, count - 1, i);
        } else {
            let entry = a.import_index@[key.0]@[count - 1];
            assert(entry.0 < a.files@.len());
        }
    }
}

/// Finds the uses of a symbol in the files that import it.
pub struct ReferenceFinder<'a> {
    pub analyzer: &'a WorkspaceAnalyzer,
}

impl<'a> ReferenceFinder<'a> {
    /// A finder over the files of `analyzer`.
    pub fn new(analyzer: &'a WorkspaceAnalyzer) -> (finder: ReferenceFinder<'a>)
        ensures
            finder.analyzer == analyzer,
    {
        ReferenceFinder { analyzer }
    }

    /// The uses, in other files, of the symbol `symbol_name` that
    /// `declaring_file` declares: uses by the files that import it, by those
    /// that import the whole namespace of its file, and by the importers of
    /// every file that re-exports it, under the name it has there. A file
    /// that is not analysed has no such uses.
    pub fn find_cross_file_references(&self, symbol_name: &str, declaring_file: &str) -> (r: Result<
        Vec<Reference>,
        DominoError,
    >)
        requires
            self.analyzer.wf(),
        ensures
            r is Ok,
            match find_path(self.analyzer.files@, declaring_file@, 0) {
                Some(f) => forall|v: ReferenceView|
                    #[trigger] reference_views(r->Ok_0@).contains(v) <==> is_cross_reference(
                        self.analyzer,
                        f,
                        symbol_name@,
                        v,
                    ),
                None => r->Ok_0@.len() == 0,
            },
    {
        let a = self.analyzer;
        let file = match a.file_index(declaring_file) {
            Some(f) => f,
            None => {
                return Ok(Vec::new());
            },
        };
        let sites = cross_file_sites(a, file, symbol_name);
        let mut refs: Vec<Reference> = Vec::new();
        let mut i: usize = 0;
        while i < sites.len()
            invariant
                i <= sites.len(),
                a.wf(),
                forall|q: int| 0 <= q < sites@.len() ==> (#[trigger] sites@[q]).file < a.files@.len(),
                refs@.len() == i,
                forall|q: int| 0 <= q < i ==> (#[trigger] refs@[q])@ == site_reference(a, sites@[q]),
            decreases sites.len() - i,
        {
            let site = sites[i];
            let file = &a.files[site.file];
            assert(file.wf());
            let (line, column) = match site.offset {
                Some(offset) => {
                    proof {
                        lemma_line_col_bound(file.bytes(), offset as nat);
                    }
                    offset_to_line_col(file.source.as_str(), offset)
                },
                None => (0, 0),
            };
            refs.push(Reference { file_path: file.path.clone(), line, column });
            i += 1;
        }
        proof {
            let vs = reference_views(refs@);
            assert forall|v: ReferenceView| #[trigger] vs.contains(v) <==> is_cross_reference(
                a,
                file as int,
                symbol_name@,
                v,
            ) by {
                if vs.contains(v) {
                    let q = choose|q: int| 0 <= q < vs.len() && vs[q] == v;
                    assert(refs@[q]@ == v);
                    assert(sites@.contains(sites@[q]));
                    assert(is_cross_site(a, file as int, symbol_name@, sites@[q]));
                }
                if is_cross_reference(a, file as int, symbol_name@, v) {
                    let site = choose|site: Site|
                        #[trigger] is_cross_site(a, file as int, symbol_name@, site) && v == site_reference(
                            a,
                            site,
                        );
                    assert(sites@.contains(site));
                    let q = choose|q: int| 0 <= q < sites@.len() && sites@[q] == site;
                    assert(vs[q] == v);
                }
            }
        }
        Ok(refs)
    }

    /// Whether some import of file `g` resolves to file `target`.
    pub open spec fn imports_from(a: &WorkspaceAnalyzer, g: int, target: int) -> bool {
        exists|j: int|
            0 <= j < a.import_index@[target]@.len() && (#[trigger] a.import_index@[target]@[j]).0 == g
    }

    /// The files that import from `file_path`, each once, in the order of the
    /// files, each as a reference to the whole file. A file that is not
    /// analysed has no importers.
    pub fn find_files_importing_from(&self, file_path: &str) -> (r: Result<Vec<Reference>, DominoError>)
        requires
            self.analyzer.wf(),
        ensures
            r is Ok,
            match find_path(self.analyzer.files@, file_path@, 0) {
                Some(f) => reference_views(r->Ok_0@) == gather(
                    self.analyzer.files@.len() as int,
                    |g: int|
                        if Self::imports_from(self.analyzer, g, f) {
                            Some(
                                ReferenceView { file_path: self.analyzer.files@[g].path@, line: 0, column: 0 },
                            )
                        } else {
                            None
                        },
                ),
                None => r->Ok_0@.len() == 0,
            },
    {
        let a = self.analyzer;
        let target = match a.file_index(file_path) {
            Some(f) => f,
            None => {
                return Ok(Vec::new());
            },
        };
        let entries = &a.import_index[target];
        let ghost pick = |g: int|
            if Self::imports_from(a, g, target as int) {
                Some(ReferenceView { file_path: a.files@[g].path@, line: 0, column: 0 })
            } else {
                None
            };
        let mut refs: Vec<Reference> = Vec::new();
        let mut g: usize = 0;
        assert(reference_views(refs@) =~= gather(0, pick));
        while g < a.files.len()
            invariant
                g <= a.files.len(),
                target < a.files@.len(),
                entries == &a.import_index@[target as int],
                pick == |g: int|
                    if Self::imports_from(a, g, target as int) {
                        Some(ReferenceView { file_path: a.files@[g].path@, line: 0, column: 0 })
                    } else {
                        None
                    },
                reference_views(refs@) == gather(g as int, pick),
            decreases a.files.len() - g,
        {
            let mut found = false;
            let mut j: usize = 0;
            while j < entries.len() && !found
                invariant
                    j <= entries.len(),
                    entries == &a.import_index@[target as int],
                    found ==> Self::imports_from(a, g as int, target as int),
                    !found ==> forall|q: int| 0 <= q < j ==> (#[trigger] entries@[q]).0 != g,
                decreases entries.len() - j + if found { 0nat } else { 1nat },
            {
                if entries[j].0 == g {
                    found = true;
                } else {
                    j += 1;
                }
            }
            if found {
                let ghost before = reference_views(refs@);
                let reference = Reference { file_path: a.files[g].path.clone(), line: 0, column: 0 };
                refs.push(reference);
                assert(reference_views(refs@) =~= before.push(reference@));
            }
            g += 1;
        }
        Ok(refs)
    }
}

} // verus!
