//! How a change spreads from symbol to symbol.
//!
//! From a changed symbol the change goes to the symbols of the same file
//! that use it; to the symbols of other files that use it, through imports
//! and re-exports; to every export of a file that imports its module by an
//! `import()`; and, for a symbol that nobody imports and that is not
//! exported, to the exports of its file that use it.

use vstd::prelude::*;
use crate::graph::{views, Expansion, KeyView, SymbolKey};
use crate::semantic::analyzer::{FileSemanticData, WorkspaceAnalyzer};
use crate::semantic::reference_finder::{
    cross_file_sites, is_cross_site, key_space, lemma_key_space, lemma_key_space_names, Site,
};
use crate::semantic::symbols::{lemma_symbol_named, named_in, own_name, symbol_at_byte};
use crate::seqs::{gather, lemma_concat_contains, lemma_gather_contains, lemma_push_contains};
use crate::text::str_eq;
use crate::types::{opt_text, texts};

verus! {

/// The site stands for a whole file.
pub open spec fn whole_file(site: Site) -> bool {
    site.offset is None
}

/// Export `k` of `file` is declared in the file and has the inner name `name`.
pub open spec fn own_export(file: FileSemanticData, k: int, name: Seq<char>) -> bool {
    0 <= k < file.exports@.len() && file.exports@[k]@.re_export_from is None && file.exports@[k]@.inner_name()
        == name
}

/// A use at `site` makes the symbol `to` affected: the top-level symbol
/// around the site; for a site that stands for a whole file, every export
/// that the file declares itself.
pub open spec fn site_leads_to(a: &WorkspaceAnalyzer, site: Site, to: KeyView) -> bool {
    &&& to.0 == site.file
    &&& site.file < a.files@.len()
    &&& if whole_file(site) {
        exists|k: int| #[trigger] own_export(a.files@[site.file as int], k, to.1)
    } else {
        a.files@[site.file as int].symbol_around(site.offset.unwrap()) == Some(to.1)
    }
}

/// The symbol `name` of file `file` is used in another file.
pub open spec fn has_cross_site(a: &WorkspaceAnalyzer, file: int, name: Seq<char>) -> bool {
    exists|site: Site| #[trigger] is_cross_site(a, file, name, site)
}

/// A change of the symbol `from` makes the symbol `to` change too.
pub open spec fn propagates(a: &WorkspaceAnalyzer, from: KeyView, to: KeyView) -> bool {
    &&& 0 <= from.0 < a.files@.len()
    &&& {
        ||| (to.0 == from.0 && to.1 != from.1 && a.files@[from.0].used_inside(from.1, to.1))
        ||| (exists|site: Site| #[trigger] is_cross_site(a, from.0, from.1, site) && site_leads_to(a, site, to))
        ||| (to.0 == from.0 && !has_cross_site(a, from.0, from.1) && !a.files@[from.0].exports_symbol(from.1)
            && a.files@[from.0].exports_using(from.1).contains(to.1))
    }
}

/// The names that a symbol of `file` can have: `default`, what its nodes
/// declare, what its exports are called inside and outside.
pub open spec fn file_names(file: FileSemanticData) -> Seq<Seq<char>> {
    seq!["default"@] + gather(file.nodes@.len() as int, |i: int| own_name(file.nodes@[i].kind)) + gather(
        file.exports@.len() as int,
        |k: int| Some(file.exports@[k].exported_name@),
    ) + gather(file.exports@.len() as int, |k: int| opt_text(file.exports@[k].local_name))
}

/// The names of the first `count` files.
pub open spec fn all_names(files: Seq<FileSemanticData>, count: int) -> Seq<Seq<char>>
    decreases count,
{
    if count <= 0 || count > files.len() {
        Seq::empty()
    } else {
        all_names(files, count - 1) + file_names(files[count - 1])
    }
}

proof fn lemma_all_names(files: Seq<FileSemanticData>, count: int, f: int, name: Seq<char>)
    requires
        0 <= f < count <= files.len(),
        file_names(files[f]).contains(name),
    ensures
        all_names(files, count).contains(name),
    decreases count,
{
    lemma_concat_contains(all_names(files, count - 1), file_names(files[count - 1]), name);
    if f < count - 1 {
        lemma_all_names(files, count - 1, f, name);
    }
}

/// The keys that the spreading of a change that starts at a symbol named
/// `seed` can reach.
pub open spec fn spread_space(a: &WorkspaceAnalyzer, seed: Seq<char>) -> Seq<KeyView> {
    key_space(a.files@.len() as int, seq![seed] + all_names(a.files@, a.files@.len() as int))
}

/// `to` is a symbol that a file can have.
pub open spec fn in_space(a: &WorkspaceAnalyzer, to: KeyView) -> bool {
    0 <= to.0 < a.files@.len() && file_names(a.files@[to.0]).contains(to.1)
}

proof fn lemma_in_space(a: &WorkspaceAnalyzer, seed: Seq<char>, to: KeyView)
    requires
        in_space(a, to),
    ensures
        spread_space(a, seed).contains(to),
{
    let n = a.files@.len() as int;
    lemma_all_names(a.files@, n, to.0, to.1);
    lemma_concat_contains(seq![seed], all_names(a.files@, n), to.1);
    lemma_key_space(n, seq![seed] + all_names(a.files@, n), to.0, to.1);
}

proof fn lemma_named_in_space(a: &WorkspaceAnalyzer, f: int, name: Seq<char>)
    requires
        0 <= f < a.files@.len(),
        named_in(a.files@[f].nodes@, name),
    ensures
        in_space(a, (f, name)),
{
    let file = a.files@[f];
    let declared = gather(file.nodes@.len() as int, |i: int| own_name(file.nodes@[i].kind));
    let outer = gather(file.exports@.len() as int, |k: int| Some(file.exports@[k].exported_name@));
    let inner = gather(file.exports@.len() as int, |k: int| opt_text(file.exports@[k].local_name));
    lemma_concat_contains(seq!["default"@], declared, name);
    lemma_concat_contains(seq!["default"@] + declared, outer, name);
    lemma_concat_contains(seq!["default"@] + declared + outer, inner, name);
    if name == "default"@ {
        assert(seq!["default"@][0] == name);
    } else {
        let pick = |i: int| own_name(file.nodes@[i].kind);
        lemma_gather_contains(file.nodes@.len() as int, pick, name);
        let i = choose|i: int| 0 <= i < file.nodes@.len() && own_name((#[trigger] file.nodes@[i]).kind) == Some(name);
        assert(pick(i) == Some(name));
    }
}

proof fn lemma_export_in_space(a: &WorkspaceAnalyzer, f: int, k: int)
    requires
        0 <= f < a.files@.len(),
        0 <= k < a.files@[f].exports@.len(),
    ensures
        in_space(a, (f, a.files@[f].exports@[k].exported_name@)),
        in_space(a, (f, a.files@[f].exports@[k]@.inner_name())),
{
    let file = a.files@[f];
    let declared = gather(file.nodes@.len() as int, |i: int| own_name(file.nodes@[i].kind));
    let outer_pick = |k: int| Some(file.exports@[k].exported_name@);
    let inner_pick = |k: int| opt_text(file.exports@[k].local_name);
    let outer = gather(file.exports@.len() as int, outer_pick);
    let inner = gather(file.exports@.len() as int, inner_pick);
    let name = file.exports@[k].exported_name@;
    let other = file.exports@[k]@.inner_name();
    lemma_gather_contains(file.exports@.len() as int, outer_pick, name);
    assert(outer_pick(k) == Some(name));
    lemma_concat_contains(seq!["default"@] + declared, outer, name);
    lemma_concat_contains(seq!["default"@] + declared + outer, inner, name);
    lemma_concat_contains(seq!["default"@] + declared, outer, other);
    lemma_concat_contains(seq!["default"@] + declared + outer, inner, other);
    if other != name {
        lemma_gather_contains(file.exports@.len() as int, inner_pick, other);
        assert(inner_pick(k) == Some(other));
    }
}

/// The spreading of changes over the symbols of a workspace, for a change
/// that starts at a symbol named `seed`.
pub struct Propagation<'a> {
    pub analyzer: &'a WorkspaceAnalyzer,
    pub seed: Ghost<Seq<char>>,
}

/// The symbols of the file of `key` that hold a use of it.
fn local_edges(a: &WorkspaceAnalyzer, key: &SymbolKey) -> (out: Vec<SymbolKey>)
    requires
        a.wf(),
        key.file < a.files@.len(),
    ensures
        forall|t: KeyView|
            #[trigger] views(out@).contains(t) <==> (t.0 == key.file && t.1 != key.name@ && a.files@[key.file as int].used_inside(
                key.name@,
                t.1,
            )),
        forall|i: int| 0 <= i < out@.len() ==> in_space(a, #[trigger] views(out@)[i]),
{
    let file = &a.files[key.file];
    let containers = file.containers_of(key.name.as_str());
    let mut out: Vec<SymbolKey> = Vec::new();
    let mut i: usize = 0;
    while i < containers.len()
        invariant
            i <= containers.len(),
            a.wf(),
            key.file < a.files@.len(),
            file == &a.files@[key.file as int],
            forall|c: Seq<char>| texts(containers@).contains(c) <==> file.used_inside(key.name@, c),
            forall|t: KeyView|
                #[trigger] views(out@).contains(t) <==> (t.0 == key.file && t.1 != key.name@ && exists|q: int|
                    0 <= q < i && #[trigger] texts(containers@)[q] == t.1),
            forall|q: int| 0 <= q < out@.len() ==> in_space(a, #[trigger] views(out@)[q]),
        decreases containers.len() - i,
    {
        let c = &containers[i];
        let ghost before = views(out@);
        assert(texts(containers@)[i as int] == c@);
        if !str_eq(c.as_str(), key.name.as_str()) {
            out.push(SymbolKey::new(key.file, c.as_str()));
            proof {
                let added = (key.file as int, c@);
                assert(views(out@) =~= before.push(added));
                assert(texts(containers@).contains(c@));
                let r = choose|r: int|
                    0 <= r < file.local_offsets(key.name@).len() && file.symbol_around(
                        #[trigger] file.local_offsets(key.name@)[r],
                    ) == Some(c@);
                lemma_symbol_named(file.nodes@, file.local_offsets(key.name@)[r] as nat);
                lemma_named_in_space(a, key.file as int, c@);
                assert forall|t: KeyView| #[trigger] views(out@).contains(t) <==> (t.0 == key.file && t.1
                    != key.name@ && exists|q: int| 0 <= q < i + 1 && #[trigger] texts(containers@)[q] == t.1) by {
                    lemma_push_contains(before, added, t);
                    if t == added {
                        assert(texts(containers@)[i as int] == t.1);
                    }
                    if t.0 == key.file && t.1 != key.name@ && exists|q: int|
                        0 <= q < i + 1 && #[trigger] texts(containers@)[q] == t.1 {
                        let q = choose|q: int| 0 <= q < i + 1 && #[trigger] texts(containers@)[q] == t.1;
                        if q == i {
                            assert(t == added);
                        }
                    }
                }
                assert forall|q: int| 0 <= q < out@.len() implies in_space(a, #[trigger] views(out@)[q]) by {
                    if q < before.len() {
                        assert(views(out@)[q] == before[q]);
                    }
                }
            }
        } else {
            proof {
                assert forall|t: KeyView| #[trigger] views(out@).contains(t) <==> (t.0 == key.file && t.1
                    != key.name@ && exists|q: int| 0 <= q < i + 1 && #[trigger] texts(containers@)[q] == t.1) by {
                    if t.0 == key.file && t.1 != key.name@ && exists|q: int|
                        0 <= q < i + 1 && #[trigger] texts(containers@)[q] == t.1 {
                        let q = choose|q: int| 0 <= q < i + 1 && #[trigger] texts(containers@)[q] == t.1;
                        assert(q < i);
                    }
                }
            }
        }
        i += 1;
    }
    proof {
        assert forall|t: KeyView| #[trigger] views(out@).contains(t) <==> (t.0 == key.file && t.1 != key.name@
            && file.used_inside(key.name@, t.1)) by {
            if views(out@).contains(t) {
                let q = choose|q: int| 0 <= q < containers.len() && #[trigger] texts(containers@)[q] == t.1;
                assert(texts(containers@).contains(t.1));
            }
            if t.0 == key.file && t.1 != key.name@ && file.used_inside(key.name@, t.1) {
                assert(texts(containers@).contains(t.1));
                let q = choose|q: int| 0 <= q < texts(containers@).len() && texts(containers@)[q] == t.1;
                assert(texts(containers@)[q] == t.1);
            }
        }
    }
    out
}

/// The symbols that a use at `site` makes affected.
fn site_edges(a: &WorkspaceAnalyzer, site: Site) -> (out: Vec<SymbolKey>)
    requires
        a.wf(),
        site.file < a.files@.len(),
    ensures
        forall|t: KeyView| #[trigger] views(out@).contains(t) <==> site_leads_to(a, site, t),
        forall|i: int| 0 <= i < out@.len() ==> in_space(a, #[trigger] views(out@)[i]),
{
    let file = &a.files[site.file];
    let mut out: Vec<SymbolKey> = Vec::new();
    let offset = match site.offset {
        Some(offset) => offset,
        None => {
            return whole_file_edges(a, site);
        },
    };
    match symbol_at_byte(&file.nodes, offset) {
        Some(c) => {
            out.push(SymbolKey::new(site.file, c.as_str()));
            proof {
                let added = (site.file as int, c@);
                assert(views(out@) =~= Seq::<KeyView>::empty().push(added));
                lemma_symbol_named(file.nodes@, offset as nat);
                lemma_named_in_space(a, site.file as int, c@);
                assert forall|t: KeyView| #[trigger] views(out@).contains(t) <==> site_leads_to(a, site, t) by {
                    lemma_push_contains(Seq::<KeyView>::empty(), added, t);
                }
            }
        },
        None => {
            assert(views(out@) =~= Seq::<KeyView>::empty());
        },
    }
    out
}

fn whole_file_edges(a: &WorkspaceAnalyzer, site: Site) -> (out: Vec<SymbolKey>)
    requires
        a.wf(),
        site.file < a.files@.len(),
        site.offset is None,
    ensures
        forall|t: KeyView| #[trigger] views(out@).contains(t) <==> site_leads_to(a, site, t),
        forall|i: int| 0 <= i < out@.len() ==> in_space(a, #[trigger] views(out@)[i]),
{
    let file = &a.files[site.file];
    let mut out: Vec<SymbolKey> = Vec::new();
    {
        let mut k: usize = 0;
        while k < file.exports.len()
            invariant
                k <= file.exports.len(),
                a.wf(),
                site.file < a.files@.len(),
                file == &a.files@[site.file as int],
                forall|t: KeyView|
                    #[trigger] views(out@).contains(t) <==> (t.0 == site.file && exists|q: int|
                        0 <= q < k && #[trigger] own_export(*file, q, t.1)),
                forall|q: int| 0 <= q < out@.len() ==> in_space(a, #[trigger] views(out@)[q]),
            decreases file.exports.len() - k,
        {
            let e = &file.exports[k];
            let ghost before = views(out@);
            if e.re_export_from.is_none() {
                let inner: &String = match &e.local_name {
                    Some(local) => local,
                    None => &e.exported_name,
                };
                assert(inner@ == e@.inner_name());
                out.push(SymbolKey::new(site.file, inner.as_str()));
                proof {
                    let added = (site.file as int, inner@);
                    assert(views(out@) =~= before.push(added));
                    lemma_export_in_space(a, site.file as int, k as int);
                    assert(own_export(*file, k as int, inner@));
                    assert forall|t: KeyView| #[trigger] views(out@).contains(t) <==> (t.0 == site.file
                        && exists|q: int| 0 <= q < k + 1 && #[trigger] own_export(*file, q, t.1)) by {
                        lemma_push_contains(before, added, t);
                        if t.0 == site.file && exists|q: int| 0 <= q < k + 1 && #[trigger] own_export(*file, q, t.1) {
                            let q = choose|q: int| 0 <= q < k + 1 && #[trigger] own_export(*file, q, t.1);
                            if q == k {
                                assert(t == added);
                            }
                        }
                    }
                    assert forall|q: int| 0 <= q < out@.len() implies in_space(a, #[trigger] views(out@)[q]) by {
                        if q < before.len() {
                            assert(views(out@)[q] == before[q]);
                        }
                    }
                }
            } else {
                proof {
                    assert forall|t: KeyView| #[trigger] views(out@).contains(t) <==> (t.0 == site.file
                        && exists|q: int| 0 <= q < k + 1 && #[trigger] own_export(*file, q, t.1)) by {
                        if t.0 == site.file && exists|q: int| 0 <= q < k + 1 && #[trigger] own_export(*file, q, t.1) {
                            let q = choose|q: int| 0 <= q < k + 1 && #[trigger] own_export(*file, q, t.1);
                            assert(q < k);
                        }
                    }
                }
            }
            k += 1;
        }
        proof {
            assert forall|t: KeyView| #[trigger] views(out@).contains(t) <==> site_leads_to(a, site, t) by {
                if site_leads_to(a, site, t) {
                    let q = choose|q: int| #[trigger] own_export(*file, q, t.1);
                    assert(0 <= q < file.exports@.len());
                }
            }
        }
    }
    out
}

/// The symbols that uses at `sites` make affected.
fn cross_edges(a: &WorkspaceAnalyzer, sites: &Vec<Site>) -> (out: Vec<SymbolKey>)
    requires
        a.wf(),
        forall|i: int| 0 <= i < sites@.len() ==> (#[trigger] sites@[i]).file < a.files@.len(),
    ensures
        forall|t: KeyView|
            #[trigger] views(out@).contains(t) <==> exists|i: int|
                0 <= i < sites@.len() && site_leads_to(a, #[trigger] sites@[i], t),
        forall|i: int| 0 <= i < out@.len() ==> in_space(a, #[trigger] views(out@)[i]),
{
    let mut out: Vec<SymbolKey> = Vec::new();
    let mut i: usize = 0;
    while i < sites.len()
        invariant
            i <= sites.len(),
            a.wf(),
            forall|q: int| 0 <= q < sites@.len() ==> (#[trigger] sites@[q]).file < a.files@.len(),
            forall|t: KeyView|
                #[trigger] views(out@).contains(t) <==> exists|q: int|
                    0 <= q < i && site_leads_to(a, #[trigger] sites@[q], t),
            forall|q: int| 0 <= q < out@.len() ==> in_space(a, #[trigger] views(out@)[q]),
        decreases sites.len() - i,
    {
        let ghost before = views(out@);
        let mut more = site_edges(a, sites[i]);
        let ghost added = views(more@);
        out.append(&mut more);
        proof {
            assert(views(out@) =~= before + added);
            assert forall|t: KeyView| #[trigger] views(out@).contains(t) <==> exists|q: int|
                0 <= q < i + 1 && site_leads_to(a, #[trigger] sites@[q], t) by {
                lemma_concat_contains(before, added, t);
                if exists|q: int| 0 <= q < i + 1 && site_leads_to(a, #[trigger] sites@[q], t) {
                    let q = choose|q: int| 0 <= q < i + 1 && site_leads_to(a, #[trigger] sites@[q], t);
                    if q == i {
                        assert(added.contains(t));
                    } else {
                        assert(before.contains(t));
                    }
                }
                if added.contains(t) {
                    assert(site_leads_to(a, sites@[i as int], t));
                }
            }
            assert forall|q: int| 0 <= q < out@.len() implies in_space(a, #[trigger] views(out@)[q]) by {
                if q < before.len() {
                    assert(views(out@)[q] == before[q]);
                } else {
                    assert(views(out@)[q] == added[q - before.len()]);
                }
            }
        }
        i += 1;
    }
    out
}

/// The exports of the file of `key` that use it.
fn boundary_edges(a: &WorkspaceAnalyzer, key: &SymbolKey) -> (out: Vec<SymbolKey>)
    requires
        a.wf(),
        key.file < a.files@.len(),
    ensures
        forall|t: KeyView|
            #[trigger] views(out@).contains(t) <==> (t.0 == key.file && a.files@[key.file as int].exports_using(
                key.name@,
            ).contains(t.1)),
        forall|i: int| 0 <= i < out@.len() ==> in_space(a, #[trigger] views(out@)[i]),
{
    let file = &a.files[key.file];
    let names = file.exported_names_using(key.name.as_str());
    let ghost all = file.exports_using(key.name@);
    let mut out: Vec<SymbolKey> = Vec::new();
    let mut i: usize = 0;
    assert(views(out@) =~= all.take(0).map_values(|n: Seq<char>| (key.file as int, n)));
    while i < names.len()
        invariant
            i <= names.len(),
            texts(names@) == all,
            views(out@) == all.take(i as int).map_values(|n: Seq<char>| (key.file as int, n)),
        decreases names.len() - i,
    {
        let ghost before = views(out@);
        assert(texts(names@)[i as int] == names@[i as int]@);
        out.push(SymbolKey::new(key.file, names[i].as_str()));
        assert(views(out@) =~= before.push((key.file as int, all[i as int])));
        assert(all.take(i + 1) =~= all.take(i as int).push(all[i as int]));
        assert(views(out@) =~= all.take(i + 1).map_values(|n: Seq<char>| (key.file as int, n)));
        i += 1;
    }
    proof {
        assert(all.take(names.len() as int) =~= all);
        let mapped = all.map_values(|n: Seq<char>| (key.file as int, n));
        assert forall|t: KeyView| #[trigger] views(out@).contains(t) <==> (t.0 == key.file && all.contains(
            t.1,
        )) by {
            if mapped.contains(t) {
                let q = choose|q: int| 0 <= q < mapped.len() && mapped[q] == t;
                assert(all[q] == t.1);
            }
            if t.0 == key.file && all.contains(t.1) {
                let q = choose|q: int| 0 <= q < all.len() && all[q] == t.1;
                assert(mapped[q] == t);
            }
        }
        let pick = |k: int| file.export_using(key.name@, k);
        assert forall|q: int| 0 <= q < out@.len() implies in_space(a, #[trigger] views(out@)[q]) by {
            let n = all[q];
            assert(mapped[q] == (key.file as int, n));
            assert(all.contains(n));
            lemma_gather_contains(file.exports@.len() as int, pick, n);
            let k = choose|k: int| 0 <= k < file.exports@.len() && #[trigger] pick(k) == Some(n);
            lemma_export_in_space(a, key.file as int, k);
        }
    }
    out
}

impl<'a> Expansion for Propagation<'a> {
    open spec fn inv(&self) -> bool {
        self.analyzer.wf()
    }

    open spec fn domain(&self) -> Seq<KeyView> {
        spread_space(self.analyzer, self.seed@)
    }

    open spec fn edge(&self, from: KeyView, to: KeyView) -> bool {
        propagates(self.analyzer, from, to)
    }

    fn expand(&self, key: &SymbolKey) -> (out: Vec<SymbolKey>) {
        let a = self.analyzer;
        proof {
            lemma_key_space_names(
                a.files@.len() as int,
                seq![self.seed@] + all_names(a.files@, a.files@.len() as int),
                key@,
            );
        }
        let mut out = local_edges(a, key);
        let sites = cross_file_sites(a, key.file, key.name.as_str());
        let mut cross = cross_edges(a, &sites);
        let mut boundary = if sites.len() == 0 && !a.files[key.file].exports_name(key.name.as_str()) {
            boundary_edges(a, key)
        } else {
            Vec::new()
        };
        let ghost first = views(out@);
        let ghost second = views(cross@);
        let ghost third = views(boundary@);
        out.append(&mut cross);
        assert(views(out@) =~= first + second);
        out.append(&mut boundary);
        assert(views(out@) =~= first + second + third);
        proof {
            let from = key@;
            if sites.len() > 0 {
                assert(sites@.contains(sites@[0]));
                assert(is_cross_site(a, from.0, from.1, sites@[0]));
            }
            if has_cross_site(a, from.0, from.1) {
                let site = choose|site: Site| #[trigger] is_cross_site(a, from.0, from.1, site);
                assert(sites@.contains(site));
            }
            assert forall|t: KeyView| views(out@).contains(t) <==> propagates(a, from, t) by {
                lemma_concat_contains(first, second, t);
                lemma_concat_contains(first + second, third, t);
                if second.contains(t) {
                    let i = choose|i: int| 0 <= i < sites@.len() && site_leads_to(a, #[trigger] sites@[i], t);
                    assert(sites@.contains(sites@[i]));
                    assert(is_cross_site(a, from.0, from.1, sites@[i]));
                }
                if exists|site: Site| #[trigger] is_cross_site(a, from.0, from.1, site) && site_leads_to(a, site, t) {
                    let site = choose|site: Site|
                        #[trigger] is_cross_site(a, from.0, from.1, site) && site_leads_to(a, site, t);
                    assert(sites@.contains(site));
                    let i = choose|i: int| 0 <= i < sites@.len() && sites@[i] == site;
                    assert(site_leads_to(a, sites@[i], t));
                    assert(second.contains(t));
                }
            }
            assert forall|i: int| 0 <= i < out.len() implies self.domain().contains(#[trigger] out[i]@) by {
                let t = views(out@)[i];
                assert(t == out[i]@);
                if i < first.len() {
                    assert(t == first[i]);
                } else if i < first.len() + second.len() {
                    assert(t == second[i - first.len()]);
                } else {
                    assert(t == third[i - first.len() - second.len()]);
                }
                lemma_in_space(a, self.seed@, t);
            }
        }
        out
    }
}

} // verus!
