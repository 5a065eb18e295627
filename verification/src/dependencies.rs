//! The dependencies that projects declare on each other.
//!
//! A project that declares a dependency on an affected project is affected
//! itself, and so are the projects that depend on it in turn.

use vstd::prelude::*;
use crate::graph::{closure, lemma_reaches_self, reaches, views, Expansion, KeyView, SymbolKey};
use crate::order::NameSet;
use crate::semantic::reference_finder::{key_space, lemma_key_space};
use crate::seqs::lemma_push_contains;
use crate::text::holds_text;
use crate::types::{texts, Project};

verus! {

/// The project `dependent` declares a dependency on the project `on`.
pub open spec fn declares_dependency(projects: Seq<Project>, dependent: Seq<char>, on: Seq<char>) -> bool {
    exists|i: int|
        0 <= i < projects.len() && (#[trigger] projects[i]).name@ == dependent && texts(
            projects[i].implicit_dependencies@,
        ).contains(on)
}

/// The declared dependencies between the projects of a workspace, followed
/// from the depended-on project to the dependent one, for a start at the
/// project `seed`.
pub struct Dependents<'a> {
    pub projects: &'a Vec<Project>,
    pub seed: Ghost<Seq<char>>,
}

/// The names of the projects.
pub open spec fn project_names(projects: Seq<Project>) -> Seq<Seq<char>> {
    projects.map_values(|p: Project| p.name@)
}

impl<'a> Expansion for Dependents<'a> {
    open spec fn inv(&self) -> bool {
        true
    }

    open spec fn domain(&self) -> Seq<KeyView> {
        key_space(1, seq![self.seed@] + project_names(self.projects@))
    }

    open spec fn edge(&self, from: KeyView, to: KeyView) -> bool {
        from.0 == 0 && to.0 == 0 && declares_dependency(self.projects@, to.1, from.1)
    }

    fn expand(&self, key: &SymbolKey) -> (out: Vec<SymbolKey>) {
        let projects = self.projects;
        let ghost names = seq![self.seed@] + project_names(projects@);
        let mut out: Vec<SymbolKey> = Vec::new();
        if key.file != 0 {
            return out;
        }
        let mut i: usize = 0;
        while i < projects.len()
            invariant
                i <= projects.len(),
                key.file == 0,
                names == seq![self.seed@] + project_names(projects@),
                forall|t: KeyView|
                    #[trigger] views(out@).contains(t) <==> (t.0 == 0 && exists|q: int|
                        0 <= q < i && (#[trigger] projects@[q]).name@ == t.1 && texts(
                            projects@[q].implicit_dependencies@,
                        ).contains(key.name@)),
                forall|q: int| 0 <= q < out@.len() ==> key_space(1, names).contains(#[trigger] out@[q]@),
            decreases projects.len() - i,
        {
            let ghost before = views(out@);
            if holds_text(&projects[i].implicit_dependencies, key.name.as_str()) {
                out.push(SymbolKey::new(0, projects[i].name.as_str()));
                proof {
                    let added = (0int, projects@[i as int].name@);
                    assert(views(out@) =~= before.push(added));
                    assert(project_names(projects@)[i as int] == added.1);
                    assert(names[1 + i] == added.1);
                    lemma_key_space(1, names, 0, added.1);
                    assert forall|t: KeyView| #[trigger] views(out@).contains(t) <==> (t.0 == 0 && exists|q: int|
                        0 <= q < i + 1 && (#[trigger] projects@[q]).name@ == t.1 && texts(
                            projects@[q].implicit_dependencies@,
                        ).contains(key.name@)) by {
                        lemma_push_contains(before, added, t);
                        if t.0 == 0 && exists|q: int|
                            0 <= q < i + 1 && (#[trigger] projects@[q]).name@ == t.1 && texts(
                                projects@[q].implicit_dependencies@,
                            ).contains(key.name@) {
                            let q = choose|q: int|
                                0 <= q < i + 1 && (#[trigger] projects@[q]).name@ == t.1 && texts(
                                    projects@[q].implicit_dependencies@,
                                ).contains(key.name@);
                            if q == i {
                                assert(t == added);
                            }
                        }
                    }
                    assert forall|q: int| 0 <= q < out@.len() implies key_space(1, names).contains(
                        #[trigger] out@[q]@,
                    ) by {
                        if q < before.len() {
                            assert(out@[q]@ == before[q]);
                        } else {
                            assert(out@[q]@ == added);
                        }
                    }
                }
            } else {
                proof {
                    assert forall|t: KeyView| #[trigger] views(out@).contains(t) <==> (t.0 == 0 && exists|q: int|
                        0 <= q < i + 1 && (#[trigger] projects@[q]).name@ == t.1 && texts(
                            projects@[q].implicit_dependencies@,
                        ).contains(key.name@)) by {
                        if t.0 == 0 && exists|q: int|
                            0 <= q < i + 1 && (#[trigger] projects@[q]).name@ == t.1 && texts(
                                projects@[q].implicit_dependencies@,
                            ).contains(key.name@) {
                            let q = choose|q: int|
                                0 <= q < i + 1 && (#[trigger] projects@[q]).name@ == t.1 && texts(
                                    projects@[q].implicit_dependencies@,
                                ).contains(key.name@);
                            assert(q < i);
                        }
                    }
                }
            }
            i += 1;
        }
        out
    }
}

/// The project `to` depends on the project `from`, by declaration, directly
/// or through other projects, or is `from` itself.
pub open spec fn depends_on(projects: &Vec<Project>, from: Seq<char>, to: Seq<char>) -> bool {
    reaches(&Dependents { projects, seed: Ghost(from) }, (0, from), (0, to))
}

/// Adds to the affected projects every project that declares a dependency
/// on an affected one, and so on until nothing is left to add.
pub fn add_implicit_dependencies(projects: &Vec<Project>, affected: &mut NameSet)
    requires
        old(affected).wf(),
    ensures
        final(affected).wf(),
        forall|p: Seq<char>|
            #[trigger] final(affected)@.contains(p) <==> exists|d: Seq<char>|
                old(affected)@.contains(d) && #[trigger] depends_on(projects, d, p),
{
    let mut starts: Vec<String> = Vec::new();
    let mut c: usize = 0;
    while c < affected.names.len()
        invariant
            c <= affected.names.len(),
            affected == old(affected),
            texts(starts@) == texts(affected.names@).take(c as int),
        decreases affected.names.len() - c,
    {
        let ghost before = texts(starts@);
        starts.push(affected.names[c].clone());
        assert(texts(starts@) =~= before.push(affected.names@[c as int]@));
        assert(texts(affected.names@).take(c + 1) =~= texts(affected.names@).take(c as int).push(
            texts(affected.names@)[c as int],
        ));
        c += 1;
    }
    assert(texts(starts@) =~= texts(old(affected).names@));
    let mut i: usize = 0;
    while i < starts.len()
        invariant
            i <= starts.len(),
            affected.wf(),
            texts(starts@) == texts(old(affected).names@),
            forall|p: Seq<char>|
                #[trigger] affected@.contains(p) <==> (old(affected)@.contains(p) || exists|q: int|
                    0 <= q < i && depends_on(projects, #[trigger] texts(starts@)[q], p)),
        decreases starts.len() - i,
    {
        let d = &starts[i];
        let graph = Dependents { projects, seed: Ghost(d@) };
        proof {
            let names = seq![d@] + project_names(projects@);
            assert(names[0] == d@);
            lemma_key_space(1, names, 0, d@);
            assert(texts(starts@)[i as int] == d@);
        }
        let visited = closure(&graph, SymbolKey::new(0, d.as_str()));
        let ghost at_start = affected@;
        let mut j: usize = 0;
        while j < visited.len()
            invariant
                j <= visited.len(),
                affected.wf(),
                forall|k: KeyView| views(visited@).contains(k) <==> reaches(&graph, (0, d@), k),
                forall|p: Seq<char>|
                    #[trigger] affected@.contains(p) <==> (at_start.contains(p) || exists|q: int|
                        0 <= q < j && #[trigger] views(visited@)[q] == (0int, p)),
            decreases visited.len() - j,
        {
            let ghost before = affected@;
            assert(views(visited@)[j as int] == visited@[j as int]@);
            if visited[j].file == 0 {
                affected.insert(visited[j].name.as_str());
            }
            proof {
                assert forall|p: Seq<char>| #[trigger] affected@.contains(p) <==> (at_start.contains(p)
                    || exists|q: int| 0 <= q < j + 1 && #[trigger] views(visited@)[q] == (0int, p)) by {
                    assert(before.contains(p) <==> (at_start.contains(p) || exists|q: int|
                        0 <= q < j && #[trigger] views(visited@)[q] == (0int, p)));
                    if exists|q: int| 0 <= q < j + 1 && #[trigger] views(visited@)[q] == (0int, p) {
                        let q = choose|q: int| 0 <= q < j + 1 && #[trigger] views(visited@)[q] == (0int, p);
                        if q < j {
                            assert(before.contains(p));
                        }
                    }
                }
            }
            j += 1;
        }
        proof {
            assert forall|p: Seq<char>| #[trigger] affected@.contains(p) <==> (old(affected)@.contains(p)
                || exists|q: int| 0 <= q < i + 1 && depends_on(projects, #[trigger] texts(starts@)[q], p)) by {
                assert(at_start.contains(p) <==> (old(affected)@.contains(p) || exists|q: int|
                    0 <= q < i && depends_on(projects, #[trigger] texts(starts@)[q], p)));
                if exists|q: int| 0 <= q < visited.len() && #[trigger] views(visited@)[q] == (0int, p) {
                    let q = choose|q: int| 0 <= q < visited.len() && #[trigger] views(visited@)[q] == (0int, p);
                    assert(views(visited@).contains((0int, p)));
                    assert(depends_on(projects, texts(starts@)[i as int], p));
                }
                if exists|q: int| 0 <= q < i + 1 && depends_on(projects, #[trigger] texts(starts@)[q], p) {
                    let q = choose|q: int| 0 <= q < i + 1 && depends_on(projects, #[trigger] texts(starts@)[q], p);
                    if q == i {
                        assert(views(visited@).contains((0int, p)));
                        let w = choose|w: int| 0 <= w < views(visited@).len() && views(visited@)[w] == (0int, p);
                        assert(views(visited@)[w] == (0int, p));
                    } else {
                        assert(at_start.contains(p));
                    }
                }
            }
        }
        i += 1;
    }
    proof {
        assert forall|p: Seq<char>| #[trigger] affected@.contains(p) <==> exists|d: Seq<char>|
            old(affected)@.contains(d) && #[trigger] depends_on(projects, d, p) by {
            let names = texts(old(affected).names@);
            if affected@.contains(p) {
                if old(affected)@.contains(p) {
                    lemma_reaches_self(&Dependents { projects, seed: Ghost(p) }, (0int, p));
                    assert(depends_on(projects, p, p));
                } else {
                    let q = choose|q: int| 0 <= q < starts.len() && depends_on(projects, #[trigger] texts(starts@)[q], p);
                    assert(names.contains(names[q]));
                    assert(old(affected)@.contains(names[q]));
                }
            }
            if exists|d: Seq<char>| old(affected)@.contains(d) && #[trigger] depends_on(projects, d, p) {
                let d = choose|d: Seq<char>| old(affected)@.contains(d) && #[trigger] depends_on(projects, d, p);
                assert(names.contains(d));
                let q = choose|q: int| 0 <= q < names.len() && names[q] == d;
                assert(depends_on(projects, texts(starts@)[q], p));
            }
        }
    }
}

} // verus!
