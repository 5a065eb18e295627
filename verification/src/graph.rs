//! Reachability over a finite graph of (file, symbol) keys.
//!
//! A graph is anything that can list the successors of a key. The closure of a
//! start key is computed with an explicit worklist and a visited list, so that
//! cycles cost nothing but a lookup.

use vstd::prelude::*;
use vstd::seq_lib::*;
use vstd::set_lib::*;
use crate::text::str_eq;

verus! {

/// What a key stands for: the index of a file and the name of a symbol in it.
pub type KeyView = (int, Seq<char>);

/// A symbol of one file: identical names in different files are different keys.
pub struct SymbolKey {
    pub file: usize,
    pub name: String,
}

impl View for SymbolKey {
    type V = KeyView;

    open spec fn view(&self) -> KeyView {
        (self.file as int, self.name@)
    }
}

impl SymbolKey {
    /// The key of the symbol `name` of the file at index `file`.
    pub fn new(file: usize, name: &str) -> (key: SymbolKey)
        ensures
            key@ == (file as int, name@),
    {
        SymbolKey { file, name: name.to_owned() }
    }

    /// Whether both keys stand for the same symbol of the same file.
    pub fn same(&self, other: &SymbolKey) -> (r: bool)
        ensures
            r == (self@ == other@),
    {
        self.file == other.file && str_eq(self.name.as_str(), other.name.as_str())
    }
}

/// The keys of `keys`, as what they stand for.
pub open spec fn views(keys: Seq<SymbolKey>) -> Seq<KeyView> {
    keys.map_values(|k: SymbolKey| k@)
}

/// A directed graph over keys whose edges can be listed key by key.
pub trait Expansion {
    /// What must hold of the graph for its edges to be listed.
    spec fn inv(&self) -> bool;

    /// A finite list that holds every key an edge can lead to.
    spec fn domain(&self) -> Seq<KeyView>;

    /// Whether there is an edge from `from` to `to`.
    spec fn edge(&self, from: KeyView, to: KeyView) -> bool;

    /// The successors of `key`.
    fn expand(&self, key: &SymbolKey) -> (out: Vec<SymbolKey>)
        requires
            self.inv(),
            self.domain().contains(key@),
        ensures
            forall|t: KeyView| views(out@).contains(t) <==> self.edge(key@, t),
            forall|i: int| 0 <= i < out.len() ==> self.domain().contains(#[trigger] out[i]@),
    ;
}

/// `target` is reached from `start` along at most `steps` edges.
pub open spec fn reaches_within<G: Expansion>(g: &G, start: KeyView, target: KeyView, steps: nat) -> bool
    decreases steps,
{
    if steps == 0 {
        target == start
    } else {
        reaches_within(g, start, target, (steps - 1) as nat) || exists|mid: KeyView|
            reaches_within(g, start, mid, (steps - 1) as nat) && g.edge(mid, target)
    }
}

/// `target` is reached from `start` along some path of edges, possibly empty.
pub open spec fn reaches<G: Expansion>(g: &G, start: KeyView, target: KeyView) -> bool {
    exists|steps: nat| reaches_within(g, start, target, steps)
}

/// One more edge keeps a key reachable.
pub proof fn lemma_reaches_step<G: Expansion>(g: &G, start: KeyView, mid: KeyView, target: KeyView)
    requires
        reaches(g, start, mid),
        g.edge(mid, target),
    ensures
        reaches(g, start, target),
{
    let n = choose|steps: nat| reaches_within(g, start, mid, steps);
    assert(reaches_within(g, start, target, n + 1));
}

/// Every key is reachable from itself.
pub proof fn lemma_reaches_self<G: Expansion>(g: &G, start: KeyView)
    ensures
        reaches(g, start, start),
{
    assert(reaches_within(g, start, start, 0));
}

/// A set of keys that holds `start` and is closed under edges holds all that
/// `start` reaches.
proof fn lemma_closed_holds_reached<G: Expansion>(g: &G, start: KeyView, closed: Seq<KeyView>, target: KeyView, steps: nat)
    requires
        closed.contains(start),
        forall|a: KeyView, b: KeyView| closed.contains(a) && g.edge(a, b) ==> closed.contains(b),
        reaches_within(g, start, target, steps),
    ensures
        closed.contains(target),
    decreases steps,
{
    if steps == 0 {
    } else if reaches_within(g, start, target, (steps - 1) as nat) {
        lemma_closed_holds_reached(g, start, closed, target, (steps - 1) as nat);
    } else {
        let mid = choose|mid: KeyView| reaches_within(g, start, mid, (steps - 1) as nat) && g.edge(mid, target);
        lemma_closed_holds_reached(g, start, closed, mid, (steps - 1) as nat);
    }
}

/// A key that no edge leaves reaches nothing but itself.
pub proof fn lemma_dead_end<G: Expansion>(g: &G, start: KeyView, target: KeyView)
    requires
        forall|t: KeyView| !g.edge(start, t),
        reaches(g, start, target),
    ensures
        target == start,
{
    let kept = |k: KeyView| k == start;
    lemma_reached_keeps(g, start, target, kept);
}

/// What holds of the start and is kept by every edge from a reached key
/// holds of every reached key.
pub proof fn lemma_reached_keeps<G: Expansion>(
    g: &G,
    start: KeyView,
    target: KeyView,
    kept: spec_fn(KeyView) -> bool,
)
    requires
        kept(start),
        forall|a: KeyView, b: KeyView| reaches(g, start, a) && kept(a) && #[trigger] g.edge(a, b) ==> kept(b),
        reaches(g, start, target),
    ensures
        kept(target),
{
    let n = choose|steps: nat| reaches_within(g, start, target, steps);
    lemma_reached_keeps_within(g, start, target, kept, n);
}

proof fn lemma_reached_keeps_within<G: Expansion>(
    g: &G,
    start: KeyView,
    target: KeyView,
    kept: spec_fn(KeyView) -> bool,
    steps: nat,
)
    requires
        kept(start),
        forall|a: KeyView, b: KeyView| reaches(g, start, a) && kept(a) && #[trigger] g.edge(a, b) ==> kept(b),
        reaches_within(g, start, target, steps),
    ensures
        kept(target),
    decreases steps,
{
    if steps == 0 {
    } else if reaches_within(g, start, target, (steps - 1) as nat) {
        lemma_reached_keeps_within(g, start, target, kept, (steps - 1) as nat);
    } else {
        let mid = choose|mid: KeyView| reaches_within(g, start, mid, (steps - 1) as nat) && g.edge(mid, target);
        lemma_reached_keeps_within(g, start, mid, kept, (steps - 1) as nat);
        assert(reaches(g, start, mid));
    }
}

/// A list without repeats whose items all occur in `within` is no longer than it.
pub proof fn lemma_distinct_within<A>(items: Seq<A>, within: Seq<A>)
    requires
        items.no_duplicates(),
        forall|i: int| 0 <= i < items.len() ==> within.contains(#[trigger] items[i]),
    ensures
        items.len() <= within.len(),
{
    items.unique_seq_to_set();
    within.lemma_cardinality_of_set();
    seq_to_set_is_finite(within);
    assert(items.to_set().subset_of(within.to_set())) by {
        assert forall|a: A| items.to_set().contains(a) implies within.to_set().contains(a) by {
            let i = choose|i: int| 0 <= i < items.len() && items[i] == a;
            assert(within.contains(items[i]));
        }
    }
    lemma_len_subset(items.to_set(), within.to_set());
}

/// Whether `key` occurs in `keys`.
pub fn holds_key(keys: &Vec<SymbolKey>, key: &SymbolKey) -> (found: bool)
    ensures
        found == views(keys@).contains(key@),
{
    let mut i: usize = 0;
    while i < keys.len()
        invariant
            i <= keys.len(),
            forall|j: int| 0 <= j < i ==> views(keys@)[j] != key@,
        decreases keys.len() - i,
    {
        if keys[i].same(key) {
            assert(views(keys@)[i as int] == key@);
            return true;
        }
        i += 1;
    }
    false
}

/// The keys that `start` reaches in `g`, each once, `start` among them.
pub fn closure<G: Expansion>(g: &G, start: SymbolKey) -> (visited: Vec<SymbolKey>)
    requires
        g.inv(),
        g.domain().contains(start@),
    ensures
        views(visited@).no_duplicates(),
        forall|k: KeyView| views(visited@).contains(k) <==> reaches(g, start@, k),
        forall|i: int| 0 <= i < visited.len() ==> g.domain().contains(#[trigger] views(visited@)[i]),
        visited.len() <= g.domain().len(),
{
    let ghost origin = start@;
    let mut visited: Vec<SymbolKey> = Vec::new();
    let mut pending: Vec<SymbolKey> = Vec::new();
    pending.push(start);
    proof {
        lemma_reaches_self(g, origin);
        assert(views(pending@)[0] == origin);
    }
    while pending.len() > 0
        invariant
            g.inv(),
            g.domain().contains(origin),
            views(visited@).no_duplicates(),
            forall|i: int| 0 <= i < visited.len() ==> g.domain().contains(#[trigger] views(visited@)[i]),
            forall|i: int| 0 <= i < pending.len() ==> g.domain().contains(#[trigger] views(pending@)[i]),
            forall|i: int| 0 <= i < visited.len() ==> reaches(g, origin, #[trigger] views(visited@)[i]),
            forall|i: int| 0 <= i < pending.len() ==> reaches(g, origin, #[trigger] views(pending@)[i]),
            views(visited@).contains(origin) || views(pending@).contains(origin),
            forall|a: KeyView, b: KeyView|
                views(visited@).contains(a) && #[trigger] g.edge(a, b) ==> views(visited@).contains(b)
                    || views(pending@).contains(b),
        decreases g.domain().len() - visited.len(), pending.len(),
    {
        let ghost before_pending = views(pending@);
        let ghost before_visited = views(visited@);
        proof {
            lemma_distinct_within(views(visited@), g.domain());
        }
        let key = pending.pop().unwrap();
        let ghost kv = key@;
        assert(kv == before_pending[before_pending.len() - 1]);
        assert(views(pending@) =~= before_pending.drop_last());
        assert(forall|t: KeyView| before_pending.contains(t) ==> t == kv || views(pending@).contains(t)) by {
            assert forall|t: KeyView| before_pending.contains(t) implies t == kv || views(pending@).contains(t) by {
                let i = choose|i: int| 0 <= i < before_pending.len() && before_pending[i] == t;
                if i < before_pending.len() - 1 {
                    assert(views(pending@)[i] == t);
                }
            }
        }
        if holds_key(&visited, &key) {
        } else {
            let mut next = g.expand(&key);
            let ghost next_views = views(next@);
            let ghost mid_pending = views(pending@);
            assert forall|i: int| 0 <= i < next_views.len() implies g.domain().contains(#[trigger] next_views[i]) by {
                assert(next_views[i] == next[i]@);
            }
            visited.push(key);
            assert(views(visited@) =~= before_visited.push(kv));
            proof {
                lemma_distinct_within(views(visited@), g.domain());
                assert forall|i: int| 0 <= i < next_views.len() implies reaches(g, origin, #[trigger] next_views[i]) by {
                    assert(next_views.contains(next_views[i]));
                    lemma_reaches_step(g, origin, kv, next_views[i]);
                }
            }
            pending.append(&mut next);
            assert(views(pending@) =~= mid_pending + next_views);
            proof {
                assert forall|t: KeyView| mid_pending.contains(t) implies views(pending@).contains(t) by {
                    let i = choose|i: int| 0 <= i < mid_pending.len() && mid_pending[i] == t;
                    assert(views(pending@)[i] == t);
                }
                assert forall|t: KeyView| next_views.contains(t) implies views(pending@).contains(t) by {
                    let i = choose|i: int| 0 <= i < next_views.len() && next_views[i] == t;
                    assert(views(pending@)[mid_pending.len() + i] == t);
                }
                assert forall|t: KeyView| before_visited.contains(t) implies views(visited@).contains(t) by {
                    let i = choose|i: int| 0 <= i < before_visited.len() && before_visited[i] == t;
                    assert(views(visited@)[i] == t);
                }
                assert(views(visited@)[before_visited.len() as int] == kv);
                assert forall|i: int| 0 <= i < pending.len() implies g.domain().contains(#[trigger] views(pending@)[i]) by {
                    if i >= mid_pending.len() {
                        assert(views(pending@)[i] == next_views[i - mid_pending.len()]);
                    }
                }
                assert forall|i: int| 0 <= i < pending.len() implies reaches(g, origin, #[trigger] views(pending@)[i]) by {
                    if i >= mid_pending.len() {
                        assert(views(pending@)[i] == next_views[i - mid_pending.len()]);
                    }
                }
                assert forall|a: KeyView, b: KeyView|
                    views(visited@).contains(a) && #[trigger] g.edge(a, b) implies views(visited@).contains(b)
                        || views(pending@).contains(b) by {
                    if a == kv {
                        assert(next_views.contains(b));
                    } else {
                        let i = choose|i: int| 0 <= i < views(visited@).len() && views(visited@)[i] == a;
                        assert(before_visited[i] == a);
                        assert(before_visited.contains(a));
                    }
                }
            }
        }
    }
    proof {
        lemma_distinct_within(views(visited@), g.domain());
        assert(views(pending@).len() == 0);
        assert forall|k: KeyView| reaches(g, origin, k) implies views(visited@).contains(k) by {
            let n = choose|steps: nat| reaches_within(g, origin, k, steps);
            lemma_closed_holds_reached(g, origin, views(visited@), k, n);
        }
    }
    visited
}

} // verus!
