//! The order of names, and sets of names kept in that order.
//!
//! Names are ordered as their UTF-8 bytes are, byte by byte, a proper prefix
//! before what it is a prefix of.

use vstd::prelude::*;
use vstd::utf8::encode_utf8;
use crate::text::lemma_bytes_decide_text;
use crate::types::texts;

verus! {

/// `a` comes strictly before `b`.
pub open spec fn bytes_before(a: Seq<u8>, b: Seq<u8>) -> bool
    decreases a.len(),
{
    if b.len() == 0 {
        false
    } else if a.len() == 0 {
        true
    } else if a[0] != b[0] {
        a[0] < b[0]
    } else {
        bytes_before(a.drop_first(), b.drop_first())
    }
}

/// The name `a` comes strictly before the name `b`.
pub open spec fn name_before(a: Seq<char>, b: Seq<char>) -> bool {
    bytes_before(encode_utf8(a), encode_utf8(b))
}

/// Nothing comes before itself.
pub proof fn lemma_before_irreflexive(a: Seq<u8>)
    ensures
        !bytes_before(a, a),
    decreases a.len(),
{
    if a.len() > 0 {
        lemma_before_irreflexive(a.drop_first());
    }
}

/// The order is transitive.
pub proof fn lemma_before_transitive(a: Seq<u8>, b: Seq<u8>, c: Seq<u8>)
    requires
        bytes_before(a, b),
        bytes_before(b, c),
    ensures
        bytes_before(a, c),
    decreases a.len(),
{
    if a.len() > 0 && a[0] == b[0] && b[0] == c[0] {
        lemma_before_transitive(a.drop_first(), b.drop_first(), c.drop_first());
    }
}

/// Of two different sequences one comes before the other.
pub proof fn lemma_before_total(a: Seq<u8>, b: Seq<u8>)
    ensures
        a == b || bytes_before(a, b) || bytes_before(b, a),
    decreases a.len(),
{
    if a.len() == 0 || b.len() == 0 {
        if a.len() == 0 && b.len() == 0 {
            assert(a =~= b);
        }
    } else if a[0] == b[0] {
        lemma_before_total(a.drop_first(), b.drop_first());
        if a.drop_first() == b.drop_first() {
            assert(a =~= seq![a[0]] + a.drop_first());
            assert(b =~= seq![b[0]] + b.drop_first());
        }
    }
}

/// Names obey the same laws: the order is strict, transitive and total.
pub proof fn lemma_name_order(a: Seq<char>, b: Seq<char>, c: Seq<char>)
    ensures
        !name_before(a, a),
        name_before(a, b) && name_before(b, c) ==> name_before(a, c),
        a == b || name_before(a, b) || name_before(b, a),
        !(name_before(a, b) && name_before(b, a)),
{
    lemma_before_irreflexive(encode_utf8(a));
    if name_before(a, b) && name_before(b, c) {
        lemma_before_transitive(encode_utf8(a), encode_utf8(b), encode_utf8(c));
    }
    lemma_before_total(encode_utf8(a), encode_utf8(b));
    lemma_bytes_decide_text(a, b);
    if name_before(a, b) && name_before(b, a) {
        lemma_before_transitive(encode_utf8(a), encode_utf8(b), encode_utf8(a));
    }
}

/// How one name stands to another.
#[derive(Debug, Clone, Copy, PartialEq, Eq, Structural)]
pub enum Rank {
    Before,
    Same,
    After,
}

proof fn lemma_before_skip(a: Seq<u8>, b: Seq<u8>, i: int)
    requires
        0 <= i < a.len(),
        i < b.len(),
        a[i] == b[i],
    ensures
        bytes_before(a.skip(i), b.skip(i)) == bytes_before(a.skip(i + 1), b.skip(i + 1)),
{
    assert(a.skip(i).drop_first() =~= a.skip(i + 1));
    assert(b.skip(i).drop_first() =~= b.skip(i + 1));
}

/// How `a` stands to `b` in the order of names.
pub fn rank_names(a: &str, b: &str) -> (r: Rank)
    ensures
        r == Rank::Before <==> name_before(a@, b@),
        r == Rank::Same <==> a@ == b@,
        r == Rank::After <==> name_before(b@, a@),
{
    let x = a.as_bytes();
    let y = b.as_bytes();
    proof {
        lemma_name_order(a@, b@, a@);
        lemma_bytes_decide_text(a@, b@);
        assert(x@.skip(0) =~= x@);
        assert(y@.skip(0) =~= y@);
    }
    let mut i: usize = 0;
    while i < x.len() && i < y.len()
        invariant
            i <= x.len(),
            i <= y.len(),
            x@ == encode_utf8(a@),
            y@ == encode_utf8(b@),
            bytes_before(x@, y@) == bytes_before(x@.skip(i as int), y@.skip(i as int)),
            bytes_before(y@, x@) == bytes_before(y@.skip(i as int), x@.skip(i as int)),
            x@.take(i as int) == y@.take(i as int),
            !(name_before(a@, b@) && name_before(b@, a@)),
            a@ == b@ ==> !name_before(a@, b@) && !name_before(b@, a@),
            (x@ == y@) <==> (a@ == b@),
        decreases x.len() - i,
    {
        if x[i] < y[i] {
            assert(x@.skip(i as int)[0] == x@[i as int]);
            assert(y@.skip(i as int)[0] == y@[i as int]);
            assert(x@[i as int] != y@[i as int]);
            return Rank::Before;
        }
        if x[i] > y[i] {
            assert(x@.skip(i as int)[0] == x@[i as int]);
            assert(y@.skip(i as int)[0] == y@[i as int]);
            assert(x@[i as int] != y@[i as int]);
            return Rank::After;
        }
        proof {
            lemma_before_skip(x@, y@, i as int);
            lemma_before_skip(y@, x@, i as int);
            assert(x@.take(i + 1) =~= x@.take(i as int).push(x@[i as int]));
            assert(y@.take(i + 1) =~= y@.take(i as int).push(y@[i as int]));
        }
        i += 1;
    }
    if x.len() == y.len() {
        assert(x@ =~= x@.take(i as int));
        assert(y@ =~= y@.take(i as int));
        Rank::Same
    } else if i >= x.len() {
        assert(x@.skip(i as int).len() == 0);
        assert(y@.skip(i as int).len() > 0);
        Rank::Before
    } else {
        assert(y@.skip(i as int).len() == 0);
        assert(x@.skip(i as int).len() > 0);
        Rank::After
    }
}

/// Each name comes strictly before those after it.
pub open spec fn ascending(names: Seq<Seq<char>>) -> bool {
    forall|i: int, j: int| 0 <= i < j < names.len() ==> name_before(#[trigger] names[i], #[trigger] names[j])
}

/// Two lists in ascending order that hold the same names are the same list.
pub proof fn lemma_ascending_unique(x: Seq<Seq<char>>, y: Seq<Seq<char>>)
    requires
        ascending(x),
        ascending(y),
        forall|n: Seq<char>| x.contains(n) <==> y.contains(n),
    ensures
        x == y,
    decreases x.len(),
{
    if x.len() == 0 {
        if y.len() > 0 {
            assert(y.contains(y[0]));
        }
        assert(x =~= y);
    } else if y.len() == 0 {
        assert(x.contains(x[0]));
    } else {
        assert(x.contains(x[0]));
        assert(y.contains(y[0]));
        let j = choose|j: int| 0 <= j < y.len() && y[j] == x[0];
        let i = choose|i: int| 0 <= i < x.len() && x[i] == y[0];
        lemma_name_order(x[0], y[0], x[0]);
        if x[0] != y[0] {
            assert(i > 0 && j > 0);
            assert(name_before(x[0], x[i]));
            assert(name_before(y[0], y[j]));
        }
        let xs = x.drop_first();
        let ys = y.drop_first();
        assert forall|p: int, q: int| 0 <= p < q < xs.len() implies name_before(#[trigger] xs[p], #[trigger] xs[q]) by {
            assert(xs[p] == x[p + 1] && xs[q] == x[q + 1]);
        }
        assert forall|p: int, q: int| 0 <= p < q < ys.len() implies name_before(#[trigger] ys[p], #[trigger] ys[q]) by {
            assert(ys[p] == y[p + 1] && ys[q] == y[q + 1]);
        }
        assert forall|n: Seq<char>| xs.contains(n) <==> ys.contains(n) by {
            if xs.contains(n) {
                let p = choose|p: int| 0 <= p < xs.len() && xs[p] == n;
                assert(x[p + 1] == n);
                assert(x.contains(n));
                assert(name_before(x[0], x[p + 1]));
                lemma_name_order(x[0], n, x[0]);
                let q = choose|q: int| 0 <= q < y.len() && y[q] == n;
                assert(q > 0);
                assert(ys[q - 1] == n);
            }
            if ys.contains(n) {
                let p = choose|p: int| 0 <= p < ys.len() && ys[p] == n;
                assert(y[p + 1] == n);
                assert(y.contains(n));
                assert(name_before(y[0], y[p + 1]));
                lemma_name_order(y[0], n, y[0]);
                let q = choose|q: int| 0 <= q < x.len() && x[q] == n;
                assert(q > 0);
                assert(xs[q - 1] == n);
            }
        }
        lemma_ascending_unique(xs, ys);
        assert(x =~= seq![x[0]] + xs);
        assert(y =~= seq![y[0]] + ys);
    }
}

/// A set of names, kept as a list in ascending order.
#[derive(Debug, Clone)]
pub struct NameSet {
    pub names: Vec<String>,
}

impl View for NameSet {
    type V = Set<Seq<char>>;

    open spec fn view(&self) -> Set<Seq<char>> {
        texts(self.names@).to_set()
    }
}

impl NameSet {
    /// The list is in ascending order.
    pub open spec fn wf(&self) -> bool {
        ascending(texts(self.names@))
    }

    /// The empty set.
    pub fn new() -> (s: NameSet)
        ensures
            s.wf(),
            s@ == Set::<Seq<char>>::empty(),
            s.names@.len() == 0,
    {
        let s = NameSet { names: Vec::new() };
        assert(texts(s.names@) =~= Seq::<Seq<char>>::empty());
        assert(s@ =~= Set::<Seq<char>>::empty());
        s
    }

    /// Whether `name` is in the set.
    pub fn contains(&self, name: &str) -> (r: bool)
        requires
            self.wf(),
        ensures
            r == self@.contains(name@),
    {
        let mut i: usize = 0;
        while i < self.names.len()
            invariant
                i <= self.names.len(),
                forall|j: int| 0 <= j < i ==> texts(self.names@)[j] != name@,
            decreases self.names.len() - i,
        {
            let r = rank_names(self.names[i].as_str(), name);
            if r == Rank::Same {
                assert(texts(self.names@)[i as int] == name@);
                return true;
            }
            i += 1;
        }
        false
    }

    /// Puts `name` into the set; a name that is there already stays once.
    pub fn insert(&mut self, name: &str)
        requires
            old(self).wf(),
        ensures
            final(self).wf(),
            final(self)@ == old(self)@.insert(name@),
    {
        let ghost before = texts(self.names@);
        let mut i: usize = 0;
        let mut placed = false;
        while i < self.names.len() && !placed
            invariant
                i <= self.names.len(),
                self.names@ == old(self).names@,
                before == texts(self.names@),
                ascending(before),
                forall|j: int| 0 <= j < i ==> name_before(before[j], name@),
                placed ==> i < self.names.len() && name_before(name@, before[i as int]),
            decreases self.names.len() - i + if placed { 0nat } else { 1nat },
        {
            let r = rank_names(self.names[i].as_str(), name);
            assert(before[i as int] == self.names@[i as int]@);
            if r == Rank::Same {
                assert(before.to_set().insert(name@) =~= before.to_set());
                return ;
            }
            if r == Rank::After {
                placed = true;
            } else {
                i += 1;
            }
        }
        self.names.insert(i, name.to_owned());
        proof {
            let after = texts(self.names@);
            assert(after =~= before.insert(i as int, name@));
            assert forall|p: int, q: int| 0 <= p < q < after.len() implies name_before(
                #[trigger] after[p],
                #[trigger] after[q],
            ) by {
                let a = after[p];
                let b = after[q];
                if q < i {
                    assert(a == before[p] && b == before[q]);
                } else if q == i {
                    assert(a == before[p]);
                } else if p < i {
                    assert(a == before[p] && b == before[q - 1]);
                } else if p == i {
                    assert(b == before[q - 1]);
                    if q - 1 > i {
                        assert(name_before(before[i as int], before[q - 1]));
                        lemma_name_order(name@, before[i as int], before[q - 1]);
                    }
                } else {
                    assert(a == before[p - 1] && b == before[q - 1]);
                }
            }
            assert forall|t: Seq<char>| after.to_set().contains(t) <==> before.to_set().insert(name@).contains(
                t,
            ) by {
                if after.to_set().contains(t) {
                    let k = choose|k: int| 0 <= k < after.len() && after[k] == t;
                    if k < i {
                        assert(before[k] == t);
                    } else if k > i {
                        assert(before[k - 1] == t);
                    }
                }
                if before.to_set().contains(t) {
                    let k = choose|k: int| 0 <= k < before.len() && before[k] == t;
                    if k < i {
                        assert(after[k] == t);
                    } else {
                        assert(after[k + 1] == t);
                    }
                }
                if t == name@ {
                    assert(after[i as int] == t);
                }
            }
            assert(self@ =~= old(self)@.insert(name@));
        }
    }
}

} // verus!
