//! Sequences: picking items by index, and what a sequence holds.

use vstd::prelude::*;

verus! {

/// What `pick` gives for the indices below `count`, in order, where it gives
/// anything.
pub open spec fn gather<T>(count: int, pick: spec_fn(int) -> Option<T>) -> Seq<T>
    decreases count,
{
    if count <= 0 {
        Seq::empty()
    } else {
        match pick(count - 1) {
            Some(t) => gather(count - 1, pick).push(t),
            None => gather(count - 1, pick),
        }
    }
}

/// An item is gathered exactly when `pick` gives it for some index.
pub proof fn lemma_gather_contains<T>(count: int, pick: spec_fn(int) -> Option<T>, item: T)
    ensures
        gather(count, pick).contains(item) <==> exists|i: int| 0 <= i < count && #[trigger] pick(i) == Some(item),
    decreases count,
{
    if count <= 0 {
    } else {
        lemma_gather_contains(count - 1, pick, item);
        let before = gather(count - 1, pick);
        match pick(count - 1) {
            Some(t) => {
                let all = before.push(t);
                if all.contains(item) {
                    let k = choose|k: int| 0 <= k < all.len() && all[k] == item;
                    if k < before.len() {
                        assert(before[k] == item);
                    } else {
                        assert(pick(count - 1) == Some(item));
                    }
                }
                if exists|i: int| 0 <= i < count && #[trigger] pick(i) == Some(item) {
                    let i = choose|i: int| 0 <= i < count && #[trigger] pick(i) == Some(item);
                    if i < count - 1 {
                        let k = choose|k: int| 0 <= k < before.len() && before[k] == item;
                        assert(all[k] == item);
                    } else {
                        assert(all[before.len() as int] == item);
                    }
                }
            },
            None => {
                if exists|i: int| 0 <= i < count && #[trigger] pick(i) == Some(item) {
                    let i = choose|i: int| 0 <= i < count && #[trigger] pick(i) == Some(item);
                    assert(i < count - 1);
                }
            },
        }
    }
}

/// `s.push(x)` holds what `s` holds, and `x`.
pub proof fn lemma_push_contains<A>(s: Seq<A>, x: A, t: A)
    ensures
        s.push(x).contains(t) <==> (s.contains(t) || t == x),
{
    if s.push(x).contains(t) {
        let i = choose|i: int| 0 <= i < s.push(x).len() && s.push(x)[i] == t;
        if i < s.len() {
            assert(s[i] == t);
        }
    }
    if s.contains(t) {
        let i = choose|i: int| 0 <= i < s.len() && s[i] == t;
        assert(s.push(x)[i] == t);
    }
    if t == x {
        assert(s.push(x)[s.len() as int] == t);
    }
}

/// `s + r` holds what `s` holds and what `r` holds.
pub proof fn lemma_concat_contains<A>(s: Seq<A>, r: Seq<A>, t: A)
    ensures
        (s + r).contains(t) <==> (s.contains(t) || r.contains(t)),
{
    if (s + r).contains(t) {
        let i = choose|i: int| 0 <= i < (s + r).len() && (s + r)[i] == t;
        if i < s.len() {
            assert(s[i] == t);
        } else {
            assert(r[i - s.len()] == t);
        }
    }
    if s.contains(t) {
        let i = choose|i: int| 0 <= i < s.len() && s[i] == t;
        assert((s + r)[i] == t);
    }
    if r.contains(t) {
        let i = choose|i: int| 0 <= i < r.len() && r[i] == t;
        assert((s + r)[s.len() + i] == t);
    }
}

} // verus!
