//! The reasons for which projects are affected, in a fixed order.
//!
//! Causes are ordered by kind first: direct changes, imported symbols,
//! re-exports, declared dependencies. Within a kind they are ordered field by
//! field, texts as names are, a missing symbol before any symbol.

use vstd::prelude::*;
use crate::order::{lemma_name_order, name_before, rank_names, Rank};
use crate::types::AffectCause;

verus! {

/// What a cause is ordered by: its kind, then its fields in their order.
pub struct CauseKey {
    pub kind: int,
    pub first: Seq<char>,
    pub has_symbol: int,
    pub second: Seq<char>,
    pub third: Seq<char>,
    pub fourth: Seq<char>,
    pub line: int,
}

impl View for AffectCause {
    type V = CauseKey;

    open spec fn view(&self) -> CauseKey {
        match self {
            AffectCause::DirectChange { file, symbol, line } => CauseKey {
                kind: 0,
                first: file@,
                has_symbol: if symbol is Some {
                    1
                } else {
                    0
                },
                second: match symbol {
                    Some(s) => s@,
                    None => Seq::empty(),
                },
                third: Seq::empty(),
                fourth: Seq::empty(),
                line: *line as int,
            },
            AffectCause::ImportedSymbol { source_project, symbol, via_file, source_file } => CauseKey {
                kind: 1,
                first: source_project@,
                has_symbol: 1,
                second: symbol@,
                third: via_file@,
                fourth: source_file@,
                line: 0,
            },
            AffectCause::ReExported { through_file, symbol, source_file } => CauseKey {
                kind: 2,
                first: through_file@,
                has_symbol: 1,
                second: symbol@,
                third: source_file@,
                fourth: Seq::empty(),
                line: 0,
            },
            AffectCause::ImplicitDependency { depends_on } => CauseKey {
                kind: 3,
                first: depends_on@,
                has_symbol: 0,
                second: Seq::empty(),
                third: Seq::empty(),
                fourth: Seq::empty(),
                line: 0,
            },
        }
    }
}

/// The cause `a` comes strictly before the cause `b`.
pub open spec fn cause_before(a: CauseKey, b: CauseKey) -> bool {
    if a.kind != b.kind {
        a.kind < b.kind
    } else if a.first != b.first {
        name_before(a.first, b.first)
    } else if a.has_symbol != b.has_symbol {
        a.has_symbol < b.has_symbol
    } else if a.second != b.second {
        name_before(a.second, b.second)
    } else if a.third != b.third {
        name_before(a.third, b.third)
    } else if a.fourth != b.fourth {
        name_before(a.fourth, b.fourth)
    } else {
        a.line < b.line
    }
}

/// The order of causes is strict, transitive and total.
pub proof fn lemma_cause_order(a: CauseKey, b: CauseKey, c: CauseKey)
    ensures
        !cause_before(a, a),
        cause_before(a, b) && cause_before(b, c) ==> cause_before(a, c),
        a == b || cause_before(a, b) || cause_before(b, a),
        !(cause_before(a, b) && cause_before(b, a)),
{
    lemma_name_order(a.first, b.first, c.first);
    lemma_name_order(a.second, b.second, c.second);
    lemma_name_order(a.third, b.third, c.third);
    lemma_name_order(a.fourth, b.fourth, c.fourth);
    lemma_name_order(b.first, a.first, c.first);
    lemma_name_order(b.second, a.second, c.second);
    lemma_name_order(b.third, a.third, c.third);
    lemma_name_order(b.fourth, a.fourth, c.fourth);
    lemma_name_order(a.first, c.first, b.first);
    lemma_name_order(a.second, c.second, b.second);
    lemma_name_order(a.third, c.third, b.third);
    lemma_name_order(a.fourth, c.fourth, b.fourth);
}

/// The fields of a cause in the order in which they are compared.
struct Fields<'a> {
    kind: u8,
    first: &'a str,
    has_symbol: u8,
    second: &'a str,
    third: &'a str,
    fourth: &'a str,
    line: usize,
}

impl<'a> Fields<'a> {
    spec fn key(&self) -> CauseKey {
        CauseKey {
            kind: self.kind as int,
            first: self.first@,
            has_symbol: self.has_symbol as int,
            second: self.second@,
            third: self.third@,
            fourth: self.fourth@,
            line: self.line as int,
        }
    }
}

fn fields_of<'a>(cause: &'a AffectCause) -> (f: Fields<'a>)
    ensures
        f.key() == cause@,
{
    let empty = "";
    proof {
        reveal_strlit("");
        assert(empty@ =~= Seq::<char>::empty());
    }
    match cause {
        AffectCause::DirectChange { file, symbol, line } => {
            let (has_symbol, second) = match symbol {
                Some(s) => (1u8, s.as_str()),
                None => (0u8, empty),
            };
            Fields { kind: 0, first: file.as_str(), has_symbol, second, third: empty, fourth: empty, line: *line }
        },
        AffectCause::ImportedSymbol { source_project, symbol, via_file, source_file } => Fields {
            kind: 1,
            first: source_project.as_str(),
            has_symbol: 1,
            second: symbol.as_str(),
            third: via_file.as_str(),
            fourth: source_file.as_str(),
            line: 0,
        },
        AffectCause::ReExported { through_file, symbol, source_file } => Fields {
            kind: 2,
            first: through_file.as_str(),
            has_symbol: 1,
            second: symbol.as_str(),
            third: source_file.as_str(),
            fourth: empty,
            line: 0,
        },
        AffectCause::ImplicitDependency { depends_on } => Fields {
            kind: 3,
            first: depends_on.as_str(),
            has_symbol: 0,
            second: empty,
            third: empty,
            fourth: empty,
            line: 0,
        },
    }
}

fn rank_numbers(a: usize, b: usize) -> (r: Rank)
    ensures
        r == Rank::Before <==> a < b,
        r == Rank::Same <==> a == b,
        r == Rank::After <==> a > b,
{
    if a < b {
        Rank::Before
    } else if a > b {
        Rank::After
    } else {
        Rank::Same
    }
}

/// How the cause `a` stands to the cause `b`.
pub fn rank_causes(a: &AffectCause, b: &AffectCause) -> (r: Rank)
    ensures
        r == Rank::Before <==> cause_before(a@, b@),
        r == Rank::Same <==> a@ == b@,
        r == Rank::After <==> cause_before(b@, a@),
{
    let x = fields_of(a);
    let y = fields_of(b);
    proof {
        lemma_cause_order(a@, b@, a@);
    }
    let r = rank_numbers(x.kind as usize, y.kind as usize);
    if r != Rank::Same {
        return r;
    }
    let r = rank_names(x.first, y.first);
    if r != Rank::Same {
        return r;
    }
    let r = rank_numbers(x.has_symbol as usize, y.has_symbol as usize);
    if r != Rank::Same {
        return r;
    }
    let r = rank_names(x.second, y.second);
    if r != Rank::Same {
        return r;
    }
    let r = rank_names(x.third, y.third);
    if r != Rank::Same {
        return r;
    }
    let r = rank_names(x.fourth, y.fourth);
    if r != Rank::Same {
        return r;
    }
    rank_numbers(x.line, y.line)
}

/// The views of a list of causes.
pub open spec fn cause_views(causes: Seq<AffectCause>) -> Seq<CauseKey> {
    causes.map_values(|c: AffectCause| c@)
}

/// Each cause comes strictly before those after it.
pub open spec fn causes_ascending(causes: Seq<CauseKey>) -> bool {
    forall|i: int, j: int| 0 <= i < j < causes.len() ==> cause_before(#[trigger] causes[i], #[trigger] causes[j])
}

/// Two lists of causes in ascending order that hold the same causes are the
/// same list.
pub proof fn lemma_causes_unique(x: Seq<CauseKey>, y: Seq<CauseKey>)
    requires
        causes_ascending(x),
        causes_ascending(y),
        forall|c: CauseKey| x.contains(c) <==> y.contains(c),
    ensures
        x == y,
    decreases x.len(),
{
    if x.len() == 0 {
        if y.len() > 0 {
            assert(y.contains(y[0]));
        }
        assert(x =~= y);
    } else if y.len() == 0 {
        assert(x.contains(x[0]));
    } else {
        assert(x.contains(x[0]));
        assert(y.contains(y[0]));
        let j = choose|j: int| 0 <= j < y.len() && y[j] == x[0];
        let i = choose|i: int| 0 <= i < x.len() && x[i] == y[0];
        lemma_cause_order(x[0], y[0], x[0]);
        if x[0] != y[0] {
            assert(i > 0 && j > 0);
            assert(cause_before(x[0], x[i]));
            assert(cause_before(y[0], y[j]));
        }
        let xs = x.drop_first();
        let ys = y.drop_first();
        assert forall|p: int, q: int| 0 <= p < q < xs.len() implies cause_before(#[trigger] xs[p], #[trigger] xs[q]) by {
            assert(xs[p] == x[p + 1] && xs[q] == x[q + 1]);
        }
        assert forall|p: int, q: int| 0 <= p < q < ys.len() implies cause_before(#[trigger] ys[p], #[trigger] ys[q]) by {
            assert(ys[p] == y[p + 1] && ys[q] == y[q + 1]);
        }
        assert forall|n: CauseKey| xs.contains(n) <==> ys.contains(n) by {
            if xs.contains(n) {
                let p = choose|p: int| 0 <= p < xs.len() && xs[p] == n;
                assert(x[p + 1] == n);
                assert(x.contains(n));
                assert(cause_before(x[0], x[p + 1]));
                lemma_cause_order(x[0], n, x[0]);
                let q = choose|q: int| 0 <= q < y.len() && y[q] == n;
                assert(q > 0);
                assert(ys[q - 1] == n);
            }
            if ys.contains(n) {
                let p = choose|p: int| 0 <= p < ys.len() && ys[p] == n;
                assert(y[p + 1] == n);
                assert(y.contains(n));
                assert(cause_before(y[0], y[p + 1]));
                lemma_cause_order(y[0], n, y[0]);
                let q = choose|q: int| 0 <= q < x.len() && x[q] == n;
                assert(q > 0);
                assert(xs[q - 1] == n);
            }
        }
        lemma_causes_unique(xs, ys);
        assert(x =~= seq![x[0]] + xs);
        assert(y =~= seq![y[0]] + ys);
    }
}

/// Puts `cause` at its place in the ascending list `causes`; a cause that is
/// there already stays once.
pub fn insert_cause(causes: &mut Vec<AffectCause>, cause: AffectCause)
    requires
        causes_ascending(cause_views(old(causes)@)),
    ensures
        causes_ascending(cause_views(final(causes)@)),
        forall|c: CauseKey|
            #[trigger] cause_views(final(causes)@).contains(c) <==> (cause_views(old(causes)@).contains(c) || c
                == cause@),
{
    let ghost before = cause_views(causes@);
    let ghost key = cause@;
    let mut i: usize = 0;
    let mut placed = false;
    while i < causes.len() && !placed
        invariant
            i <= causes.len(),
            causes@ == old(causes)@,
            before == cause_views(causes@),
            key == cause@,
            causes_ascending(before),
            forall|j: int| 0 <= j < i ==> cause_before(before[j], key),
            placed ==> i < causes.len() && cause_before(key, before[i as int]),
        decreases causes.len() - i + if placed { 0nat } else { 1nat },
    {
        let r = rank_causes(&causes[i], &cause);
        assert(before[i as int] == causes@[i as int]@);
        if r == Rank::Same {
            assert(before.contains(key));
            return ;
        }
        if r == Rank::After {
            placed = true;
        } else {
            i += 1;
        }
    }
    causes.insert(i, cause);
    proof {
        let after = cause_views(causes@);
        assert(after =~= before.insert(i as int, key));
        assert forall|p: int, q: int| 0 <= p < q < after.len() implies cause_before(
            #[trigger] after[p],
            #[trigger] after[q],
        ) by {
            let a = after[p];
            let b = after[q];
            if q < i {
                assert(a == before[p] && b == before[q]);
            } else if q == i {
                assert(a == before[p]);
            } else if p < i {
                assert(a == before[p] && b == before[q - 1]);
            } else if p == i {
                assert(b == before[q - 1]);
                if q - 1 > i {
                    assert(cause_before(before[i as int], before[q - 1]));
                    lemma_cause_order(key, before[i as int], before[q - 1]);
                }
            } else {
                assert(a == before[p - 1] && b == before[q - 1]);
            }
        }
        assert forall|c: CauseKey| #[trigger] after.contains(c) <==> (before.contains(c) || c == key) by {
            if after.contains(c) {
                let k = choose|k: int| 0 <= k < after.len() && after[k] == c;
                if k < i {
                    assert(before[k] == c);
                } else if k > i {
                    assert(before[k - 1] == c);
                }
            }
            if before.contains(c) {
                let k = choose|k: int| 0 <= k < before.len() && before[k] == c;
                if k < i {
                    assert(after[k] == c);
                } else {
                    assert(after[k + 1] == c);
                }
            }
            if c == key {
                assert(after[i as int] == c);
            }
        }
    }
}

} // verus!
