//! Paths as text, with `/` between components.

use vstd::prelude::*;
use crate::text::{chars_of, copy_range, string_of};
use crate::types::opt_text;

verus! {

/// `rel` taken from the directory `base`: `rel` itself where it starts at the
/// root or `base` is empty, else both with one `/` between them.
pub open spec fn joined(base: Seq<char>, rel: Seq<char>) -> Seq<char> {
    if rel.len() > 0 && rel[0] == '/' {
        rel
    } else if base.len() == 0 {
        rel
    } else if base[base.len() - 1] == '/' {
        base + rel
    } else {
        base + seq!['/'] + rel
    }
}

fn push_all(out: &mut Vec<char>, more: &Vec<char>)
    ensures
        final(out)@ == old(out)@ + more@,
{
    let mut i: usize = 0;
    assert(out@ =~= old(out)@ + more@.take(0));
    while i < more.len()
        invariant
            i <= more.len(),
            out@ == old(out)@ + more@.take(i as int),
        decreases more.len() - i,
    {
        out.push(more[i]);
        assert(more@.take(i + 1) =~= more@.take(i as int).push(more@[i as int]));
        assert(out@ =~= old(out)@ + more@.take(i + 1));
        i += 1;
    }
    assert(more@.take(more.len() as int) =~= more@);
}

/// The path `rel` as seen from the directory `base`.
pub fn join_path(base: &str, rel: &str) -> (out: String)
    ensures
        out@ == joined(base@, rel@),
{
    let b = chars_of(base);
    let r = chars_of(rel);
    if (r.len() > 0 && r[0] == '/') || b.len() == 0 {
        return rel.to_owned();
    }
    let mut out: Vec<char> = Vec::new();
    push_all(&mut out, &b);
    if b[b.len() - 1] != '/' {
        out.push('/');
    }
    push_all(&mut out, &r);
    assert(out@ =~= joined(base@, rel@));
    string_of(&out)
}

/// The path starts at the root of the file system.
pub open spec fn is_rooted(path: Seq<char>) -> bool {
    path.len() > 0 && path[0] == '/'
}

/// What stands between two separators counts as a component if it is not
/// empty and is not `.`; a `.` at the very start of the path counts.
pub open spec fn counts(part: Seq<char>, start: int) -> bool {
    part.len() > 0 && (part != seq!['.'] || start == 0)
}

/// The part of `path` from `start` up to `end` as a list of bounds: its
/// bounds if it counts, else nothing.
pub open spec fn counted_span(path: Seq<char>, start: int, end: int) -> Seq<(int, int)> {
    if counts(path.subrange(start, end), start) {
        seq![(start, end)]
    } else {
        Seq::empty()
    }
}

/// Where the components of `path` from position `start` on stand, read from
/// `at`: for each its first position and the position after its last.
pub open spec fn spans_from(path: Seq<char>, at: int, start: int) -> Seq<(int, int)>
    decreases path.len() - at,
{
    if at < start || at >= path.len() {
        counted_span(path, start, path.len() as int)
    } else if path[at] == '/' {
        counted_span(path, start, at) + spans_from(path, at + 1, at + 1)
    } else {
        spans_from(path, at + 1, start)
    }
}

/// Where the components of `path` stand in it.
pub open spec fn spans(path: Seq<char>) -> Seq<(int, int)> {
    spans_from(path, 0, 0)
}

/// The components of `path`, in order: what stands between its separators,
/// without what is empty and without `.` but at the start. `..` is a
/// component like any other. The root is no component.
pub open spec fn components(path: Seq<char>) -> Seq<Seq<char>> {
    spans(path).map_values(|at: (int, int)| path.subrange(at.0, at.1))
}

/// Where the last component of `path` ends; without components, where the
/// root ends.
pub open spec fn body_end(path: Seq<char>) -> int {
    let at = spans(path);
    if at.len() > 0 {
        at[at.len() - 1].1
    } else if is_rooted(path) {
        1
    } else {
        0
    }
}

/// The components with `/` between them.
pub open spec fn glued(parts: Seq<Seq<char>>) -> Seq<char>
    decreases parts.len(),
{
    if parts.len() == 0 {
        Seq::empty()
    } else if parts.len() == 1 {
        parts[0]
    } else {
        glued(parts.drop_last()) + seq!['/'] + parts[parts.len() - 1]
    }
}

/// The path with these components, from the root if `rooted`.
pub open spec fn path_text(rooted: bool, parts: Seq<Seq<char>>) -> Seq<char> {
    if rooted {
        seq!['/'] + glued(parts)
    } else {
        glued(parts)
    }
}

/// `first` is the start of `all`.
pub open spec fn starts(all: Seq<Seq<char>>, first: Seq<Seq<char>>) -> bool {
    first.len() <= all.len() && all.subrange(0, first.len() as int) == first
}

/// The two texts name the same path: both start at the root of the file
/// system or neither does, and their components are the same.
pub open spec fn same_path(a: Seq<char>, b: Seq<char>) -> bool {
    is_rooted(a) == is_rooted(b) && components(a) == components(b)
}

/// `path` lies in the directory `root` or is `root` itself: the components
/// of `root` are the first components of `path`, and both start at the root
/// of the file system or neither does. Every path lies under the empty path.
pub open spec fn is_under(path: Seq<char>, root: Seq<char>) -> bool {
    if !is_rooted(root) && components(root).len() == 0 {
        true
    } else {
        is_rooted(root) == is_rooted(path) && starts(components(path), components(root))
    }
}

/// The views of a list of components.
pub open spec fn parts_of(kept: Seq<Vec<char>>) -> Seq<Seq<char>> {
    kept.map_values(|v: Vec<char>| v@)
}

fn part_between(p: &Vec<char>, start: usize, end: usize) -> (out: Vec<char>)
    requires
        start <= end <= p.len(),
    ensures
        out@ == p@.subrange(start as int, end as int),
{
    let mut out: Vec<char> = Vec::new();
    let mut k: usize = start;
    assert(out@ =~= p@.subrange(start as int, k as int));
    while k < end
        invariant
            start <= k <= end <= p.len(),
            out@ == p@.subrange(start as int, k as int),
        decreases end - k,
    {
        out.push(p[k]);
        assert(p@.subrange(start as int, k + 1) =~= p@.subrange(start as int, k as int).push(p@[k as int]));
        k += 1;
    }
    out
}

/// The bounds as numbers without limit.
pub open spec fn span_views(bounds: Seq<(usize, usize)>) -> Seq<(int, int)> {
    bounds.map_values(|b: (usize, usize)| (b.0 as int, b.1 as int))
}

/// The bounds follow one another and none passes `limit`.
pub open spec fn lined_up(bounds: Seq<(usize, usize)>, limit: int) -> bool {
    &&& forall|i: int| 0 <= i < bounds.len() ==> (#[trigger] bounds[i]).0 <= bounds[i].1 <= limit
    &&& forall|i: int, j: int| 0 <= i < j < bounds.len() ==> (#[trigger] bounds[i]).1 <= (#[trigger] bounds[j]).0
}

fn push_span(bounds: &mut Vec<(usize, usize)>, path: &Vec<char>, start: usize, end: usize)
    requires
        start <= end <= path.len(),
        lined_up(old(bounds)@, start as int),
    ensures
        span_views(final(bounds)@) == span_views(old(bounds)@) + counted_span(path@, start as int, end as int),
        lined_up(final(bounds)@, end as int),
{
    let ghost before = bounds@;
    let ghost part = path@.subrange(start as int, end as int);
    let is_dot = end - start == 1 && path[start] == '.';
    proof {
        if is_dot {
            assert(part =~= seq!['.']);
        }
        if part == seq!['.'] {
            assert(part.len() == 1 && part[0] == '.');
        }
    }
    if end > start && (!is_dot || start == 0) {
        bounds.push((start, end));
        assert(span_views(bounds@) =~= span_views(before) + seq![(start as int, end as int)]);
        assert forall|i: int, j: int| 0 <= i < j < bounds@.len() implies (#[trigger] bounds@[i]).1 <= (
        #[trigger] bounds@[j]).0 by {
            if j < before.len() {
                assert(bounds@[i] == before[i] && bounds@[j] == before[j]);
            } else {
                assert(bounds@[i] == before[i]);
            }
        }
        assert forall|i: int| 0 <= i < bounds@.len() implies (#[trigger] bounds@[i]).0 <= bounds@[i].1 <= end by {
            if i < before.len() {
                assert(bounds@[i] == before[i]);
            }
        }
    } else {
        assert(span_views(bounds@) =~= span_views(before) + Seq::<(int, int)>::empty());
    }
}

/// Where the components of `path` stand in it.
fn path_spans(path: &Vec<char>) -> (bounds: Vec<(usize, usize)>)
    ensures
        span_views(bounds@) == spans(path@),
        lined_up(bounds@, path.len() as int),
{
    let mut bounds: Vec<(usize, usize)> = Vec::new();
    let mut start: usize = 0;
    let mut at: usize = 0;
    assert(span_views(bounds@) + spans_from(path@, 0, 0) =~= spans(path@));
    while at < path.len()
        invariant
            start <= at <= path.len(),
            lined_up(bounds@, start as int),
            spans(path@) == span_views(bounds@) + spans_from(path@, at as int, start as int),
        decreases path.len() - at,
    {
        if path[at] == '/' {
            let ghost before = span_views(bounds@);
            let ghost rest = spans_from(path@, at + 1, at + 1);
            push_span(&mut bounds, path, start, at);
            assert(span_views(bounds@) + rest =~= before + (counted_span(path@, start as int, at as int) + rest));
            start = at + 1;
        }
        at += 1;
    }
    push_span(&mut bounds, path, start, path.len());
    bounds
}

/// The components of `path`.
pub fn path_components(path: &Vec<char>) -> (parts: Vec<Vec<char>>)
    ensures
        parts_of(parts@) == components(path@),
{
    let bounds = path_spans(path);
    let ghost all = components(path@);
    let mut parts: Vec<Vec<char>> = Vec::new();
    let mut i: usize = 0;
    assert(parts_of(parts@) =~= all.take(0));
    while i < bounds.len()
        invariant
            i <= bounds.len(),
            span_views(bounds@) == spans(path@),
            lined_up(bounds@, path.len() as int),
            all == components(path@),
            parts_of(parts@) == all.take(i as int),
        decreases bounds.len() - i,
    {
        let ghost before = parts_of(parts@);
        let (start, end) = bounds[i];
        assert(span_views(bounds@)[i as int] == (start as int, end as int));
        let part = part_between(path, start, end);
        parts.push(part);
        assert(parts_of(parts@) =~= before.push(part@));
        assert(all.take(i + 1) =~= all.take(i as int).push(all[i as int]));
        i += 1;
    }
    assert(all.take(bounds.len() as int) =~= all);
    parts
}

fn same_chars(a: &Vec<char>, b: &Vec<char>) -> (r: bool)
    ensures
        r == (a@ == b@),
{
    if a.len() != b.len() {
        return false;
    }
    let mut i: usize = 0;
    while i < a.len()
        invariant
            i <= a.len(),
            a.len() == b.len(),
            forall|j: int| 0 <= j < i ==> a@[j] == b@[j],
        decreases a.len() - i,
    {
        if a[i] != b[i] {
            return false;
        }
        i += 1;
    }
    assert(a@ =~= b@);
    true
}

fn parts_start(all: &Vec<Vec<char>>, first: &Vec<Vec<char>>) -> (r: bool)
    ensures
        r == starts(parts_of(all@), parts_of(first@)),
{
    if first.len() > all.len() {
        return false;
    }
    let mut i: usize = 0;
    while i < first.len()
        invariant
            i <= first.len() <= all.len(),
            forall|j: int| 0 <= j < i ==> parts_of(all@)[j] == parts_of(first@)[j],
        decreases first.len() - i,
    {
        if !same_chars(&all[i], &first[i]) {
            assert(parts_of(all@).subrange(0, first.len() as int)[i as int] != parts_of(first@)[i as int]);
            return false;
        }
        i += 1;
    }
    assert(parts_of(all@).subrange(0, first.len() as int) =~= parts_of(first@));
    true
}

fn rooted(path: &Vec<char>) -> (r: bool)
    ensures
        r == is_rooted(path@),
{
    path.len() > 0 && path[0] == '/'
}

/// Whether `path` lies under `root`, both given by their characters.
pub fn lies_under(path: &Vec<char>, root: &Vec<char>) -> (r: bool)
    ensures
        r == is_under(path@, root@),
{
    let base = path_components(root);
    if !rooted(root) && base.len() == 0 {
        return true;
    }
    if rooted(root) != rooted(path) {
        return false;
    }
    let all = path_components(path);
    parts_start(&all, &base)
}

/// Whether the two texts name the same path.
pub fn is_same_path(a: &str, b: &str) -> (r: bool)
    ensures
        r == same_path(a@, b@),
{
    let x = chars_of(a);
    let y = chars_of(b);
    if rooted(&x) != rooted(&y) {
        return false;
    }
    let first = path_components(&x);
    let second = path_components(&y);
    assert(parts_of(first@).len() == first.len() && parts_of(second@).len() == second.len());
    if first.len() != second.len() {
        return false;
    }
    let same = parts_start(&first, &second);
    proof {
        assert(parts_of(first@).subrange(0, second.len() as int) =~= parts_of(first@));
    }
    same
}

/// The text of the components from `from` up to `to`, from the root if
/// `with_root`.
fn glue(with_root: bool, parts: &Vec<Vec<char>>, from: usize, to: usize) -> (out: String)
    requires
        from <= to <= parts.len(),
    ensures
        out@ == path_text(with_root, parts_of(parts@).subrange(from as int, to as int)),
{
    let ghost seg = parts_of(parts@).subrange(from as int, to as int);
    let mut out: Vec<char> = Vec::new();
    if with_root {
        out.push('/');
    }
    let ghost head = out@;
    let mut k: usize = from;
    assert(seg.take(0) =~= Seq::<Seq<char>>::empty());
    assert(out@ =~= head + glued(seg.take(0)));
    while k < to
        invariant
            from <= k <= to <= parts.len(),
            seg == parts_of(parts@).subrange(from as int, to as int),
            out@ == head + glued(seg.take(k - from)),
        decreases to - k,
    {
        if k > from {
            out.push('/');
        }
        push_all(&mut out, &parts[k]);
        proof {
            let next = seg.take(k - from + 1);
            assert(next.drop_last() =~= seg.take(k - from));
            assert(next[next.len() - 1] == parts@[k as int]@);
            if k == from {
                assert(glued(seg.take(0)) =~= Seq::<char>::empty());
            }
            assert(out@ =~= head + glued(next));
        }
        k += 1;
    }
    assert(seg.take(to - from) =~= seg);
    string_of(&out)
}

/// The directory that holds `path`: the text of `path` up to the end of
/// its last component but one; where it has one component only, the root
/// for a path that starts there and the empty path for one that does not.
/// A path without components, the empty path or the root, has none.
pub open spec fn parent_of(path: Seq<char>) -> Option<Seq<char>> {
    let at = spans(path);
    if at.len() == 0 {
        None
    } else if at.len() == 1 {
        if is_rooted(path) {
            Some(seq!['/'])
        } else {
            Some(Seq::empty())
        }
    } else {
        Some(path.subrange(0, at[at.len() - 2].1))
    }
}

/// The directory that holds `path`.
pub fn parent_dir(path: &str) -> (r: Option<String>)
    ensures
        opt_text(r) == parent_of(path@),
{
    let p = chars_of(path);
    let bounds = path_spans(&p);
    let ghost at = span_views(bounds@);
    if bounds.len() == 0 {
        return None;
    }
    if bounds.len() == 1 {
        let end: usize = if rooted(&p) {
            1
        } else {
            0
        };
        let root = copy_range(&p, 0, end);
        assert(root@ =~= if is_rooted(path@) {
            seq!['/']
        } else {
            Seq::<char>::empty()
        });
        return Some(root);
    }
    let before = bounds[bounds.len() - 2];
    assert(at[at.len() - 2] == (before.0 as int, before.1 as int));
    Some(copy_range(&p, 0, before.1))
}

/// The last component of `path`, if it names a file or a directory: none
/// for a path without components and for one that ends in `.` or `..`.
pub open spec fn file_name_of(path: Seq<char>) -> Option<Seq<char>> {
    let parts = components(path);
    if parts.len() == 0 || parts[parts.len() - 1] == seq!['.'] || parts[parts.len() - 1] == seq!['.', '.'] {
        None
    } else {
        Some(parts[parts.len() - 1])
    }
}

fn name_of(p: &Vec<char>) -> (r: Option<Vec<char>>)
    ensures
        match r {
            Some(name) => file_name_of(p@) == Some(name@),
            None => file_name_of(p@) is None,
        },
{
    let mut parts = path_components(p);
    let ghost all = parts_of(parts@);
    match parts.pop() {
        None => None,
        Some(last) => {
            assert(all[all.len() - 1] == last@);
            let is_dot = last.len() == 1 && last[0] == '.';
            let is_up = last.len() == 2 && last[0] == '.' && last[1] == '.';
            proof {
                if is_dot {
                    assert(last@ =~= seq!['.']);
                }
                if is_up {
                    assert(last@ =~= seq!['.', '.']);
                }
                if last@ == seq!['.'] {
                    assert(last@.len() == 1 && last@[0] == '.');
                }
                if last@ == seq!['.', '.'] {
                    assert(last@.len() == 2 && last@[0] == '.' && last@[1] == '.');
                }
            }
            if is_dot || is_up {
                None
            } else {
                Some(last)
            }
        },
    }
}

/// The last component of `path`, if it names a file or a directory.
pub fn file_name(path: &str) -> (r: Option<String>)
    ensures
        opt_text(r) == file_name_of(path@),
{
    let p = chars_of(path);
    match name_of(&p) {
        Some(name) => Some(string_of(&name)),
        None => None,
    }
}

/// The index of the last dot of `name`, or -1 if it has none.
pub open spec fn last_dot(name: Seq<char>) -> int
    decreases name.len(),
{
    if name.len() == 0 {
        -1
    } else if name[name.len() - 1] == '.' {
        name.len() - 1
    } else {
        last_dot(name.drop_last())
    }
}

/// The extension of the file that `path` names: what follows the last dot
/// of its last component. None where the path names no file, the name has
/// no dot, or its only dot is its first character.
pub open spec fn extension_of(path: Seq<char>) -> Option<Seq<char>> {
    match file_name_of(path) {
        None => None,
        Some(name) => if last_dot(name) <= 0 {
            None
        } else {
            Some(name.subrange(last_dot(name) + 1, name.len() as int))
        },
    }
}

proof fn lemma_last_dot(name: Seq<char>, n: int)
    requires
        0 <= n <= name.len(),
        forall|j: int| n <= j < name.len() ==> name[j] != '.',
        n > 0 ==> name[n - 1] == '.',
    ensures
        last_dot(name) == n - 1,
    decreases name.len() - n,
{
    if n < name.len() {
        let rest = name.drop_last();
        assert forall|j: int| n <= j < rest.len() implies rest[j] != '.' by {
            assert(rest[j] == name[j]);
        }
        if n > 0 {
            assert(rest[n - 1] == name[n - 1]);
        }
        lemma_last_dot(rest, n);
    }
}

/// The extension of the file that `path` names, by its characters.
pub fn extension(path: &str) -> (r: Option<Vec<char>>)
    ensures
        match r {
            Some(e) => extension_of(path@) == Some(e@),
            None => extension_of(path@) is None,
        },
{
    let p = chars_of(path);
    let name = match name_of(&p) {
        Some(name) => name,
        None => {
            return None;
        },
    };
    let mut n: usize = name.len();
    while n > 0 && name[n - 1] != '.'
        invariant
            n <= name.len(),
            forall|j: int| n <= j < name.len() ==> name@[j] != '.',
        decreases n,
    {
        n -= 1;
    }
    proof {
        lemma_last_dot(name@, n as int);
    }
    if n <= 1 {
        return None;
    }
    Some(part_between(&name, n, name.len()))
}

/// What is left of `path` below the directory `root`, if it lies there: the
/// text of `path` from its first component after those of `root` up to the
/// end of its last component; nothing where no component is left; under the
/// empty root, the text of `path` up to the end of its last component.
pub open spec fn stripped(path: Seq<char>, root: Seq<char>) -> Option<Seq<char>> {
    let at = spans(path);
    let taken = spans(root).len();
    if !is_under(path, root) {
        None
    } else if !is_rooted(root) && taken == 0 {
        Some(path.subrange(0, body_end(path)))
    } else if taken < at.len() {
        Some(path.subrange(at[taken as int].0, body_end(path)))
    } else {
        Some(Seq::empty())
    }
}

/// `path` relative to the directory `root`, if it lies under it.
pub fn strip_root(path: &str, root: &str) -> (r: Option<String>)
    ensures
        opt_text(r) == stripped(path@, root@),
{
    let p = chars_of(path);
    let q = chars_of(root);
    if !lies_under(&p, &q) {
        return None;
    }
    let bounds = path_spans(&p);
    let taken = path_spans(&q).len();
    let ghost at = span_views(bounds@);
    let end: usize = if bounds.len() > 0 {
        assert(at[at.len() - 1] == (bounds@[bounds.len() - 1].0 as int, bounds@[bounds.len() - 1].1 as int));
        bounds[bounds.len() - 1].1
    } else if rooted(&p) {
        1
    } else {
        0
    };
    assert(end == body_end(path@));
    if !rooted(&q) && taken == 0 {
        return Some(copy_range(&p, 0, end));
    }
    if taken < bounds.len() {
        let first = bounds[taken];
        assert(at[taken as int] == (first.0 as int, first.1 as int));
        assert(first.1 <= end) by {
            if taken < bounds.len() - 1 {
                assert(bounds@[taken as int].1 <= bounds@[bounds.len() - 1].0);
            }
        }
        return Some(copy_range(&p, first.0, end));
    }
    let nothing = String::from_str("");
    proof {
        reveal_strlit("");
        assert(nothing@ =~= Seq::<char>::empty());
    }
    Some(nothing)
}

/// The root, where `path` starts there, and its components.
pub open spec fn steps(path: Seq<char>) -> Seq<Seq<char>> {
    if is_rooted(path) {
        seq![seq!['/']] + components(path)
    } else {
        components(path)
    }
}

/// What is left after the first `count` of the steps `parts` are walked
/// from nowhere: `.` leads nowhere else, `..` leads back by one step where
/// there is one, the root among them, and every other step is taken.
pub open spec fn walked(parts: Seq<Seq<char>>, count: int) -> Seq<Seq<char>>
    decreases count,
{
    if count <= 0 || count > parts.len() {
        Seq::empty()
    } else {
        let before = walked(parts, count - 1);
        let part = parts[count - 1];
        if part == seq!['.'] {
            before
        } else if part == seq!['.', '.'] {
            if before.len() > 0 {
                before.drop_last()
            } else {
                before
            }
        } else {
            before.push(part)
        }
    }
}

/// Where `path` leads: its steps, walked.
pub open spec fn destination(path: Seq<char>) -> Seq<Seq<char>> {
    walked(steps(path), steps(path).len() as int)
}

fn walk(parts: &Vec<Vec<char>>) -> (out: Vec<Vec<char>>)
    ensures
        parts_of(out@) == walked(parts_of(parts@), parts.len() as int),
{
    let mut out: Vec<Vec<char>> = Vec::new();
    let mut i: usize = 0;
    assert(parts_of(out@) =~= walked(parts_of(parts@), 0));
    while i < parts.len()
        invariant
            i <= parts.len(),
            parts_of(out@) == walked(parts_of(parts@), i as int),
        decreases parts.len() - i,
    {
        let part = &parts[i];
        let ghost before = parts_of(out@);
        assert(parts_of(parts@)[i as int] == part@);
        let is_dot = part.len() == 1 && part[0] == '.';
        let is_up = part.len() == 2 && part[0] == '.' && part[1] == '.';
        proof {
            if is_dot {
                assert(part@ =~= seq!['.']);
            }
            if is_up {
                assert(part@ =~= seq!['.', '.']);
            }
            if part@ == seq!['.'] {
                assert(part@.len() == 1 && part@[0] == '.');
            }
            if part@ == seq!['.', '.'] {
                assert(part@.len() == 2 && part@[0] == '.' && part@[1] == '.');
            }
        }
        if is_dot {
        } else if is_up {
            if out.len() > 0 {
                out.pop();
                assert(parts_of(out@) =~= before.drop_last());
            }
        } else {
            out.push(part.clone());
            assert(parts_of(out@) =~= before.push(part@));
        }
        i += 1;
    }
    out
}

/// Whether the two paths lead to the same place.
pub fn same_destination(a: &str, b: &str) -> (r: bool)
    ensures
        r == (destination(a@) == destination(b@)),
{
    let first = walk(&path_steps(a));
    let second = walk(&path_steps(b));
    assert(parts_of(first@).len() == first.len() && parts_of(second@).len() == second.len());
    if first.len() != second.len() {
        return false;
    }
    let same = parts_start(&first, &second);
    proof {
        assert(parts_of(first@).subrange(0, second.len() as int) =~= parts_of(first@));
    }
    same
}

fn path_steps(path: &str) -> (parts: Vec<Vec<char>>)
    ensures
        parts_of(parts@) == steps(path@),
{
    let p = chars_of(path);
    let mut parts: Vec<Vec<char>> = Vec::new();
    if rooted(&p) {
        let root = vec!['/'];
        assert(root@ =~= seq!['/']);
        parts.push(root);
    }
    let ghost head = parts_of(parts@);
    let mut rest = path_components(&p);
    let ghost tail = parts_of(rest@);
    parts.append(&mut rest);
    assert(parts_of(parts@) =~= head + tail);
    assert(head =~= if is_rooted(path@) {
        seq![seq!['/']]
    } else {
        Seq::<Seq<char>>::empty()
    });
    parts
}

/// The components kept so far with `part` added: an empty component and `.`
/// add nothing; `..` takes the last component away where there is one to
/// take; anything else is kept.
pub open spec fn kept_with(kept: Seq<Seq<char>>, part: Seq<char>) -> Seq<Seq<char>> {
    if part.len() == 0 || part == seq!['.'] {
        kept
    } else if part == seq!['.', '.'] && kept.len() > 0 && kept[kept.len() - 1] != seq!['.', '.'] {
        kept.drop_last()
    } else {
        kept.push(part)
    }
}

/// The components that are kept of `path`, read from position `at` with the
/// current component starting at `start`.
pub open spec fn kept_from(path: Seq<char>, at: int, start: int, kept: Seq<Seq<char>>) -> Seq<Seq<char>>
    decreases path.len() - at,
{
    if at >= path.len() {
        kept_with(kept, path.subrange(start, path.len() as int))
    } else if path[at] == '/' {
        kept_from(path, at + 1, at + 1, kept_with(kept, path.subrange(start, at)))
    } else {
        kept_from(path, at + 1, start, kept)
    }
}

/// `path` without empty components, without `.`, and with every `..` taken
/// together with the component before it.
pub open spec fn normalized(path: Seq<char>) -> Seq<char> {
    path_text(is_rooted(path), kept_from(path, 0, 0, Seq::empty()))
}

fn keep_part(kept: &mut Vec<Vec<char>>, part: Vec<char>)
    ensures
        parts_of(final(kept)@) == kept_with(parts_of(old(kept)@), part@),
{
    let ghost before = parts_of(kept@);
    let is_dot = part.len() == 1 && part[0] == '.';
    let is_up = part.len() == 2 && part[0] == '.' && part[1] == '.';
    proof {
        if is_dot {
            assert(part@ =~= seq!['.']);
        }
        if is_up {
            assert(part@ =~= seq!['.', '.']);
        }
        if part@ == seq!['.'] {
            assert(part@.len() == 1 && part@[0] == '.');
        }
        if part@ == seq!['.', '.'] {
            assert(part@.len() == 2 && part@[0] == '.' && part@[1] == '.');
        }
    }
    if part.len() == 0 || is_dot {
        return ;
    }
    if is_up && kept.len() > 0 {
        let last = &kept[kept.len() - 1];
        let last_is_up = last.len() == 2 && last[0] == '.' && last[1] == '.';
        proof {
            assert(before[before.len() - 1] == last@);
            if last_is_up {
                assert(last@ =~= seq!['.', '.']);
            }
            if last@ == seq!['.', '.'] {
                assert(last@.len() == 2 && last@[0] == '.' && last@[1] == '.');
            }
        }
        if !last_is_up {
            kept.pop();
            assert(parts_of(kept@) =~= before.drop_last());
            return ;
        }
    }
    kept.push(part);
    assert(parts_of(kept@) =~= before.push(part@));
}

/// `path` in its shortest form: no empty component, no `.`, no `..` after a
/// component that it can take away.
pub fn normalize_path(path: &str) -> (out: String)
    ensures
        out@ == normalized(path@),
{
    let p = chars_of(path);
    let mut kept: Vec<Vec<char>> = Vec::new();
    let mut start: usize = 0;
    let mut at: usize = 0;
    assert(parts_of(kept@) =~= Seq::<Seq<char>>::empty());
    while at < p.len()
        invariant
            start <= at <= p.len(),
            kept_from(p@, 0, 0, Seq::empty()) == kept_from(p@, at as int, start as int, parts_of(kept@)),
        decreases p.len() - at,
    {
        if p[at] == '/' {
            let part = part_between(&p, start, at);
            keep_part(&mut kept, part);
            start = at + 1;
        }
        at += 1;
    }
    let part = part_between(&p, start, p.len());
    keep_part(&mut kept, part);
    assert(parts_of(kept@).subrange(0, kept.len() as int) =~= parts_of(kept@));
    glue(rooted(&p), &kept, 0, kept.len())
}

} // verus!
