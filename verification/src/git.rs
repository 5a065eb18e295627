//! The changed files and lines that a unified diff shows.

use vstd::prelude::*;
use crate::pattern::{every_group, first_group, group_views, regex_every_group, regex_first_group};
use crate::seqs::gather;
use crate::text::{chars_of, copy_range, string_of};
use crate::types::{opt_text, texts, ChangedFile};

verus! {

/// The pattern for the path of a file in the header of its diff: what stands
/// between `a/` and `b/`, each after a quote or white space.
pub open spec fn file_pattern() -> Seq<char> {
    "(?:[\"\\s]a/)(.*)(?:[\"\\s]b/)"@
}

/// The pattern for the first new line of a hunk in its header.
pub open spec fn line_pattern() -> Seq<char> {
    "@@ -.* \\+(\\d+)(?:,\\d+)? @@"@
}

/// What starts the diff of a file.
pub open spec fn file_marker() -> Seq<char> {
    seq!['d', 'i', 'f', 'f', ' ', '-', '-', 'g', 'i', 't']
}

/// White space, as Unicode defines it.
pub open spec fn is_space(c: char) -> bool {
    let u = c as u32;
    (0x09 <= u <= 0x0D) || u == 0x20 || u == 0x85 || u == 0xA0 || u == 0x1680 || (0x2000 <= u <= 0x200A) || u
        == 0x2028 || u == 0x2029 || u == 0x202F || u == 0x205F || u == 0x3000
}

/// `text` without the white space at its start.
pub open spec fn trim_start(text: Seq<char>) -> Seq<char>
    decreases text.len(),
{
    if text.len() > 0 && is_space(text[0]) {
        trim_start(text.drop_first())
    } else {
        text
    }
}

/// `text` without the white space at its end.
pub open spec fn trim_end(text: Seq<char>) -> Seq<char>
    decreases text.len(),
{
    if text.len() > 0 && is_space(text[text.len() - 1]) {
        trim_end(text.drop_last())
    } else {
        text
    }
}

/// `text` without its double quotes.
pub open spec fn unquoted(text: Seq<char>) -> Seq<char> {
    text.filter(|c: char| c != '"')
}

/// The number that `digits` writes in decimal, read up to `count` digits.
pub open spec fn digits_value(digits: Seq<char>, count: int) -> nat
    decreases count,
{
    if count <= 0 || count > digits.len() {
        0
    } else {
        digits_value(digits, count - 1) * 10 + (digits[count - 1] as u32 - '0' as u32) as nat
    }
}

/// `c` is one of the digits `0` to `9`.
pub open spec fn is_digit(c: char) -> bool {
    '0' <= c <= '9'
}

/// The number that `text` writes: `text` is made of the digits `0` to `9`,
/// at least one, and the number fits the machine word.
pub open spec fn line_number(text: Seq<char>) -> Option<usize> {
    if text.len() > 0 && (forall|i: int| 0 <= i < text.len() ==> is_digit(#[trigger] text[i])) && digits_value(
        text,
        text.len() as int,
    ) <= usize::MAX {
        Some(digits_value(text, text.len() as int) as usize)
    } else {
        None
    }
}

/// The line numbers among the captures: every capture that writes a number.
pub open spec fn line_numbers(captures: Seq<Option<(usize, Seq<char>)>>) -> Seq<usize> {
    gather(
        captures.len() as int,
        |i: int|
            match captures[i] {
                Some(found) => line_number(found.1),
                None => None,
            },
    )
}

/// A changed file, as plain text and numbers.
pub ghost struct ChangedFileView {
    pub file_path: Seq<char>,
    pub changed_lines: Seq<usize>,
}

impl View for ChangedFile {
    type V = ChangedFileView;

    open spec fn view(&self) -> ChangedFileView {
        ChangedFileView { file_path: self.file_path@, changed_lines: self.changed_lines@ }
    }
}

/// The changed file that the diff of one file shows, from what the two
/// patterns capture in it: the captured path without quotes and surrounding
/// white space, with the first new line of every hunk. Nothing without a
/// path, and nothing without a line.
pub open spec fn changed_file(path: Option<Seq<char>>, lines: Seq<Option<(usize, Seq<char>)>>) -> Option<
    ChangedFileView,
> {
    match path {
        None => None,
        Some(p) => if line_numbers(lines).len() == 0 {
            None
        } else {
            Some(
                ChangedFileView {
                    file_path: trim_end(trim_start(unquoted(p))),
                    changed_lines: line_numbers(lines),
                },
            )
        },
    }
}

/// Whether `c` is white space.
pub fn is_whitespace(c: char) -> (r: bool)
    ensures
        r == is_space(c),
{
    let u = c as u32;
    (0x09 <= u && u <= 0x0D) || u == 0x20 || u == 0x85 || u == 0xA0 || u == 0x1680 || (0x2000 <= u && u
        <= 0x200A) || u == 0x2028 || u == 0x2029 || u == 0x202F || u == 0x205F || u == 0x3000
}

proof fn lemma_trim_start(text: Seq<char>, n: int)
    requires
        0 <= n <= text.len(),
        forall|j: int| 0 <= j < n ==> is_space(#[trigger] text[j]),
        n < text.len() ==> !is_space(text[n]),
    ensures
        trim_start(text) == text.subrange(n, text.len() as int),
    decreases n,
{
    if n == 0 {
        assert(text.subrange(0, text.len() as int) =~= text);
    } else {
        let rest = text.drop_first();
        assert forall|j: int| 0 <= j < n - 1 implies is_space(#[trigger] rest[j]) by {
            assert(rest[j] == text[j + 1]);
        }
        lemma_trim_start(rest, n - 1);
        assert(rest.subrange(n - 1, rest.len() as int) =~= text.subrange(n, text.len() as int));
    }
}

proof fn lemma_trim_end(text: Seq<char>, n: int)
    requires
        0 <= n <= text.len(),
        forall|j: int| n <= j < text.len() ==> is_space(#[trigger] text[j]),
        n > 0 ==> !is_space(text[n - 1]),
    ensures
        trim_end(text) == text.subrange(0, n),
    decreases text.len() - n,
{
    if n == text.len() {
        assert(text.subrange(0, n) =~= text);
    } else {
        let rest = text.drop_last();
        lemma_trim_end(rest, n);
        assert(rest.subrange(0, n) =~= text.subrange(0, n));
    }
}

/// The path that a capture of the file pattern writes: without quotes and
/// without white space around it.
pub fn clean_path(captured: &str) -> (out: String)
    ensures
        out@ == trim_end(trim_start(unquoted(captured@))),
{
    let raw = chars_of(captured);
    let mut plain: Vec<char> = Vec::new();
    let mut i: usize = 0;
    let ghost keep = |c: char| c != '"';
    assert(raw@.take(0).filter(keep) =~= Seq::<char>::empty());
    while i < raw.len()
        invariant
            i <= raw.len(),
            keep == |c: char| c != '"',
            plain@ == raw@.take(i as int).filter(keep),
        decreases raw.len() - i,
    {
        proof {
            assert(raw@.take(i + 1).drop_last() =~= raw@.take(i as int));
            reveal(Seq::filter);
        }
        if raw[i] != '"' {
            plain.push(raw[i]);
        }
        i += 1;
    }
    assert(raw@.take(raw.len() as int) =~= raw@);
    let mut from: usize = 0;
    while from < plain.len() && is_whitespace(plain[from])
        invariant
            from <= plain.len(),
            forall|j: int| 0 <= j < from ==> is_space(#[trigger] plain@[j]),
        decreases plain.len() - from,
    {
        from += 1;
    }
    let mut to: usize = plain.len();
    while to > from && is_whitespace(plain[to - 1])
        invariant
            from <= to <= plain.len(),
            forall|j: int| to <= j < plain.len() ==> is_space(#[trigger] plain@[j]),
        decreases to,
    {
        to -= 1;
    }
    let mut out: Vec<char> = Vec::new();
    let mut k: usize = from;
    assert(out@ =~= plain@.subrange(from as int, k as int));
    while k < to
        invariant
            from <= k <= to <= plain.len(),
            out@ == plain@.subrange(from as int, k as int),
        decreases to - k,
    {
        out.push(plain[k]);
        assert(plain@.subrange(from as int, k + 1) =~= plain@.subrange(from as int, k as int).push(plain@[k as int]));
        k += 1;
    }
    proof {
        lemma_trim_start(plain@, from as int);
        let started = plain@.subrange(from as int, plain.len() as int);
        assert forall|j: int| to - from <= j < started.len() implies is_space(#[trigger] started[j]) by {
            assert(started[j] == plain@[from + j]);
        }
        if to > from {
            assert(started[to - from - 1] == plain@[to - 1]);
        }
        lemma_trim_end(started, to - from);
        assert(started.subrange(0, to - from) =~= plain@.subrange(from as int, to as int));
    }
    string_of(&out)
}

/// The number that `text` writes in decimal, if it writes one that fits.
pub fn parse_line_number(text: &str) -> (r: Option<usize>)
    ensures
        r == line_number(text@),
{
    let digits = chars_of(text);
    if digits.len() == 0 {
        return None;
    }
    let mut value: usize = 0;
    let mut i: usize = 0;
    while i < digits.len()
        invariant
            i <= digits.len(),
            digits@ == text@,
            digits@.len() > 0,
            forall|j: int| 0 <= j < i ==> is_digit(#[trigger] digits@[j]),
            value == digits_value(digits@, i as int),
        decreases digits.len() - i,
    {
        let c = digits[i];
        if c < '0' || c > '9' {
            assert(!is_digit(digits@[i as int]));
            return None;
        }
        let d = (c as u32 - '0' as u32) as usize;
        if value > (usize::MAX - d) / 10 {
            proof {
                lemma_digits_grow(digits@, i + 1, digits.len() as int);
                assert(digits_value(digits@, i + 1) == value * 10 + d);
                assert(value * 10 + d > usize::MAX) by (nonlinear_arith)
                    requires
                        value > (usize::MAX - d) / 10,
                        d < 10,
                ;
            }
            return None;
        }
        assert(value * 10 + d <= usize::MAX) by (nonlinear_arith)
            requires
                value <= (usize::MAX - d) / 10,
        ;
        value = value * 10 + d;
        i += 1;
    }
    Some(value)
}

proof fn lemma_digits_grow(digits: Seq<char>, from: int, to: int)
    requires
        0 <= from <= to <= digits.len(),
    ensures
        digits_value(digits, from) <= digits_value(digits, to),
    decreases to - from,
{
    if from < to {
        lemma_digits_grow(digits, from, to - 1);
        assert(digits_value(digits, to - 1) <= digits_value(digits, to - 1) * 10) by (nonlinear_arith);
    }
}

/// The changed file that the diff of one file shows, from what the two
/// patterns captured in it.
pub fn changed_file_from(path: &Option<String>, lines: &Vec<Option<(usize, String)>>) -> (r: Option<
    ChangedFile,
>)
    ensures
        match r {
            Some(file) => changed_file(opt_text(*path), group_views(lines@)) == Some(file@),
            None => changed_file(opt_text(*path), group_views(lines@)) is None,
        },
{
    let captured = match path {
        Some(p) => p,
        None => {
            return None;
        },
    };
    let ghost pick = |i: int|
        match group_views(lines@)[i] {
            Some(found) => line_number(found.1),
            None => None,
        };
    let mut changed_lines: Vec<usize> = Vec::new();
    let mut i: usize = 0;
    while i < lines.len()
        invariant
            i <= lines.len(),
            pick == |i: int|
                match group_views(lines@)[i] {
                    Some(found) => line_number(found.1),
                    None => None,
                },
            changed_lines@ == gather(i as int, pick),
        decreases lines.len() - i,
    {
        assert(group_views(lines@)[i as int] == match lines@[i as int] {
            Some(found) => Some((found.0, found.1@)),
            None => None,
        });
        match &lines[i] {
            Some(found) => match parse_line_number(found.1.as_str()) {
                Some(n) => {
                    changed_lines.push(n);
                },
                None => {},
            },
            None => {},
        }
        i += 1;
    }
    assert(group_views(lines@).len() == lines@.len());
    if changed_lines.len() == 0 {
        return None;
    }
    Some(ChangedFile { file_path: clean_path(captured.as_str()), changed_lines })
}

/// Whether `marker` stands in `text` at position `at`.
pub open spec fn stands_at(text: Seq<char>, marker: Seq<char>, at: int) -> bool {
    0 <= at && at + marker.len() <= text.len() && text.subrange(at, at + marker.len()) == marker
}

/// The parts of `text` from position `from` on, read from `at`, that the
/// occurrences of `marker` separate, from left to right.
pub open spec fn parts_from(text: Seq<char>, marker: Seq<char>, from: int, at: int) -> Seq<Seq<char>>
    decreases text.len() - at,
{
    if marker.len() == 0 || at < from || at + marker.len() > text.len() {
        seq![text.subrange(from, text.len() as int)]
    } else if stands_at(text, marker, at) {
        seq![text.subrange(from, at)] + parts_from(text, marker, at + marker.len(), at + marker.len())
    } else {
        parts_from(text, marker, from, at + 1)
    }
}

/// The diffs of the single files in `diff`: what follows each file marker,
/// up to the next.
pub open spec fn file_diffs(diff: Seq<char>) -> Seq<Seq<char>> {
    parts_from(diff, file_marker(), 0, 0).drop_first()
}

fn marker_at(text: &Vec<char>, marker: &Vec<char>, at: usize) -> (r: bool)
    requires
        at + marker.len() <= text.len(),
    ensures
        r == stands_at(text@, marker@, at as int),
{
    let mut k: usize = 0;
    while k < marker.len()
        invariant
            k <= marker.len(),
            at + marker.len() <= text.len(),
            forall|j: int| 0 <= j < k ==> text@[at + j] == marker@[j],
        decreases marker.len() - k,
    {
        if text[at + k] != marker[k] {
            assert(text@.subrange(at as int, at + marker.len())[k as int] != marker@[k as int]);
            return false;
        }
        k += 1;
    }
    assert(text@.subrange(at as int, at + marker.len()) =~= marker@);
    true
}

/// The diffs of the single files in `diff`.
pub fn split_file_diffs(diff: &str) -> (out: Vec<String>)
    ensures
        texts(out@) == file_diffs(diff@),
{
    let text = chars_of(diff);
    let marker = vec!['d', 'i', 'f', 'f', ' ', '-', '-', 'g', 'i', 't'];
    assert(marker@ =~= file_marker());
    let mut parts: Vec<String> = Vec::new();
    let mut from: usize = 0;
    let mut at: usize = 0;
    while text.len() >= marker.len() && at <= text.len() - marker.len()
        invariant
            from <= at <= text.len(),
            marker@ == file_marker(),
            marker@.len() == 10,
            parts_from(text@, marker@, 0, 0) == texts(parts@) + parts_from(
                text@,
                marker@,
                from as int,
                at as int,
            ),
        decreases text.len() - at,
    {
        if marker_at(&text, &marker, at) {
            let ghost before = texts(parts@);
            let part = copy_range(&text, from, at);
            parts.push(part);
            assert(texts(parts@) =~= before.push(text@.subrange(from as int, at as int)));
            at = at + marker.len();
            from = at;
        } else {
            at += 1;
        }
    }
    let ghost before = texts(parts@);
    let last = copy_range(&text, from, text.len());
    parts.push(last);
    assert(texts(parts@) =~= before.push(text@.subrange(from as int, text.len() as int)));
    assert(texts(parts@) == parts_from(text@, marker@, 0, 0));
    let ghost all = texts(parts@);
    let mut out: Vec<String> = Vec::new();
    let mut i: usize = 1;
    assert(texts(out@) =~= all.subrange(1, 1));
    while i < parts.len()
        invariant
            1 <= i <= parts.len(),
            all == texts(parts@),
            texts(out@) == all.subrange(1, i as int),
        decreases parts.len() - i,
    {
        let ghost so_far = texts(out@);
        out.push(parts[i].clone());
        assert(texts(out@) =~= so_far.push(parts@[i as int]@));
        assert(all.subrange(1, i + 1) =~= all.subrange(1, i as int).push(all[i as int]));
        i += 1;
    }
    assert(all.subrange(1, parts.len() as int) =~= all.drop_first());
    out
}

/// The views of a list of changed files.
pub open spec fn changed_views(files: Seq<ChangedFile>) -> Seq<ChangedFileView> {
    files.map_values(|f: ChangedFile| f@)
}

/// The changed files that `diff` shows.
pub open spec fn diff_changes(diff: Seq<char>) -> Seq<ChangedFileView> {
    gather(
        file_diffs(diff).len() as int,
        |i: int|
            changed_file(
                regex_first_group(file_pattern(), file_diffs(diff)[i]),
                regex_every_group(line_pattern(), file_diffs(diff)[i]),
            ),
    )
}

/// The changed files of a unified diff without context lines: for every
/// file in it, in order, its path and the first new line of each of its
/// hunks. A file without hunks is left out.
pub fn parse_diff(diff: &str) -> (files: Vec<ChangedFile>)
    ensures
        changed_views(files@) == diff_changes(diff@),
{
    let sections = split_file_diffs(diff);
    let ghost pick = |i: int|
        changed_file(
            regex_first_group(file_pattern(), file_diffs(diff@)[i]),
            regex_every_group(line_pattern(), file_diffs(diff@)[i]),
        );
    let mut files: Vec<ChangedFile> = Vec::new();
    let mut i: usize = 0;
    assert(changed_views(files@) =~= gather(0, pick));
    while i < sections.len()
        invariant
            i <= sections.len(),
            texts(sections@) == file_diffs(diff@),
            pick == |i: int|
                changed_file(
                    regex_first_group(file_pattern(), file_diffs(diff@)[i]),
                    regex_every_group(line_pattern(), file_diffs(diff@)[i]),
                ),
            changed_views(files@) == gather(i as int, pick),
        decreases sections.len() - i,
    {
        let section = sections[i].as_str();
        assert(texts(sections@)[i as int] == section@);
        let path = first_group("(?:[\"\\s]a/)(.*)(?:[\"\\s]b/)", section);
        let lines = every_group("@@ -.* \\+(\\d+)(?:,\\d+)? @@", section);
        match changed_file_from(&path, &lines) {
            Some(file) => {
                let ghost before = changed_views(files@);
                files.push(file);
                assert(changed_views(files@) =~= before.push(file@));
            },
            None => {},
        }
        i += 1;
    }
    assert(texts(sections@).len() == sections@.len());
    files
}

} // verus!
