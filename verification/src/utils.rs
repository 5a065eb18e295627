//! Paths, lines and columns.

use vstd::prelude::*;
use vstd::utf8::{encode_utf8, is_continuation_byte};
use crate::paths::{extension, extension_of, is_under, lies_under};
use crate::text::{chars_of, str_eq};
use crate::types::Project;

verus! {

/// The file that `path` names has the extension `ext`.
pub open spec fn has_extension(path: Seq<char>, ext: Seq<char>) -> bool {
    extension_of(path) == Some(ext)
}

/// `path` names a TypeScript or JavaScript source file.
pub open spec fn is_source_path(path: Seq<char>) -> bool {
    ||| has_extension(path, seq!['t', 's'])
    ||| has_extension(path, seq!['t', 's', 'x'])
    ||| has_extension(path, seq!['j', 's'])
    ||| has_extension(path, seq!['j', 's', 'x'])
}

fn is_source_extension(ext: &Vec<char>) -> (r: bool)
    ensures
        r == (ext@ == seq!['t', 's'] || ext@ == seq!['t', 's', 'x'] || ext@ == seq!['j', 's'] || ext@ == seq![
            'j',
            's',
            'x',
        ]),
{
    let n = ext.len();
    if n < 2 || n > 3 || ext[1] != 's' || (ext[0] != 't' && ext[0] != 'j') {
        proof {
            if n >= 2 {
                assert(seq!['t', 's'][1] == 's' && seq!['t', 's', 'x'][1] == 's');
                assert(seq!['j', 's'][1] == 's' && seq!['j', 's', 'x'][1] == 's');
                assert(seq!['t', 's'][0] == 't' && seq!['t', 's', 'x'][0] == 't');
                assert(seq!['j', 's'][0] == 'j' && seq!['j', 's', 'x'][0] == 'j');
            }
            assert(seq!['t', 's'].len() == 2 && seq!['j', 's'].len() == 2);
            assert(seq!['t', 's', 'x'].len() == 3 && seq!['j', 's', 'x'].len() == 3);
        }
        return false;
    }
    if n == 2 {
        assert(ext@ =~= seq![ext@[0], 's']);
        assert(seq!['t', 's', 'x'].len() == 3 && seq!['j', 's', 'x'].len() == 3);
        return true;
    }
    assert(seq!['t', 's'].len() == 2 && seq!['j', 's'].len() == 2);
    if ext[2] == 'x' {
        assert(ext@ =~= seq![ext@[0], 's', 'x']);
        true
    } else {
        assert(seq!['t', 's', 'x'][2] == 'x' && seq!['j', 's', 'x'][2] == 'x');
        false
    }
}

/// Whether `path` names a file that the analysis parses: one with the
/// extension `ts`, `tsx`, `js` or `jsx`.
pub fn is_source_file(path: &str) -> (r: bool)
    ensures
        r == is_source_path(path@),
{
    match extension(path) {
        Some(ext) => is_source_extension(&ext),
        None => false,
    }
}

/// An entry of this name is passed over when the files of a project are
/// listed: the directories of dependencies and of build output, and what
/// starts with a dot.
pub open spec fn is_skipped_name(name: Seq<char>) -> bool {
    name == "node_modules"@ || name == "dist"@ || name == "build"@ || (name.len() > 0 && name[0] == '.')
}

/// Whether an entry named `name` is passed over when the files of a project
/// are listed.
pub fn skips_entry(name: &str) -> (r: bool)
    ensures
        r == is_skipped_name(name@),
{
    if str_eq(name, "node_modules") || str_eq(name, "dist") || str_eq(
        name,
        "build",
    ) {
        return true;
    }
    let chars = chars_of(name);
    chars.len() > 0 && chars[0] == '.'
}

/// The first project, in the order given, whose source root `path` lies under.
pub open spec fn owner_of(path: Seq<char>, projects: Seq<Project>) -> Option<int> {
    first_owner_from(path, projects, 0)
}

/// The first project at or after `from` whose source root `path` lies under.
pub open spec fn first_owner_from(path: Seq<char>, projects: Seq<Project>, from: int) -> Option<int>
    decreases projects.len() - from,
{
    if from < 0 || from >= projects.len() {
        None
    } else if is_under(path, projects[from].source_root@) {
        Some(from)
    } else {
        first_owner_from(path, projects, from + 1)
    }
}

/// The index of the project that owns `file_path`.
pub fn owner_index(file_path: &str, projects: &[Project]) -> (r: Option<usize>)
    ensures
        match r {
            Some(i) => owner_of(file_path@, projects@) == Some(i as int) && i < projects.len(),
            None => owner_of(file_path@, projects@) is None,
        },
{
    let path = chars_of(file_path);
    let mut i: usize = 0;
    while i < projects.len()
        invariant
            i <= projects.len(),
            path@ == file_path@,
            owner_of(file_path@, projects@) == first_owner_from(file_path@, projects@, i as int),
        decreases projects.len() - i,
    {
        let root = chars_of(projects[i].source_root.as_str());
        if lies_under(&path, &root) {
            return Some(i);
        }
        i += 1;
    }
    None
}

/// The name of the project that owns `file_path`: the first one, in the order
/// given, whose source root the path lies under.
pub fn get_package_name_by_path(file_path: &str, projects: &[Project]) -> (r: Option<String>)
    ensures
        match r {
            Some(name) => owner_of(file_path@, projects@) is Some && name@
                == projects[owner_of(file_path@, projects@).unwrap()].name@,
            None => owner_of(file_path@, projects@) is None,
        },
{
    match owner_index(file_path, projects) {
        Some(i) => Some(projects[i].name.clone()),
        None => None,
    }
}

/// Where the first line of `text` ends: the index of its first line feed, or
/// the length of `text` if it has none.
pub open spec fn line_end(text: Seq<u8>) -> int
    decreases text.len(),
{
    if text.len() == 0 || text[0] == 10u8 {
        0
    } else {
        1 + line_end(text.drop_first())
    }
}

/// The sum, over the first `count` lines of `text`, of the length of the line
/// plus one. A line ends at a line feed; a carriage return just before the
/// line feed does not count for the length; what follows the last line feed is
/// a line if it is not empty.
pub open spec fn lines_span(text: Seq<u8>, count: nat) -> nat
    decreases count,
{
    if count == 0 || text.len() == 0 {
        0
    } else {
        let end = line_end(text);
        if end >= text.len() {
            (text.len() + 1) as nat
        } else {
            let kept = if end > 0 && text[end - 1] == 13u8 {
                end - 1
            } else {
                end
            };
            (kept + 1 + lines_span(text.skip(end + 1), (count - 1) as nat)) as nat
        }
    }
}

/// The offset that `line_to_offset` gives for `line` in `text`.
pub open spec fn offset_of_line(text: Seq<u8>, line: nat) -> nat {
    if line == 0 {
        0
    } else {
        lines_span(text, (line - 1) as nat)
    }
}

proof fn lemma_line_end_bounds(text: Seq<u8>)
    ensures
        0 <= line_end(text) <= text.len(),
        line_end(text) < text.len() ==> text[line_end(text)] == 10u8,
        forall|j: int| 0 <= j < line_end(text) ==> text[j] != 10u8,
    decreases text.len(),
{
    if text.len() == 0 || text[0] == 10u8 {
    } else {
        lemma_line_end_bounds(text.drop_first());
        assert forall|j: int| 0 <= j < line_end(text) implies text[j] != 10u8 by {
            if j > 0 {
                assert(text[j] == text.drop_first()[j - 1]);
            }
        }
    }
}

proof fn lemma_line_end_found(text: Seq<u8>, end: int)
    requires
        0 <= end <= text.len(),
        forall|j: int| 0 <= j < end ==> text[j] != 10u8,
        end < text.len() ==> text[end] == 10u8,
    ensures
        line_end(text) == end,
    decreases text.len(),
{
    if text.len() == 0 || text[0] == 10u8 {
    } else {
        let rest = text.drop_first();
        assert forall|j: int| 0 <= j < end - 1 implies rest[j] != 10u8 by {
            assert(rest[j] == text[j + 1]);
        }
        lemma_line_end_found(rest, end - 1);
    }
}

proof fn lemma_lines_span_bound(text: Seq<u8>, count: nat)
    ensures
        lines_span(text, count) <= text.len() + 1,
    decreases count,
{
    if count == 0 || text.len() == 0 {
    } else {
        lemma_line_end_bounds(text);
        let end = line_end(text);
        if end < text.len() {
            lemma_lines_span_bound(text.skip(end + 1), (count - 1) as nat);
        }
    }
}

/// The byte offset at which line `line` of `source` starts, as the lengths of
/// the lines before it add up: each counts with its length plus one, a
/// carriage return before the line feed left out. Line 0 starts at offset 0,
/// like line 1. `None` where the sum does not fit the machine word.
pub fn line_to_offset(source: &str, line: usize) -> (r: Option<usize>)
    ensures
        r == if offset_of_line(encode_utf8(source@), line as nat) <= usize::MAX {
            Some(offset_of_line(encode_utf8(source@), line as nat) as usize)
        } else {
            None
        },
{
    if line == 0 {
        return Some(0);
    }
    let bytes = source.as_bytes();
    let n = bytes.len();
    let ghost text = bytes@;
    let mut total: usize = 0;
    let mut pos: usize = 0;
    let mut left: usize = line - 1;
    proof {
        assert(text.skip(0) =~= text);
        lemma_lines_span_bound(text, (line - 1) as nat);
    }
    while left > 0 && pos < n
        invariant
            text == bytes@,
            text == encode_utf8(source@),
            n == text.len(),
            line >= 1,
            pos <= n,
            total <= pos,
            lines_span(text, (line - 1) as nat) == total + lines_span(text.skip(pos as int), left as nat),
        decreases n - pos,
    {
        let ghost rest = text.skip(pos as int);
        let mut end: usize = pos;
        while end < n && bytes[end] != 10u8
            invariant
                text == bytes@,
                n == text.len(),
                pos <= end <= n,
                forall|j: int| pos <= j < end ==> text[j] != 10u8,
            decreases n - end,
        {
            end += 1;
        }
        proof {
            assert forall|j: int| 0 <= j < end - pos implies rest[j] != 10u8 by {
                assert(rest[j] == text[pos + j]);
            }
            lemma_line_end_found(rest, end - pos);
            lemma_lines_span_bound(rest, left as nat);
        }
        if end >= n {
            assert(rest.len() == n - pos);
            assert(lines_span(rest, left as nat) == rest.len() + 1);
            if n - pos == usize::MAX - total {
                return None;
            }
            return Some(total + (n - pos) + 1);
        }
        let kept: usize = if end > pos && bytes[end - 1] == 13u8 {
            end - 1 - pos
        } else {
            end - pos
        };
        proof {
            assert(rest.skip(end - pos + 1) =~= text.skip(end + 1));
            if end > pos {
                assert(rest[end - pos - 1] == text[end - 1]);
            }
        }
        total = total + kept + 1;
        pos = end + 1;
        left -= 1;
    }
    proof {
        if left > 0 {
            assert(text.skip(pos as int).len() == 0);
        }
    }
    Some(total)
}

/// The line and column reached after the first `offset` bytes of `text`, both
/// counted from 1: a line feed starts a new line at column 1, every other byte
/// that starts a character moves one column on.
pub open spec fn line_col_at(text: Seq<u8>, offset: nat) -> (nat, nat)
    decreases offset,
{
    if offset == 0 {
        (1, 1)
    } else {
        let (line, col) = line_col_at(text, (offset - 1) as nat);
        let i = offset - 1;
        if i >= text.len() {
            (line, col)
        } else if text[i] == 10u8 {
            (line + 1, 1)
        } else if is_continuation_byte(text[i]) {
            (line, col)
        } else {
            (line, col + 1)
        }
    }
}

/// Line and column never exceed the number of bytes passed, plus one.
pub proof fn lemma_line_col_bound(text: Seq<u8>, offset: nat)
    ensures
        1 <= line_col_at(text, offset).0 <= offset + 1,
        1 <= line_col_at(text, offset).1 <= offset + 1,
        line_col_at(text, offset).0 <= text.len() + 1,
        line_col_at(text, offset).1 <= text.len() + 1,
    decreases offset,
{
    if offset > 0 {
        lemma_line_col_bound(text, (offset - 1) as nat);
    }
}

/// Past the end of the text nothing changes.
pub proof fn lemma_line_col_past_end(text: Seq<u8>, offset: nat)
    requires
        offset >= text.len(),
    ensures
        line_col_at(text, offset) == line_col_at(text, text.len()),
    decreases offset,
{
    if offset > text.len() {
        lemma_line_col_past_end(text, (offset - 1) as nat);
    }
}

/// The line and column, both counted from 1, of the character of `source`
/// that starts at byte `offset`; past the end, those after the last character.
pub fn offset_to_line_col(source: &str, offset: usize) -> (r: (usize, usize))
    requires
        encode_utf8(source@).len() < usize::MAX,
    ensures
        (r.0 as nat, r.1 as nat) == line_col_at(encode_utf8(source@), offset as nat),
{
    let bytes = source.as_bytes();
    let n = bytes.len();
    let stop = if offset < n {
        offset
    } else {
        n
    };
    let mut line: usize = 1;
    let mut col: usize = 1;
    let mut i: usize = 0;
    while i < stop
        invariant
            i <= stop <= n,
            n == bytes@.len(),
            n < usize::MAX,
            bytes@ == encode_utf8(source@),
            (line as nat, col as nat) == line_col_at(bytes@, i as nat),
            line <= i + 1,
            col <= i + 1,
        decreases stop - i,
    {
        let b = bytes[i];
        if b == 10u8 {
            line += 1;
            col = 1;
        } else if b < 0x80u8 || b > 0xbfu8 {
            col += 1;
        }
        i += 1;
    }
    proof {
        if offset >= n {
            lemma_line_col_past_end(bytes@, offset as nat);
        }
    }
    (line, col)
}

} // verus!
