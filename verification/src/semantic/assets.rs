//! Where source files name a file that is no source file: a template, a
//! style sheet, an image. A file is named by a quoted path that ends in its
//! name and leads to it from the file that holds the quote.

use vstd::prelude::*;
use crate::paths::{
    destination, file_name, file_name_of, join_path, joined, parent_dir, parent_of, same_destination,
    strip_root, stripped,
};
use crate::pattern::{escape_text, escaped, every_group, group_views, regex_every_group};
use crate::seqs::gather;
use crate::text::{chars_of, copy_range};
use crate::types::texts;

verus! {

/// A place where a source file names an asset.
#[derive(Debug, Clone)]
pub struct AssetReference {
    /// The source file, relative to the workspace root.
    pub source_file: String,
    /// The line, counted from 1.
    pub line: usize,
    /// The byte offset of the path in the line.
    pub column: usize,
    /// The path as it is written.
    pub matched_path: String,
}

/// An asset reference, as plain text and numbers.
pub ghost struct AssetReferenceView {
    pub source_file: Seq<char>,
    pub line: nat,
    pub column: nat,
    pub matched_path: Seq<char>,
}

impl View for AssetReference {
    type V = AssetReferenceView;

    open spec fn view(&self) -> AssetReferenceView {
        AssetReferenceView {
            source_file: self.source_file@,
            line: self.line as nat,
            column: self.column as nat,
            matched_path: self.matched_path@,
        }
    }
}

/// The views of a list of asset references.
pub open spec fn asset_views(refs: Seq<AssetReference>) -> Seq<AssetReferenceView> {
    refs.map_values(|r: AssetReference| r@)
}

/// The pattern that finds the paths that end in `file_name`: a quote of any
/// of the three kinds, a path without quotes that ends in the name, a quote.
pub open spec fn asset_pattern(file_name: Seq<char>) -> Seq<char> {
    "['\"`]([^'\"`]*"@ + escaped(file_name) + ")['\"`]"@
}

/// The name by which an asset is looked for: the file name of its path, or
/// the empty name where the path has none.
pub open spec fn asset_name(asset_path: Seq<char>) -> Seq<char> {
    match file_name_of(asset_path) {
        Some(name) => name,
        None => Seq::empty(),
    }
}

/// The directory from which the paths in `source_file` are read.
pub open spec fn reading_directory(source_file: Seq<char>) -> Seq<char> {
    match parent_of(source_file) {
        Some(dir) => dir,
        None => "."@,
    }
}

/// The path `written` in `source_file` leads to `asset_path`: read from the
/// directory of the source file, it leads to the place that the asset has
/// under the workspace root `cwd`.
pub open spec fn leads_to(cwd: Seq<char>, source_file: Seq<char>, written: Seq<char>, asset_path: Seq<char>) -> bool {
    destination(joined(joined(cwd, reading_directory(source_file)), written)) == destination(
        joined(cwd, asset_path),
    )
}

/// The path under which a source file is named in a reference: relative to
/// the workspace root `cwd` where the file lies under it.
pub open spec fn named_as(cwd: Seq<char>, source_file: Seq<char>) -> Seq<char> {
    match stripped(source_file, cwd) {
        Some(rest) => rest,
        None => source_file,
    }
}

/// Where the first line of `text` ends: at its first line feed, or at its end.
pub open spec fn first_feed(text: Seq<char>) -> int
    decreases text.len(),
{
    if text.len() == 0 || text[0] == '\n' {
        0
    } else {
        1 + first_feed(text.drop_first())
    }
}

/// The lines of `text`: what stands between line feeds, without the
/// carriage return before a line feed; what follows the last line feed is a
/// line if it is not empty.
pub open spec fn text_lines(text: Seq<char>) -> Seq<Seq<char>>
    decreases text.len(),
{
    if text.len() == 0 {
        Seq::empty()
    } else {
        let end = first_feed(text);
        if end < 0 || end >= text.len() {
            seq![text]
        } else {
            let kept = if end > 0 && text[end - 1] == '\r' {
                end - 1
            } else {
                end
            };
            seq![text.subrange(0, kept)] + text_lines(text.skip(end + 1))
        }
    }
}

proof fn lemma_first_feed(text: Seq<char>, end: int)
    requires
        0 <= end <= text.len(),
        forall|j: int| 0 <= j < end ==> text[j] != '\n',
        end < text.len() ==> text[end] == '\n',
    ensures
        first_feed(text) == end,
    decreases text.len(),
{
    if text.len() == 0 || text[0] == '\n' {
    } else {
        let rest = text.drop_first();
        assert forall|j: int| 0 <= j < end - 1 implies rest[j] != '\n' by {
            assert(rest[j] == text[j + 1]);
        }
        lemma_first_feed(rest, end - 1);
    }
}

/// The lines of `text`.
pub fn split_lines(text: &str) -> (lines: Vec<String>)
    ensures
        texts(lines@) == text_lines(text@),
{
    let chars = chars_of(text);
    let n = chars.len();
    let mut lines: Vec<String> = Vec::new();
    let mut pos: usize = 0;
    assert(chars@.skip(0) =~= chars@);
    assert(texts(lines@) =~= Seq::<Seq<char>>::empty());
    while pos < n
        invariant
            pos <= n,
            n == chars@.len(),
            text_lines(chars@) == texts(lines@) + text_lines(chars@.skip(pos as int)),
        decreases n - pos,
    {
        let ghost rest = chars@.skip(pos as int);
        let ghost before = texts(lines@);
        let mut end: usize = pos;
        while end < n && chars[end] != '\n'
            invariant
                pos <= end <= n,
                n == chars@.len(),
                forall|j: int| pos <= j < end ==> chars@[j] != '\n',
            decreases n - end,
        {
            end += 1;
        }
        proof {
            assert forall|j: int| 0 <= j < end - pos implies rest[j] != '\n' by {
                assert(rest[j] == chars@[pos + j]);
            }
            lemma_first_feed(rest, end - pos);
        }
        if end >= n {
            let line = copy_range(&chars, pos, n);
            lines.push(line);
            proof {
                assert(chars@.subrange(pos as int, n as int) =~= rest);
                assert(texts(lines@) =~= before.push(rest));
                assert(chars@.skip(n as int) =~= Seq::<char>::empty());
                assert(text_lines(chars@.skip(n as int)) =~= Seq::<Seq<char>>::empty());
            }
            pos = n;
        } else {
            let kept: usize = if end > pos && chars[end - 1] == '\r' {
                end - 1
            } else {
                end
            };
            let line = copy_range(&chars, pos, kept);
            lines.push(line);
            proof {
                if end > pos {
                    assert(rest[end - pos - 1] == chars@[end - 1]);
                }
                assert(chars@.subrange(pos as int, kept as int) =~= rest.subrange(0, kept - pos));
                assert(texts(lines@) =~= before.push(rest.subrange(0, kept - pos)));
                assert(rest.skip(end - pos + 1) =~= chars@.skip(end + 1));
            }
            pos = end + 1;
        }
    }
    proof {
        assert(chars@.skip(n as int) =~= Seq::<char>::empty());
    }
    lines
}

/// The reference that capture `i` of line `line_no` gives: the captured path
/// at its offset, if it leads to the asset.
pub open spec fn reference_at(
    cwd: Seq<char>,
    source_file: Seq<char>,
    asset_path: Seq<char>,
    line_no: nat,
    captures: Seq<Option<(usize, Seq<char>)>>,
    i: int,
) -> Option<AssetReferenceView> {
    match captures[i] {
        Some(found) => if leads_to(cwd, source_file, found.1, asset_path) {
            Some(
                AssetReferenceView {
                    source_file: named_as(cwd, source_file),
                    line: line_no,
                    column: found.0 as nat,
                    matched_path: found.1,
                },
            )
        } else {
            None
        },
        None => None,
    }
}

/// The references that one line gives.
pub open spec fn line_references(
    cwd: Seq<char>,
    source_file: Seq<char>,
    asset_path: Seq<char>,
    line_no: nat,
    captures: Seq<Option<(usize, Seq<char>)>>,
) -> Seq<AssetReferenceView> {
    gather(captures.len() as int, |i: int| reference_at(cwd, source_file, asset_path, line_no, captures, i))
}

/// The references to the asset in the first `count` lines.
pub open spec fn references_in(
    cwd: Seq<char>,
    source_file: Seq<char>,
    asset_path: Seq<char>,
    lines: Seq<Seq<char>>,
    count: int,
) -> Seq<AssetReferenceView>
    decreases count,
{
    if count <= 0 || count > lines.len() {
        Seq::empty()
    } else {
        references_in(cwd, source_file, asset_path, lines, count - 1) + line_references(
            cwd,
            source_file,
            asset_path,
            count as nat,
            regex_every_group(asset_pattern(asset_name(asset_path)), lines[count - 1]),
        )
    }
}

/// Whether the path `written` in `source_file` leads to `asset_path`.
pub fn path_resolves_to(cwd: &str, source_file: &str, written: &str, asset_path: &str) -> (r: bool)
    ensures
        r == leads_to(cwd@, source_file@, written@, asset_path@),
{
    let dir = match parent_dir(source_file) {
        Some(d) => d,
        None => String::from_str("."),
    };
    let from = join_path(cwd, dir.as_str());
    let target = join_path(from.as_str(), written);
    let asset = join_path(cwd, asset_path);
    same_destination(target.as_str(), asset.as_str())
}

/// The references that the captures of one line give.
pub fn references_of_line(
    cwd: &str,
    source_file: &str,
    asset_path: &str,
    line_no: usize,
    captures: &Vec<Option<(usize, String)>>,
) -> (refs: Vec<AssetReference>)
    ensures
        asset_views(refs@) == line_references(
            cwd@,
            source_file@,
            asset_path@,
            line_no as nat,
            group_views(captures@),
        ),
{
    let ghost pick = |i: int| reference_at(cwd@, source_file@, asset_path@, line_no as nat, group_views(captures@), i);
    let mut refs: Vec<AssetReference> = Vec::new();
    let mut i: usize = 0;
    assert(asset_views(refs@) =~= gather(0, pick));
    while i < captures.len()
        invariant
            i <= captures.len(),
            pick == |i: int|
                reference_at(cwd@, source_file@, asset_path@, line_no as nat, group_views(captures@), i),
            asset_views(refs@) == gather(i as int, pick),
        decreases captures.len() - i,
    {
        assert(group_views(captures@)[i as int] == match captures@[i as int] {
            Some(found) => Some((found.0, found.1@)),
            None => None,
        });
        match &captures[i] {
            Some(found) => {
                if path_resolves_to(cwd, source_file, found.1.as_str(), asset_path) {
                    let ghost before = asset_views(refs@);
                    let named = match strip_root(source_file, cwd) {
                        Some(rest) => rest,
                        None => source_file.to_owned(),
                    };
                    let reference = AssetReference {
                        source_file: named,
                        line: line_no,
                        column: found.0,
                        matched_path: found.1.clone(),
                    };
                    refs.push(reference);
                    assert(asset_views(refs@) =~= before.push(reference@));
                }
            },
            None => {},
        }
        i += 1;
    }
    assert(group_views(captures@).len() == captures@.len());
    refs
}

/// Finds the source files that name an asset.
pub struct AssetReferenceFinder {
    /// The workspace root.
    pub cwd: String,
}

impl AssetReferenceFinder {
    /// A finder for the workspace at `cwd`.
    pub fn new(cwd: &str) -> (finder: AssetReferenceFinder)
        ensures
            finder.cwd@ == cwd@,
    {
        AssetReferenceFinder { cwd: cwd.to_owned() }
    }

    /// The pattern that finds the paths that end in `file_name`.
    pub fn get_or_create_pattern(&self, file_name: &str) -> (pattern: String)
        ensures
            pattern@ == asset_pattern(file_name@),
    {
        let mut pattern = String::from_str("['\"`]([^'\"`]*");
        pattern.append(escape_text(file_name).as_str());
        pattern.append(")['\"`]");
        pattern
    }

    /// The references to the asset `asset_path` in the text `content` of the
    /// source file `source_file`: every quoted path that ends in the name of
    /// the asset and leads to it, with its line and the offset in it. The
    /// source file is named relative to the workspace root where it lies
    /// under it.
    pub fn search_file(&self, source_file: &str, content: &str, asset_path: &str) -> (refs: Vec<AssetReference>)
        ensures
            asset_views(refs@) == references_in(
                self.cwd@,
                source_file@,
                asset_path@,
                text_lines(content@),
                text_lines(content@).len() as int,
            ),
    {
        let name = match file_name(asset_path) {
            Some(name) => name,
            None => String::from_str(""),
        };
        proof {
            reveal_strlit("");
            assert(name@ =~= asset_name(asset_path@));
        }
        let pattern = self.get_or_create_pattern(name.as_str());
        let lines = split_lines(content);
        let ghost all = text_lines(content@);
        let mut refs: Vec<AssetReference> = Vec::new();
        let mut i: usize = 0;
        assert(asset_views(refs@) =~= references_in(self.cwd@, source_file@, asset_path@, all, 0));
        while i < lines.len()
            invariant
                i <= lines.len(),
                texts(lines@) == all,
                pattern@ == asset_pattern(asset_name(asset_path@)),
                asset_views(refs@) == references_in(self.cwd@, source_file@, asset_path@, all, i as int),
            decreases lines.len() - i,
        {
            assert(texts(lines@)[i as int] == lines@[i as int]@);
            let captures = every_group(pattern.as_str(), lines[i].as_str());
            let mut more = references_of_line(self.cwd.as_str(), source_file, asset_path, i + 1, &captures);
            let ghost before = asset_views(refs@);
            let ghost added = asset_views(more@);
            refs.append(&mut more);
            assert(asset_views(refs@) =~= before + added);
            i += 1;
        }
        assert(all.len() == lines@.len());
        refs
    }
}

} // verus!
