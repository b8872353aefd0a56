//! Patches against a draft crate: unified diffs, or blocks that give the text to search for and
//! what replaces it.
//!
//! A hunk header only separates hunks; its numbers are never read. A hunk is located by its
//! own context and removed lines, a block by the text that it searches for: either must stand in
//! the current file exactly once.

use crate::glyphs::{quote, quoted};
use crate::numbers::{decimal, decimal_text, pad_start, padded_start};
use crate::sections::{listing, Listed, Sections};
use crate::text::{
    after_prefix, count_places, ends_with, first_from, is_blank, is_space, join, joined,
    lemma_first_from, lemma_one_piece, lemma_places, lemma_trimmed_is_kept, lines, lines_of,
    occurs_at, pieces, places, replace_once, replaced_once, split, starts_with, strip_prefix, texts,
    trim, trimmed,
};
use vstd::prelude::*;
use vstd::string::StringExecFns;

verus! {

/// The before and after of one hunk.
pub struct HunkView {
    pub old: Seq<char>,
    pub new: Seq<char>,
}

/// One file's part of a patch.
pub struct FileDiffView {
    pub file: Seq<char>,
    pub is_new_file: bool,
    pub hunks: Seq<HunkView>,
}

/// The before and after of one hunk: what must stand in the file, and what it becomes.
#[derive(Debug)]
pub struct Hunk {
    pub old_block: String,
    pub new_block: String,
}

impl View for Hunk {
    type V = HunkView;

    open spec fn view(&self) -> HunkView {
        HunkView { old: self.old_block@, new: self.new_block@ }
    }
}

/// One file's part of a patch: its path and its hunks. A new file is diffed against
/// `/dev/null`.
#[derive(Debug)]
pub struct FileDiff {
    pub file: String,
    pub is_new_file: bool,
    pub hunks: Vec<Hunk>,
}

/// The views of a list of hunks.
pub open spec fn hunk_views(hunks: Seq<Hunk>) -> Seq<HunkView> {
    hunks.map_values(|h: Hunk| h@)
}

/// The views of a list of file diffs.
pub open spec fn diff_views(diffs: Seq<FileDiff>) -> Seq<FileDiffView> {
    diffs.map_values(|d: FileDiff| d@)
}

impl View for FileDiff {
    type V = FileDiffView;

    open spec fn view(&self) -> FileDiffView {
        FileDiffView {
            file: self.file@,
            is_new_file: self.is_new_file,
            hunks: hunk_views(self.hunks@),
        }
    }
}

/// The view of a result that is text in either case.
pub open spec fn text_result(r: Result<String, String>) -> Result<Seq<char>, Seq<char>> {
    match r {
        Ok(s) => Ok(s@),
        Err(e) => Err(e@),
    }
}

/// Whether a file header names no file.
pub open spec fn names_dev_null(spec: Seq<char>) -> bool {
    "/dev/null"@.is_suffix_of(trimmed(spec))
}

/// Whether a file header names no file.
pub fn is_dev_null(spec: &str) -> (r: bool)
    ensures
        r == names_dev_null(spec@),
{
    ends_with(trim(spec).as_str(), "/dev/null")
}

/// The path in a file header: what stands before a tab, trimmed, without a leading `a/` or
/// `b/`.
pub open spec fn diff_path(spec: Seq<char>) -> Seq<char> {
    let s = trimmed(pieces(spec, '\t')[0]);
    match after_prefix(s, "a/"@) {
        Some(rest) => rest,
        None => match after_prefix(s, "b/"@) {
            Some(rest) => rest,
            None => s,
        },
    }
}

/// The path in a file header.
pub fn strip_diff_prefix(spec: &str) -> (r: String)
    ensures
        r@ == diff_path(spec@),
{
    let parts = split(spec, '\t');
    let s = trim(parts[0].as_str());
    assert(texts(parts@)[0] == parts@[0]@);
    match strip_prefix(s.as_str(), "a/") {
        Some(rest) => rest,
        None => match strip_prefix(s.as_str(), "b/") {
            Some(rest) => rest,
            None => s,
        },
    }
}

/// What a line of a hunk says about the file before the change: nothing, for an added line
/// and for a remark such as the one on a missing newline.
pub open spec fn old_side(line: Seq<char>) -> Option<Seq<char>> {
    if "-"@.is_prefix_of(line) {
        Some(line.skip(1))
    } else if "+"@.is_prefix_of(line) {
        None
    } else if " "@.is_prefix_of(line) {
        Some(line.skip(1))
    } else if "\\"@.is_prefix_of(line) {
        None
    } else if trimmed(line).len() == 0 {
        Some(Seq::empty())
    } else {
        Some(line)
    }
}

/// What a line of a hunk says about the file after the change: nothing, for a removed line
/// and for a remark.
pub open spec fn new_side(line: Seq<char>) -> Option<Seq<char>> {
    if "-"@.is_prefix_of(line) {
        None
    } else if "+"@.is_prefix_of(line) {
        Some(line.skip(1))
    } else if " "@.is_prefix_of(line) {
        Some(line.skip(1))
    } else if "\\"@.is_prefix_of(line) {
        None
    } else if trimmed(line).len() == 0 {
        Some(Seq::empty())
    } else {
        Some(line)
    }
}

/// The old sides of `lines`, in order.
pub open spec fn old_lines(lines: Seq<Seq<char>>) -> Seq<Seq<char>>
    decreases lines.len(),
{
    if lines.len() == 0 {
        Seq::empty()
    } else {
        match old_side(lines.last()) {
            Some(l) => old_lines(lines.drop_last()).push(l),
            None => old_lines(lines.drop_last()),
        }
    }
}

/// The new sides of `lines`, in order.
pub open spec fn new_lines(lines: Seq<Seq<char>>) -> Seq<Seq<char>>
    decreases lines.len(),
{
    if lines.len() == 0 {
        Seq::empty()
    } else {
        match new_side(lines.last()) {
            Some(l) => new_lines(lines.drop_last()).push(l),
            None => new_lines(lines.drop_last()),
        }
    }
}

/// The hunk that `body` writes.
pub open spec fn hunk_of(body: Seq<Seq<char>>) -> HunkView {
    HunkView { old: joined(old_lines(body), "\n"@), new: joined(new_lines(body), "\n"@) }
}

/// Whether `line` ends the body of a hunk.
pub open spec fn ends_body(line: Seq<char>) -> bool {
    "@@"@.is_prefix_of(line) || "--- "@.is_prefix_of(line)
}

/// Where the body of a hunk that begins at `from` ends.
pub open spec fn body_end(lines: Seq<Seq<char>>, from: int) -> int
    decreases lines.len() - from,
{
    if from >= lines.len() || ends_body(lines[from]) {
        from
    } else {
        body_end(lines, from + 1)
    }
}

/// What is said of a hunk without a body.
pub open spec fn empty_hunk() -> Seq<char> {
    "empty hunk — a `@@ ... @@` line with no content after it"@
}

/// The hunk whose body begins at line `from`, and the line behind it; an error where the body
/// is empty.
pub open spec fn hunk_at(lines: Seq<Seq<char>>, from: int) -> Result<(HunkView, int), Seq<char>> {
    let end = body_end(lines, from);
    if end == from {
        Err(empty_hunk())
    } else {
        Ok((hunk_of(lines.subrange(from, end)), end))
    }
}

/// The end of a body lies between its beginning and the end of the lines.
pub proof fn lemma_body_end(lines: Seq<Seq<char>>, from: int)
    requires
        0 <= from <= lines.len(),
    ensures
        from <= body_end(lines, from) <= lines.len(),
    decreases lines.len() - from,
{
    if from < lines.len() && !ends_body(lines[from]) {
        lemma_body_end(lines, from + 1);
    }
}

/// The hunk whose body begins at line `from`, and the line behind it.
pub fn parse_hunk_body(lines: &[String], from: usize) -> (r: Result<(Hunk, usize), String>)
    requires
        from <= lines@.len(),
    ensures
        match r {
            Ok((hunk, next)) => hunk_at(texts(lines@), from as int) == Ok::<
                (HunkView, int),
                Seq<char>,
            >((hunk@, next as int)) && from < next <= lines@.len(),
            Err(e) => hunk_at(texts(lines@), from as int) == Err::<(HunkView, int), Seq<char>>(e@),
        },
{
    let ghost all = texts(lines@);
    let mut old: Vec<String> = Vec::new();
    let mut new: Vec<String> = Vec::new();
    let mut i: usize = from;
    assert(all.subrange(from as int, from as int) =~= Seq::<Seq<char>>::empty());
    assert(texts(old@) =~= Seq::<Seq<char>>::empty());
    assert(texts(new@) =~= Seq::<Seq<char>>::empty());
    while i < lines.len() && !starts_with(lines[i].as_str(), "@@") && !starts_with(
        lines[i].as_str(),
        "--- ",
    )
        invariant
            from <= i <= lines@.len(),
            all == texts(lines@),
            body_end(all, from as int) == body_end(all, i as int),
            texts(old@) == old_lines(all.subrange(from as int, i as int)),
            texts(new@) == new_lines(all.subrange(from as int, i as int)),
        decreases lines@.len() - i,
    {
        let ghost old_before = texts(old@);
        let ghost new_before = texts(new@);
        let ghost next = all.subrange(from as int, i + 1);
        let line = lines[i].as_str();
        assert(all[i as int] == line@);
        assert(next.drop_last() =~= all.subrange(from as int, i as int));
        assert(next.last() == line@);
        proof {
            reveal_strlit("-");
            reveal_strlit("+");
            reveal_strlit(" ");
        }
        if let Some(rest) = strip_prefix(line, "-") {
            old.push(rest);
            assert(texts(old@) =~= old_before.push(rest@));
        } else if let Some(rest) = strip_prefix(line, "+") {
            new.push(rest);
            assert(texts(new@) =~= new_before.push(rest@));
        } else if let Some(rest) = strip_prefix(line, " ") {
            old.push(rest.clone());
            new.push(rest);
            assert(texts(old@) =~= old_before.push(rest@));
            assert(texts(new@) =~= new_before.push(rest@));
        } else if starts_with(line, "\\") {
        } else if is_blank(line) {
            old.push(String::new());
            new.push(String::new());
            assert(texts(old@) =~= old_before.push(Seq::empty()));
            assert(texts(new@) =~= new_before.push(Seq::empty()));
        } else {
            old.push(line.to_owned());
            new.push(line.to_owned());
            assert(texts(old@) =~= old_before.push(line@));
            assert(texts(new@) =~= new_before.push(line@));
        }
        i += 1;
    }
    assert(i < lines@.len() ==> all[i as int] == lines@[i as int]@);
    if i == from {
        return Err("empty hunk — a `@@ ... @@` line with no content after it".to_owned());
    }
    Ok((Hunk { old_block: join(old.as_slice(), "\n"), new_block: join(new.as_slice(), "\n") }, i))
}

/// The hunks that begin at line `from`, and the line behind them.
pub open spec fn hunks_at(lines: Seq<Seq<char>>, from: int) -> Result<
    (Seq<HunkView>, int),
    Seq<char>,
>
    decreases lines.len() - from,
{
    if 0 <= from < lines.len() && "@@"@.is_prefix_of(lines[from]) {
        proof {
            lemma_body_end(lines, from + 1);
        }
        match hunk_at(lines, from + 1) {
            Err(e) => Err(e),
            Ok((hunk, next)) => match hunks_at(lines, next) {
                Err(e) => Err(e),
                Ok((rest, end)) => Ok((seq![hunk] + rest, end)),
            },
        }
    } else {
        Ok((Seq::empty(), from))
    }
}

/// What is said of a file header without its second line.
pub open spec fn missing_header(old_spec: Seq<char>, found: Option<Seq<char>>) -> Seq<char> {
    let start = "expected `+++ <path>` right after `--- "@ + trimmed(old_spec);
    match found {
        None => start + "`, got end of input"@,
        Some(line) => start + "`, got "@ + quoted(trimmed(line)),
    }
}

/// The file diff whose `--- ` line, with `old_spec` behind the marker, stands just before line
/// `from`; and the line behind the diff.
pub open spec fn diff_at(lines: Seq<Seq<char>>, old_spec: Seq<char>, from: int) -> Result<
    (FileDiffView, int),
    Seq<char>,
> {
    if from >= lines.len() {
        Err(missing_header(old_spec, None))
    } else {
        match after_prefix(lines[from], "+++ "@) {
            None => Err(missing_header(old_spec, Some(lines[from]))),
            Some(new_spec) => {
                let file = diff_path(new_spec);
                if file.len() == 0 {
                    Err("could not read a file path from `+++ "@ + trimmed(new_spec) + "`"@)
                } else {
                    match hunks_at(lines, from + 1) {
                        Err(e) => Err(e),
                        Ok((hunks, next)) => if hunks.len() == 0 {
                            Err("diff for \""@ + file + "\" has no `@@ ... @@` hunks"@)
                        } else {
                            Ok(
                                (
                                    FileDiffView {
                                        file,
                                        is_new_file: names_dev_null(old_spec),
                                        hunks,
                                    },
                                    next,
                                ),
                            )
                        },
                    }
                }
            },
        }
    }
}

/// Reading hunks never leaves the lines.
pub proof fn lemma_hunks_at(lines: Seq<Seq<char>>, from: int)
    requires
        0 <= from <= lines.len(),
    ensures
        match hunks_at(lines, from) {
            Ok((_, next)) => from <= next <= lines.len(),
            Err(_) => true,
        },
    decreases lines.len() - from,
{
    if from < lines.len() && "@@"@.is_prefix_of(lines[from]) {
        lemma_body_end(lines, from + 1);
        let next = body_end(lines, from + 1);
        lemma_hunks_at(lines, next);
    }
}

/// The file diffs from line `from` on. Lines before a `--- ` header are skipped.
pub open spec fn diffs_from(lines: Seq<Seq<char>>, from: int) -> Result<
    Seq<FileDiffView>,
    Seq<char>,
>
    decreases lines.len() - from,
{
    if from < 0 || from >= lines.len() {
        Ok(Seq::empty())
    } else {
        match after_prefix(lines[from], "--- "@) {
            None => diffs_from(lines, from + 1),
            Some(old_spec) => {
                proof {
                    if from + 2 <= lines.len() {
                        lemma_hunks_at(lines, from + 2);
                    }
                }
                match diff_at(lines, old_spec, from + 1) {
                    Err(e) => Err(e),
                    Ok((diff, next)) => match diffs_from(lines, next) {
                        Err(e) => Err(e),
                        Ok(rest) => Ok(seq![diff] + rest),
                    },
                }
            },
        }
    }
}

/// What is said of a patch that holds no diff.
pub const NO_DIFFS: &'static str =
    "no diffs found — expected unified diff format: `--- a/<path>` / `+++ b/<path>` (or `--- /dev/null` for a brand-new file), each followed by one or more `@@ ... @@` hunks";

/// The line that begins the text to search for.
pub const SEARCH: &'static str = "<<<<<<< SEARCH";

/// The line between the text to search for and what replaces it.
pub const DIVIDER: &'static str = "=======";

/// The line that ends a block.
pub const REPLACE: &'static str = ">>>>>>> REPLACE";

/// The first line from `from` on that begins with `marker`; the end of the lines where there is
/// none.
pub open spec fn marker_at(lines: Seq<Seq<char>>, from: int, marker: Seq<char>) -> int
    decreases lines.len() - from,
{
    if from >= lines.len() || marker.is_prefix_of(lines[from]) {
        from
    } else {
        marker_at(lines, from + 1, marker)
    }
}

/// The block whose search line stands at line `from`, as a diff of `file`.
pub open spec fn block_at(lines: Seq<Seq<char>>, from: int, file: Seq<char>) -> FileDiffView {
    let middle = marker_at(lines, from + 1, DIVIDER@);
    let end = marker_at(lines, middle + 1, REPLACE@);
    FileDiffView {
        file,
        is_new_file: false,
        hunks: seq![
            HunkView {
                old: joined(lines.subrange(from + 1, middle), "\n"@),
                new: joined(lines.subrange(middle + 1, end), "\n"@),
            },
        ],
    }
}

/// Where the block ends whose search line stands at line `from`.
pub open spec fn block_end(lines: Seq<Seq<char>>, from: int) -> int {
    marker_at(lines, marker_at(lines, from + 1, DIVIDER@) + 1, REPLACE@)
}

/// A marker is looked for from `from` on, and no further than the end of the lines.
pub proof fn lemma_marker_at(lines: Seq<Seq<char>>, from: int, marker: Seq<char>)
    ensures
        from <= marker_at(lines, from, marker),
        from <= lines.len() ==> marker_at(lines, from, marker) <= lines.len(),
    decreases lines.len() - from,
{
    if from < lines.len() && !marker.is_prefix_of(lines[from]) {
        lemma_marker_at(lines, from + 1, marker);
    }
}

/// The blocks from line `from` on, each a diff of the file that the last `## FILE: ` line names.
/// There are none where a block names no file or does not end.
pub open spec fn blocks_from(lines: Seq<Seq<char>>, from: int, file: Option<Seq<char>>) -> Option<
    Seq<FileDiffView>,
>
    decreases lines.len() - from,
{
    if from < 0 || from >= lines.len() {
        Some(Seq::empty())
    } else if SEARCH@.is_prefix_of(lines[from]) {
        proof {
            lemma_marker_at(lines, from + 1, DIVIDER@);
            lemma_marker_at(lines, marker_at(lines, from + 1, DIVIDER@) + 1, REPLACE@);
        }
        match file {
            None => None,
            Some(name) => if block_end(lines, from) >= lines.len() {
                None
            } else {
                match blocks_from(lines, block_end(lines, from) + 1, file) {
                    None => None,
                    Some(rest) => Some(seq![block_at(lines, from, name)] + rest),
                }
            },
        }
    } else {
        match after_prefix(lines[from], "## FILE: "@) {
            Some(name) => blocks_from(lines, from + 1, Some(trimmed(name))),
            None => blocks_from(lines, from + 1, file),
        }
    }
}

/// The file diffs of a patch of unified diffs, at least one; an error says where the patch breaks
/// off.
pub open spec fn unified_of(lines: Seq<Seq<char>>) -> Result<Seq<FileDiffView>, Seq<char>> {
    match diffs_from(lines, 0) {
        Err(e) => Err(e),
        Ok(diffs) => if diffs.len() == 0 {
            Err(NO_DIFFS@)
        } else {
            Ok(diffs)
        },
    }
}

/// The file diffs of a patch. What reads as unified diffs is that; else it may be made of blocks;
/// and where it is neither, the error is that of the unified diffs.
pub open spec fn diffs_of(text: Seq<char>) -> Result<Seq<FileDiffView>, Seq<char>> {
    match unified_of(lines_of(text)) {
        Ok(diffs) => Ok(diffs),
        Err(e) => match blocks_from(lines_of(text), 0, None) {
            Some(blocks) => if blocks.len() == 0 {
                Err(e)
            } else {
                Ok(blocks)
            },
            None => Err(e),
        },
    }
}

/// The hunks that begin at line `from`, and the line behind them.
fn parse_hunks(lines: &[String], from: usize) -> (r: Result<(Vec<Hunk>, usize), String>)
    requires
        from <= lines@.len(),
    ensures
        match r {
            Ok((hunks, next)) => hunks_at(texts(lines@), from as int) == Ok::<
                (Seq<HunkView>, int),
                Seq<char>,
            >((hunk_views(hunks@), next as int)) && from <= next <= lines@.len(),
            Err(e) => hunks_at(texts(lines@), from as int) == Err::<(Seq<HunkView>, int), Seq<char>>(
                e@,
            ),
        },
{
    let ghost all = texts(lines@);
    let mut hunks: Vec<Hunk> = Vec::new();
    let mut i: usize = from;
    assert(hunk_views(hunks@) =~= Seq::<HunkView>::empty());
    proof {
        match hunks_at(all, from as int) {
            Ok((rest, _)) => assert(Seq::<HunkView>::empty() + rest =~= rest),
            Err(_) => {},
        }
    }
    while i < lines.len() && starts_with(lines[i].as_str(), "@@")
        invariant
            from <= i <= lines@.len(),
            all == texts(lines@),
            match hunks_at(all, i as int) {
                Ok((rest, end)) => hunks_at(all, from as int) == Ok::<
                    (Seq<HunkView>, int),
                    Seq<char>,
                >((hunk_views(hunks@) + rest, end)),
                Err(e) => hunks_at(all, from as int) == Err::<(Seq<HunkView>, int), Seq<char>>(e),
            },
        decreases lines@.len() - i,
    {
        let ghost before = hunk_views(hunks@);
        assert(all[i as int] == lines@[i as int]@);
        match parse_hunk_body(lines, i + 1) {
            Err(e) => {
                return Err(e);
            },
            Ok((hunk, next)) => {
                let ghost view = hunk@;
                hunks.push(hunk);
                assert(hunk_views(hunks@) =~= before.push(view));
                proof {
                    match hunks_at(all, next as int) {
                        Ok((rest, _)) => assert(before + (seq![view] + rest) =~= before.push(view)
                            + rest),
                        Err(_) => {},
                    }
                }
                i = next;
            },
        }
    }
    assert(i < lines@.len() ==> all[i as int] == lines@[i as int]@);
    assert(hunk_views(hunks@) + Seq::<HunkView>::empty() =~= hunk_views(hunks@));
    Ok((hunks, i))
}

/// The file diff whose `--- ` line, with `old_spec` behind the marker, stands just before line
/// `from`; and the line behind the diff.
fn parse_diff(lines: &[String], old_spec: &str, from: usize) -> (r: Result<
    (FileDiff, usize),
    String,
>)
    requires
        from <= lines@.len(),
    ensures
        match r {
            Ok((diff, next)) => diff_at(texts(lines@), old_spec@, from as int) == Ok::<
                (FileDiffView, int),
                Seq<char>,
            >((diff@, next as int)) && from < next <= lines@.len(),
            Err(e) => diff_at(texts(lines@), old_spec@, from as int) == Err::<
                (FileDiffView, int),
                Seq<char>,
            >(e@),
        },
{
    let start = "expected `+++ <path>` right after `--- ".to_owned().concat(
        trim(old_spec).as_str(),
    );
    if from >= lines.len() {
        return Err(start.concat("`, got end of input"));
    }
    assert(texts(lines@)[from as int] == lines@[from as int]@);
    let new_line = lines[from].as_str();
    let new_spec = match strip_prefix(new_line, "+++ ") {
        None => {
            return Err(start.concat("`, got ").concat(quote(trim(new_line).as_str()).as_str()));
        },
        Some(new_spec) => new_spec,
    };
    let file = strip_diff_prefix(new_spec.as_str());
    if file.as_str().is_empty() {
        return Err(
            "could not read a file path from `+++ ".to_owned().concat(
                trim(new_spec.as_str()).as_str(),
            ).concat("`"),
        );
    }
    match parse_hunks(lines, from + 1) {
        Err(e) => Err(e),
        Ok((hunks, next)) => {
            if hunks.len() == 0 {
                return Err(
                    "diff for \"".to_owned().concat(file.as_str()).concat(
                        "\" has no `@@ ... @@` hunks",
                    ),
                );
            }
            Ok((FileDiff { file, is_new_file: is_dev_null(old_spec), hunks }, next))
        },
    }
}

/// The first line from `from` on that begins with `marker`.
fn find_marker(lines: &[String], from: usize, marker: &str) -> (r: usize)
    requires
        from <= lines@.len(),
    ensures
        r == marker_at(texts(lines@), from as int, marker@),
        from <= r <= lines@.len(),
{
    let ghost all = texts(lines@);
    let mut i: usize = from;
    while i < lines.len() && !starts_with(lines[i].as_str(), marker)
        invariant
            from <= i <= lines@.len(),
            all == texts(lines@),
            marker_at(all, from as int, marker@) == marker_at(all, i as int, marker@),
        decreases lines@.len() - i,
    {
        assert(all[i as int] == lines@[i as int]@);
        i += 1;
    }
    assert(i < lines@.len() ==> all[i as int] == lines@[i as int]@);
    i
}

/// Lines `from` to `to`, with newlines between them.
fn lines_between(lines: &[String], from: usize, to: usize) -> (r: String)
    requires
        from <= to <= lines@.len(),
    ensures
        r@ == joined(texts(lines@).subrange(from as int, to as int), "\n"@),
{
    let ghost all = texts(lines@);
    let mut part: Vec<String> = Vec::new();
    let mut i: usize = from;
    assert(texts(part@) =~= all.subrange(from as int, from as int));
    while i < to
        invariant
            from <= i <= to <= lines@.len(),
            all == texts(lines@),
            texts(part@) == all.subrange(from as int, i as int),
        decreases to - i,
    {
        let ghost before = texts(part@);
        part.push(lines[i].clone());
        assert(texts(part@) =~= before.push(all[i as int]));
        assert(all.subrange(from as int, i + 1) =~= all.subrange(from as int, i as int).push(
            all[i as int],
        ));
        i += 1;
    }
    join(part.as_slice(), "\n")
}

/// The blocks of a patch, each as a diff of one file.
fn parse_blocks(lines: &[String]) -> (r: Option<Vec<FileDiff>>)
    ensures
        match r {
            Some(diffs) => blocks_from(texts(lines@), 0, None) == Some(diff_views(diffs@)),
            None => blocks_from(texts(lines@), 0, None) is None,
        },
{
    let ghost all = texts(lines@);
    let mut diffs: Vec<FileDiff> = Vec::new();
    let mut file: Option<String> = None;
    let ghost mut named: Option<Seq<char>> = None;
    let mut i: usize = 0;
    assert(diff_views(diffs@) =~= Seq::<FileDiffView>::empty());
    proof {
        match blocks_from(all, 0, None) {
            Some(rest) => assert(Seq::<FileDiffView>::empty() + rest =~= rest),
            None => {},
        }
    }
    while i < lines.len()
        invariant
            i <= lines@.len(),
            all == texts(lines@),
            named == (match file {
                Some(name) => Some(name@),
                None => None,
            }),
            match blocks_from(all, i as int, named) {
                Some(rest) => blocks_from(all, 0, None) == Some(diff_views(diffs@) + rest),
                None => blocks_from(all, 0, None) is None,
            },
        decreases lines@.len() - i,
    {
        assert(all[i as int] == lines@[i as int]@);
        if starts_with(lines[i].as_str(), SEARCH) {
            let name = match &file {
                None => {
                    return None;
                },
                Some(name) => name.clone(),
            };
            let middle: usize = find_marker(lines, i + 1, DIVIDER);
            let mut end: usize = lines.len();
            if middle < lines.len() {
                end = find_marker(lines, middle + 1, REPLACE);
            }
            if end >= lines.len() {
                return None;
            }
            let hunk = Hunk {
                old_block: lines_between(lines, i + 1, middle),
                new_block: lines_between(lines, middle + 1, end),
            };
            let ghost before = diff_views(diffs@);
            let ghost view = block_at(all, i as int, name@);
            let mut hunks: Vec<Hunk> = Vec::new();
            hunks.push(hunk);
            assert(hunk_views(hunks@) =~= view.hunks);
            diffs.push(FileDiff { file: name, is_new_file: false, hunks });
            assert(diff_views(diffs@) =~= before.push(view));
            proof {
                match blocks_from(all, end + 1, named) {
                    Some(rest) => assert(before + (seq![view] + rest) =~= before.push(view)
                        + rest),
                    None => {},
                }
            }
            i = end + 1;
        } else {
            match strip_prefix(lines[i].as_str(), "## FILE: ") {
                Some(name) => {
                    let bare = trim(name.as_str());
                    proof {
                        named = Some(bare@);
                    }
                    file = Some(bare);
                },
                None => {},
            }
            i += 1;
        }
    }
    assert(diff_views(diffs@) + Seq::<FileDiffView>::empty() =~= diff_views(diffs@));
    Some(diffs)
}

/// The file diffs of a patch of unified diffs.
fn parse_unified(lines: &[String]) -> (r: Result<Vec<FileDiff>, String>)
    ensures
        match r {
            Ok(diffs) => unified_of(texts(lines@)) == Ok::<Seq<FileDiffView>, Seq<char>>(
                diff_views(diffs@),
            ),
            Err(e) => unified_of(texts(lines@)) == Err::<Seq<FileDiffView>, Seq<char>>(e@),
        },
{
    let ghost views = texts(lines@);
    let mut diffs: Vec<FileDiff> = Vec::new();
    let mut i: usize = 0;
    assert(diff_views(diffs@) =~= Seq::<FileDiffView>::empty());
    proof {
        match diffs_from(views, 0) {
            Ok(rest) => assert(Seq::<FileDiffView>::empty() + rest =~= rest),
            Err(_) => {},
        }
    }
    while i < lines.len()
        invariant
            i <= lines@.len(),
            views == texts(lines@),
            match diffs_from(views, i as int) {
                Ok(rest) => diffs_from(views, 0) == Ok::<Seq<FileDiffView>, Seq<char>>(
                    diff_views(diffs@) + rest,
                ),
                Err(e) => diffs_from(views, 0) == Err::<Seq<FileDiffView>, Seq<char>>(e),
            },
        decreases lines@.len() - i,
    {
        assert(views[i as int] == lines@[i as int]@);
        match strip_prefix(lines[i].as_str(), "--- ") {
            None => {
                i += 1;
            },
            Some(old_spec) => {
                let ghost before = diff_views(diffs@);
                match parse_diff(lines, old_spec.as_str(), i + 1) {
                    Err(e) => {
                        return Err(e);
                    },
                    Ok((diff, next)) => {
                        let ghost view = diff@;
                        diffs.push(diff);
                        assert(diff_views(diffs@) =~= before.push(view));
                        proof {
                            match diffs_from(views, next as int) {
                                Ok(rest) => assert(before + (seq![view] + rest) =~= before.push(
                                    view,
                                ) + rest),
                                Err(_) => {},
                            }
                        }
                        i = next;
                    },
                }
            },
        }
    }
    assert(diff_views(diffs@) + Seq::<FileDiffView>::empty() =~= diff_views(diffs@));
    if diffs.len() == 0 {
        return Err(NO_DIFFS.to_owned());
    }
    Ok(diffs)
}

/// The file diffs of a patch.
pub fn parse_patch(text: &str) -> (r: Result<Vec<FileDiff>, String>)
    ensures
        match r {
            Ok(diffs) => diffs_of(text@) == Ok::<Seq<FileDiffView>, Seq<char>>(diff_views(diffs@)),
            Err(e) => diffs_of(text@) == Err::<Seq<FileDiffView>, Seq<char>>(e@),
        },
{
    let all = lines(text);
    match parse_unified(all.as_slice()) {
        Ok(diffs) => Ok(diffs),
        Err(e) => match parse_blocks(all.as_slice()) {
            Some(blocks) => {
                assert(diff_views(blocks@).len() == blocks@.len());
                if blocks.len() == 0 {
                    Err(e)
                } else {
                    Ok(blocks)
                }
            },
            None => Err(e),
        },
    }
}

/// What one hunk makes of a file's content: the one place where its old block stands becomes
/// its new block. A hunk without an old block, or whose old block stands nowhere or in several
/// places, be it that they overlap, is an error.
pub open spec fn hunk_applied(file: Seq<char>, content: Seq<char>, hunk: HunkView) -> Result<
    Seq<char>,
    Seq<char>,
> {
    let n = places(content, hunk.old, 0);
    if hunk.old.len() == 0 {
        Err(
            "a hunk for \""@ + file
                + "\" has no context or removed lines to locate it in the existing file — for a brand-new file, diff it against `--- /dev/null` instead"@,
        )
    } else if n == 0 {
        Err(
            "hunk context/removed lines not found in "@ + file
                + " — they must match the current file content exactly, including whitespace:\n"@
                + hunk.old,
        )
    } else if n > 1 {
        Err(
            "hunk context in "@ + file + " matches "@ + decimal(n)
                + " places — include more surrounding context lines to make it unique:\n"@
                + hunk.old,
        )
    } else {
        Ok(replaced_once(content, hunk.old, hunk.new))
    }
}

/// What `hunks` make of a file's content, one after the other.
pub open spec fn hunks_applied(
    file: Seq<char>,
    content: Seq<char>,
    hunks: Seq<HunkView>,
) -> Result<Seq<char>, Seq<char>>
    decreases hunks.len(),
{
    if hunks.len() == 0 {
        Ok(content)
    } else {
        match hunk_applied(file, content, hunks[0]) {
            Err(e) => Err(e),
            Ok(next) => hunks_applied(file, next, hunks.skip(1)),
        }
    }
}

/// Applies one file's hunks in order.
pub fn apply_hunks(file: &str, content: String, hunks: &[Hunk]) -> (r: Result<String, String>)
    ensures
        text_result(r) == hunks_applied(file@, content@, hunk_views(hunks@)),
{
    let ghost views = hunk_views(hunks@);
    let mut current = content;
    let mut i: usize = 0;
    assert(views.skip(0) =~= views);
    while i < hunks.len()
        invariant
            i <= hunks@.len(),
            views == hunk_views(hunks@),
            hunks_applied(file@, current@, views.skip(i as int)) == hunks_applied(
                file@,
                content@,
                views,
            ),
        decreases hunks@.len() - i,
    {
        let hunk = &hunks[i];
        assert(views.skip(i as int)[0] == hunk@);
        assert(views.skip(i as int).skip(1) =~= views.skip(i + 1));
        if hunk.old_block.as_str().is_empty() {
            return Err(
                "a hunk for \"".to_owned().concat(file).concat(
                    "\" has no context or removed lines to locate it in the existing file — for a brand-new file, diff it against `--- /dev/null` instead",
                ),
            );
        }
        let occurrences: usize = count_places(current.as_str(), hunk.old_block.as_str());
        if occurrences == 0 {
            return Err(
                "hunk context/removed lines not found in ".to_owned().concat(file).concat(
                    " — they must match the current file content exactly, including whitespace:\n",
                ).concat(hunk.old_block.as_str()),
            );
        }
        if occurrences > 1 {
            return Err(
                "hunk context in ".to_owned().concat(file).concat(" matches ").concat(
                    decimal_text(occurrences as u64).as_str(),
                ).concat(
                    " places — include more surrounding context lines to make it unique:\n",
                ).concat(hunk.old_block.as_str()),
            );
        }
        current = replace_once(
            current.as_str(),
            hunk.old_block.as_str(),
            hunk.new_block.as_str(),
        );
        i += 1;
    }
    Ok(current)
}

/// The content of a new file: the new blocks of its hunks, with a newline at the end.
pub open spec fn new_content(hunks: Seq<HunkView>) -> Seq<char> {
    let content = joined(hunks.map_values(|h: HunkView| h.new), "\n"@);
    if content.len() > 0 && !("\n"@.is_suffix_of(content)) {
        content.push('\n')
    } else {
        content
    }
}

/// What one file diff makes of the files: only the file that it names changes.
pub open spec fn diff_applied(
    files: Map<Seq<char>, Seq<char>>,
    diff: FileDiffView,
) -> Result<Map<Seq<char>, Seq<char>>, Seq<char>> {
    if diff.is_new_file {
        if files.dom().contains(diff.file) {
            Err(
                "diff for \""@ + diff.file
                    + "\" is against `--- /dev/null` (a new file), but that file already exists — diff it against its current content instead"@,
            )
        } else {
            Ok(files.insert(diff.file, new_content(diff.hunks)))
        }
    } else if !files.dom().contains(diff.file) {
        Err(
            "diff targets \""@ + diff.file
                + "\", which doesn't exist yet — for a brand-new file, diff it against `--- /dev/null` instead"@,
        )
    } else {
        match hunks_applied(diff.file, files[diff.file], diff.hunks) {
            Err(e) => Err(e),
            Ok(content) => Ok(files.insert(diff.file, content)),
        }
    }
}

/// What `diffs` make of the files, one after the other.
pub open spec fn diffs_applied(
    files: Map<Seq<char>, Seq<char>>,
    diffs: Seq<FileDiffView>,
) -> Result<Map<Seq<char>, Seq<char>>, Seq<char>>
    decreases diffs.len(),
{
    if diffs.len() == 0 {
        Ok(files)
    } else {
        match diff_applied(files, diffs[0]) {
            Err(e) => Err(e),
            Ok(next) => diffs_applied(next, diffs.skip(1)),
        }
    }
}

/// What a patch makes of the files.
pub open spec fn patched(files: Map<Seq<char>, Seq<char>>, text: Seq<char>) -> Result<
    Map<Seq<char>, Seq<char>>,
    Seq<char>,
> {
    match diffs_of(text) {
        Err(e) => Err(e),
        Ok(diffs) => diffs_applied(files, diffs),
    }
}

/// The content of a new file.
fn new_file_content(hunks: &[Hunk]) -> (r: String)
    ensures
        r@ == new_content(hunk_views(hunks@)),
{
    let ghost views = hunk_views(hunks@);
    let ghost news = views.map_values(|h: HunkView| h.new);
    let mut blocks: Vec<String> = Vec::new();
    let mut i: usize = 0;
    assert(texts(blocks@) =~= news.take(0));
    while i < hunks.len()
        invariant
            i <= hunks@.len(),
            views == hunk_views(hunks@),
            news == views.map_values(|h: HunkView| h.new),
            texts(blocks@) == news.take(i as int),
        decreases hunks@.len() - i,
    {
        let ghost before = texts(blocks@);
        blocks.push(hunks[i].new_block.clone());
        assert(texts(blocks@) =~= before.push(hunks@[i as int].new_block@));
        assert(news.take(i + 1) =~= news.take(i as int).push(news[i as int]));
        i += 1;
    }
    assert(news.take(i as int) =~= news);
    let mut content = join(blocks.as_slice(), "\n");
    if !content.as_str().is_empty() && !ends_with(content.as_str(), "\n") {
        content.push('\n');
    }
    content
}

/// Applies a patch to the files of a draft: path to full content.
pub fn apply_patch(sections: &Sections, patch_text: &str) -> (r: Result<Sections, String>)
    ensures
        match r {
            Ok(out) => patched(sections@, patch_text@) == Ok::<
                Map<Seq<char>, Seq<char>>,
                Seq<char>,
            >(out@),
            Err(e) => patched(sections@, patch_text@) == Err::<
                Map<Seq<char>, Seq<char>>,
                Seq<char>,
            >(e@),
        },
{
    let diffs = match parse_patch(patch_text) {
        Err(e) => {
            return Err(e);
        },
        Ok(diffs) => diffs,
    };
    let ghost views = diff_views(diffs@);
    let mut out = sections.clone();
    let mut i: usize = 0;
    assert(views.skip(0) =~= views);
    while i < diffs.len()
        invariant
            i <= diffs@.len(),
            views == diff_views(diffs@),
            diffs_of(patch_text@) == Ok::<Seq<FileDiffView>, Seq<char>>(views),
            diffs_applied(out@, views.skip(i as int)) == diffs_applied(sections@, views),
        decreases diffs@.len() - i,
    {
        let diff = &diffs[i];
        assert(views.skip(i as int)[0] == diff@);
        assert(views.skip(i as int).skip(1) =~= views.skip(i + 1));
        if diff.is_new_file {
            if out.contains_key(diff.file.as_str()) {
                return Err(
                    "diff for \"".to_owned().concat(diff.file.as_str()).concat(
                        "\" is against `--- /dev/null` (a new file), but that file already exists — diff it against its current content instead",
                    ),
                );
            }
            out.insert(diff.file.clone(), new_file_content(diff.hunks.as_slice()));
        } else {
            let content = match out.get(diff.file.as_str()) {
                None => {
                    return Err(
                        "diff targets \"".to_owned().concat(diff.file.as_str()).concat(
                            "\", which doesn't exist yet — for a brand-new file, diff it against `--- /dev/null` instead",
                        ),
                    );
                },
                Some(content) => content.clone(),
            };
            match apply_hunks(diff.file.as_str(), content, diff.hunks.as_slice()) {
                Err(e) => {
                    return Err(e);
                },
                Ok(updated) => {
                    out.insert(diff.file.clone(), updated);
                },
            }
        }
        i += 1;
    }
    Ok(out)
}

/// The first `n` lines of a file, each behind its number.
pub open spec fn numbered(lines: Seq<Seq<char>>, n: int) -> Seq<char>
    decreases n,
{
    if n <= 0 {
        Seq::empty()
    } else {
        numbered(lines, n - 1) + padded_start(decimal(n as nat), 4, ' ') + " | "@ + lines[n - 1]
            + "\n"@
    }
}

/// Files under their markers, with the lines numbered.
pub open spec fn rendered_numbered(list: Seq<Listed>) -> Seq<char>
    decreases list.len(),
{
    if list.len() == 0 {
        Seq::empty()
    } else {
        let lines = lines_of(list.last().1);
        rendered_numbered(list.drop_last()) + "// === "@ + list.last().0 + " ===\n"@ + numbered(
            lines,
            lines.len() as int,
        ) + "\n"@
    }
}

fn numbered_lines(content: &str) -> (r: String)
    ensures
        r@ == numbered(lines_of(content@), lines_of(content@).len() as int),
{
    let all = lines(content);
    let ghost views = texts(all@);
    let mut out = String::new();
    let mut i: usize = 0;
    while i < all.len()
        invariant
            i <= all@.len(),
            views == texts(all@),
            out@ == numbered(views, i as int),
        decreases all@.len() - i,
    {
        assert(views[i as int] == all@[i as int]@);
        out.append(pad_start(decimal_text(i as u64 + 1).as_str(), 4, ' ').as_str());
        out.append(" | ");
        out.append(all[i].as_str());
        out.append("\n");
        i += 1;
    }
    out
}

/// All files under their markers, in the order of their paths, with the lines numbered.
pub fn format_multi_file_numbered(sections: &Sections) -> (r: String)
    ensures
        r@ == rendered_numbered(listing(sections@)),
{
    let ghost list = listing(sections@);
    let mut out = String::new();
    let n: usize = sections.len();
    let mut i: usize = 0;
    while i < n
        invariant
            i <= n,
            n == list.len(),
            list == listing(sections@),
            out@ == rendered_numbered(list.take(i as int)),
        decreases n - i,
    {
        let file = sections.at(i);
        out.append("// === ");
        out.append(file.path.as_str());
        out.append(" ===\n");
        out.append(numbered_lines(file.content.as_str()).as_str());
        out.append("\n");
        assert(list.take(i + 1).drop_last() =~= list.take(i as int));
        i += 1;
    }
    assert(list.take(i as int) =~= list);
    out
}

/// How a patch is to be written, for whoever is asked for one.
pub const PATCH_FORMAT_INSTRUCTIONS: &'static str =
    "\
Respond with a unified diff (the same format `git diff`/`diff -u` produce) — one `--- `/`+++ ` \
header pair per file, one or more `@@ ... @@` hunks each:\n\
--- a/<path exactly as shown above>\n\
+++ b/<same path>\n\
@@ ... @@\n\
 <context line, unchanged, copied exactly as shown above>\n\
-<line to remove, copied exactly as shown above>\n\
+<line to add>\n\
 <context line, unchanged>\n\n\
Rules:\n\
- Every removed/context line must match the current content exactly, including whitespace — \
  the leading ` `/`-`/`+` column is the diff marker, not part of the line's own content.\n\
- Include a line or two of unchanged context (space-prefixed) around each change so the hunk \
  can be located unambiguously. The numbers on `@@ -a,b +c,d @@` are only a hunk separator and \
  are never checked — write `@@ ... @@` if you're not sure of them, exact counts are not \
  required.\n\
- For a brand-new file, diff it against `/dev/null` instead of patching a file that doesn't \
  exist yet:\n\
--- /dev/null\n\
+++ b/<new path>\n\
@@ ... @@\n\
+<full content of the new file, one line per `+`>\n\n\
One diff per file — do not repeat unchanged files. Multiple edits to the same file can be \
multiple `@@` hunks under one header pair, or separate header pairs; both work.";

/// A hunk applies if and only if its old block is not empty and stands in the content at exactly
/// one position; what stands before and behind that position is kept.
pub proof fn law_hunk_replaces_its_block(file: Seq<char>, content: Seq<char>, hunk: HunkView)
    ensures
        hunk_applied(file, content, hunk) is Ok <==> hunk.old.len() > 0 && exists|i: int|
            {
                &&& #[trigger] occurs_at(content, hunk.old, i)
                &&& forall|j: int| #[trigger] occurs_at(content, hunk.old, j) ==> j == i
            },
        forall|i: int|
            hunk_applied(file, content, hunk) is Ok && #[trigger] occurs_at(content, hunk.old, i)
                ==> {
                &&& content == content.take(i) + hunk.old + content.skip(i + hunk.old.len())
                &&& hunk_applied(file, content, hunk)->Ok_0 == content.take(i) + hunk.new
                    + content.skip(i + hunk.old.len())
            },
{
    let old = hunk.old;
    lemma_first_from(content, old, 0);
    lemma_places(content, old, 0);
    match first_from(content, old, 0) {
        None => {},
        Some(k) => {
            lemma_first_from(content, old, k + 1);
            lemma_places(content, old, k + 1);
            assert(occurs_at(content, old, k));
            if hunk_applied(file, content, hunk) is Ok {
                assert forall|i: int| #[trigger] occurs_at(content, old, i) implies i == k by {}
                assert(content =~= content.take(k) + old + content.skip(k + old.len()));
            }
        },
    }
}

/// A patch that applies leaves every file that none of its diffs names as it was, and keeps
/// every file.
pub proof fn law_other_files_kept(
    files: Map<Seq<char>, Seq<char>>,
    diffs: Seq<FileDiffView>,
    path: Seq<char>,
)
    requires
        diffs_applied(files, diffs) is Ok,
        forall|i: int| 0 <= i < diffs.len() ==> (#[trigger] diffs[i]).file != path,
    ensures
        diffs_applied(files, diffs)->Ok_0.dom().contains(path) == files.dom().contains(path),
        files.dom().contains(path) ==> diffs_applied(files, diffs)->Ok_0[path] == files[path],
    decreases diffs.len(),
{
    if diffs.len() > 0 {
        let next = diff_applied(files, diffs[0])->Ok_0;
        assert forall|i: int| 0 <= i < diffs.skip(1).len() implies (#[trigger] diffs.skip(
            1,
        )[i]).file != path by {
            assert(diffs.skip(1)[i] == diffs[i + 1]);
        }
        law_other_files_kept(next, diffs.skip(1), path);
    }
}

/// Whether two lists of lines differ at most in what their hunk headers say.
pub open spec fn same_but_headers(a: Seq<Seq<char>>, b: Seq<Seq<char>>) -> bool {
    a.len() == b.len() && forall|i: int|
        0 <= i < a.len() ==> (#[trigger] a[i] == b[i] || ("@@"@.is_prefix_of(a[i])
            && "@@"@.is_prefix_of(b[i])))
}

proof fn lemma_same_body(a: Seq<Seq<char>>, b: Seq<Seq<char>>, from: int)
    requires
        same_but_headers(a, b),
        0 <= from <= a.len(),
    ensures
        body_end(a, from) == body_end(b, from),
        from <= body_end(a, from) <= a.len(),
        a.subrange(from, body_end(a, from)) == b.subrange(from, body_end(a, from)),
    decreases a.len() - from,
{
    if from < a.len() && !ends_body(a[from]) {
        assert(a[from] == b[from]);
        lemma_same_body(a, b, from + 1);
        let end = body_end(a, from);
        assert forall|i: int| 0 <= i < end - from implies a.subrange(from, end)[i] == b.subrange(
            from,
            end,
        )[i] by {
            if i > 0 {
                assert(a.subrange(from + 1, end)[i - 1] == b.subrange(from + 1, end)[i - 1]);
            }
        }
        assert(a.subrange(from, end) =~= b.subrange(from, end));
    } else if from < a.len() {
        assert(a[from] == a[from]);
        assert(a.subrange(from, from) =~= b.subrange(from, from));
    } else {
        assert(a.subrange(from, from) =~= b.subrange(from, from));
    }
}

proof fn lemma_same_hunks(a: Seq<Seq<char>>, b: Seq<Seq<char>>, from: int)
    requires
        same_but_headers(a, b),
        0 <= from <= a.len(),
    ensures
        hunks_at(a, from) == hunks_at(b, from),
    decreases a.len() - from,
{
    if from < a.len() {
        assert(a[from] == a[from]);
        if "@@"@.is_prefix_of(a[from]) {
            lemma_same_body(a, b, from + 1);
            lemma_body_end(a, from + 1);
            lemma_same_hunks(a, b, body_end(a, from + 1));
        }
    }
}

proof fn lemma_header_is_no_file_header(line: Seq<char>)
    requires
        "@@"@.is_prefix_of(line),
    ensures
        after_prefix(line, "--- "@) is None,
        after_prefix(line, "+++ "@) is None,
{
    reveal_strlit("@@");
    reveal_strlit("--- ");
    reveal_strlit("+++ ");
    assert(line[0] == "@@"@[0]);
    if after_prefix(line, "--- "@) is Some {
        assert(line[0] == "--- "@[0]);
    }
    if after_prefix(line, "+++ "@) is Some {
        assert(line[0] == "+++ "@[0]);
    }
}

/// Of two lists of lines that differ only in their hunk headers, where the one reads, the other
/// reads as the same diffs.
proof fn lemma_same_diffs(a: Seq<Seq<char>>, b: Seq<Seq<char>>, from: int)
    requires
        same_but_headers(a, b),
        0 <= from <= a.len(),
    ensures
        diffs_from(a, from) is Ok ==> diffs_from(b, from) == diffs_from(a, from),
    decreases a.len() - from,
{
    if from < a.len() && diffs_from(a, from) is Ok {
        assert(a[from] == a[from]);
        if "@@"@.is_prefix_of(a[from]) && "@@"@.is_prefix_of(b[from]) {
            lemma_header_is_no_file_header(a[from]);
            lemma_header_is_no_file_header(b[from]);
            lemma_same_diffs(a, b, from + 1);
        } else {
            assert(a[from] == b[from]);
            match after_prefix(a[from], "--- "@) {
                None => {
                    lemma_same_diffs(a, b, from + 1);
                },
                Some(old_spec) => {
                    assert(from + 1 < a.len());
                    assert(a[from + 1] == a[from + 1]);
                    if "@@"@.is_prefix_of(a[from + 1]) {
                        lemma_header_is_no_file_header(a[from + 1]);
                    }
                    assert(a[from + 1] == b[from + 1]);
                    lemma_same_hunks(a, b, from + 2);
                    lemma_hunks_at(a, from + 2);
                    let next = diff_at(a, old_spec, from + 1)->Ok_0.1;
                    lemma_same_diffs(a, b, next);
                },
            }
        }
    }
}

/// The numbers on a hunk header are never read: of two texts that differ only in their hunk
/// headers, where the one reads as unified diffs, so does the other, and both come to the same.
pub proof fn law_hunk_numbers_are_ignored(
    files: Map<Seq<char>, Seq<char>>,
    a: Seq<char>,
    b: Seq<char>,
)
    requires
        same_but_headers(lines_of(a), lines_of(b)),
    ensures
        unified_of(lines_of(a)) is Ok <==> unified_of(lines_of(b)) is Ok,
        unified_of(lines_of(a)) is Ok ==> patched(files, a) == patched(files, b),
{
    let x = lines_of(a);
    let y = lines_of(b);
    assert(same_but_headers(y, x)) by {
        assert forall|i: int| 0 <= i < y.len() implies (#[trigger] y[i] == x[i] || (
        "@@"@.is_prefix_of(y[i]) && "@@"@.is_prefix_of(x[i]))) by {
            assert(x[i] == x[i]);
        }
    }
    lemma_same_diffs(x, y, 0);
    lemma_same_diffs(y, x, 0);
}

/// Whether `lines` are hunks, one after the other, and nothing else.
pub open spec fn are_hunks(lines: Seq<Seq<char>>) -> bool {
    lines.len() > 0 && (hunks_at(lines, 0) matches Ok((_, end)) && end == lines.len())
}

/// A hunk header and some lines of which none begins another hunk or file are a hunk.
pub proof fn law_header_and_lines_are_a_hunk(header: Seq<char>, body: Seq<Seq<char>>)
    requires
        "@@"@.is_prefix_of(header),
        body.len() > 0,
        forall|i: int| 0 <= i < body.len() ==> !ends_body(#[trigger] body[i]),
    ensures
        are_hunks(seq![header] + body),
{
    let all = seq![header] + body;
    assert(all[0] == header);
    lemma_whole_body(all, 1);
    assert(hunks_at(all, all.len() as int) is Ok);
}

proof fn lemma_whole_body(lines: Seq<Seq<char>>, from: int)
    requires
        0 <= from <= lines.len(),
        forall|i: int| from <= i < lines.len() ==> !ends_body(#[trigger] lines[i]),
    ensures
        body_end(lines, from) == lines.len(),
    decreases lines.len() - from,
{
    if from < lines.len() {
        lemma_whole_body(lines, from + 1);
    }
}

/// Whether `part` stands in `lines` from line `i` on, and ends there as it would alone.
spec fn stands_at(lines: Seq<Seq<char>>, i: int, part: Seq<Seq<char>>) -> bool {
    &&& 0 <= i
    &&& i + part.len() <= lines.len()
    &&& lines.subrange(i, i + part.len()) == part
    &&& i + part.len() == lines.len() || ends_body(lines[i + part.len()])
}

proof fn lemma_body_elsewhere(lines: Seq<Seq<char>>, i: int, part: Seq<Seq<char>>, k: int)
    requires
        stands_at(lines, i, part),
        0 <= k <= part.len(),
    ensures
        body_end(lines, i + k) == i + body_end(part, k),
    decreases part.len() - k,
{
    if k < part.len() {
        assert(part[k] == lines[i + k]);
        if !ends_body(part[k]) {
            lemma_body_elsewhere(lines, i, part, k + 1);
        }
    }
}

/// Hunks read the same wherever they stand, and what follows them is read after them.
proof fn lemma_hunks_elsewhere(lines: Seq<Seq<char>>, i: int, part: Seq<Seq<char>>, k: int)
    requires
        stands_at(lines, i, part),
        0 <= k <= part.len(),
        hunks_at(part, k) matches Ok((_, end)) && end == part.len(),
    ensures
        hunks_at(lines, i + k) == match hunks_at(lines, i + part.len()) {
            Err(e) => Err::<(Seq<HunkView>, int), Seq<char>>(e),
            Ok((rest, end)) => Ok((hunks_at(part, k)->Ok_0.0 + rest, end)),
        },
    decreases part.len() - k,
{
    if k == part.len() {
        match hunks_at(lines, i + part.len()) {
            Err(_) => {},
            Ok((rest, _)) => {
                assert(Seq::<HunkView>::empty() + rest =~= rest);
            },
        }
    } else {
        assert(part[k] == lines[i + k]);
        lemma_body_elsewhere(lines, i, part, k + 1);
        lemma_body_end(part, k + 1);
        let m = body_end(part, k + 1);
        assert(part.subrange(k + 1, m) =~= lines.subrange(i + k + 1, i + m));
        let hunk = hunk_of(part.subrange(k + 1, m));
        lemma_hunks_elsewhere(lines, i, part, m);
        match hunks_at(lines, i + part.len()) {
            Err(_) => {},
            Ok((rest, _)) => {
                let later = hunks_at(part, m)->Ok_0.0;
                assert(seq![hunk] + (later + rest) =~= (seq![hunk] + later) + rest);
            },
        }
    }
}

/// Hunks that are applied one after the other can be applied in two goes.
proof fn lemma_hunks_in_two(
    file: Seq<char>,
    content: Seq<char>,
    a: Seq<HunkView>,
    b: Seq<HunkView>,
)
    ensures
        hunks_applied(file, content, a + b) == match hunks_applied(file, content, a) {
            Err(e) => Err::<Seq<char>, Seq<char>>(e),
            Ok(next) => hunks_applied(file, next, b),
        },
    decreases a.len(),
{
    if a.len() == 0 {
        assert(a + b =~= b);
    } else {
        assert((a + b)[0] == a[0]);
        assert((a + b).skip(1) =~= a.skip(1) + b);
        match hunk_applied(file, content, a[0]) {
            Err(_) => {},
            Ok(next) => {
                lemma_hunks_in_two(file, next, a.skip(1), b);
            },
        }
    }
}

/// Several edits of one file can be hunks under one header pair or stand under a pair each: a
/// patch of an existing file comes to the same, be it an error, when its header pair is repeated
/// between two of its hunks.
pub proof fn law_header_pairs_can_be_repeated(
    files: Map<Seq<char>, Seq<char>>,
    once: Seq<char>,
    twice: Seq<char>,
    old_header: Seq<char>,
    new_header: Seq<char>,
    first: Seq<Seq<char>>,
    second: Seq<Seq<char>>,
)
    requires
        "--- "@.is_prefix_of(old_header),
        !names_dev_null(old_header.skip(4)),
        "+++ "@.is_prefix_of(new_header),
        are_hunks(first),
        are_hunks(second),
        lines_of(once) == seq![old_header, new_header] + first + second,
        lines_of(twice) == seq![old_header, new_header] + first + seq![old_header, new_header]
            + second,
        diff_path(new_header.skip(4)).len() > 0,
    ensures
        patched(files, once) == patched(files, twice),
{
    reveal_strlit("--- ");
    reveal_strlit("+++ ");
    let x = lines_of(once);
    let y = lines_of(twice);
    let n = first.len() as int;
    let m = second.len() as int;
    let old_spec = old_header.skip(4);
    let file = diff_path(new_header.skip(4));
    assert(after_prefix(old_header, "--- "@) == Some(old_spec));
    assert(after_prefix(new_header, "+++ "@) == Some(new_header.skip(4)));
    assert(x[0] == old_header && x[1] == new_header);
    assert(y[0] == old_header && y[1] == new_header);
    assert("@@"@.is_prefix_of(second[0]));
    assert(x.subrange(2, 2 + n) =~= first);
    assert(x[2 + n] == second[0]);
    assert(x.subrange(2 + n, 2 + n + m) =~= second);
    assert(y.subrange(2, 2 + n) =~= first);
    assert(y[2 + n] == old_header && y[3 + n] == new_header);
    assert(y.subrange(4 + n, 4 + n + m) =~= second);
    if "@@"@.is_prefix_of(old_header) {
        lemma_header_is_no_file_header(old_header);
    }
    lemma_hunks_elsewhere(x, 2, first, 0);
    lemma_hunks_elsewhere(x, 2 + n, second, 0);
    lemma_hunks_elsewhere(y, 2, first, 0);
    lemma_hunks_elsewhere(y, 4 + n, second, 0);
    let a = hunks_at(first, 0)->Ok_0.0;
    let b = hunks_at(second, 0)->Ok_0.0;
    assert("@@"@.is_prefix_of(first[0]));
    assert(a.len() > 0 && b.len() > 0);
    assert(b + Seq::<HunkView>::empty() =~= b);
    assert(a + Seq::<HunkView>::empty() =~= a);
    assert(hunks_at(x, 2) == Ok::<(Seq<HunkView>, int), Seq<char>>((a + b, x.len() as int)));
    assert(hunks_at(y, 2) == Ok::<(Seq<HunkView>, int), Seq<char>>((a, 2 + n)));
    assert(hunks_at(y, 4 + n) == Ok::<(Seq<HunkView>, int), Seq<char>>((b, y.len() as int)));
    if file.len() > 0 {
        let whole = FileDiffView { file, is_new_file: false, hunks: a + b };
        let one = FileDiffView { file, is_new_file: false, hunks: a };
        let two = FileDiffView { file, is_new_file: false, hunks: b };
        let none = Seq::<FileDiffView>::empty();
        assert(diffs_from(x, x.len() as int) == Ok::<Seq<FileDiffView>, Seq<char>>(none));
        assert(diffs_from(y, y.len() as int) == Ok::<Seq<FileDiffView>, Seq<char>>(none));
        assert(diff_at(x, old_spec, 1) == Ok::<(FileDiffView, int), Seq<char>>(
            (whole, x.len() as int),
        ));
        assert(diff_at(y, old_spec, 3 + n) == Ok::<(FileDiffView, int), Seq<char>>(
            (two, y.len() as int),
        ));
        assert(diff_at(y, old_spec, 1) == Ok::<(FileDiffView, int), Seq<char>>((one, 2 + n)));
        assert(diffs_from(x, 0) == Ok::<Seq<FileDiffView>, Seq<char>>(seq![whole] + none));
        assert(diffs_from(y, 2 + n) == Ok::<Seq<FileDiffView>, Seq<char>>(seq![two] + none));
        assert(diffs_from(y, 0) == Ok::<Seq<FileDiffView>, Seq<char>>(
            seq![one] + (seq![two] + none),
        ));
        assert((seq![whole] + none).skip(1) =~= none);
        assert((seq![one] + (seq![two] + none)).skip(1) =~= seq![two] + none);
        assert((seq![two] + none).skip(1) =~= none);
        if files.dom().contains(file) {
            lemma_hunks_in_two(file, files[file], a, b);
            match hunks_applied(file, files[file], a) {
                Err(_) => {},
                Ok(next) => {
                    match hunks_applied(file, next, b) {
                        Err(_) => {},
                        Ok(last) => {
                            assert(files.insert(file, next).insert(file, last) =~= files.insert(
                                file,
                                last,
                            ));
                        },
                    }
                },
            }
        }
        reveal_with_fuel(diffs_applied, 3);
    }
}

/// Lines, each behind the same mark.
pub open spec fn marked(mark: Seq<char>, lines: Seq<Seq<char>>) -> Seq<Seq<char>> {
    lines.map_values(|line: Seq<char>| mark + line)
}

proof fn lemma_sides_of_parts(a: Seq<Seq<char>>, b: Seq<Seq<char>>)
    ensures
        old_lines(a + b) == old_lines(a) + old_lines(b),
        new_lines(a + b) == new_lines(a) + new_lines(b),
    decreases b.len(),
{
    if b.len() == 0 {
        assert(a + b =~= a);
        assert(old_lines(a) + old_lines(b) =~= old_lines(a));
        assert(new_lines(a) + new_lines(b) =~= new_lines(a));
    } else {
        lemma_sides_of_parts(a, b.drop_last());
        assert((a + b).drop_last() =~= a + b.drop_last());
        assert((a + b).last() == b.last());
        assert(old_lines(a + b) =~= old_lines(a) + old_lines(b));
        assert(new_lines(a + b) =~= new_lines(a) + new_lines(b));
    }
}

proof fn lemma_marked_sides(lines: Seq<Seq<char>>)
    ensures
        old_lines(marked(" "@, lines)) == lines,
        new_lines(marked(" "@, lines)) == lines,
        old_lines(marked("-"@, lines)) == lines,
        new_lines(marked("-"@, lines)) == Seq::<Seq<char>>::empty(),
        old_lines(marked("+"@, lines)) == Seq::<Seq<char>>::empty(),
        new_lines(marked("+"@, lines)) == lines,
    decreases lines.len(),
{
    reveal_strlit(" ");
    reveal_strlit("-");
    reveal_strlit("+");
    let context = marked(" "@, lines);
    let removed = marked("-"@, lines);
    let added = marked("+"@, lines);
    if lines.len() == 0 {
        assert(old_lines(context) =~= lines && new_lines(context) =~= lines);
        assert(old_lines(removed) =~= lines);
        assert(new_lines(added) =~= lines);
    } else {
        let less = lines.drop_last();
        let line = lines.last();
        lemma_marked_sides(less);
        assert(context.drop_last() =~= marked(" "@, less));
        assert(removed.drop_last() =~= marked("-"@, less));
        assert(added.drop_last() =~= marked("+"@, less));
        let c = " "@ + line;
        let r = "-"@ + line;
        let a = "+"@ + line;
        assert(context.last() == c && removed.last() == r && added.last() == a);
        assert(c[0] == ' ' && r[0] == '-' && a[0] == '+');
        assert(c.skip(1) =~= line && r.skip(1) =~= line && a.skip(1) =~= line);
        assert(" "@.is_prefix_of(c) && "-"@.is_prefix_of(r) && "+"@.is_prefix_of(a));
        assert(!"-"@.is_prefix_of(c) && !"+"@.is_prefix_of(c) && !"-"@.is_prefix_of(a)
            && !"+"@.is_prefix_of(r));
        assert(less.push(line) =~= lines);
    }
}

/// A hunk says what its marks say: behind a space stands a line that is there before and after,
/// behind a minus one that is only there before, behind a plus one that is only there after; each
/// as it is, but for the one column of the mark.
pub proof fn law_marks_tell_the_sides(
    before: Seq<Seq<char>>,
    removed: Seq<Seq<char>>,
    added: Seq<Seq<char>>,
    after: Seq<Seq<char>>,
)
    ensures
        hunk_of(
            marked(" "@, before) + marked("-"@, removed) + marked("+"@, added) + marked(" "@, after),
        ) == (HunkView {
            old: joined(before + removed + after, "\n"@),
            new: joined(before + added + after, "\n"@),
        }),
        hunk_of(marked(" "@, before)).old == joined(before, "\n"@),
        hunk_of(marked(" "@, before)).new == joined(before, "\n"@),
{
    let a = marked(" "@, before);
    let b = marked("-"@, removed);
    let c = marked("+"@, added);
    let d = marked(" "@, after);
    lemma_marked_sides(before);
    lemma_marked_sides(removed);
    lemma_marked_sides(added);
    lemma_marked_sides(after);
    lemma_sides_of_parts(a, b);
    lemma_sides_of_parts(a + b, c);
    lemma_sides_of_parts(a + b + c, d);
    let none = Seq::<Seq<char>>::empty();
    assert(before + removed + none + after =~= before + removed + after);
    assert(before + none + added + after =~= before + added + after);
}

/// The lines of a unified diff of one file, with one hunk.
pub open spec fn one_hunk_diff(
    old_header: Seq<char>,
    file: Seq<char>,
    hunk_header: Seq<char>,
    body: Seq<Seq<char>>,
) -> Seq<Seq<char>> {
    seq![old_header, "+++ b/"@ + file, hunk_header] + body
}

/// Whether a path can be told from a file header as it is.
pub open spec fn is_plain_path(file: Seq<char>) -> bool {
    &&& file.len() > 0
    &&& !is_space(file.last())
    &&& !file.contains('\t')
}

proof fn lemma_header_path(file: Seq<char>)
    requires
        is_plain_path(file),
    ensures
        after_prefix("+++ b/"@ + file, "+++ "@) == Some("b/"@ + file),
        after_prefix("--- a/"@ + file, "--- "@) == Some("a/"@ + file),
        diff_path("b/"@ + file) == file,
        trimmed("a/"@ + file) == "a/"@ + file,
{
    reveal_strlit("+++ b/");
    reveal_strlit("+++ ");
    reveal_strlit("--- a/");
    reveal_strlit("--- ");
    reveal_strlit("a/");
    reveal_strlit("b/");
    let x = "b/"@ + file;
    let y = "a/"@ + file;
    assert(("+++ b/"@ + file).skip(4) =~= x);
    assert(("--- a/"@ + file).skip(4) =~= y);
    assert("+++ "@.is_prefix_of("+++ b/"@ + file));
    assert("--- "@.is_prefix_of("--- a/"@ + file));
    assert(!x.contains('\t')) by {
        assert forall|i: int| 0 <= i < x.len() implies x[i] != '\t' by {
            if i >= 2 {
                assert(file.contains(file[i - 2]));
            }
        }
    }
    lemma_one_piece(x, '\t');
    assert(x[0] == 'b' && y[0] == 'a');
    assert(x.last() == file.last() && y.last() == file.last());
    lemma_trimmed_is_kept(x);
    lemma_trimmed_is_kept(y);
    assert(!"a/"@.is_prefix_of(x));
    assert("b/"@.is_prefix_of(x));
    assert(x.skip(2) =~= file);
}

/// What a diff of one file with one hunk reads as.
proof fn lemma_one_hunk_diff(
    lines: Seq<Seq<char>>,
    old_header: Seq<char>,
    old_spec: Seq<char>,
    file: Seq<char>,
    hunk_header: Seq<char>,
    body: Seq<Seq<char>>,
)
    requires
        is_plain_path(file),
        after_prefix(old_header, "--- "@) == Some(old_spec),
        "@@"@.is_prefix_of(hunk_header),
        body.len() > 0,
        forall|i: int| 0 <= i < body.len() ==> !ends_body(#[trigger] body[i]),
        lines == one_hunk_diff(old_header, file, hunk_header, body),
    ensures
        unified_of(lines) == Ok::<Seq<FileDiffView>, Seq<char>>(
            seq![
                FileDiffView {
                    file,
                    is_new_file: names_dev_null(old_spec),
                    hunks: seq![hunk_of(body)],
                },
            ],
        ),
{
    lemma_header_path(file);
    let n = lines.len() as int;
    assert(lines[0] == old_header && lines[1] == "+++ b/"@ + file && lines[2] == hunk_header);
    assert forall|i: int| 3 <= i < n implies !ends_body(#[trigger] lines[i]) by {
        assert(lines[i] == body[i - 3]);
    }
    lemma_whole_body(lines, 3);
    assert(lines.subrange(3, n) =~= body);
    assert(hunks_at(lines, n) == Ok::<(Seq<HunkView>, int), Seq<char>>((Seq::empty(), n)));
    let hunks = seq![hunk_of(body)];
    assert(hunks + Seq::<HunkView>::empty() =~= hunks);
    assert(hunks_at(lines, 2) == Ok::<(Seq<HunkView>, int), Seq<char>>((hunks, n)));
    let diff = FileDiffView { file, is_new_file: names_dev_null(old_spec), hunks };
    assert(diff_at(lines, old_spec, 1) == Ok::<(FileDiffView, int), Seq<char>>((diff, n)));
    assert(diffs_from(lines, n) == Ok::<Seq<FileDiffView>, Seq<char>>(Seq::empty()));
    assert(seq![diff] + Seq::<FileDiffView>::empty() =~= seq![diff]);
    assert(diffs_from(lines, 0) == Ok::<Seq<FileDiffView>, Seq<char>>(seq![diff]));
}

proof fn lemma_marked_is_body(mark: Seq<char>, lines: Seq<Seq<char>>)
    requires
        mark == " "@ || mark == "+"@ || (mark == "-"@ && forall|i: int|
            0 <= i < lines.len() ==> !("-- "@.is_prefix_of(#[trigger] lines[i]))),
    ensures
        forall|i: int| 0 <= i < lines.len() ==> !ends_body(#[trigger] marked(mark, lines)[i]),
{
    reveal_strlit(" ");
    reveal_strlit("+");
    reveal_strlit("-");
    reveal_strlit("-- ");
    reveal_strlit("--- ");
    reveal_strlit("@@");
    assert forall|i: int| 0 <= i < lines.len() implies !ends_body(
        #[trigger] marked(mark, lines)[i],
    ) by {
        let line = lines[i];
        let m = marked(mark, lines)[i];
        assert(m == mark + line);
        assert(m[0] == mark[0]);
        if "@@"@.is_prefix_of(m) {
            assert(m[0] == "@@"@[0]);
        }
        if "--- "@.is_prefix_of(m) {
            assert(m[0] == "--- "@[0]);
            assert(m[1] == "--- "@[1] && m[2] == "--- "@[2] && m[3] == "--- "@[3]);
            assert(line[0] == m[1] && line[1] == m[2] && line[2] == m[3]);
            assert("-- "@.is_prefix_of(line));
        }
    }
}

/// A diff edits its file: the one place at which the lines stand that are there before becomes the
/// lines that are there after, all else is kept, and so is every other file. A removed line must
/// not look like the header of another file.
pub proof fn law_a_diff_edits_its_file(
    files: Map<Seq<char>, Seq<char>>,
    text: Seq<char>,
    file: Seq<char>,
    hunk_header: Seq<char>,
    before: Seq<Seq<char>>,
    removed: Seq<Seq<char>>,
    added: Seq<Seq<char>>,
    after: Seq<Seq<char>>,
    i: int,
)
    requires
        is_plain_path(file),
        !("/dev/null"@.is_suffix_of("a/"@ + file)),
        "@@"@.is_prefix_of(hunk_header),
        forall|j: int| 0 <= j < removed.len() ==> !("-- "@.is_prefix_of(#[trigger] removed[j])),
        lines_of(text) == seq!["--- a/"@ + file, "+++ b/"@ + file, hunk_header] + (marked(
            " "@,
            before,
        ) + marked("-"@, removed) + marked("+"@, added) + marked(" "@, after)),
        files.contains_key(file),
        joined(before + removed + after, "\n"@).len() > 0,
        occurs_at(files[file], joined(before + removed + after, "\n"@), i),
        forall|j: int| #[trigger]
            occurs_at(files[file], joined(before + removed + after, "\n"@), j) ==> j == i,
    ensures
        ({
            let old = joined(before + removed + after, "\n"@);
            let new = joined(before + added + after, "\n"@);
            patched(files, text) == Ok::<Map<Seq<char>, Seq<char>>, Seq<char>>(
                files.insert(
                    file,
                    files[file].take(i) + new + files[file].skip(i + old.len()),
                ),
            )
        }),
{
    let a = marked(" "@, before);
    let b = marked("-"@, removed);
    let c = marked("+"@, added);
    let d = marked(" "@, after);
    let body = a + b + c + d;
    let old = joined(before + removed + after, "\n"@);
    lemma_marked_is_body(" "@, before);
    lemma_marked_is_body("-"@, removed);
    lemma_marked_is_body("+"@, added);
    lemma_marked_is_body(" "@, after);
    assert(body.len() > 0) by {
        if body.len() == 0 {
            assert(before + removed + after =~= Seq::<Seq<char>>::empty());
        }
    }
    assert forall|j: int| 0 <= j < body.len() implies !ends_body(#[trigger] body[j]) by {
        let n1 = a.len() as int;
        let n2 = n1 + b.len();
        let n3 = n2 + c.len();
        if j < n1 {
            assert(body[j] == a[j]);
        } else if j < n2 {
            assert(body[j] == b[j - n1]);
        } else if j < n3 {
            assert(body[j] == c[j - n2]);
        } else {
            assert(body[j] == d[j - n3]);
        }
    }
    lemma_header_path(file);
    let lines = lines_of(text);
    lemma_one_hunk_diff(lines, "--- a/"@ + file, "a/"@ + file, file, hunk_header, body);
    law_marks_tell_the_sides(before, removed, added, after);
    let hunk = hunk_of(body);
    let hunks = seq![hunk];
    law_hunk_replaces_its_block(file, files[file], hunk);
    assert(hunks.skip(1) =~= Seq::<HunkView>::empty());
    let diff = FileDiffView { file, is_new_file: false, hunks };
    let diffs = seq![diff];
    assert(diffs.skip(1) =~= Seq::<FileDiffView>::empty());
    reveal_with_fuel(hunks_applied, 2);
    reveal_with_fuel(diffs_applied, 2);
}

/// A diff against nothing makes a new file of the lines that it adds, with a newline at the end,
/// and is refused where the file is there.
pub proof fn law_a_diff_makes_a_new_file(
    files: Map<Seq<char>, Seq<char>>,
    text: Seq<char>,
    file: Seq<char>,
    hunk_header: Seq<char>,
    added: Seq<Seq<char>>,
)
    requires
        is_plain_path(file),
        "@@"@.is_prefix_of(hunk_header),
        added.len() > 0,
        added.last().len() > 0,
        added.last().last() != '\n',
        lines_of(text) == seq!["--- /dev/null"@, "+++ b/"@ + file, hunk_header] + marked(
            "+"@,
            added,
        ),
    ensures
        !files.contains_key(file) ==> patched(files, text) == Ok::<
            Map<Seq<char>, Seq<char>>,
            Seq<char>,
        >(files.insert(file, joined(added, "\n"@) + "\n"@)),
        files.contains_key(file) ==> patched(files, text) is Err,
{
    let body = marked("+"@, added);
    lemma_marked_is_body("+"@, added);
    lemma_marked_sides(added);
    reveal_strlit("--- /dev/null");
    reveal_strlit("--- ");
    reveal_strlit("/dev/null");
    reveal_strlit("\n");
    assert("--- /dev/null"@.skip(4) =~= "/dev/null"@);
    assert("--- "@.is_prefix_of("--- /dev/null"@));
    lemma_trimmed_is_kept("/dev/null"@);
    assert("/dev/null"@.is_suffix_of("/dev/null"@));
    lemma_one_hunk_diff(lines_of(text), "--- /dev/null"@, "/dev/null"@, file, hunk_header, body);
    let hunks = seq![hunk_of(body)];
    let content = joined(added, "\n"@);
    let news = hunks.map_values(|h: HunkView| h.new);
    assert(news =~= seq![content]);
    assert(content.len() > 0 && content.last() == added.last().last()) by {
        if added.len() == 1 {
            assert(content == added[0]);
        }
    }
    assert(!"\n"@.is_suffix_of(content)) by {
        if "\n"@.is_suffix_of(content) {
            assert(content[content.len() - 1] == "\n"@[0]);
        }
    }
    assert(content.push('\n') =~= content + "\n"@);
    let diffs = seq![FileDiffView { file, is_new_file: true, hunks }];
    assert(diffs.skip(1) =~= Seq::<FileDiffView>::empty());
    reveal_with_fuel(diffs_applied, 2);
}

/// A block edits its file: the one place at which the lines stand that are searched for becomes the
/// lines that replace them, and all else is kept.
pub proof fn law_a_block_edits_its_file(
    files: Map<Seq<char>, Seq<char>>,
    text: Seq<char>,
    file: Seq<char>,
    old: Seq<Seq<char>>,
    new: Seq<Seq<char>>,
    i: int,
)
    requires
        file.len() > 0,
        !is_space(file[0]) && !is_space(file.last()),
        unified_of(lines_of(text)) is Err,
        forall|j: int| 0 <= j < old.len() ==> !("======="@.is_prefix_of(#[trigger] old[j])),
        forall|j: int| 0 <= j < new.len() ==> !(">>>>>>> REPLACE"@.is_prefix_of(#[trigger] new[j])),
        lines_of(text) == seq!["## FILE: "@ + file, "<<<<<<< SEARCH"@] + old + seq!["======="@] + new
            + seq![">>>>>>> REPLACE"@],
        files.contains_key(file),
        joined(old, "\n"@).len() > 0,
        occurs_at(files[file], joined(old, "\n"@), i),
        forall|j: int| #[trigger] occurs_at(files[file], joined(old, "\n"@), j) ==> j == i,
    ensures
        patched(files, text) == Ok::<Map<Seq<char>, Seq<char>>, Seq<char>>(
            files.insert(
                file,
                files[file].take(i) + joined(new, "\n"@) + files[file].skip(
                    i + joined(old, "\n"@).len(),
                ),
            ),
        ),
{
    reveal_strlit("## FILE: ");
    reveal_strlit("<<<<<<< SEARCH");
    reveal_strlit("=======");
    reveal_strlit(">>>>>>> REPLACE");
    let lines = lines_of(text);
    let n = lines.len() as int;
    let middle = 2 + old.len() as int;
    let end = n - 1;
    let named = "## FILE: "@ + file;
    assert(lines[0] == named && lines[1] == SEARCH@ && lines[middle] == DIVIDER@ && lines[end]
        == REPLACE@);
    assert(named.skip(9) =~= file);
    assert("## FILE: "@.is_prefix_of(named));
    assert(named[0] == '#');
    assert(!SEARCH@.is_prefix_of(named)) by {
        if SEARCH@.is_prefix_of(named) {
            assert(named[0] == SEARCH@[0]);
        }
    }
    lemma_trimmed_is_kept(file);
    assert forall|j: int| 2 <= j < middle implies !(DIVIDER@.is_prefix_of(#[trigger] lines[j])) by {
        assert(lines[j] == old[j - 2]);
    }
    assert forall|j: int| middle + 1 <= j < end implies !(REPLACE@.is_prefix_of(
        #[trigger] lines[j],
    )) by {
        assert(lines[j] == new[j - middle - 1]);
    }
    assert(DIVIDER@.is_prefix_of(lines[middle]));
    assert(REPLACE@.is_prefix_of(lines[end]));
    lemma_marker_found(lines, 2, middle, DIVIDER@);
    lemma_marker_found(lines, middle + 1, end, REPLACE@);
    assert(lines.subrange(2, middle) =~= old);
    assert(lines.subrange(middle + 1, end) =~= new);
    let hunk = HunkView { old: joined(old, "\n"@), new: joined(new, "\n"@) };
    let hunks = seq![hunk];
    let diff = FileDiffView { file, is_new_file: false, hunks };
    assert(block_at(lines, 1, file) == diff);
    assert(SEARCH@.is_prefix_of(lines[1]));
    assert(blocks_from(lines, n, Some(file)) == Some(Seq::<FileDiffView>::empty()));
    assert(seq![diff] + Seq::<FileDiffView>::empty() =~= seq![diff]);
    assert(blocks_from(lines, 1, Some(file)) == Some(seq![diff]));
    assert(blocks_from(lines, 0, None) == Some(seq![diff]));
    law_hunk_replaces_its_block(file, files[file], hunk);
    assert(hunks.skip(1) =~= Seq::<HunkView>::empty());
    let diffs = seq![diff];
    assert(diffs.skip(1) =~= Seq::<FileDiffView>::empty());
    reveal_with_fuel(hunks_applied, 2);
    reveal_with_fuel(diffs_applied, 2);
}

proof fn lemma_marker_found(lines: Seq<Seq<char>>, from: int, at: int, marker: Seq<char>)
    requires
        0 <= from <= at < lines.len(),
        marker.is_prefix_of(lines[at]),
        forall|j: int| from <= j < at ==> !(marker.is_prefix_of(#[trigger] lines[j])),
    ensures
        marker_at(lines, from, marker) == at,
    decreases at - from,
{
    if from < at {
        lemma_marker_found(lines, from + 1, at, marker);
    }
}

proof fn lemma_hunks_before(a: Seq<Seq<char>>, b: Seq<Seq<char>>, from: int)
    requires
        b.len() > 0,
        "--- "@.is_prefix_of(b[0]),
        0 <= from <= a.len(),
    ensures
        body_end(a + b, from) == body_end(a, from),
        hunks_at(a + b, from) == hunks_at(a, from),
    decreases a.len() - from,
{
    let all = a + b;
    assert(all[a.len() as int] == b[0]);
    if "@@"@.is_prefix_of(b[0]) {
        lemma_header_is_no_file_header(b[0]);
    }
    if from < a.len() {
        assert(all[from] == a[from]);
        lemma_hunks_before(a, b, from + 1);
        if "@@"@.is_prefix_of(a[from]) {
            lemma_body_end(a, from + 1);
            let end = body_end(a, from + 1);
            assert(all.subrange(from + 1, end) =~= a.subrange(from + 1, end));
            lemma_hunks_before(a, b, end);
        }
    }
}

proof fn lemma_body_behind(a: Seq<Seq<char>>, b: Seq<Seq<char>>, from: int)
    requires
        0 <= from <= b.len(),
    ensures
        body_end(a + b, a.len() + from) == a.len() + body_end(b, from),
    decreases b.len() - from,
{
    if from < b.len() {
        assert((a + b)[a.len() + from] == b[from]);
        lemma_body_behind(a, b, from + 1);
    }
}

proof fn lemma_hunks_behind(a: Seq<Seq<char>>, b: Seq<Seq<char>>, from: int)
    requires
        0 <= from <= b.len(),
    ensures
        hunks_at(a + b, a.len() + from) == match hunks_at(b, from) {
            Err(e) => Err::<(Seq<HunkView>, int), Seq<char>>(e),
            Ok((hunks, end)) => Ok((hunks, a.len() + end)),
        },
    decreases b.len() - from,
{
    let n = a.len() as int;
    if from < b.len() {
        assert((a + b)[n + from] == b[from]);
        if "@@"@.is_prefix_of(b[from]) {
            lemma_body_behind(a, b, from + 1);
            lemma_body_end(b, from + 1);
            let end = body_end(b, from + 1);
            assert((a + b).subrange(n + from + 1, n + end) =~= b.subrange(from + 1, end));
            lemma_hunks_behind(a, b, end);
        }
    }
}

proof fn lemma_diffs_behind(a: Seq<Seq<char>>, b: Seq<Seq<char>>, from: int)
    requires
        0 <= from <= b.len(),
    ensures
        diffs_from(a + b, a.len() + from) == diffs_from(b, from),
    decreases b.len() - from,
{
    let n = a.len() as int;
    if from < b.len() {
        assert((a + b)[n + from] == b[from]);
        match after_prefix(b[from], "--- "@) {
            None => {
                lemma_diffs_behind(a, b, from + 1);
            },
            Some(old_spec) => {
                if from + 1 < b.len() {
                    assert((a + b)[n + from + 1] == b[from + 1]);
                    lemma_hunks_behind(a, b, from + 2);
                    lemma_hunks_at(b, from + 2);
                    if let Ok((_, next)) = diff_at(b, old_spec, from + 1) {
                        lemma_diffs_behind(a, b, next);
                    }
                }
            },
        }
    }
}

proof fn lemma_diffs_before(a: Seq<Seq<char>>, b: Seq<Seq<char>>, from: int)
    requires
        b.len() > 0,
        "--- "@.is_prefix_of(b[0]),
        0 <= from <= a.len(),
        diffs_from(a, from) is Ok,
        diffs_from(b, 0) is Ok,
    ensures
        diffs_from(a + b, from) == Ok::<Seq<FileDiffView>, Seq<char>>(
            diffs_from(a, from)->Ok_0 + diffs_from(b, 0)->Ok_0,
        ),
    decreases a.len() - from,
{
    let all = a + b;
    let rest = diffs_from(b, 0)->Ok_0;
    if from == a.len() {
        lemma_diffs_behind(a, b, 0);
        assert(diffs_from(a, from)->Ok_0 + rest =~= rest);
    } else {
        assert(all[from] == a[from]);
        match after_prefix(a[from], "--- "@) {
            None => {
                lemma_diffs_before(a, b, from + 1);
            },
            Some(old_spec) => {
                assert(from + 1 < a.len());
                assert(all[from + 1] == a[from + 1]);
                lemma_hunks_before(a, b, from + 2);
                lemma_hunks_at(a, from + 2);
                let (diff, next) = diff_at(a, old_spec, from + 1)->Ok_0;
                lemma_diffs_before(a, b, next);
                let later = diffs_from(a, next)->Ok_0;
                assert(seq![diff] + (later + rest) =~= (seq![diff] + later) + rest);
            },
        }
    }
}

proof fn lemma_diffs_in_two(
    files: Map<Seq<char>, Seq<char>>,
    a: Seq<FileDiffView>,
    b: Seq<FileDiffView>,
)
    ensures
        diffs_applied(files, a + b) == match diffs_applied(files, a) {
            Err(e) => Err::<Map<Seq<char>, Seq<char>>, Seq<char>>(e),
            Ok(next) => diffs_applied(next, b),
        },
    decreases a.len(),
{
    if a.len() == 0 {
        assert(a + b =~= b);
    } else {
        assert((a + b)[0] == a[0]);
        assert((a + b).skip(1) =~= a.skip(1) + b);
        if let Ok(next) = diff_applied(files, a[0]) {
            lemma_diffs_in_two(next, a.skip(1), b);
        }
    }
}

/// A patch of several diffs does what its parts do one after the other: all of them, or none where
/// one does not apply.
pub proof fn law_patches_are_applied_in_order(
    files: Map<Seq<char>, Seq<char>>,
    first: Seq<char>,
    second: Seq<char>,
    both: Seq<char>,
)
    requires
        unified_of(lines_of(first)) is Ok,
        unified_of(lines_of(second)) is Ok,
        "--- "@.is_prefix_of(lines_of(second)[0]),
        lines_of(both) == lines_of(first) + lines_of(second),
    ensures
        patched(files, both) == match patched(files, first) {
            Err(e) => Err::<Map<Seq<char>, Seq<char>>, Seq<char>>(e),
            Ok(next) => patched(next, second),
        },
{
    let a = lines_of(first);
    let b = lines_of(second);
    lemma_diffs_before(a, b, 0);
    lemma_diffs_in_two(files, diffs_from(a, 0)->Ok_0, diffs_from(b, 0)->Ok_0);
}

} // verus!
