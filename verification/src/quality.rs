//! The quality gate: how a draft crate is read from an answer, checked and reported on.

use crate::glyphs::is_ascii_alphanumeric;
use crate::manager::Manager;
use crate::numbers::{decimal, decimal_text};
use crate::order::{before, lemma_order_total};
use crate::sections::{is_listing, lemma_listing, listing, strictly_ordered, Listed, Sections};
use crate::text::{
    after_prefix, before_suffix, chars_of, ends_with, find, first_from, has, is_space, join, joined,
    lemma_first_from, lemma_lines_append, lemma_newline_found, lemma_one_line,
    lemma_trimmed_is_kept, lines, lines_of, occurs_at, opt, same, string_of, strip_prefix,
    strip_suffix, texts, trim, trim_end, trimmed, trimmed_end, trimmed_start, without_return,
};
use vstd::prelude::*;
use vstd::string::StringExecFns;

verus! {

/// What follows the first line of `s`; all of `s` where it has one line only.
pub open spec fn after_first_line(s: Seq<char>) -> Seq<char> {
    match first_from(s, "\n"@, 0) {
        Some(i) => s.skip(i + 1),
        None => s,
    }
}

/// An answer without the code fence around it. What comes before the fence goes, with the
/// rest of the line on which the fence opens; a fence at the end goes too.
pub open spec fn unfenced(s: Seq<char>) -> Seq<char> {
    let s = trimmed(s);
    let body = match first_from(s, "```"@, 0) {
        Some(i) => after_first_line(s.skip(i)),
        None => s,
    };
    let body = trimmed_end(body);
    match before_suffix(body, "```"@) {
        Some(rest) => trimmed_end(rest),
        None => body,
    }
}

/// The path that a section marker names.
pub open spec fn marked_path(line: Seq<char>) -> Option<Seq<char>> {
    match after_prefix(trimmed(line), "// ==="@) {
        Some(rest) => match before_suffix(rest, "==="@) {
            Some(inner) => Some(trimmed(inner)),
            None => None,
        },
        None => None,
    }
}

/// Whether `line` is a code fence, alone or with the name of a language.
pub open spec fn is_fence(line: Seq<char>) -> bool {
    match after_prefix(trimmed(line), "```"@) {
        Some(rest) => is_word(rest),
        None => false,
    }
}

/// Whether a section for `path` is kept.
pub open spec fn is_kept(path: Seq<char>) -> bool {
    ".rs"@.is_suffix_of(path) || path == "Cargo.toml"@
}

/// Whether `line` ends the section before it.
pub open spec fn ends_section(line: Seq<char>) -> bool {
    marked_path(line) is Some || is_fence(line)
}

/// Where the section that begins at line `from` ends.
pub open spec fn section_end(lines: Seq<Seq<char>>, from: int) -> int
    decreases lines.len() - from,
{
    if from < 0 || from >= lines.len() || ends_section(lines[from]) {
        from
    } else {
        section_end(lines, from + 1)
    }
}

/// The text of `lines`, each with a newline behind it.
pub open spec fn with_newlines(lines: Seq<Seq<char>>) -> Seq<char>
    decreases lines.len(),
{
    if lines.len() == 0 {
        Seq::empty()
    } else {
        with_newlines(lines.drop_last()) + lines.last() + "\n"@
    }
}

/// A section ends between its beginning and the end of the lines.
pub proof fn lemma_section_end(lines: Seq<Seq<char>>, from: int)
    requires
        0 <= from <= lines.len(),
    ensures
        from <= section_end(lines, from) <= lines.len(),
    decreases lines.len() - from,
{
    if from < lines.len() && !ends_section(lines[from]) {
        lemma_section_end(lines, from + 1);
    }
}

/// The sections from line `from` on, added to `found`. Each marker of a kept path opens a
/// section, which holds the lines up to the next marker or code fence; what stands in no
/// section is dropped. Of two sections for one path the later one counts.
pub open spec fn sections_from(
    lines: Seq<Seq<char>>,
    from: int,
    found: Map<Seq<char>, Seq<char>>,
) -> Map<Seq<char>, Seq<char>>
    decreases lines.len() - from,
{
    if from < 0 || from >= lines.len() {
        found
    } else {
        match marked_path(lines[from]) {
            Some(path) => if is_kept(path) {
                proof {
                    lemma_section_end(lines, from + 1);
                }
                let end = section_end(lines, from + 1);
                sections_from(
                    lines,
                    end,
                    found.insert(path, with_newlines(lines.subrange(from + 1, end))),
                )
            } else {
                sections_from(lines, from + 1, found)
            },
            None => sections_from(lines, from + 1, found),
        }
    }
}

/// The files that an answer holds: its sections, or all of it as `src/main.rs` where it has
/// none.
pub open spec fn sections_of(code: Seq<char>) -> Map<Seq<char>, Seq<char>> {
    let found = sections_from(lines_of(code), 0, Map::empty());
    if found == Map::<Seq<char>, Seq<char>>::empty() {
        Map::empty().insert("src/main.rs"@, code)
    } else {
        found
    }
}

/// One file under its marker.
pub open spec fn rendered_file(file: Listed) -> Seq<char> {
    "// === "@ + file.0 + " ===\n"@ + file.1 + "\n"@
}

/// Files under their markers, one after the other.
pub open spec fn rendered(list: Seq<Listed>) -> Seq<char>
    decreases list.len(),
{
    if list.len() == 0 {
        Seq::empty()
    } else {
        rendered(list.drop_last()) + rendered_file(list.last())
    }
}

/// All files under their markers, in the order of their paths.
pub open spec fn multi_file(files: Map<Seq<char>, Seq<char>>) -> Seq<char> {
    rendered(listing(files))
}

/// The first `max` lines of a text, with a note of how many were left out.
pub open spec fn capped(s: Seq<char>, max: nat) -> Seq<char> {
    let all = lines_of(s);
    if all.len() <= max {
        s
    } else {
        joined(all.take(max as int), "\n"@) + "\n[... "@ + decimal((all.len() - max) as nat)
            + " more lines omitted]"@
    }
}

/// Whether `c` is an ASCII letter or digit.
fn ascii_alphanumeric(c: char) -> (r: bool)
    ensures
        r == is_ascii_alphanumeric(c),
{
    let n: u32 = c as u32;
    (48 <= n && n <= 57) || (65 <= n && n <= 90) || (97 <= n && n <= 122)
}

/// Whether `s` holds ASCII letters and digits alone.
pub open spec fn is_word(s: Seq<char>) -> bool {
    forall|i: int| 0 <= i < s.len() ==> is_ascii_alphanumeric(#[trigger] s[i])
}

/// Whether `s` holds ASCII letters and digits alone.
fn word(s: &str) -> (r: bool)
    ensures
        r == is_word(s@),
{
    let v = chars_of(s);
    let mut i: usize = 0;
    while i < v.len()
        invariant
            i <= v@.len(),
            v@ == s@,
            forall|j: int| 0 <= j < i ==> is_ascii_alphanumeric(#[trigger] s@[j]),
        decreases v@.len() - i,
    {
        if !ascii_alphanumeric(v[i]) {
            assert(!is_ascii_alphanumeric(s@[i as int]));
            return false;
        }
        i += 1;
    }
    true
}

/// Whether `line` is a code fence.
fn fence(line: &str) -> (r: bool)
    ensures
        r == is_fence(line@),
{
    match strip_prefix(trim(line).as_str(), "```") {
        None => false,
        Some(rest) => word(rest.as_str()),
    }
}

/// The path that a section marker names.
fn marker(line: &str) -> (r: Option<String>)
    ensures
        opt(r) == marked_path(line@),
{
    match strip_prefix(trim(line).as_str(), "// ===") {
        None => None,
        Some(rest) => match strip_suffix(rest.as_str(), "===") {
            None => None,
            Some(inner) => Some(trim(inner.as_str())),
        },
    }
}

impl Manager {
    /// An answer without the code fence around it.
    pub fn strip_fences(s: &str) -> (r: String)
        ensures
            r@ == unfenced(s@),
    {
        let s = trim(s);
        let body = match find(s.as_str(), "```") {
            None => s,
            Some(i) => {
                let v = chars_of(s.as_str());
                let tail = string_of(v.as_slice(), i, v.len());
                assert(tail@ == s@.skip(i as int));
                match find(tail.as_str(), "\n") {
                    None => tail,
                    Some(k) => {
                        proof {
                            reveal_strlit("\n");
                        }
                        let w = chars_of(tail.as_str());
                        let rest = string_of(w.as_slice(), k + 1, w.len());
                        assert(rest@ == tail@.skip(k + 1));
                        rest
                    },
                }
            },
        };
        let body = trim_end(body.as_str());
        match strip_suffix(body.as_str(), "```") {
            Some(rest) => trim_end(rest.as_str()),
            None => body,
        }
    }

    /// The first `max_lines` lines of a text, with a note of how many were left out.
    pub fn cap_output(s: &str, max_lines: usize) -> (r: String)
        ensures
            r@ == capped(s@, max_lines as nat),
    {
        let all = lines(s);
        if all.len() <= max_lines {
            return s.to_owned();
        }
        let mut first: Vec<String> = Vec::new();
        let mut i: usize = 0;
        while i < max_lines
            invariant
                i <= max_lines < all@.len(),
                texts(first@) =~= texts(all@).take(i as int),
            decreases max_lines - i,
        {
            let ghost had = first@;
            first.push(all[i].clone());
            assert(texts(first@) =~= texts(had).push(all@[i as int]@));
            i += 1;
        }
        join(first.as_slice(), "\n").concat("\n[... ").concat(
            decimal_text((all.len() - max_lines) as u64).as_str(),
        ).concat(" more lines omitted]")
    }

    /// The files that an answer holds, by their `// === path ===` markers.
    pub fn parse_file_sections(code: &str) -> (r: Sections)
        ensures
            r@ == sections_of(code@),
    {
        let all = lines(code);
        let ghost views = texts(all@);
        let mut found = Sections::new();
        let mut i: usize = 0;
        while i < all.len()
            invariant
                i <= all@.len(),
                views == texts(all@),
                views == lines_of(code@),
                sections_from(views, i as int, found@) == sections_from(views, 0, Map::empty()),
            decreases all@.len() - i,
        {
            assert(views[i as int] == all@[i as int]@);
            let path = marker(all[i].as_str());
            i += 1;
            if let Some(path) = path {
                if ends_with(path.as_str(), ".rs") || same(path.as_str(), "Cargo.toml") {
                    let ghost start = i as int;
                    let mut content = String::new();
                    assert(views.subrange(start, start) =~= Seq::<Seq<char>>::empty());
                    while i < all.len() && marker(all[i].as_str()).is_none() && !fence(
                        all[i].as_str(),
                    )
                        invariant
                            start <= i <= all@.len(),
                            0 <= start,
                            views == texts(all@),
                            section_end(views, start) == section_end(views, i as int),
                            content@ == with_newlines(views.subrange(start, i as int)),
                        decreases all@.len() - i,
                    {
                        assert(views[i as int] == all@[i as int]@);
                        content.append(all[i].as_str());
                        content.append("\n");
                        assert(views.subrange(start, i + 1).drop_last() =~= views.subrange(
                            start,
                            i as int,
                        ));
                        i += 1;
                    }
                    assert(i < all@.len() ==> views[i as int] == all@[i as int]@);
                    found.insert(path, content);
                }
            }
        }
        if found.is_empty() {
            found.insert("src/main.rs".to_owned(), code.to_owned());
        }
        found
    }

    /// All files under their markers, in the order of their paths.
    pub fn format_multi_file(sections: &Sections) -> (r: String)
        ensures
            r@ == multi_file(sections@),
    {
        let ghost list = listing(sections@);
        let mut out = String::new();
        let n: usize = sections.len();
        let mut i: usize = 0;
        while i < n
            invariant
                i <= n,
                n == list.len(),
                list == listing(sections@),
                out@ == rendered(list.take(i as int)),
            decreases n - i,
        {
            let file = sections.at(i);
            let ghost before = out@;
            out.append("// === ");
            out.append(file.path.as_str());
            out.append(" ===\n");
            out.append(file.content.as_str());
            out.append("\n");
            assert(out@ =~= before + rendered_file(list[i as int]));
            assert(list.take(i + 1).drop_last() =~= list.take(i as int));
            i += 1;
        }
        assert(list.take(i as int) =~= list);
        out
    }
}

/// Whether no newline in `s` stands behind a carriage return.
pub open spec fn has_plain_newlines(s: Seq<char>) -> bool {
    forall|i: int| 0 <= i < s.len() - 1 && #[trigger] s[i] == '\r' ==> s[i + 1] != '\n'
}

/// Whether a file can be written under its marker and read back: its path is one that is
/// kept, on one line and without white space before it, and no line of its content is a marker
/// or a code fence or ends with a carriage return.
pub open spec fn is_plain(file: Listed) -> bool {
    &&& is_kept(file.0)
    &&& !is_space(file.0[0])
    &&& !file.0.contains('\n')
    &&& has_plain_newlines(file.1 + "\n"@)
    &&& forall|i: int|
        0 <= i < lines_of(file.1 + "\n"@).len() ==> !ends_section(
            #[trigger] lines_of(file.1 + "\n"@)[i],
        )
}

/// The marker of `path`, without its newline.
spec fn marker_line(path: Seq<char>) -> Seq<char> {
    "// === "@ + path + " ==="@
}

proof fn lemma_marker_line(path: Seq<char>)
    requires
        is_kept(path),
        !is_space(path[0]),
    ensures
        marked_path(marker_line(path)) == Some(path),
{
    let line = marker_line(path);
    reveal_strlit("// === ");
    reveal_strlit(" ===");
    reveal_strlit("// ===");
    reveal_strlit("===");
    reveal_strlit(".rs");
    reveal_strlit("Cargo.toml");
    assert(line[0] == '/' && line.last() == '=');
    lemma_trimmed_is_kept(line);
    assert("// ==="@.is_prefix_of(line));
    let rest = line.skip(6);
    assert(rest =~= seq![' '] + path + " ==="@);
    assert("==="@.is_suffix_of(rest));
    let inner = rest.take(rest.len() - 3);
    assert(inner =~= seq![' '] + path + seq![' ']);
    assert(inner.skip(1) =~= path + seq![' ']);
    reveal_with_fuel(trimmed_start, 2);
    assert(path.len() > 0) by {
        if path.len() == 0 {
            assert(!(".rs"@.is_suffix_of(path)));
        }
    }
    assert((path + seq![' '])[0] == path[0]);
    assert(trimmed_start(inner) == path + seq![' ']);
    assert((path + seq![' ']).drop_last() =~= path);
    assert(!is_space(path.last())) by {
        if ".rs"@.is_suffix_of(path) {
            assert(path.last() == ".rs"@[2]);
        }
    }
    reveal_with_fuel(trimmed_end, 2);
}

/// The text of lines begins with the first of them.
pub proof fn lemma_with_newlines_front(lines: Seq<Seq<char>>)
    requires
        lines.len() > 0,
    ensures
        with_newlines(lines) == lines[0] + "\n"@ + with_newlines(lines.skip(1)),
    decreases lines.len(),
{
    if lines.len() == 1 {
        assert(lines.drop_last() =~= Seq::<Seq<char>>::empty());
        assert(lines.skip(1) =~= Seq::<Seq<char>>::empty());
        assert(with_newlines(lines) =~= lines[0] + "\n"@ + with_newlines(lines.skip(1)));
    } else {
        lemma_with_newlines_front(lines.drop_last());
        assert(lines.drop_last().skip(1) =~= lines.skip(1).drop_last());
        assert(with_newlines(lines) =~= lines[0] + "\n"@ + with_newlines(lines.skip(1)));
    }
}

proof fn lemma_lines_keep_text(s: Seq<char>)
    requires
        has_plain_newlines(s),
        s.len() == 0 || s.last() == '\n',
    ensures
        with_newlines(lines_of(s)) == s,
    decreases s.len(),
{
    if s.len() == 0 {
        lemma_first_from(s, seq!['\n'], 0);
        assert(with_newlines(lines_of(s)) =~= s);
    } else {
        reveal_strlit("\n");
        lemma_newline_found(s, s.len() - 1);
        lemma_first_from(s, seq!['\n'], 0);
        let k = first_from(s, seq!['\n'], 0)->Some_0;
        assert(s.subrange(k, k + 1)[0] == seq!['\n'][0]);
        let line = s.take(k);
        let rest = s.skip(k + 1);
        assert(without_return(line) == line) by {
            if line.len() > 0 {
                assert(s[k - 1] == line.last());
                assert(s[k] == '\n');
            }
        }
        assert forall|i: int| 0 <= i < rest.len() - 1 && #[trigger] rest[i] == '\r' implies rest[i
            + 1] != '\n' by {
            assert(s[i + k + 1] == '\r');
        }
        if rest.len() > 0 {
            assert(rest.last() == s.last());
        }
        lemma_lines_keep_text(rest);
        let all = lines_of(s);
        assert(all =~= seq![line] + lines_of(rest));
        assert(all[0] == line);
        assert(all.skip(1) =~= lines_of(rest));
        lemma_with_newlines_front(all);
        assert(with_newlines(all) =~= s);
    }
}

/// The lines that a file becomes under its marker.
spec fn file_lines(file: Listed) -> Seq<Seq<char>> {
    seq![marker_line(file.0)] + lines_of(file.1 + "\n"@)
}

spec fn all_lines(list: Seq<Listed>) -> Seq<Seq<char>>
    decreases list.len(),
{
    if list.len() == 0 {
        Seq::empty()
    } else {
        file_lines(list[0]) + all_lines(list.skip(1))
    }
}

proof fn lemma_rendered_front(list: Seq<Listed>)
    requires
        list.len() > 0,
    ensures
        rendered(list) == rendered_file(list[0]) + rendered(list.skip(1)),
    decreases list.len(),
{
    if list.len() == 1 {
        assert(list.drop_last() =~= Seq::<Listed>::empty());
        assert(list.skip(1) =~= Seq::<Listed>::empty());
        assert(rendered(list) =~= rendered_file(list[0]) + rendered(list.skip(1)));
    } else {
        lemma_rendered_front(list.drop_last());
        assert(list.drop_last().skip(1) =~= list.skip(1).drop_last());
        assert(list.skip(1).last() == list.last());
        assert(rendered(list) =~= rendered_file(list[0]) + rendered(list.skip(1)));
    }
}

proof fn lemma_rendered_lines(list: Seq<Listed>)
    requires
        forall|i: int| 0 <= i < list.len() ==> is_plain(#[trigger] list[i]),
    ensures
        lines_of(rendered(list)) == all_lines(list),
    decreases list.len(),
{
    if list.len() == 0 {
        lemma_first_from(rendered(list), seq!['\n'], 0);
        assert(lines_of(rendered(list)) =~= Seq::<Seq<char>>::empty());
    } else {
        reveal_strlit("\n");
        reveal_strlit(" ===\n");
        reveal_strlit(" ===");
        reveal_strlit("// === ");
        let file = list[0];
        let rest = list.skip(1);
        assert forall|i: int| 0 <= i < rest.len() implies is_plain(#[trigger] rest[i]) by {
            assert(rest[i] == list[i + 1]);
        }
        lemma_rendered_front(list);
        lemma_rendered_lines(rest);
        let head = marker_line(file.0);
        let body = file.1 + "\n"@;
        assert(rendered_file(file) =~= head.push('\n') + body);
        assert(head.last() == '=');
        assert(!head.contains('\n')) by {
            assert forall|i: int| 0 <= i < head.len() implies head[i] != '\n' by {
                if 7 <= i < 7 + file.0.len() {
                    assert(head[i] == file.0[i - 7]);
                    assert(file.0.contains(file.0[i - 7]));
                }
            }
        }
        lemma_one_line(head);
        lemma_lines_append(head.push('\n'), body);
        assert(rendered_file(file).last() == '\n');
        lemma_lines_append(rendered_file(file), rendered(rest));
    }
}

/// `found` with the files of `list`, each with one newline more.
spec fn with_files(found: Map<Seq<char>, Seq<char>>, list: Seq<Listed>) -> Map<Seq<char>, Seq<char>>
    decreases list.len(),
{
    if list.len() == 0 {
        found
    } else {
        with_files(found.insert(list[0].0, list[0].1 + "\n"@), list.skip(1))
    }
}

proof fn lemma_body_is_section(lines: Seq<Seq<char>>, from: int, to: int)
    requires
        0 <= from <= to <= lines.len(),
        forall|i: int| from <= i < to ==> !ends_section(#[trigger] lines[i]),
        to < lines.len() ==> ends_section(lines[to]),
    ensures
        section_end(lines, from) == to,
    decreases to - from,
{
    if from < to {
        lemma_body_is_section(lines, from + 1, to);
    }
}

proof fn lemma_sections_read(
    before: Seq<Seq<char>>,
    list: Seq<Listed>,
    found: Map<Seq<char>, Seq<char>>,
)
    requires
        forall|i: int| 0 <= i < list.len() ==> is_plain(#[trigger] list[i]),
    ensures
        sections_from(before + all_lines(list), before.len() as int, found) == with_files(
            found,
            list,
        ),
    decreases list.len(),
{
    let lines = before + all_lines(list);
    let at = before.len() as int;
    if list.len() > 0 {
        reveal_strlit("\n");
        let file = list[0];
        let rest = list.skip(1);
        assert forall|i: int| 0 <= i < rest.len() implies is_plain(#[trigger] rest[i]) by {
            assert(rest[i] == list[i + 1]);
        }
        let body = lines_of(file.1 + "\n"@);
        let next = before + file_lines(file);
        let end = at + 1 + body.len();
        assert(lines =~= next + all_lines(rest));
        lemma_marker_line(file.0);
        assert(lines[at] == marker_line(file.0));
        assert forall|i: int| at + 1 <= i < end implies !ends_section(#[trigger] lines[i]) by {
            assert(lines[i] == body[i - at - 1]);
        }
        if end < lines.len() {
            assert(rest.len() > 0);
            assert(lines[end] == marker_line(rest[0].0)) by {
                assert(all_lines(rest)[0] == marker_line(rest[0].0));
            }
            assert(is_plain(rest[0]));
            lemma_marker_line(rest[0].0);
        }
        lemma_body_is_section(lines, at + 1, end);
        assert(lines.subrange(at + 1, end) =~= body);
        let content = file.1 + "\n"@;
        lemma_lines_keep_text(content);
        assert(with_newlines(lines.subrange(at + 1, end)) == content);
        lemma_sections_read(next, rest, found.insert(file.0, content));
    }
}

proof fn lemma_with_files(
    found: Map<Seq<char>, Seq<char>>,
    list: Seq<Listed>,
    path: Seq<char>,
)
    requires
        strictly_ordered(list),
    ensures
        ({
            let all = with_files(found, list);
            &&& forall|i: int|
                0 <= i < list.len() && list[i].0 == path ==> all.contains_key(path) && all[path] == (
                #[trigger] list[i]).1 + "\n"@
            &&& (forall|i: int| 0 <= i < list.len() ==> (#[trigger] list[i]).0 != path)
                ==> all.contains_key(path) == found.contains_key(path) && (found.contains_key(path)
                ==> all[path] == found[path])
        }),
    decreases list.len(),
{
    if list.len() > 0 {
        let rest = list.skip(1);
        assert(strictly_ordered(rest)) by {
            assert forall|i: int, j: int| 0 <= i < j < rest.len() implies before(
                #[trigger] rest[i].0,
                #[trigger] rest[j].0,
            ) by {
                assert(rest[i] == list[i + 1] && rest[j] == list[j + 1]);
            }
        }
        let more = found.insert(list[0].0, list[0].1 + "\n"@);
        lemma_with_files(more, rest, path);
        if list[0].0 == path {
            assert forall|i: int| 0 <= i < rest.len() implies (#[trigger] rest[i]).0 != path by {
                assert(rest[i] == list[i + 1]);
                assert(before(list[0].0, list[i + 1].0));
                lemma_order_total(list[0].0, list[i + 1].0);
            }
            assert forall|i: int| 0 <= i < list.len() && list[i].0 == path implies i == 0 by {
                if i > 0 {
                    assert(rest[i - 1] == list[i]);
                }
            }
        } else {
            assert forall|i: int| 0 <= i < list.len() && list[i].0 == path implies (
            #[trigger] list[i]).1 == rest[i - 1].1 && rest[i - 1].0 == path && i > 0 by {
                assert(rest[i - 1] == list[i]);
            }
            if forall|i: int| 0 <= i < list.len() ==> (#[trigger] list[i]).0 != path {
                assert forall|i: int| 0 <= i < rest.len() implies (#[trigger] rest[i]).0
                    != path by {
                    assert(rest[i] == list[i + 1]);
                }
            }
        }
    }
}

/// Files that are written under their markers are read back: the same paths, each with its
/// content and one newline behind it.
pub proof fn law_sections_read_back(files: Map<Seq<char>, Seq<char>>, list: Seq<Listed>)
    requires
        is_listing(list, files),
        list.len() > 0,
        forall|i: int| 0 <= i < list.len() ==> is_plain(#[trigger] list[i]),
    ensures
        sections_of(multi_file(files)) == files.map_values(|content: Seq<char>| content + "\n"@),
{
    lemma_listing(list, files);
    lemma_rendered_lines(list);
    let empty = Map::<Seq<char>, Seq<char>>::empty();
    let none = Seq::<Seq<char>>::empty();
    assert(none + all_lines(list) =~= all_lines(list));
    lemma_sections_read(none, list, empty);
    let found = with_files(empty, list);
    let expected = files.map_values(|content: Seq<char>| content + "\n"@);
    assert forall|p: Seq<char>| #[trigger]
        found.contains_key(p) == expected.contains_key(p) && (found.contains_key(p) ==> found[p]
            == expected[p]) by {
        lemma_with_files(empty, list, p);
        if files.contains_key(p) {
            let i = choose|i: int| 0 <= i < list.len() && #[trigger] list[i].0 == p;
            assert(list[i].0 == p);
        } else {
            assert forall|i: int| 0 <= i < list.len() implies (#[trigger] list[i]).0 != p by {}
        }
    }
    assert(found.dom() =~= expected.dom());
    assert(found =~= expected);
    assert(files.contains_key(list[0].0));
    assert(expected.contains_key(list[0].0));
    assert(found != empty);
}

/// The code fence around an answer goes, with what is said before it and the name of the language;
/// the code is kept as it is.
pub proof fn law_fences_are_taken_off(
    said: Seq<char>,
    language: Seq<char>,
    code: Seq<char>,
    whole: Seq<char>,
)
    requires
        whole == said + "```"@ + language + "\n"@ + code + "\n```"@,
        said.len() > 0 ==> !is_space(said[0]),
        forall|i: int| 0 <= i < said.len() ==> !occurs_at(whole, "```"@, i),
        !language.contains('\n'),
        code.len() > 0,
        !is_space(code.last()),
    ensures
        unfenced(whole) == code,
{
    reveal_strlit("```");
    reveal_strlit("\n");
    reveal_strlit("\n```");
    let n = said.len() as int;
    assert(whole[0] == (if n > 0 {
        said[0]
    } else {
        '`'
    }));
    assert(whole.last() == '`');
    lemma_trimmed_is_kept(whole);
    assert(whole.subrange(n, n + 3) =~= "```"@);
    assert(occurs_at(whole, "```"@, n));
    lemma_first_from(whole, "```"@, 0);
    assert(first_from(whole, "```"@, 0) == Some(n));
    let tail = whole.skip(n);
    let m = 3 + language.len() as int;
    assert(tail =~= "```"@ + language + "\n"@ + code + "\n```"@);
    assert(tail[m] == '\n');
    assert(tail.subrange(m, m + 1) =~= "\n"@);
    assert(occurs_at(tail, "\n"@, m));
    lemma_first_from(tail, "\n"@, 0);
    let j = first_from(tail, "\n"@, 0)->Some_0;
    assert(j == m) by {
        if j < m {
            assert(tail.subrange(j, j + 1)[0] == "\n"@[0]);
            assert(tail[j] == '\n');
            if j >= 3 {
                assert(language[j - 3] == '\n');
            }
        }
    }
    let body = code + "\n```"@;
    assert(tail.skip(m + 1) =~= body);
    assert(body.last() == '`');
    assert("```"@.is_suffix_of(body));
    let rest = body.take(body.len() - 3);
    assert(rest =~= code.push('\n'));
    assert(rest.drop_last() =~= code);
    reveal_with_fuel(trimmed_end, 2);
}

/// An answer without a code fence is kept, but for the white space around it.
pub proof fn law_answers_without_fences_are_kept(said: Seq<char>)
    requires
        said.len() > 0,
        !is_space(said[0]),
        !is_space(said.last()),
        !(has(said, "```"@)),
    ensures
        unfenced(said) == said,
{
    lemma_trimmed_is_kept(said);
    lemma_first_from(said, "```"@, 0);
    reveal_strlit("```");
    if "```"@.is_suffix_of(said) {
        let k = said.len() - 3;
        assert(said.subrange(k, k + 3) =~= "```"@);
        assert(occurs_at(said, "```"@, k));
    }
}

proof fn lemma_sections_keep(
    lines: Seq<Seq<char>>,
    from: int,
    found: Map<Seq<char>, Seq<char>>,
    path: Seq<char>,
)
    requires
        0 <= from,
        found.contains_key(path),
        forall|i: int| from <= i < lines.len() ==> marked_path(#[trigger] lines[i]) != Some(path),
    ensures
        sections_from(lines, from, found).contains_key(path),
        sections_from(lines, from, found)[path] == found[path],
    decreases lines.len() - from,
{
    if from < lines.len() {
        assert(marked_path(lines[from]) != Some(path));
        match marked_path(lines[from]) {
            Some(other) => if is_kept(other) {
                lemma_section_end(lines, from + 1);
                let end = section_end(lines, from + 1);
                lemma_sections_keep(
                    lines,
                    end,
                    found.insert(other, with_newlines(lines.subrange(from + 1, end))),
                    path,
                );
            } else {
                lemma_sections_keep(lines, from + 1, found, path);
            },
            None => {
                lemma_sections_keep(lines, from + 1, found, path);
            },
        }
    }
}

proof fn lemma_section_stops(lines: Seq<Seq<char>>, from: int, at: int)
    requires
        0 <= from <= at < lines.len(),
        ends_section(lines[at]),
    ensures
        from <= section_end(lines, from) <= at,
    decreases at - from,
{
    if from < at && !ends_section(lines[from]) {
        lemma_section_stops(lines, from + 1, at);
    }
}

proof fn lemma_section_is_reached(
    lines: Seq<Seq<char>>,
    from: int,
    at: int,
    end: int,
    found: Map<Seq<char>, Seq<char>>,
    path: Seq<char>,
)
    requires
        0 <= from <= at < lines.len(),
        marked_path(lines[at]) == Some(path),
        is_kept(path),
        end == section_end(lines, at + 1),
        at + 1 <= end <= lines.len(),
        forall|i: int| end <= i < lines.len() ==> marked_path(#[trigger] lines[i]) != Some(path),
    ensures
        sections_from(lines, from, found).contains_key(path),
        sections_from(lines, from, found)[path] == with_newlines(lines.subrange(at + 1, end)),
    decreases at - from,
{
    if from == at {
        let content = with_newlines(lines.subrange(at + 1, end));
        lemma_sections_keep(lines, end, found.insert(path, content), path);
    } else {
        match marked_path(lines[from]) {
            Some(other) => if is_kept(other) {
                lemma_section_stops(lines, from + 1, at);
                let next = section_end(lines, from + 1);
                lemma_section_is_reached(
                    lines,
                    next,
                    at,
                    end,
                    found.insert(other, with_newlines(lines.subrange(from + 1, next))),
                    path,
                );
            } else {
                lemma_section_is_reached(lines, from + 1, at, end, found, path);
            },
            None => {
                lemma_section_is_reached(lines, from + 1, at, end, found, path);
            },
        }
    }
}

/// A file of an answer holds exactly the lines behind its marker, up to the next marker or code
/// fence, wherever in the answer it stands; of two for one path the last counts.
pub proof fn law_sections_hold_their_lines(
    code: Seq<char>,
    before: Seq<Seq<char>>,
    marker: Seq<char>,
    path: Seq<char>,
    body: Seq<Seq<char>>,
    rest: Seq<Seq<char>>,
)
    requires
        lines_of(code) == before + seq![marker] + body + rest,
        marked_path(marker) == Some(path),
        ".rs"@.is_suffix_of(path) || path == "Cargo.toml"@,
        forall|i: int| 0 <= i < body.len() ==> !ends_section(#[trigger] body[i]),
        rest.len() > 0 ==> ends_section(rest[0]),
        forall|i: int| 0 <= i < rest.len() ==> marked_path(#[trigger] rest[i]) != Some(path),
    ensures
        sections_of(code).contains_key(path),
        sections_of(code)[path] == with_newlines(body),
{
    let lines = lines_of(code);
    let at = before.len() as int;
    let end = at + 1 + body.len();
    assert(lines[at] == marker);
    assert forall|i: int| at + 1 <= i < end implies !ends_section(#[trigger] lines[i]) by {
        assert(lines[i] == body[i - at - 1]);
    }
    if end < lines.len() {
        assert(lines[end] == rest[0]);
    }
    lemma_body_is_section(lines, at + 1, end);
    assert(lines.subrange(at + 1, end) =~= body);
    assert forall|i: int| end <= i < lines.len() implies marked_path(#[trigger] lines[i]) != Some(
        path,
    ) by {
        assert(lines[i] == rest[i - end]);
    }
    lemma_section_is_reached(lines, 0, at, end, Map::empty(), path);
}

proof fn lemma_sections_are_marked(
    lines: Seq<Seq<char>>,
    from: int,
    found: Map<Seq<char>, Seq<char>>,
    path: Seq<char>,
)
    requires
        0 <= from,
        sections_from(lines, from, found).contains_key(path),
        !found.contains_key(path),
    ensures
        exists|i: int| from <= i < lines.len() && marked_path(#[trigger] lines[i]) == Some(path),
    decreases lines.len() - from,
{
    if from < lines.len() {
        if marked_path(lines[from]) == Some(path) {
        } else {
            match marked_path(lines[from]) {
                Some(other) => if is_kept(other) {
                    lemma_section_end(lines, from + 1);
                    let end = section_end(lines, from + 1);
                    lemma_sections_are_marked(
                        lines,
                        end,
                        found.insert(other, with_newlines(lines.subrange(from + 1, end))),
                        path,
                    );
                } else {
                    lemma_sections_are_marked(lines, from + 1, found, path);
                },
                None => {
                    lemma_sections_are_marked(lines, from + 1, found, path);
                },
            }
        }
    }
}

/// An answer holds no file but those it has markers for; one without any file is the main file.
pub proof fn law_files_have_markers(code: Seq<char>, path: Seq<char>)
    requires
        sections_of(code).contains_key(path),
    ensures
        (exists|i: int|
            0 <= i < lines_of(code).len() && marked_path(#[trigger] lines_of(code)[i]) == Some(path))
            || sections_of(code) == Map::<Seq<char>, Seq<char>>::empty().insert(
            "src/main.rs"@,
            code,
        ),
{
    let found = sections_from(lines_of(code), 0, Map::empty());
    if found != Map::<Seq<char>, Seq<char>>::empty() {
        lemma_sections_are_marked(lines_of(code), 0, Map::empty(), path);
    }
}

} // verus!
