//! The files of a run: where each of them stands and what is written to it.

use crate::clock::{write_time, written, DATE_AND_TIME};
use crate::paths::{extension_is, has_extension, join_path, path_join};
use crate::repair::opt_str;
use crate::sections::{listing, Listed, Section, Sections};
use crate::text::{
    byte_len, bytes, chars_of, opt, same, starts_with, string_of, strip_suffix,
};
use vstd::prelude::*;
use vstd::string::StringExecFns;

verus! {

/// The directory that a run works in.
#[derive(Debug)]
pub struct Workspace {
    pub root: String,
}

/// A file with what is to be written to it.
#[derive(Debug, PartialEq)]
pub struct FileWrite {
    pub path: String,
    pub content: String,
}

/// A file with what is to be written to it, by its contents.
pub struct FileWriteView {
    pub path: Seq<char>,
    pub content: Seq<char>,
}

impl View for FileWrite {
    type V = FileWriteView;

    open spec fn view(&self) -> FileWriteView {
        FileWriteView { path: self.path@, content: self.content@ }
    }
}

/// A time as it is recorded; nothing where no date is that far away.
pub open spec fn stamp(secs: i64) -> Seq<char> {
    written(secs, DATE_AND_TIME@)
}

fn stamp_text(secs: i64) -> (r: String)
    ensures
        r@ == stamp(secs),
{
    write_time(secs, DATE_AND_TIME)
}

/// Where the files of an agent stand.
pub open spec fn agent_file(root: Seq<char>, agent: Seq<char>, name: Seq<char>) -> Seq<char> {
    path_join(root, "agents/"@ + agent + name)
}

/// Where the crate of a run is drafted: one place for the run, or one for a milestone that is
/// built side by side with others.
pub open spec fn draft_dir(root: Seq<char>, variant: Option<Seq<char>>) -> Seq<char> {
    match variant {
        Some(v) => path_join(path_join(root, "artifacts/fanout"@), v),
        None => path_join(root, "artifacts/v2"@),
    }
}

/// How a decision is recorded.
pub open spec fn decision_entry(secs: i64, decision: Seq<char>) -> Seq<char> {
    "\n---\n**["@ + stamp(secs) + "]** "@ + decision + "\n"@
}

/// How a deviation is recorded.
pub open spec fn deviation_entry(secs: i64, agent: Seq<char>, description: Seq<char>) -> Seq<char> {
    "\n---\n**["@ + stamp(secs) + "] "@ + agent + "**\n\n"@ + description
        + "\n\n*Status: deferred — continue as planned*\n"@
}

/// How a look back is recorded.
pub open spec fn retrospective_entry(secs: i64, entry: Seq<char>) -> Seq<char> {
    "\n---\n**["@ + stamp(secs) + "]**\n\n"@ + entry + "\n"@
}

/// The most bytes of test cases that are put together.
pub const MAX_MATRIX_BYTES: usize = 50_000;

/// The test cases from `k` on, after `total` bytes. The first that does not fit ends the list.
pub open spec fn matrix_from(list: Seq<Listed>, k: int, total: nat) -> Seq<char>
    decreases list.len() - k,
{
    if k < 0 || k >= list.len() {
        Seq::empty()
    } else if total + byte_len(list[k].1) > MAX_MATRIX_BYTES {
        "\n[... remaining test cases omitted — size limit]\n"@
    } else {
        list[k].1 + "\n---\n\n"@ + matrix_from(list, k + 1, total + byte_len(list[k].1))
    }
}

/// The test cases, in the order of their names.
pub open spec fn matrix(cases: Option<Map<Seq<char>, Seq<char>>>) -> Seq<char> {
    match cases {
        None => "*(no test matrix)*"@,
        Some(files) => matrix_from(listing(files), 0, 0),
    }
}

/// The test cases, in the order of their names, up to `MAX_MATRIX_BYTES`.
fn put_together(files: &Sections) -> (r: String)
    ensures
        r@ == matrix_from(listing(files@), 0, 0),
{
    let ghost list = listing(files@);
    let n: usize = files.len();
    let mut out = String::new();
    let mut total: usize = 0;
    let mut k: usize = 0;
    assert(out@ + matrix_from(list, 0, 0) =~= matrix_from(list, 0, 0));
    while k < n
        invariant
            k <= n == list.len(),
            list == listing(files@),
            total <= MAX_MATRIX_BYTES,
            out@ + matrix_from(list, k as int, total as nat) == matrix_from(list, 0, 0),
        decreases n - k,
    {
        let case = files.at(k);
        let size: usize = bytes(case.content.as_str());
        if size > MAX_MATRIX_BYTES - total {
            out.append("\n[... remaining test cases omitted — size limit]\n");
            return out;
        }
        let ghost had = out@;
        out.append(case.content.as_str());
        out.append("\n---\n\n");
        proof {
            let rest = matrix_from(list, k + 1, (total + size) as nat);
            assert(had + (list[k as int].1 + "\n---\n\n"@ + rest) =~= out@ + rest);
        }
        total += size;
        k += 1;
    }
    assert(out@ + Seq::<char>::empty() =~= out@);
    out
}

/// A workspace for a milestone that is built side by side with others: its directory, and
/// where the manifest comes from and goes to.
#[derive(Debug, PartialEq)]
pub struct Seeding {
    pub dir: String,
    pub from: String,
    pub to: String,
}

impl Workspace {
    /// The workspace in `root`.
    pub fn new(root: String) -> (r: Workspace)
        ensures
            r.root@ == root@,
    {
        Workspace { root }
    }

    /// Where the mission stands.
    pub fn mission_path(&self) -> (r: String)
        ensures
            r@ == path_join(self.root@, "mission.md"@),
    {
        join_path(self.root.as_str(), "mission.md")
    }

    /// The mission, from what its file holds, if it is there.
    pub fn get_mission(file: Option<String>) -> (r: String)
        ensures
            r@ == (match opt(file) {
                Some(text) => text,
                None => "*(no mission set)*"@,
            }),
    {
        match file {
            Some(text) => text,
            None => "*(no mission set)*".to_owned(),
        }
    }

    /// The task of an agent, as it is written down.
    pub fn set_agent_task(&self, agent: &str, task: &str) -> (r: FileWrite)
        ensures
            r@ == (FileWriteView {
                path: agent_file(self.root@, agent@, "/task.md"@),
                content: task@,
            }),
    {
        FileWrite {
            path: join_path(
                self.root.as_str(),
                "agents/".to_owned().concat(agent).concat("/task.md").as_str(),
            ),
            content: task.to_owned(),
        }
    }

    /// The answer of an agent, as it is written down.
    pub fn write_agent_output(&self, agent: &str, output: &str) -> (r: FileWrite)
        ensures
            r@ == (FileWriteView {
                path: agent_file(self.root@, agent@, "/output.md"@),
                content: output@,
            }),
    {
        FileWrite {
            path: join_path(
                self.root.as_str(),
                "agents/".to_owned().concat(agent).concat("/output.md").as_str(),
            ),
            content: output.to_owned(),
        }
    }

    /// A decision, as it is added to those of an agent.
    pub fn log_agent_decision(&self, agent: &str, decision: &str, secs: i64) -> (r: FileWrite)
        ensures
            r@ == (FileWriteView {
                path: agent_file(self.root@, agent@, "/decisions.md"@),
                content: decision_entry(secs, decision@),
            }),
    {
        FileWrite {
            path: join_path(
                self.root.as_str(),
                "agents/".to_owned().concat(agent).concat("/decisions.md").as_str(),
            ),
            content: "\n---\n**[".to_owned().concat(stamp_text(secs).as_str()).concat(
                "]** ",
            ).concat(decision).concat("\n"),
        }
    }

    /// A deviation, as it is added to those of the run. It is recorded and not acted on.
    pub fn log_deviation(&self, agent: &str, description: &str, secs: i64) -> (r: FileWrite)
        ensures
            r@ == (FileWriteView {
                path: path_join(self.root@, "deviations.md"@),
                content: deviation_entry(secs, agent@, description@),
            }),
    {
        FileWrite {
            path: self.deviations_path(),
            content: "\n---\n**[".to_owned().concat(stamp_text(secs).as_str()).concat("] ").concat(
                agent,
            ).concat("**\n\n").concat(description).concat(
                "\n\n*Status: deferred — continue as planned*\n",
            ),
        }
    }

    /// A look back, as it is added to those of the run.
    pub fn log_retrospective(&self, entry: &str, secs: i64) -> (r: FileWrite)
        ensures
            r@ == (FileWriteView {
                path: path_join(self.root@, "retrospective.md"@),
                content: retrospective_entry(secs, entry@),
            }),
    {
        FileWrite {
            path: join_path(self.root.as_str(), "retrospective.md"),
            content: "\n---\n**[".to_owned().concat(stamp_text(secs).as_str()).concat(
                "]**\n\n",
            ).concat(entry).concat("\n"),
        }
    }

    /// An artifact, as it is written.
    pub fn emit_artifact(&self, name: &str, content: &str) -> (r: FileWrite)
        ensures
            r@ == (FileWriteView {
                path: path_join(self.root@, "artifacts/"@ + name@),
                content: content@,
            }),
    {
        FileWrite {
            path: join_path(
                self.root.as_str(),
                "artifacts/".to_owned().concat(name).as_str(),
            ),
            content: content.to_owned(),
        }
    }

    /// Where an artifact is read from.
    pub fn get_artifact(&self, name: &str) -> (r: String)
        ensures
            r@ == path_join(path_join(self.root@, "artifacts"@), name@),
    {
        join_path(join_path(self.root.as_str(), "artifacts").as_str(), name)
    }

    /// Where the test cases stand.
    pub fn test_matrix_dir(&self) -> (r: String)
        ensures
            r@ == path_join(self.root@, "test-matrix"@),
    {
        join_path(self.root.as_str(), "test-matrix")
    }

    /// Whether a file of that name is a test case, and what the case is called.
    pub fn test_case_name(file_name: &str) -> (r: Option<String>)
        ensures
            opt(r) == (if has_extension(file_name@, ".md"@) {
                crate::text::before_suffix(file_name@, ".md"@)
            } else {
                None
            }),
    {
        if extension_is(file_name, ".md") {
            strip_suffix(file_name, ".md")
        } else {
            None
        }
    }

    /// The test cases, in the order of their names, up to `MAX_MATRIX_BYTES`. Without a
    /// directory for them there are none.
    pub fn read_test_matrix(cases: Option<&Sections>) -> (r: String)
        ensures
            r@ == matrix(
                match cases {
                    Some(files) => Some(files@),
                    None => None,
                },
            ),
    {
        match cases {
            None => "*(no test matrix)*".to_owned(),
            Some(files) => put_together(files),
        }
    }

    /// Where deviations are recorded.
    pub fn deviations_path(&self) -> (r: String)
        ensures
            r@ == path_join(self.root@, "deviations.md"@),
    {
        join_path(self.root.as_str(), "deviations.md")
    }

    /// Where the crate of a run is drafted.
    pub fn v2_dir(&self, variant: Option<&str>) -> (r: String)
        ensures
            r@ == draft_dir(self.root@, opt_str(variant)),
    {
        match variant {
            Some(v) => join_path(join_path(self.root.as_str(), "artifacts/fanout").as_str(), v),
            None => join_path(self.root.as_str(), "artifacts/v2"),
        }
    }

    /// How a workspace is made for a milestone that is built side by side with others. Only
    /// the manifest is taken over: the quality gate fills the rest from what the milestone writes.
    pub fn seed_variant_workspace(&self, from: Option<&str>, variant: &str) -> (r: Seeding)
        ensures
            r.dir@ == draft_dir(self.root@, Some(variant@)),
            r.from@ == path_join(draft_dir(self.root@, opt_str(from)), "Cargo.toml"@),
            r.to@ == path_join(draft_dir(self.root@, Some(variant@)), "Cargo.toml"@),
    {
        let dir = self.v2_dir(Some(variant));
        let from = join_path(self.v2_dir(from).as_str(), "Cargo.toml");
        let to = join_path(dir.as_str(), "Cargo.toml");
        Seeding { dir, from, to }
    }
}

/// Whether a file or directory of that name is never source, whatever the language: it is
/// hidden, or holds what was built or brought from elsewhere.
pub open spec fn is_ignored(name: Seq<char>) -> bool {
    ||| "."@.is_prefix_of(name)
    ||| name == "target"@
    ||| name == "node_modules"@
    ||| name == "dist"@
    ||| name == "build"@
    ||| name == "vendor"@
    ||| name == "venv"@
    ||| name == ".venv"@
    ||| name == "__pycache__"@
    ||| name == ".next"@
    ||| name == "coverage"@
}

/// Whether a file or directory of that name is never source.
pub fn ignored(name: &str) -> (r: bool)
    ensures
        r == is_ignored(name@),
{
    starts_with(name, ".") || same(name, "target") || same(name, "node_modules") || same(
        name,
        "dist",
    ) || same(name, "build") || same(name, "vendor") || same(name, "venv") || same(name, ".venv")
        || same(name, "__pycache__") || same(name, ".next") || same(name, "coverage")
}

/// The most bytes of source that are put together.
pub const MAX_SOURCE_BYTES: usize = 200_000;

/// A path in the order of its parts: what stands under a directory comes before what stands
/// beside it.
pub open spec fn by_parts(path: Seq<char>) -> Seq<char> {
    path.map_values(
        |c: char|
            if c == '/' {
                '\0'
            } else {
                c
            },
    )
}

/// The path that `by_parts` makes of it.
pub open spec fn from_parts(key: Seq<char>) -> Seq<char> {
    key.map_values(
        |c: char|
            if c == '\0' {
                '/'
            } else {
                c
            },
    )
}

fn exchanged(s: &str, from: char, to: char) -> (r: String)
    ensures
        r@ == s@.map_values(
            |c: char|
                if c == from {
                    to
                } else {
                    c
                },
        ),
{
    let v = chars_of(s);
    let ghost all = s@.map_values(
        |c: char|
            if c == from {
                to
            } else {
                c
            },
    );
    let mut out: Vec<char> = Vec::new();
    let mut i: usize = 0;
    while i < v.len()
        invariant
            i <= v@.len(),
            v@ == s@,
            all == s@.map_values(
                |c: char|
                    if c == from {
                        to
                    } else {
                        c
                    },
            ),
            out@ =~= all.take(i as int),
        decreases v@.len() - i,
    {
        if v[i] == from {
            out.push(to);
        } else {
            out.push(v[i]);
        }
        i += 1;
    }
    assert(out@.subrange(0, out@.len() as int) =~= all);
    string_of(out.as_slice(), 0, out.len())
}

/// Source files from `k` on, after `total` bytes. A file that does not fit is named, and its
/// content left out.
pub open spec fn source_from(list: Seq<Listed>, k: int, total: nat) -> Seq<char>
    decreases list.len() - k,
{
    if k < 0 || k >= list.len() {
        Seq::empty()
    } else {
        let head = "// === "@ + from_parts(list[k].0) + " ===\n"@;
        let size = byte_len(list[k].1);
        if total + size <= MAX_SOURCE_BYTES {
            head + list[k].1 + "\n"@ + source_from(list, k + 1, total + size)
        } else {
            head + "// [omitted: combined source size limit reached]\n"@ + "\n"@ + source_from(
                list,
                k + 1,
                total,
            )
        }
    }
}

/// Files by the order of the parts of their paths; of two under one path the later one.
pub open spec fn parts_map(files: Seq<Section>) -> Map<Seq<char>, Seq<char>>
    decreases files.len(),
{
    if files.len() == 0 {
        Map::empty()
    } else {
        parts_map(files.drop_last()).insert(by_parts(files.last().path@), files.last().content@)
    }
}

/// Source files under their markers, in the order of the parts of their paths, up to
/// `MAX_SOURCE_BYTES` of content.
pub fn read_source_dir(files: &[Section]) -> (r: String)
    ensures
        r@ == source_from(listing(parts_map(files@)), 0, 0),
{
    let mut sorted = Sections::new();
    let mut i: usize = 0;
    assert(files@.take(0) =~= Seq::<Section>::empty());
    while i < files.len()
        invariant
            i <= files@.len(),
            sorted@ == parts_map(files@.take(i as int)),
        decreases files@.len() - i,
    {
        let key = exchanged(files[i].path.as_str(), '/', '\0');
        assert(key@ =~= by_parts(files@[i as int].path@));
        sorted.insert(key, files[i].content.clone());
        assert(files@.take(i + 1).drop_last() =~= files@.take(i as int));
        i += 1;
    }
    assert(files@.take(i as int) =~= files@);
    let ghost list = listing(sorted@);
    let n: usize = sorted.len();
    let mut out = String::new();
    let mut total: usize = 0;
    let mut k: usize = 0;
    assert(out@ + source_from(list, 0, 0) =~= source_from(list, 0, 0));
    while k < n
        invariant
            k <= n == list.len(),
            list == listing(sorted@),
            total <= MAX_SOURCE_BYTES,
            out@ + source_from(list, k as int, total as nat) == source_from(list, 0, 0),
        decreases n - k,
    {
        let file = sorted.at(k);
        let path = exchanged(file.path.as_str(), '\0', '/');
        assert(path@ =~= from_parts(list[k as int].0));
        let size: usize = bytes(file.content.as_str());
        let ghost had = out@;
        let ghost head = "// === "@ + from_parts(list[k as int].0) + " ===\n"@;
        out.append("// === ");
        out.append(path.as_str());
        out.append(" ===\n");
        assert(out@ =~= had + head);
        if size <= MAX_SOURCE_BYTES - total {
            out.append(file.content.as_str());
            out.append("\n");
            proof {
                let rest = source_from(list, k + 1, (total + size) as nat);
                assert(had + (head + list[k as int].1 + "\n"@ + rest) =~= out@ + rest);
            }
            total += size;
        } else {
            out.append("// [omitted: combined source size limit reached]\n");
            out.append("\n");
            proof {
                let rest = source_from(list, k + 1, total as nat);
                assert(had + (head + "// [omitted: combined source size limit reached]\n"@ + "\n"@
                    + rest) =~= out@ + rest);
            }
        }
        k += 1;
    }
    assert(out@ + Seq::<char>::empty() =~= out@);
    out
}

} // verus!
