//! The quality gate: a draft crate is written out, formatted, built, linted and tested.
use crate::json::{as_list, as_text, field, json_read, json_views, lemma_json_views, parse_json, Json, JsonView};
use crate::manager::Manager;
use crate::numbers::{decimal, decimal_text};
use crate::order::{before, lemma_order_total, lemma_sorted, sort, sorted};
use crate::paths::{extension_is, has_extension, join_path, parent, parent_of, path_join};
use crate::quality::{capped, multi_file, sections_of, unfenced};
use crate::repair::opt_str;
use crate::sections::{listing, strictly_ordered, Listed, Sections};
use crate::steps::{seen, Pause, PauseView, Step, StepView};
use crate::text::{
    has, join, joined, lemma_has_itself, lemma_has_through, lemma_joined_has, lemma_part_has, lines,
    lines_of, opt, same, texts,
};
use crate::workspace::{draft_dir, Workspace};
use vstd::prelude::*;
use vstd::string::StringExecFns;

verus! {

/// The most lines that a file may have.
pub const LINE_LIMIT: usize = 500;

/// What a program that was run left behind.
#[derive(Debug, PartialEq)]
pub struct Output {
    pub success: bool,
    pub stdout: String,
    pub stderr: String,
}

/// How the writing of a file went.
#[derive(Debug, PartialEq)]
pub enum Written {
    Done,
    /// There was no directory for it, and none could be made.
    NoDirectory(String),
    /// It could not be written.
    Failed(String),
}

/// A question of the quality gate.
#[derive(Debug)]
pub enum GateEffect {
    /// Whether a file is there.
    Exists { path: String },
    /// The files under `dir`, as they are seen from `from`.
    Sources { dir: String, from: String },
    /// Remove a file, if that is possible.
    Remove { path: String },
    /// Write a file, and make its directory.
    Put { path: String, content: String },
    /// What a file holds, if it can be read.
    Get { path: String },
    /// Run `cargo`.
    Cargo { args: Vec<String> },
    /// Let the lint rules of a configuration look at a directory.
    Scan { config: String, dir: String },
    /// Record a deviation.
    Deviation { agent: String, text: String },
}

/// A question of the quality gate, by its contents.
pub enum GateEffectView {
    Exists { path: Seq<char> },
    Sources { dir: Seq<char>, from: Seq<char> },
    Remove { path: Seq<char> },
    Put { path: Seq<char>, content: Seq<char> },
    Get { path: Seq<char> },
    Cargo { args: Seq<Seq<char>> },
    Scan { config: Seq<char>, dir: Seq<char> },
    Deviation { agent: Seq<char>, text: Seq<char> },
}

impl View for GateEffect {
    type V = GateEffectView;

    open spec fn view(&self) -> GateEffectView {
        match self {
            GateEffect::Exists { path } => GateEffectView::Exists { path: path@ },
            GateEffect::Sources { dir, from } => GateEffectView::Sources { dir: dir@, from: from@ },
            GateEffect::Remove { path } => GateEffectView::Remove { path: path@ },
            GateEffect::Put { path, content } => GateEffectView::Put {
                path: path@,
                content: content@,
            },
            GateEffect::Get { path } => GateEffectView::Get { path: path@ },
            GateEffect::Cargo { args } => GateEffectView::Cargo { args: texts(args@) },
            GateEffect::Scan { config, dir } => GateEffectView::Scan {
                config: config@,
                dir: dir@,
            },
            GateEffect::Deviation { agent, text } => GateEffectView::Deviation {
                agent: agent@,
                text: text@,
            },
        }
    }
}

/// An answer to a question of the quality gate.
#[derive(Debug)]
pub enum GateReply {
    Flag(bool),
    Paths(Vec<String>),
    Done,
    Put(Written),
    Found(Option<String>),
    /// What a program left behind, or why it could not be run.
    Ran(Result<Output, String>),
}

/// What the quality gate comes to.
pub type Check<T> = Step<T, GateEffect>;

/// What the quality gate comes to, by its contents.
pub type CheckView<V> = StepView<V, GateEffectView>;

/// Whether it is so.
pub open spec fn flag_for(e: GateEffectView, log: Seq<GateReply>, at: int) -> CheckView<bool> {
    if 0 <= at < log.len() && log[at] is Flag {
        Ok((log[at]->Flag_0, at + 1))
    } else {
        Err(PauseView::Ask(e))
    }
}

fn ask_flag(e: GateEffect, log: &[GateReply], at: usize) -> (r: Check<bool>)
    ensures
        seen(r) == flag_for(e@, log@, at as int),
{
    if at < log.len() {
        if let GateReply::Flag(b) = &log[at] {
            return Ok((*b, at + 1));
        }
    }
    Err(Pause::Ask(e))
}

/// The assurance that `e` was done.
pub open spec fn done_with(e: GateEffectView, log: Seq<GateReply>, at: int) -> CheckView<()> {
    if 0 <= at < log.len() && log[at] is Done {
        Ok(((), at + 1))
    } else {
        Err(PauseView::Ask(e))
    }
}

fn ask_done_with(e: GateEffect, log: &[GateReply], at: usize) -> (r: Check<()>)
    ensures
        seen(r) == done_with(e@, log@, at as int),
{
    if at < log.len() {
        if let GateReply::Done = &log[at] {
            return Ok(((), at + 1));
        }
    }
    Err(Pause::Ask(e))
}

/// Why TOML text does not parse, where it does not.
pub uninterp spec fn toml_failure(text: Seq<char>) -> Option<Seq<char>>;

/// `toml::Value` from a text by `str::parse`: whether that fails, and what the error says, are
/// functions of the text alone.
#[verifier::external_body]
fn toml_error(text: &str) -> (r: Option<String>)
    ensures
        opt(r) == toml_failure(text@),
{
    match text.parse::<toml::Value>() {
        Ok(_) => None,
        Err(e) => Some(e.to_string()),
    }
}

/// What is said of a manifest that does not parse.
pub open spec fn toml_issue(reason: Seq<char>) -> Seq<char> {
    "## Cargo.toml\nCargo.toml did not parse as valid TOML ("@ + reason
        + ") -- kept the existing manifest instead of overwriting it with this. Likely cause: trailing prose or a stray code fence after the TOML content. Emit Cargo.toml with nothing in it but valid TOML."@
}

/// The assurance that no source file from `k` on is left that the draft does not have.
pub open spec fn swept_from(
    dir: Seq<char>,
    found: Seq<Seq<char>>,
    k: int,
    files: Map<Seq<char>, Seq<char>>,
    log: Seq<GateReply>,
    at: int,
) -> CheckView<()>
    decreases found.len() - k,
{
    if k < 0 || k >= found.len() {
        Ok(((), at))
    } else if has_extension(found[k], ".rs"@) && !files.contains_key(found[k]) {
        match done_with(GateEffectView::Remove { path: path_join(dir, found[k]) }, log, at) {
            Err(p) => Err(p),
            Ok((_, at)) => swept_from(dir, found, k + 1, files, log, at),
        }
    } else {
        swept_from(dir, found, k + 1, files, log, at)
    }
}

/// The assurance that no stale source file is left.
pub open spec fn swept(
    dir: Seq<char>,
    files: Map<Seq<char>, Seq<char>>,
    log: Seq<GateReply>,
    at: int,
) -> CheckView<()> {
    if 0 <= at < log.len() && log[at] is Paths {
        swept_from(dir, texts(log[at]->Paths_0@), 0, files, log, at + 1)
    } else {
        Err(PauseView::Ask(GateEffectView::Sources { dir: path_join(dir, "src"@), from: dir }))
    }
}

/// Whether a file of the draft is written out: a manifest that does not parse is not.
pub open spec fn is_writable(file: Listed) -> bool {
    file.0 != "Cargo.toml"@ || toml_failure(file.1) is None
}

/// What is wrong with writing the files from `k` on; nothing where all goes well.
pub open spec fn written_from(
    dir: Seq<char>,
    list: Seq<Listed>,
    k: int,
    log: Seq<GateReply>,
    at: int,
) -> CheckView<Option<Seq<char>>>
    decreases list.len() - k,
{
    if k < 0 || k >= list.len() {
        Ok((None, at))
    } else if !is_writable(list[k]) {
        written_from(dir, list, k + 1, log, at)
    } else if 0 <= at < log.len() && log[at] is Put {
        match log[at]->Put_0 {
            Written::Done => written_from(dir, list, k + 1, log, at + 1),
            Written::NoDirectory(e) => Ok((Some("failed to create dir: "@ + e@), at + 1)),
            Written::Failed(e) => Ok(
                (Some("failed to write "@ + list[k].0 + ": "@ + e@), at + 1),
            ),
        }
    } else {
        Err(
            PauseView::Ask(
                GateEffectView::Put { path: path_join(dir, list[k].0), content: list[k].1 },
            ),
        )
    }
}

/// The files from `k` on as they are once formatted, added to `had`. What cannot be read is
/// taken as it was written.
pub open spec fn read_back_from(
    dir: Seq<char>,
    list: Seq<Listed>,
    k: int,
    had: Map<Seq<char>, Seq<char>>,
    log: Seq<GateReply>,
    at: int,
) -> CheckView<Map<Seq<char>, Seq<char>>>
    decreases list.len() - k,
{
    if k < 0 || k >= list.len() {
        Ok((had, at))
    } else if 0 <= at < log.len() && log[at] is Found {
        let content = match log[at]->Found_0 {
            Some(text) => text@,
            None => list[k].1,
        };
        read_back_from(dir, list, k + 1, had.insert(list[k].0, content), log, at + 1)
    } else {
        Err(PauseView::Ask(GateEffectView::Get { path: path_join(dir, list[k].0) }))
    }
}

/// A draft as one text: its only file where that is `src/main.rs`, else all files under their
/// markers.
pub open spec fn clean_text(files: Map<Seq<char>, Seq<char>>) -> Seq<char> {
    if listing(files).len() == 1 && files.contains_key("src/main.rs"@) {
        files["src/main.rs"@]
    } else {
        multi_file(files)
    }
}

/// The files that have too many lines, each with their number.
pub open spec fn too_long(list: Seq<Listed>) -> Seq<Seq<char>>
    decreases list.len(),
{
    if list.len() == 0 {
        Seq::empty()
    } else {
        let n = lines_of(list.last().1).len();
        if n > LINE_LIMIT {
            too_long(list.drop_last()).push(list.last().0 + " ("@ + decimal(n) + " lines)"@)
        } else {
            too_long(list.drop_last())
        }
    }
}

/// What is said of files that have too many lines.
pub open spec fn modularity_issue(list: Seq<Seq<char>>) -> Seq<char> {
    "## modularity\nFiles exceeding the 500-line limit must be split into submodules:\n"@ + joined(
        sorted(list),
        "\n"@,
    )
        + "\n\nDeclare each submodule with `mod name;` in main.rs and emit its content prefixed with `// === src/name.rs ===`. Every file must be ≤500 lines."@
}

/// What is wrong with a draft before anything is built.
pub open spec fn early_issues(
    files: Map<Seq<char>, Seq<char>>,
    formatted: Map<Seq<char>, Seq<char>>,
) -> Seq<Seq<char>> {
    let manifest = if files.contains_key("Cargo.toml"@) {
        match toml_failure(files["Cargo.toml"@]) {
            Some(reason) => seq![toml_issue(reason)],
            None => Seq::empty(),
        }
    } else {
        Seq::empty()
    };
    let long = too_long(listing(formatted));
    if long.len() == 0 {
        manifest
    } else {
        manifest.push(modularity_issue(long))
    }
}

/// What is said of a crate that does not build.
pub open spec fn build_issue(stderr: Seq<char>) -> Seq<char> {
    "## cargo build\n```\n"@ + capped(stderr, 120) + "\n```"@
}

/// What is said of a crate that the linter warns of.
pub open spec fn clippy_issue(stderr: Seq<char>) -> Seq<char> {
    "## cargo clippy\n```\n"@ + capped(stderr, 80) + "\n```"@
}

/// What is said of a crate whose tests fail.
pub open spec fn test_issue(stdout: Seq<char>, stderr: Seq<char>) -> Seq<char> {
    "## cargo test\n```\n"@ + capped(stdout, 60) + capped(stderr, 40) + "\n```"@
}

/// `issues` with what the linter and the tests hold against the crate. A program that cannot
/// be run holds nothing against it.
pub open spec fn with_findings(
    issues: Seq<Seq<char>>,
    clippy: Result<Output, String>,
    test: Result<Output, String>,
) -> Seq<Seq<char>> {
    let first = match clippy {
        Ok(o) => if o.success {
            issues
        } else {
            issues.push(clippy_issue(o.stderr@))
        },
        Err(_) => issues,
    };
    match test {
        Ok(o) => if o.success {
            first
        } else {
            first.push(test_issue(o.stdout@, o.stderr@))
        },
        Err(_) => first,
    }
}

/// What `cargo` is told.
pub open spec fn cargo(command: Seq<char>, manifest: Seq<char>, more: Seq<Seq<char>>) -> GateEffectView {
    GateEffectView::Cargo { args: seq![command, "--manifest-path"@, manifest] + more }
}

/// What is wrong with a crate that is written out and formatted: it is built, and where it
/// builds, linted and tested.
pub open spec fn built_and_tested(
    manifest: Seq<char>,
    issues: Seq<Seq<char>>,
    log: Seq<GateReply>,
    at: int,
) -> CheckView<(Seq<char>, bool)> {
    if !(0 <= at < log.len() && log[at] is Ran) {
        Err(PauseView::Ask(cargo("build"@, manifest, Seq::empty())))
    } else {
        match log[at]->Ran_0 {
            Err(e) => Ok((("cargo build not available: "@ + e@, false), at + 1)),
            Ok(build) => if !build.success {
                Ok(((joined(issues.push(build_issue(build.stderr@)), "\n\n"@), false), at + 1))
            } else if !(at + 1 < log.len() && log[at + 1] is Ran) {
                Err(PauseView::Ask(cargo("clippy"@, manifest, seq!["--"@, "-D"@, "warnings"@])))
            } else if !(at + 2 < log.len() && log[at + 2] is Ran) {
                Err(PauseView::Ask(cargo("test"@, manifest, Seq::empty())))
            } else {
                let all = with_findings(issues, log[at + 1]->Ran_0, log[at + 2]->Ran_0);
                Ok(((joined(all, "\n\n"@), true), at + 3))
            },
        }
    }
}

// Lint rules.

/// The rule and the file of a lint match.
pub open spec fn match_key(m: JsonView) -> (Seq<char>, Seq<char>) {
    let rule = match as_text(field(m, "ruleId"@)) {
        Some(s) => s,
        None => "unknown"@,
    };
    let file = match as_text(field(m, "file"@)) {
        Some(s) => s,
        None => Seq::empty(),
    };
    (rule, file)
}

/// The first `n` matches of one rule in one file.
pub open spec fn hits_of(matches: Seq<JsonView>, key: (Seq<char>, Seq<char>), n: int) -> Seq<
    JsonView,
>
    decreases n,
{
    if n <= 0 {
        Seq::empty()
    } else if match_key(matches[n - 1]) == key {
        hits_of(matches, key, n - 1).push(matches[n - 1])
    } else {
        hits_of(matches, key, n - 1)
    }
}

/// The lines that matches show.
pub open spec fn snippets(hits: Seq<JsonView>) -> Seq<Seq<char>>
    decreases hits.len(),
{
    if hits.len() == 0 {
        Seq::empty()
    } else {
        match as_text(field(hits.last(), "lines"@)) {
            Some(s) => snippets(hits.drop_last()).push(s),
            None => snippets(hits.drop_last()),
        }
    }
}

/// What is recorded of the matches of one rule in one file.
pub open spec fn lint_note(key: (Seq<char>, Seq<char>), hits: Seq<JsonView>) -> (Seq<char>, Seq<char>) {
    let message = match as_text(field(hits[0], "message"@)) {
        Some(s) => s,
        None => Seq::empty(),
    };
    (
        "ast-grep:"@ + key.0,
        message + "\n\n"@ + key.1 + " — "@ + decimal(hits.len()) + " match(es):\n"@ + joined(
            snippets(hits),
            "\n"@,
        ),
    )
}

/// Whether match `i` is the first of its rule in its file.
pub open spec fn opens_group(matches: Seq<JsonView>, i: int) -> bool {
    forall|j: int| 0 <= j < i ==> match_key(#[trigger] matches[j]) != match_key(matches[i])
}

/// What is recorded of matches: one note for each rule in each file, in the order in which
/// they first occur.
pub open spec fn lint_notes(matches: Seq<JsonView>, n: int) -> Seq<(Seq<char>, Seq<char>)>
    decreases n,
{
    if n <= 0 {
        Seq::empty()
    } else if opens_group(matches, n - 1) {
        let key = match_key(matches[n - 1]);
        lint_notes(matches, n - 1).push(
            lint_note(key, hits_of(matches, key, matches.len() as int)),
        )
    } else {
        lint_notes(matches, n - 1)
    }
}

/// The matches that a scan printed; none where it printed anything else than a list.
pub open spec fn scanned(stdout: Seq<char>) -> Seq<JsonView> {
    match json_read(stdout) {
        Ok(j) => match as_list(j) {
            Some(list) => list,
            None => Seq::empty(),
        },
        Err(_) => Seq::empty(),
    }
}

/// The assurance that the notes from `k` on are recorded.
pub open spec fn recorded_from(
    notes: Seq<(Seq<char>, Seq<char>)>,
    k: int,
    log: Seq<GateReply>,
    at: int,
) -> CheckView<()>
    decreases notes.len() - k,
{
    if k < 0 || k >= notes.len() {
        Ok(((), at))
    } else {
        match done_with(
            GateEffectView::Deviation { agent: notes[k].0, text: notes[k].1 },
            log,
            at,
        ) {
            Err(p) => Err(p),
            Ok((_, at)) => recorded_from(notes, k + 1, log, at),
        }
    }
}

/// The assurance that the lint rules have looked at a crate and what they found is recorded.
/// They never block: a pattern cannot tell a problem from a justified exception. Where there
/// are no rules, or no program to apply them, nothing happens.
pub open spec fn linted(
    config: Option<Seq<char>>,
    dir: Seq<char>,
    log: Seq<GateReply>,
    at: int,
) -> CheckView<()> {
    match config {
        None => Ok(((), at)),
        Some(path) => match flag_for(GateEffectView::Exists { path }, log, at) {
            Err(p) => Err(p),
            Ok((there, at)) => if !there {
                Ok(((), at))
            } else if !(0 <= at < log.len() && log[at] is Ran) {
                Err(PauseView::Ask(GateEffectView::Scan { config: path, dir }))
            } else {
                match log[at]->Ran_0 {
                    Err(_) => Ok(((), at + 1)),
                    Ok(output) => {
                        let matches = scanned(output.stdout@);
                        recorded_from(
                            lint_notes(matches, matches.len() as int),
                            0,
                            log,
                            at + 1,
                        )
                    },
                }
            },
        },
    }
}

/// What the quality gate says of a draft: the draft once it is formatted, and what is wrong with it.
pub open spec fn gated(
    root: Seq<char>,
    config: Option<Seq<char>>,
    raw: Seq<char>,
    variant: Option<Seq<char>>,
    log: Seq<GateReply>,
    at: int,
) -> CheckView<(Seq<char>, Seq<char>)> {
    let code = unfenced(raw);
    let dir = draft_dir(root, variant);
    let manifest = path_join(dir, "Cargo.toml"@);
    match flag_for(GateEffectView::Exists { path: manifest }, log, at) {
        Err(p) => Err(p),
        Ok((there, at)) => if !there {
            Ok(((code, Seq::empty()), at))
        } else {
            let files = sections_of(code);
            match swept(dir, files, log, at) {
                Err(p) => Err(p),
                Ok((_, at)) => match written_from(dir, listing(files), 0, log, at) {
                    Err(p) => Err(p),
                    Ok((Some(failure), at)) => Ok(((code, failure), at)),
                    Ok((None, at)) => if !(0 <= at < log.len() && log[at] is Ran) {
                        Err(PauseView::Ask(cargo("fmt"@, manifest, Seq::empty())))
                    } else {
                        match read_back_from(dir, listing(files), 0, Map::empty(), log, at + 1) {
                            Err(p) => Err(p),
                            Ok((formatted, at)) => {
                                let clean = clean_text(formatted);
                                match built_and_tested(
                                    manifest,
                                    early_issues(files, formatted),
                                    log,
                                    at,
                                ) {
                                    Err(p) => Err(p),
                                    Ok(((errors, all_run), at)) => if !all_run {
                                        Ok(((clean, errors), at))
                                    } else {
                                        match linted(config, dir, log, at) {
                                            Err(p) => Err(p),
                                            Ok((_, at)) => Ok(((clean, errors), at)),
                                        }
                                    },
                                }
                            },
                        }
                    },
                },
            }
        },
    }
}

fn sweep(
    dir: &str,
    found: &[String],
    files: &Sections,
    log: &[GateReply],
    at: usize,
) -> (r: Check<()>)
    ensures
        seen(r) == swept_from(dir@, texts(found@), 0, files@, log@, at as int),
{
    let ghost all = texts(found@);
    let mut now: usize = at;
    let mut k: usize = 0;
    while k < found.len()
        invariant
            k <= found@.len(),
            all == texts(found@),
            swept_from(dir@, all, k as int, files@, log@, now as int) == swept_from(
                dir@,
                all,
                0,
                files@,
                log@,
                at as int,
            ),
        decreases found@.len() - k,
    {
        let rel = found[k].as_str();
        assert(all[k as int] == rel@);
        if extension_is(rel, ".rs") && !files.contains_key(rel) {
            let (_, next) = ask_done_with(
                GateEffect::Remove { path: join_path(dir, rel) },
                log,
                now,
            )?;
            now = next;
        }
        k += 1;
    }
    Ok(((), now))
}

fn sweep_stale(dir: &str, files: &Sections, log: &[GateReply], at: usize) -> (r: Check<()>)
    ensures
        seen(r) == swept(dir@, files@, log@, at as int),
{
    if at < log.len() {
        if let GateReply::Paths(found) = &log[at] {
            return sweep(dir, found.as_slice(), files, log, at + 1);
        }
    }
    Err(Pause::Ask(GateEffect::Sources { dir: join_path(dir, "src"), from: dir.to_owned() }))
}

fn write_out(dir: &str, files: &Sections, log: &[GateReply], at: usize) -> (r: Check<
    Option<String>,
>)
    ensures
        match r {
            Ok((failure, next)) => written_from(dir@, listing(files@), 0, log@, at as int) == Ok::<
                (Option<Seq<char>>, int),
                PauseView<GateEffectView>,
            >((opt(failure), next as int)),
            Err(p) => written_from(dir@, listing(files@), 0, log@, at as int) == Err::<
                (Option<Seq<char>>, int),
                PauseView<GateEffectView>,
            >(p@),
        },
{
    let ghost list = listing(files@);
    let n: usize = files.len();
    let mut now: usize = at;
    let mut k: usize = 0;
    while k < n
        invariant
            k <= n == list.len(),
            list == listing(files@),
            written_from(dir@, list, k as int, log@, now as int) == written_from(
                dir@,
                list,
                0,
                log@,
                at as int,
            ),
        decreases n - k,
    {
        let file = files.at(k);
        let writable = !same(file.path.as_str(), "Cargo.toml") || toml_error(
            file.content.as_str(),
        ).is_none();
        if writable {
            let question = GateEffect::Put {
                path: join_path(dir, file.path.as_str()),
                content: file.content.clone(),
            };
            if now >= log.len() {
                return Err(Pause::Ask(question));
            }
            match &log[now] {
                GateReply::Put(Written::Done) => {},
                GateReply::Put(Written::NoDirectory(e)) => {
                    return Ok(
                        (
                            Some("failed to create dir: ".to_owned().concat(e.as_str())),
                            now + 1,
                        ),
                    );
                },
                GateReply::Put(Written::Failed(e)) => {
                    return Ok(
                        (
                            Some(
                                "failed to write ".to_owned().concat(
                                    file.path.as_str(),
                                ).concat(": ").concat(e.as_str()),
                            ),
                            now + 1,
                        ),
                    );
                },
                _ => {
                    return Err(Pause::Ask(question));
                },
            }
            now += 1;
        }
        k += 1;
    }
    Ok((None, now))
}

fn read_back(dir: &str, files: &Sections, log: &[GateReply], at: usize) -> (r: Check<Sections>)
    ensures
        seen(r) == read_back_from(dir@, listing(files@), 0, Map::empty(), log@, at as int),
{
    let ghost list = listing(files@);
    let n: usize = files.len();
    let mut out = Sections::new();
    let mut now: usize = at;
    let mut k: usize = 0;
    while k < n
        invariant
            k <= n == list.len(),
            list == listing(files@),
            read_back_from(dir@, list, k as int, out@, log@, now as int) == read_back_from(
                dir@,
                list,
                0,
                Map::empty(),
                log@,
                at as int,
            ),
        decreases n - k,
    {
        let file = files.at(k);
        let question = GateEffect::Get { path: join_path(dir, file.path.as_str()) };
        if now >= log.len() {
            return Err(Pause::Ask(question));
        }
        match &log[now] {
            GateReply::Found(Some(text)) => {
                out.insert(file.path.clone(), text.clone());
            },
            GateReply::Found(None) => {
                out.insert(file.path.clone(), file.content.clone());
            },
            _ => {
                return Err(Pause::Ask(question));
            },
        }
        now += 1;
        k += 1;
    }
    Ok((out, now))
}

fn long_files(files: &Sections) -> (r: Vec<String>)
    ensures
        texts(r@) == too_long(listing(files@)),
{
    let ghost list = listing(files@);
    let n: usize = files.len();
    let mut out: Vec<String> = Vec::new();
    let mut k: usize = 0;
    assert(texts(out@) =~= Seq::<Seq<char>>::empty());
    assert(list.take(0) =~= Seq::<Listed>::empty());
    while k < n
        invariant
            k <= n == list.len(),
            list == listing(files@),
            texts(out@) == too_long(list.take(k as int)),
        decreases n - k,
    {
        let ghost had = out@;
        let file = files.at(k);
        assert(list.take(k + 1).drop_last() =~= list.take(k as int));
        let all = lines(file.content.as_str());
        assert(texts(all@).len() == all@.len());
        if all.len() > LINE_LIMIT {
            let note = file.path.as_str().to_owned().concat(" (").concat(
                decimal_text(all.len() as u64).as_str(),
            ).concat(" lines)");
            out.push(note);
            assert(texts(out@) =~= texts(had).push(note@));
        }
        k += 1;
    }
    assert(list.take(k as int) =~= list);
    out
}

fn first_issues(files: &Sections, formatted: &Sections) -> (r: Vec<String>)
    ensures
        texts(r@) == early_issues(files@, formatted@),
{
    let mut issues: Vec<String> = Vec::new();
    assert(texts(issues@) =~= Seq::<Seq<char>>::empty());
    if let Some(manifest) = files.get("Cargo.toml") {
        if let Some(reason) = toml_error(manifest.as_str()) {
            let issue = "## Cargo.toml\nCargo.toml did not parse as valid TOML (".to_owned().concat(
                reason.as_str(),
            ).concat(
                ") -- kept the existing manifest instead of overwriting it with this. Likely cause: trailing prose or a stray code fence after the TOML content. Emit Cargo.toml with nothing in it but valid TOML.",
            );
            issues.push(issue);
            assert(texts(issues@) =~= seq![toml_issue(reason@)]);
        }
    }
    let long = long_files(formatted);
    assert(texts(long@).len() == long@.len());
    if long.len() > 0 {
        let ghost had = issues@;
        let issue = "## modularity\nFiles exceeding the 500-line limit must be split into submodules:\n".to_owned().concat(
            join(sort(long).as_slice(), "\n").as_str(),
        ).concat(
            "\n\nDeclare each submodule with `mod name;` in main.rs and emit its content prefixed with `// === src/name.rs ===`. Every file must be ≤500 lines.",
        );
        issues.push(issue);
        assert(texts(issues@) =~= texts(had).push(issue@));
    }
    issues
}

fn cargo_args(command: &str, manifest: &str) -> (r: GateEffect)
    ensures
        r@ == cargo(command@, manifest@, Seq::empty()),
{
    let args: Vec<String> = vec![
        command.to_owned(),
        "--manifest-path".to_owned(),
        manifest.to_owned(),
    ];
    assert(texts(args@) =~= seq![command@, "--manifest-path"@, manifest@]
        + Seq::<Seq<char>>::empty());
    GateEffect::Cargo { args }
}

fn clippy_args(manifest: &str) -> (r: GateEffect)
    ensures
        r@ == cargo("clippy"@, manifest@, seq!["--"@, "-D"@, "warnings"@]),
{
    let args: Vec<String> = vec![
        "clippy".to_owned(),
        "--manifest-path".to_owned(),
        manifest.to_owned(),
        "--".to_owned(),
        "-D".to_owned(),
        "warnings".to_owned(),
    ];
    assert(texts(args@) =~= seq!["clippy"@, "--manifest-path"@, manifest@] + seq![
        "--"@,
        "-D"@,
        "warnings"@,
    ]);
    GateEffect::Cargo { args }
}

fn build_and_test(
    manifest: &str,
    issues: Vec<String>,
    log: &[GateReply],
    at: usize,
) -> (r: Check<(String, bool)>)
    ensures
        seen(r) == built_and_tested(manifest@, texts(issues@), log@, at as int),
{
    let n: usize = log.len();
    let mut issues = issues;
    let ghost start = texts(issues@);
    if at >= n {
        return Err(Pause::Ask(cargo_args("build", manifest)));
    }
    match &log[at] {
        GateReply::Ran(Err(e)) => {
            return Ok(
                (("cargo build not available: ".to_owned().concat(e.as_str()), false), at + 1),
            );
        },
        GateReply::Ran(Ok(build)) => {
            if !build.success {
                let issue = "## cargo build\n```\n".to_owned().concat(
                    Manager::cap_output(build.stderr.as_str(), 120).as_str(),
                ).concat("\n```");
                issues.push(issue);
                assert(texts(issues@) =~= start.push(build_issue(build.stderr@)));
                return Ok(((join(issues.as_slice(), "\n\n"), false), at + 1));
            }
        },
        _ => {
            return Err(Pause::Ask(cargo_args("build", manifest)));
        },
    }
    if at + 1 >= n {
        return Err(Pause::Ask(clippy_args(manifest)));
    }
    match &log[at + 1] {
        GateReply::Ran(Err(_)) => {},
        GateReply::Ran(Ok(clippy)) => {
            if !clippy.success {
                let issue = "## cargo clippy\n```\n".to_owned().concat(
                    Manager::cap_output(clippy.stderr.as_str(), 80).as_str(),
                ).concat("\n```");
                issues.push(issue);
                assert(texts(issues@) =~= start.push(clippy_issue(clippy.stderr@)));
            }
        },
        _ => {
            return Err(Pause::Ask(clippy_args(manifest)));
        },
    }
    if at + 2 >= n {
        return Err(Pause::Ask(cargo_args("test", manifest)));
    }
    match &log[at + 2] {
        GateReply::Ran(Err(_)) => {},
        GateReply::Ran(Ok(test)) => {
            if !test.success {
                let ghost had = issues@;
                let issue = "## cargo test\n```\n".to_owned().concat(
                    Manager::cap_output(test.stdout.as_str(), 60).as_str(),
                ).concat(Manager::cap_output(test.stderr.as_str(), 40).as_str()).concat("\n```");
                issues.push(issue);
                assert(texts(issues@) =~= texts(had).push(test_issue(test.stdout@, test.stderr@)));
            }
        },
        _ => {
            return Err(Pause::Ask(cargo_args("test", manifest)));
        },
    }
    Ok(((join(issues.as_slice(), "\n\n"), true), at + 3))
}

fn key_of(m: &Json) -> (r: (String, String))
    ensures
        (r.0@, r.1@) == match_key(m@),
{
    let rule = match m.field("ruleId").as_text() {
        Some(s) => s.clone(),
        None => "unknown".to_owned(),
    };
    let file = match m.field("file").as_text() {
        Some(s) => s.clone(),
        None => {
            let none = String::new();
            assert(none@ =~= Seq::<char>::empty());
            none
        },
    };
    (rule, file)
}

fn is_first(matches: &[Json], i: usize) -> (r: bool)
    requires
        i < matches@.len(),
    ensures
        r == opens_group(json_views(matches@), i as int),
{
    let ghost views = json_views(matches@);
    proof {
        lemma_json_views(matches@);
    }
    let key = key_of(&matches[i]);
    assert(views[i as int] == matches@[i as int]@);
    let mut j: usize = 0;
    while j < i
        invariant
            j <= i < matches@.len(),
            views == json_views(matches@),
            views.len() == matches@.len(),
            forall|k: int| 0 <= k < matches@.len() ==> #[trigger] views[k] == matches@[k]@,
            (key.0@, key.1@) == match_key(views[i as int]),
            forall|k: int| 0 <= k < j ==> match_key(#[trigger] views[k]) != match_key(
                views[i as int],
            ),
        decreases i - j,
    {
        let other = key_of(&matches[j]);
        assert(views[j as int] == matches@[j as int]@);
        if same(other.0.as_str(), key.0.as_str()) && same(other.1.as_str(), key.1.as_str()) {
            assert(match_key(views[j as int]) == match_key(views[i as int]));
            return false;
        }
        j += 1;
    }
    true
}

fn note_of(matches: &[Json], i: usize) -> (r: (String, String))
    requires
        i < matches@.len(),
        opens_group(json_views(matches@), i as int),
    ensures
        (r.0@, r.1@) == ({
            let views = json_views(matches@);
            let key = match_key(views[i as int]);
            lint_note(key, hits_of(views, key, views.len() as int))
        }),
{
    let ghost views = json_views(matches@);
    proof {
        lemma_json_views(matches@);
    }
    let key = key_of(&matches[i]);
    let ghost key_view = match_key(views[i as int]);
    assert(views[i as int] == matches@[i as int]@);
    let mut shown: Vec<String> = Vec::new();
    let mut count: u64 = 0;
    let mut n: usize = 0;
    let ghost mut hits = Seq::<JsonView>::empty();
    assert(texts(shown@) =~= Seq::<Seq<char>>::empty());
    while n < matches.len()
        invariant
            n <= matches@.len(),
            i < matches@.len(),
            count <= n,
            views == json_views(matches@),
            views.len() == matches@.len(),
            forall|k: int| 0 <= k < matches@.len() ==> #[trigger] views[k] == matches@[k]@,
            (key.0@, key.1@) == key_view,
            key_view == match_key(views[i as int]),
            opens_group(views, i as int),
            hits == hits_of(views, key_view, n as int),
            count == hits.len(),
            texts(shown@) == snippets(hits),
            n <= i ==> hits.len() == 0,
            n > i ==> hits.len() > 0 && hits[0] == views[i as int],
        decreases matches@.len() - n,
    {
        let m = &matches[n];
        assert(views[n as int] == m@);
        let other = key_of(m);
        if same(other.0.as_str(), key.0.as_str()) && same(other.1.as_str(), key.1.as_str()) {
            assert(n >= i) by {
                if n < i {
                    assert(match_key(views[n as int]) != match_key(views[i as int]));
                }
            }
            let ghost had = hits;
            proof {
                hits = hits.push(m@);
                assert(hits.drop_last() =~= had);
            }
            if let Some(lines) = m.field("lines").as_text() {
                let ghost before = shown@;
                shown.push(lines.clone());
                assert(texts(shown@) =~= texts(before).push(lines@));
            }
            count += 1;
        } else {
            assert(n != i);
        }
        n += 1;
    }
    let message = match matches[i].field("message").as_text() {
        Some(s) => s.clone(),
        None => {
            let none = String::new();
            assert(none@ =~= Seq::<char>::empty());
            none
        },
    };
    let text = message.concat("\n\n").concat(key.1.as_str()).concat(" — ").concat(
        decimal_text(count).as_str(),
    ).concat(" match(es):\n").concat(join(shown.as_slice(), "\n").as_str());
    ("ast-grep:".to_owned().concat(key.0.as_str()), text)
}

/// The views of a list of pairs of texts.
pub open spec fn pair_views(list: Seq<(String, String)>) -> Seq<(Seq<char>, Seq<char>)> {
    list.map_values(|p: (String, String)| (p.0@, p.1@))
}

fn record_notes(notes: &[(String, String)], log: &[GateReply], at: usize) -> (r: Check<()>)
    ensures
        seen(r) == recorded_from(pair_views(notes@), 0, log@, at as int),
{
    let ghost all = pair_views(notes@);
    let mut now: usize = at;
    let mut k: usize = 0;
    while k < notes.len()
        invariant
            k <= notes@.len(),
            all == pair_views(notes@),
            recorded_from(all, k as int, log@, now as int) == recorded_from(
                all,
                0,
                log@,
                at as int,
            ),
        decreases notes@.len() - k,
    {
        assert(all[k as int] == (notes@[k as int].0@, notes@[k as int].1@));
        let (_, next) = ask_done_with(
            GateEffect::Deviation { agent: notes[k].0.clone(), text: notes[k].1.clone() },
            log,
            now,
        )?;
        now = next;
        k += 1;
    }
    Ok(((), now))
}

impl Manager {
    /// What is recorded of lint matches: one note for each rule in each file, whatever the
    /// rules are. A note is who found it and what it says.
    pub fn report_lint_matches(matches: &[Json]) -> (r: Vec<(String, String)>)
        ensures
            pair_views(r@) == lint_notes(
                json_views(matches@),
                json_views(matches@).len() as int,
            ),
    {
        let ghost views = json_views(matches@);
        proof {
            lemma_json_views(matches@);
        }
        let mut notes: Vec<(String, String)> = Vec::new();
        let mut n: usize = 0;
        assert(pair_views(notes@) =~= Seq::<(Seq<char>, Seq<char>)>::empty());
        while n < matches.len()
            invariant
                n <= matches@.len(),
                views == json_views(matches@),
                views.len() == matches@.len(),
                pair_views(notes@) == lint_notes(views, n as int),
            decreases matches@.len() - n,
        {
            if is_first(matches, n) {
                let ghost had = notes@;
                let note = note_of(matches, n);
                notes.push(note);
                assert(pair_views(notes@) =~= pair_views(had).push((note.0@, note.1@)));
            }
            n += 1;
        }
        notes
    }

    /// Lets the lint rules look at a crate, and records what they find.
    pub fn run_lint_plugins(
        config: Option<&str>,
        v2_dir: &str,
        log: &[GateReply],
        at: usize,
    ) -> (r: Check<()>)
        ensures
            seen(r) == linted(opt_str(config), v2_dir@, log@, at as int),
    {
        let path = match config {
            None => {
                return Ok(((), at));
            },
            Some(path) => path,
        };
        let (there, at) = ask_flag(GateEffect::Exists { path: path.to_owned() }, log, at)?;
        if !there {
            return Ok(((), at));
        }
        let question = GateEffect::Scan { config: path.to_owned(), dir: v2_dir.to_owned() };
        if at >= log.len() {
            return Err(Pause::Ask(question));
        }
        match &log[at] {
            GateReply::Ran(Err(_)) => Ok(((), at + 1)),
            GateReply::Ran(Ok(output)) => {
                let none: Vec<(String, String)> = Vec::new();
                assert(pair_views(none@) =~= lint_notes(Seq::empty(), 0));
                let notes = match parse_json(output.stdout.as_str()) {
                    Err(_) => none,
                    Ok(json) => match json.as_list() {
                        None => none,
                        Some(list) => Self::report_lint_matches(list.as_slice()),
                    },
                };
                record_notes(notes.as_slice(), log, at + 1)
            },
            _ => Err(Pause::Ask(question)),
        }
    }

    /// The configuration of the lint rules, beside the program that runs: in the repository
    /// whose `target` directory holds it.
    pub fn lints_config_path(exe: &str) -> (r: Option<String>)
        ensures
            opt(r) == lint_config(exe@),
    {
        match parent(exe) {
            None => None,
            Some(build) => match parent(build.as_str()) {
                None => None,
                Some(target) => match parent(target.as_str()) {
                    None => None,
                    Some(repo) => Some(
                        join_path(repo.as_str(), "ai-org-orchestrator/lints/sgconfig.yml"),
                    ),
                },
            },
        }
    }

    /// Runs the quality gate on a draft in the workspace of `variant`: stale files are removed, the
    /// files are written and formatted, their length is checked, the crate is built, linted and
    /// tested. Returns the formatted draft and what is wrong with it.
    pub fn quality_gate(
        ws: &Workspace,
        config: Option<&str>,
        raw_code: &str,
        variant: Option<&str>,
        log: &[GateReply],
        at: usize,
    ) -> (r: Check<(String, String)>)
        ensures
            seen(r) == gated(
                ws.root@,
                opt_str(config),
                raw_code@,
                opt_str(variant),
                log@,
                at as int,
            ),
    {
        let code = Self::strip_fences(raw_code);
        let dir = ws.v2_dir(variant);
        let dir = dir.as_str();
        let manifest = join_path(dir, "Cargo.toml");
        let (there, at) = ask_flag(GateEffect::Exists { path: manifest.clone() }, log, at)?;
        if !there {
            let nothing = String::new();
            assert(nothing@ =~= Seq::<char>::empty());
            return Ok(((code, nothing), at));
        }
        let files = Self::parse_file_sections(code.as_str());
        let (_, at) = sweep_stale(dir, &files, log, at)?;
        let (failure, at) = write_out(dir, &files, log, at)?;
        if let Some(failure) = failure {
            return Ok(((code, failure), at));
        }
        let format = cargo_args("fmt", manifest.as_str());
        if at >= log.len() {
            return Err(Pause::Ask(format));
        }
        match &log[at] {
            GateReply::Ran(_) => {},
            _ => {
                return Err(Pause::Ask(format));
            },
        }
        let (formatted, at) = read_back(dir, &files, log, at + 1)?;
        let only: Option<String> = if formatted.len() == 1 {
            match formatted.get("src/main.rs") {
                Some(text) => Some(text.clone()),
                None => None,
            }
        } else {
            None
        };
        let clean = match only {
            Some(text) => text,
            None => Self::format_multi_file(&formatted),
        };
        let issues = first_issues(&files, &formatted);
        let ((errors, all_run), at) = build_and_test(manifest.as_str(), issues, log, at)?;
        if !all_run {
            return Ok(((clean, errors), at));
        }
        let (_, at) = Self::run_lint_plugins(config, dir, log, at)?;
        Ok(((clean, errors), at))
    }
}

/// The configuration of the lint rules, from where the program stands.
pub open spec fn lint_config(exe: Seq<char>) -> Option<Seq<char>> {
    match parent_of(exe) {
        None => None,
        Some(build) => match parent_of(build) {
            None => None,
            Some(target) => match parent_of(target) {
                None => None,
                Some(repo) => Some(path_join(repo, "ai-org-orchestrator/lints/sgconfig.yml"@)),
            },
        },
    }
}

proof fn lemma_joined_is_not_empty(list: Seq<Seq<char>>, sep: Seq<char>)
    requires
        list.len() > 0,
        list.last().len() > 0,
    ensures
        joined(list, sep).len() > 0,
{
}

/// Whether a program ran and found fault.
pub open spec fn found_fault(ran: Result<Output, String>) -> bool {
    ran matches Ok(o) && !o.success
}

/// Where the quality gate has nothing to say, the crate was built, and neither the linter nor the
/// tests found fault with it.
pub proof fn law_silence_means_success(
    manifest: Seq<char>,
    issues: Seq<Seq<char>>,
    log: Seq<GateReply>,
    at: int,
)
    requires
        forall|i: int| 0 <= i < issues.len() ==> (#[trigger] issues[i]).len() > 0,
    ensures
        built_and_tested(manifest, issues, log, at) matches Ok(((errors, _), end)) ==> (
        errors.len() == 0 ==> {
            &&& issues.len() == 0
            &&& end == at + 3
            &&& log[at]->Ran_0 is Ok
            &&& log[at]->Ran_0->Ok_0.success
            &&& !found_fault(log[at + 1]->Ran_0)
            &&& !found_fault(log[at + 2]->Ran_0)
        }),
{
    if let Ok(((errors, _), end)) = built_and_tested(manifest, issues, log, at) {
        reveal_strlit("cargo build not available: ");
        reveal_strlit("## cargo build\n```\n");
        reveal_strlit("## cargo clippy\n```\n");
        reveal_strlit("## cargo test\n```\n");
        if let Ok(build) = log[at]->Ran_0 {
            if !build.success {
                lemma_joined_is_not_empty(issues.push(build_issue(build.stderr@)), "\n\n"@);
            } else {
                let all = with_findings(issues, log[at + 1]->Ran_0, log[at + 2]->Ran_0);
                if all.len() > 0 {
                    if !found_fault(log[at + 1]->Ran_0) && !found_fault(log[at + 2]->Ran_0) {
                        assert(all.last() == issues[issues.len() - 1]);
                    }
                    lemma_joined_is_not_empty(all, "\n\n"@);
                }
            }
        }
    }
}

/// Lint rules do not block: whatever they find, the quality gate says of a draft what it says
/// where there are no rules.
pub proof fn law_lints_do_not_block(
    root: Seq<char>,
    config: Option<Seq<char>>,
    raw: Seq<char>,
    variant: Option<Seq<char>>,
    log: Seq<GateReply>,
    at: int,
)
    ensures
        gated(root, config, raw, variant, log, at) matches Ok((said, _)) ==> (gated(
            root,
            None,
            raw,
            variant,
            log,
            at,
        ) matches Ok((plain, _)) && plain == said),
{
}

/// Whether two records hold the same first `n` answers.
pub open spec fn agree_to(a: Seq<GateReply>, b: Seq<GateReply>, n: int) -> bool {
    n <= a.len() && n <= b.len() && a.take(n) == b.take(n)
}

proof fn lemma_agree(a: Seq<GateReply>, b: Seq<GateReply>, n: int)
    requires
        agree_to(a, b, n),
    ensures
        forall|i: int| 0 <= i < n ==> #[trigger] a[i] == b[i],
        forall|m: int| 0 <= m <= n ==> #[trigger] agree_to(a, b, m),
{
    assert forall|i: int| 0 <= i < n implies #[trigger] a[i] == b[i] by {
        assert(a.take(n)[i] == b.take(n)[i]);
    }
    assert forall|m: int| 0 <= m <= n implies #[trigger] agree_to(a, b, m) by {
        assert(a.take(m) =~= b.take(m));
    }
}

proof fn lemma_swept_depends(
    dir: Seq<char>,
    found: Seq<Seq<char>>,
    k: int,
    files: Map<Seq<char>, Seq<char>>,
    a: Seq<GateReply>,
    b: Seq<GateReply>,
    at: int,
)
    requires
        0 <= at,
    ensures
        swept_from(dir, found, k, files, a, at) matches Ok((_, n)) ==> at <= n && (agree_to(a, b, n)
            ==> swept_from(dir, found, k, files, b, at) == swept_from(
            dir,
            found,
            k,
            files,
            a,
            at,
        )),
    decreases found.len() - k,
{
    if 0 <= k < found.len() {
        if has_extension(found[k], ".rs"@) && !files.contains_key(found[k]) {
            lemma_swept_depends(dir, found, k + 1, files, a, b, at + 1);
            if let Ok((_, n)) = swept_from(dir, found, k, files, a, at) {
                if agree_to(a, b, n) {
                    lemma_agree(a, b, n);
                    assert(a[at] == b[at]);
                }
            }
        } else {
            lemma_swept_depends(dir, found, k + 1, files, a, b, at);
        }
    }
}

proof fn lemma_written_depends(
    dir: Seq<char>,
    list: Seq<Listed>,
    k: int,
    a: Seq<GateReply>,
    b: Seq<GateReply>,
    at: int,
)
    requires
        0 <= at,
    ensures
        written_from(dir, list, k, a, at) matches Ok((_, n)) ==> at <= n && (agree_to(a, b, n)
            ==> written_from(dir, list, k, b, at) == written_from(dir, list, k, a, at)),
    decreases list.len() - k,
{
    if 0 <= k < list.len() {
        if !is_writable(list[k]) {
            lemma_written_depends(dir, list, k + 1, a, b, at);
        } else {
            lemma_written_depends(dir, list, k + 1, a, b, at + 1);
            if let Ok((_, n)) = written_from(dir, list, k, a, at) {
                if agree_to(a, b, n) {
                    lemma_agree(a, b, n);
                    assert(a[at] == b[at]);
                }
            }
        }
    }
}

proof fn lemma_read_back_depends(
    dir: Seq<char>,
    list: Seq<Listed>,
    k: int,
    had: Map<Seq<char>, Seq<char>>,
    a: Seq<GateReply>,
    b: Seq<GateReply>,
    at: int,
)
    requires
        0 <= at,
    ensures
        read_back_from(dir, list, k, had, a, at) matches Ok((_, n)) ==> at <= n && (agree_to(a, b, n)
            ==> read_back_from(dir, list, k, had, b, at) == read_back_from(
            dir,
            list,
            k,
            had,
            a,
            at,
        )),
    decreases list.len() - k,
{
    if 0 <= k < list.len() && 0 <= at < a.len() && a[at] is Found {
        let content = match a[at]->Found_0 {
            Some(text) => text@,
            None => list[k].1,
        };
        lemma_read_back_depends(dir, list, k + 1, had.insert(list[k].0, content), a, b, at + 1);
        if let Ok((_, n)) = read_back_from(dir, list, k, had, a, at) {
            if agree_to(a, b, n) {
                lemma_agree(a, b, n);
                assert(a[at] == b[at]);
            }
        }
    }
}

/// What the quality gate says where there are no lint rules depends only on the answers that it
/// has used.
proof fn lemma_gated_depends(
    root: Seq<char>,
    raw: Seq<char>,
    variant: Option<Seq<char>>,
    a: Seq<GateReply>,
    b: Seq<GateReply>,
    at: int,
)
    requires
        0 <= at,
        gated(root, None, raw, variant, a, at) is Ok,
        agree_to(a, b, gated(root, None, raw, variant, a, at)->Ok_0.1),
    ensures
        gated(root, None, raw, variant, b, at) == gated(root, None, raw, variant, a, at),
{
    let n = gated(root, None, raw, variant, a, at)->Ok_0.1;
    lemma_agree(a, b, n);
    assert(at < a.len() && a[at] is Flag);
    if a[at]->Flag_0 {
        let files = sections_of(unfenced(raw));
        let dir = draft_dir(root, variant);
        let manifest = path_join(dir, "Cargo.toml"@);
        let list = listing(files);
        let at1 = at + 1;
        assert(at1 < a.len() && a[at1] is Paths);
        let found = texts(a[at1]->Paths_0@);
        lemma_swept_depends(dir, found, 0, files, a, b, at1 + 1);
        let at2 = swept(dir, files, a, at1)->Ok_0.1;
        lemma_written_depends(dir, list, 0, a, b, at2);
        let (failure, at3) = written_from(dir, list, 0, a, at2)->Ok_0;
        if failure is None {
            assert(at3 < a.len() && a[at3] is Ran);
            lemma_read_back_depends(dir, list, 0, Map::empty(), a, b, at3 + 1);
            let at4 = read_back_from(dir, list, 0, Map::empty(), a, at3 + 1)->Ok_0.1;
            assert(at4 < n);
            assert(agree_to(a, b, at4));
            assert(agree_to(a, b, at3));
            assert(a[at4] == b[at4]);
            assert(a[at3] == b[at3]);
            if n > at4 + 1 {
                assert(a[at4 + 1] == b[at4 + 1]);
                assert(a[at4 + 2] == b[at4 + 2]);
            }
        }
        assert(agree_to(a, b, at3));
        assert(agree_to(a, b, at2));
        assert(a[at1] == b[at1]);
    }
    assert(a[at] == b[at]);
}

/// What lint rules find does not block: of two runs of the quality gate on the same draft that are
/// answered alike until the rules are applied, and that both come to an end, both say the same,
/// whatever rules there are and whatever is answered about them.
pub proof fn law_lint_findings_do_not_matter(
    root: Seq<char>,
    rules: Option<Seq<char>>,
    other_rules: Option<Seq<char>>,
    raw: Seq<char>,
    variant: Option<Seq<char>>,
    a: Seq<GateReply>,
    b: Seq<GateReply>,
    at: int,
)
    requires
        0 <= at,
        gated(root, rules, raw, variant, a, at) is Ok,
        gated(root, other_rules, raw, variant, b, at) is Ok,
        agree_to(a, b, gated(root, None, raw, variant, a, at)->Ok_0.1),
    ensures
        gated(root, rules, raw, variant, a, at)->Ok_0.0 == gated(
            root,
            other_rules,
            raw,
            variant,
            b,
            at,
        )->Ok_0.0,
{
    law_lints_do_not_block(root, rules, raw, variant, a, at);
    law_lints_do_not_block(root, other_rules, raw, variant, b, at);
    lemma_gated_depends(root, raw, variant, a, b, at);
}

proof fn lemma_recording_asks(
    notes: Seq<(Seq<char>, Seq<char>)>,
    k: int,
    log: Seq<GateReply>,
    at: int,
)
    ensures
        recorded_from(notes, k, log, at) matches Err(p) ==> p is Ask,
    decreases notes.len() - k,
{
    if 0 <= k < notes.len() {
        lemma_recording_asks(notes, k + 1, log, at + 1);
    }
}

/// Applying lint rules never fails: it ends, or there is something left to be done.
pub proof fn law_lints_do_not_fail(
    rules: Option<Seq<char>>,
    dir: Seq<char>,
    log: Seq<GateReply>,
    at: int,
)
    ensures
        linted(rules, dir, log, at) matches Err(p) ==> p is Ask,
{
    if rules is Some && 0 <= at + 1 < log.len() && log[at + 1] is Ran {
        if let Ok(output) = log[at + 1]->Ran_0 {
            let matches = scanned(output.stdout@);
            lemma_recording_asks(lint_notes(matches, matches.len() as int), 0, log, at + 2);
        }
    }
}

/// What is wrong with a draft before it is built is never an empty text.
pub proof fn law_early_issues_say_something(
    files: Map<Seq<char>, Seq<char>>,
    formatted: Map<Seq<char>, Seq<char>>,
    i: int,
)
    requires
        0 <= i < early_issues(files, formatted).len(),
    ensures
        early_issues(files, formatted)[i].len() > 0,
{
    reveal_strlit("## Cargo.toml\nCargo.toml did not parse as valid TOML (");
    reveal_strlit(
        "## modularity\nFiles exceeding the 500-line limit must be split into submodules:\n",
    );
}

/// What `cargo` is asked to do, by its arguments.
pub open spec fn asks_cargo<V>(r: CheckView<V>, args: Seq<Seq<char>>) -> bool {
    r matches Err(PauseView::Ask(GateEffectView::Cargo { args: asked })) && asked == args
}

/// A draft that has a manifest and about which the quality gate says nothing was built, linted with
/// warnings denied and tested, by exactly these three commands, one after the other, the build
/// succeeded, and neither of the others failed.
pub proof fn law_silence_comes_after_build_lint_and_test(
    root: Seq<char>,
    rules: Option<Seq<char>>,
    raw: Seq<char>,
    variant: Option<Seq<char>>,
    log: Seq<GateReply>,
    at: int,
)
    requires
        0 <= at < log.len(),
        log[at] == GateReply::Flag(true),
        gated(root, rules, raw, variant, log, at) matches Ok(((_, errors), _)) && errors.len() == 0,
    ensures
        exists|p: int|
            {
                let m = path_join(draft_dir(root, variant), "Cargo.toml"@);
                &&& at < p <= log.len() - 3
                &&& #[trigger] log[p] is Ran && log[p + 1] is Ran && log[p + 2] is Ran
                &&& asks_cargo(
                    gated(root, rules, raw, variant, log.take(p), at),
                    seq!["build"@, "--manifest-path"@, m],
                )
                &&& asks_cargo(
                    gated(root, rules, raw, variant, log.take(p + 1), at),
                    seq!["clippy"@, "--manifest-path"@, m, "--"@, "-D"@, "warnings"@],
                )
                &&& asks_cargo(
                    gated(root, rules, raw, variant, log.take(p + 2), at),
                    seq!["test"@, "--manifest-path"@, m],
                )
                &&& log[p]->Ran_0 matches Ok(o) && o.success
                &&& log[p + 1]->Ran_0 matches Ok(o) ==> o.success
                &&& log[p + 2]->Ran_0 matches Ok(o) ==> o.success
            },
{
    let ((_, errors), _) = gated(root, rules, raw, variant, log, at)->Ok_0;
    let code = unfenced(raw);
    let files = sections_of(code);
    let dir = draft_dir(root, variant);
    let manifest = path_join(dir, "Cargo.toml"@);
    let list = listing(files);
    let at1 = at + 1;
    let at2 = swept(dir, files, log, at1)->Ok_0.1;
    let (failure, at3) = written_from(dir, list, 0, log, at2)->Ok_0;
    lemma_swept_depends(dir, texts(log[at1]->Paths_0@), 0, files, log, log, at1 + 1);
    lemma_written_depends(dir, list, 0, log, log, at2);
    lemma_write_failures_say_something(dir, list, 0, log, at2);
    assert(failure is None);
    let (formatted, p) = read_back_from(dir, list, 0, Map::empty(), log, at3 + 1)->Ok_0;
    lemma_read_back_depends(dir, list, 0, Map::empty(), log, log, at3 + 1);
    let issues = early_issues(files, formatted);
    assert forall|i: int| 0 <= i < issues.len() implies (#[trigger] issues[i]).len() > 0 by {
        law_early_issues_say_something(files, formatted, i);
    }
    law_silence_means_success(manifest, issues, log, p);
    assert(log[p] is Ran && log[p + 1] is Ran && log[p + 2] is Ran);
    lemma_gate_reaches_build(root, rules, raw, variant, log, at, p);
    lemma_gate_reaches_build(root, rules, raw, variant, log, at, p + 1);
    lemma_gate_reaches_build(root, rules, raw, variant, log, at, p + 2);
    assert(seq!["build"@, "--manifest-path"@, manifest] + Seq::<Seq<char>>::empty() =~= seq![
        "build"@,
        "--manifest-path"@,
        manifest,
    ]);
    assert(seq!["test"@, "--manifest-path"@, manifest] + Seq::<Seq<char>>::empty() =~= seq![
        "test"@,
        "--manifest-path"@,
        manifest,
    ]);
    assert(seq!["clippy"@, "--manifest-path"@, manifest] + seq!["--"@, "-D"@, "warnings"@] =~= seq![
        "clippy"@,
        "--manifest-path"@,
        manifest,
        "--"@,
        "-D"@,
        "warnings"@,
    ]);
    let a = gated(root, rules, raw, variant, log.take(p), at);
    let b = gated(root, rules, raw, variant, log.take(p + 1), at);
    let c = gated(root, rules, raw, variant, log.take(p + 2), at);
    assert(log.take(p + 1)[p] == log[p]);
    assert(log.take(p + 2)[p] == log[p] && log.take(p + 2)[p + 1] == log[p + 1]);
    assert(asks_cargo(a, seq!["build"@, "--manifest-path"@, manifest]));
    assert(asks_cargo(
        b,
        seq!["clippy"@, "--manifest-path"@, manifest, "--"@, "-D"@, "warnings"@],
    ));
    assert(asks_cargo(c, seq!["test"@, "--manifest-path"@, manifest]));
}

proof fn lemma_write_failures_say_something(
    dir: Seq<char>,
    list: Seq<Listed>,
    k: int,
    log: Seq<GateReply>,
    at: int,
)
    ensures
        written_from(dir, list, k, log, at) matches Ok((Some(failure), _)) ==> failure.len() > 0,
    decreases list.len() - k,
{
    reveal_strlit("failed to create dir: ");
    reveal_strlit("failed to write ");
    if 0 <= k < list.len() {
        lemma_write_failures_say_something(dir, list, k + 1, log, at);
        lemma_write_failures_say_something(dir, list, k + 1, log, at + 1);
    }
}

/// Where the answers to all that comes before the build are there, the quality gate is at the build.
proof fn lemma_gate_reaches_build(
    root: Seq<char>,
    rules: Option<Seq<char>>,
    raw: Seq<char>,
    variant: Option<Seq<char>>,
    log: Seq<GateReply>,
    at: int,
    q: int,
)
    requires
        0 <= at < log.len(),
        log[at] == GateReply::Flag(true),
        ({
            let files = sections_of(unfenced(raw));
            let dir = draft_dir(root, variant);
            let list = listing(files);
            let wrote = written_from(dir, list, 0, log, swept(dir, files, log, at + 1)->Ok_0.1);
            let at3 = wrote->Ok_0.1;
            let read = read_back_from(dir, list, 0, Map::empty(), log, at3 + 1);
            &&& swept(dir, files, log, at + 1) is Ok
            &&& wrote is Ok && wrote->Ok_0.0 is None
            &&& 0 <= at3 < log.len() && log[at3] is Ran
            &&& read is Ok && read->Ok_0.1 <= q <= log.len()
        }),
    ensures
        ({
            let files = sections_of(unfenced(raw));
            let dir = draft_dir(root, variant);
            let list = listing(files);
            let at2 = swept(dir, files, log, at + 1)->Ok_0.1;
            let at3 = written_from(dir, list, 0, log, at2)->Ok_0.1;
            let (formatted, p) = read_back_from(dir, list, 0, Map::empty(), log, at3 + 1)->Ok_0;
            built_and_tested(
                path_join(dir, "Cargo.toml"@),
                early_issues(files, formatted),
                log.take(q),
                p,
            ) matches Err(e) ==> gated(root, rules, raw, variant, log.take(q), at) == Err::<
                ((Seq<char>, Seq<char>), int),
                PauseView<GateEffectView>,
            >(e)
        }),
{
    let cut = log.take(q);
    let files = sections_of(unfenced(raw));
    let dir = draft_dir(root, variant);
    let list = listing(files);
    let at1 = at + 1;
    let found = texts(log[at1]->Paths_0@);
    let at2 = swept(dir, files, log, at1)->Ok_0.1;
    let at3 = written_from(dir, list, 0, log, at2)->Ok_0.1;
    let (formatted, p) = read_back_from(dir, list, 0, Map::empty(), log, at3 + 1)->Ok_0;
    lemma_swept_depends(dir, found, 0, files, log, cut, at1 + 1);
    lemma_written_depends(dir, list, 0, log, cut, at2);
    lemma_read_back_depends(dir, list, 0, Map::empty(), log, cut, at3 + 1);
    assert(log.take(q) =~= cut.take(q));
    assert(agree_to(log, cut, q));
    lemma_agree(log, cut, q);
    assert(agree_to(log, cut, at2));
    assert(agree_to(log, cut, at3));
    assert(agree_to(log, cut, p));
    assert(cut[at] == log[at]);
    assert(cut[at1] == log[at1]);
    assert(cut[at3] == log[at3]);
}

/// Whatever fails is told: where the build, the linter or the tests fail, the report of the quality
/// gate holds what they printed, as far as it is kept.
pub proof fn law_failures_are_told(
    manifest: Seq<char>,
    issues: Seq<Seq<char>>,
    log: Seq<GateReply>,
    at: int,
)
    ensures
        built_and_tested(manifest, issues, log, at) matches Ok(((errors, _), _)) ==> {
            &&& log[at]->Ran_0 matches Ok(o) ==> (!o.success ==> has(errors, capped(o.stderr@, 120)))
            &&& log[at]->Ran_0 matches Err(e) ==> has(errors, e@)
            &&& (log[at]->Ran_0 matches Ok(o) && o.success) ==> {
                &&& log[at + 1]->Ran_0 matches Ok(o) ==> (!o.success ==> has(
                    errors,
                    capped(o.stderr@, 80),
                ))
                &&& log[at + 2]->Ran_0 matches Ok(o) ==> (!o.success ==> has(
                    errors,
                    capped(o.stdout@, 60),
                ) && has(errors, capped(o.stderr@, 40)))
                &&& forall|i: int|
                    0 <= i < issues.len() ==> has(errors, #[trigger] issues[i])
            }
        },
{
    if built_and_tested(manifest, issues, log, at) is Ok {
        let none = Seq::<char>::empty();
        let sep = "\n\n"@;
        match log[at]->Ran_0 {
            Err(e) => {
                lemma_has_itself(e@);
                lemma_part_has("cargo build not available: "@, e@, none, e@);
                assert("cargo build not available: "@ + e@ + none =~= "cargo build not available: "@
                    + e@);
            },
            Ok(build) => if !build.success {
                let all = issues.push(build_issue(build.stderr@));
                lemma_issue_told(
                    all,
                    issues.len() as int,
                    "## cargo build\n```\n"@,
                    capped(build.stderr@, 120),
                    "\n```"@,
                );
            } else {
                let all = with_findings(issues, log[at + 1]->Ran_0, log[at + 2]->Ran_0);
                if let Ok(o) = log[at + 1]->Ran_0 {
                    if !o.success {
                        assert(all[issues.len() as int] == clippy_issue(o.stderr@));
                        lemma_issue_told(
                            all,
                            issues.len() as int,
                            "## cargo clippy\n```\n"@,
                            capped(o.stderr@, 80),
                            "\n```"@,
                        );
                    }
                }
                if let Ok(o) = log[at + 2]->Ran_0 {
                    if !o.success {
                        let out = capped(o.stdout@, 60);
                        let err = capped(o.stderr@, 40);
                        assert(all[all.len() - 1] == test_issue(o.stdout@, o.stderr@));
                        assert(test_issue(o.stdout@, o.stderr@) =~= "## cargo test\n```\n"@ + out + (
                        err + "\n```"@));
                        lemma_issue_told(
                            all,
                            all.len() - 1,
                            "## cargo test\n```\n"@,
                            out,
                            err + "\n```"@,
                        );
                        lemma_issue_told(
                            all,
                            all.len() - 1,
                            "## cargo test\n```\n"@ + out,
                            err,
                            "\n```"@,
                        );
                    }
                }
                assert forall|i: int| 0 <= i < issues.len() implies has(
                    joined(all, sep),
                    #[trigger] issues[i],
                ) by {
                    assert(all[i] == issues[i]);
                    lemma_joined_has(all, sep, i);
                }
            },
        }
    }
}

proof fn lemma_issue_told(
    all: Seq<Seq<char>>,
    i: int,
    before: Seq<char>,
    part: Seq<char>,
    behind: Seq<char>,
)
    requires
        0 <= i < all.len(),
        all[i] == before + part + behind,
    ensures
        has(joined(all, "\n\n"@), part),
{
    lemma_has_itself(part);
    lemma_part_has(before, part, behind, part);
    lemma_joined_has(all, "\n\n"@, i);
    lemma_has_through(joined(all, "\n\n"@), all[i], part);
}

/// A file of more than 500 lines is an issue, whichever it is, and the report names it; where no file
/// is that long and the manifest parses, there is none.
pub proof fn law_long_files_are_an_issue(
    files: Map<Seq<char>, Seq<char>>,
    formatted: Map<Seq<char>, Seq<char>>,
    i: int,
)
    requires
        0 <= i < listing(formatted).len(),
    ensures
        lines_of(listing(formatted)[i].1).len() > 500 ==> exists|j: int|
            0 <= j < early_issues(files, formatted).len() && has(
                #[trigger] early_issues(files, formatted)[j],
                listing(formatted)[i].0,
            ),
        (forall|j: int|
            0 <= j < listing(formatted).len() ==> lines_of(
                (#[trigger] listing(formatted)[j]).1,
            ).len() <= 500) && !files.contains_key("Cargo.toml"@) ==> early_issues(
            files,
            formatted,
        ).len() == 0,
{
    let list = listing(formatted);
    let long = too_long(list);
    let path = list[i].0;
    if lines_of(list[i].1).len() > 500 {
        lemma_too_long(list, i);
        let entry = path + " ("@ + decimal(lines_of(list[i].1).len()) + " lines)"@;
        let issues = early_issues(files, formatted);
        let j = issues.len() - 1;
        lemma_sorted(long);
        assert(sorted(long).contains(entry));
        let k = choose|k: int| 0 <= k < sorted(long).len() && sorted(long)[k] == entry;
        lemma_joined_has(sorted(long), "\n"@, k);
        let text = joined(sorted(long), "\n"@);
        lemma_has_itself(path);
        let none = Seq::<char>::empty();
        lemma_part_has(none, path, entry.skip(path.len() as int), path);
        assert(none + path + entry.skip(path.len() as int) =~= entry);
        lemma_has_through(text, entry, path);
        lemma_part_has(
            "## modularity\nFiles exceeding the 500-line limit must be split into submodules:\n"@,
            text,
            "\n\nDeclare each submodule with `mod name;` in main.rs and emit its content prefixed with `// === src/name.rs ===`. Every file must be ≤500 lines."@,
            path,
        );
        assert(issues[j] == modularity_issue(long));
    }
    if forall|j: int| 0 <= j < list.len() ==> lines_of((#[trigger] list[j]).1).len() <= 500 {
        lemma_none_too_long(list);
    }
}

proof fn lemma_too_long(list: Seq<Listed>, i: int)
    requires
        0 <= i < list.len(),
        lines_of(list[i].1).len() > 500,
    ensures
        too_long(list).contains(
            list[i].0 + " ("@ + decimal(lines_of(list[i].1).len()) + " lines)"@,
        ),
    decreases list.len(),
{
    let entry = list[i].0 + " ("@ + decimal(lines_of(list[i].1).len()) + " lines)"@;
    if i == list.len() - 1 {
        assert(too_long(list).last() == entry);
    } else {
        lemma_too_long(list.drop_last(), i);
        let less = too_long(list.drop_last());
        let k = choose|k: int| 0 <= k < less.len() && less[k] == entry;
        assert(too_long(list)[k] == entry);
    }
}

proof fn lemma_none_too_long(list: Seq<Listed>)
    requires
        forall|j: int| 0 <= j < list.len() ==> lines_of((#[trigger] list[j]).1).len() <= 500,
    ensures
        too_long(list).len() == 0,
    decreases list.len(),
{
    if list.len() > 0 {
        assert forall|j: int| 0 <= j < list.len() - 1 implies lines_of(
            (#[trigger] list.drop_last()[j]).1,
        ).len() <= 500 by {
            assert(list.drop_last()[j] == list[j]);
        }
        assert(lines_of(list[list.len() - 1].1).len() <= 500);
        lemma_none_too_long(list.drop_last());
    }
}

/// Every file of a draft is written out, under its path and with its content, before anything is
/// built; only a manifest that does not parse is not.
pub proof fn law_every_file_is_written(
    dir: Seq<char>,
    list: Seq<Listed>,
    k: int,
    log: Seq<GateReply>,
    at: int,
    i: int,
)
    requires
        0 <= k <= i < list.len(),
        0 <= at,
        list[i].0 != "Cargo.toml"@ || toml_failure(list[i].1) is None,
        written_from(dir, list, k, log, at) matches Ok((None, _)),
    ensures
        exists|q: int|
            at <= q < log.len() && #[trigger] log[q] is Put && written_from(
                dir,
                list,
                k,
                log.take(q),
                at,
            ) == Err::<(Option<Seq<char>>, int), PauseView<GateEffectView>>(
                PauseView::Ask(
                    GateEffectView::Put { path: path_join(dir, list[i].0), content: list[i].1 },
                ),
            ),
    decreases list.len() - k,
{
    if k == i {
        assert(log[at] is Put);
    } else if !is_writable(list[k]) {
        law_every_file_is_written(dir, list, k + 1, log, at, i);
        let q = choose|q: int|
            at <= q < log.len() && #[trigger] log[q] is Put && written_from(
                dir,
                list,
                k + 1,
                log.take(q),
                at,
            ) == Err::<(Option<Seq<char>>, int), PauseView<GateEffectView>>(
                PauseView::Ask(
                    GateEffectView::Put { path: path_join(dir, list[i].0), content: list[i].1 },
                ),
            );
        assert(log[q] is Put);
    } else {
        law_every_file_is_written(dir, list, k + 1, log, at + 1, i);
        let q = choose|q: int|
            at + 1 <= q < log.len() && #[trigger] log[q] is Put && written_from(
                dir,
                list,
                k + 1,
                log.take(q),
                at + 1,
            ) == Err::<(Option<Seq<char>>, int), PauseView<GateEffectView>>(
                PauseView::Ask(
                    GateEffectView::Put { path: path_join(dir, list[i].0), content: list[i].1 },
                ),
            );
        assert(log.take(q)[at] == log[at]);
        assert(log[q] is Put);
    }
}

/// A draft is delivered as it was read back: each file as it then was, or as it was written where
/// it could not be read.
pub proof fn law_files_are_read_back(
    dir: Seq<char>,
    list: Seq<Listed>,
    k: int,
    had: Map<Seq<char>, Seq<char>>,
    log: Seq<GateReply>,
    at: int,
    i: int,
)
    requires
        0 <= k <= i < list.len(),
        0 <= at,
        strictly_ordered(list),
        read_back_from(dir, list, k, had, log, at) is Ok,
    ensures
        ({
            let (all, end) = read_back_from(dir, list, k, had, log, at)->Ok_0;
            &&& end == at + (list.len() - k)
            &&& log[at + (i - k)] is Found
            &&& all.contains_key(list[i].0)
            &&& all[list[i].0] == match log[at + (i - k)]->Found_0 {
                Some(text) => text@,
                None => list[i].1,
            }
        }),
    decreases list.len() - k,
{
    let content = match log[at]->Found_0 {
        Some(text) => text@,
        None => list[k].1,
    };
    let more = had.insert(list[k].0, content);
    if k < i {
        law_files_are_read_back(dir, list, k + 1, more, log, at + 1, i);
    } else {
        lemma_read_back_keeps(dir, list, k + 1, more, log, at + 1, k);
    }
}

proof fn lemma_read_back_keeps(
    dir: Seq<char>,
    list: Seq<Listed>,
    k: int,
    had: Map<Seq<char>, Seq<char>>,
    log: Seq<GateReply>,
    at: int,
    i: int,
)
    requires
        0 <= i < k <= list.len(),
        strictly_ordered(list),
        had.contains_key(list[i].0),
        read_back_from(dir, list, k, had, log, at) is Ok,
    ensures
        ({
            let (all, end) = read_back_from(dir, list, k, had, log, at)->Ok_0;
            &&& end == at + (list.len() - k)
            &&& all.contains_key(list[i].0) && all[list[i].0] == had[list[i].0]
        }),
    decreases list.len() - k,
{
    if k < list.len() {
        assert(before(list[i].0, list[k].0));
        lemma_order_total(list[i].0, list[k].0);
        let content = match log[at]->Found_0 {
            Some(text) => text@,
            None => list[k].1,
        };
        lemma_read_back_keeps(dir, list, k + 1, had.insert(list[k].0, content), log, at + 1, i);
    }
}

/// What is left of an earlier draft is removed: every source file that is found and that the draft
/// does not have.
pub proof fn law_stale_files_are_removed(
    dir: Seq<char>,
    found: Seq<Seq<char>>,
    k: int,
    files: Map<Seq<char>, Seq<char>>,
    log: Seq<GateReply>,
    at: int,
    i: int,
)
    requires
        0 <= k <= i < found.len(),
        0 <= at,
        has_extension(found[i], ".rs"@),
        !files.contains_key(found[i]),
        swept_from(dir, found, k, files, log, at) is Ok,
    ensures
        exists|q: int|
            at <= q < log.len() && #[trigger] log[q] is Done && swept_from(
                dir,
                found,
                k,
                files,
                log.take(q),
                at,
            ) == Err::<((), int), PauseView<GateEffectView>>(
                PauseView::Ask(GateEffectView::Remove { path: path_join(dir, found[i]) }),
            ),
    decreases found.len() - k,
{
    if k == i {
        assert(log[at] is Done);
    } else {
        let asked = has_extension(found[k], ".rs"@) && !files.contains_key(found[k]);
        let next = if asked {
            at + 1
        } else {
            at
        };
        law_stale_files_are_removed(dir, found, k + 1, files, log, next, i);
        let q = choose|q: int|
            next <= q < log.len() && #[trigger] log[q] is Done && swept_from(
                dir,
                found,
                k + 1,
                files,
                log.take(q),
                next,
            ) == Err::<((), int), PauseView<GateEffectView>>(
                PauseView::Ask(GateEffectView::Remove { path: path_join(dir, found[i]) }),
            );
        if asked {
            assert(log.take(q)[at] == log[at]);
        }
        assert(log[q] is Done);
    }
}

} // verus!
