//! The queue over the network, seen from both ends: what is sent to a server, what the server
//! makes of it, and what is said in return.

use crate::copied::opt_view;
use crate::jobs::State;
use crate::numbers::{decimal, decimal_text};
use crate::order::{sort, sorted};
use crate::paths::{bare, bare_url, join_path, path_join};
use crate::requests::{QueueRequest, QueueRequestView};
use crate::text::{
    contains, has, join, joined, opt, pieces, same, split, starts_with, texts, trim, trimmed,
};
use crate::tools::{either, is_under};
use crate::view::{shown_state, Shown};
use vstd::prelude::*;
use vstd::string::StringExecFns;

verus! {

/// Where what belongs to the user is configured, by the environment: `config_home` for
/// `XDG_CONFIG_HOME`.
pub open spec fn config_directory(config_home: Option<Seq<char>>, home: Option<Seq<char>>) -> Seq<
    char,
> {
    path_join(
        match config_home {
            Some(dir) => dir,
            None => path_join(
                match home {
                    Some(dir) => dir,
                    None => "."@,
                },
                ".config"@,
            ),
        },
        "rewriter"@,
    )
}

/// Where what belongs to the user is configured.
pub fn config_dir(config_home: Option<String>, home: Option<String>) -> (r: String)
    ensures
        r@ == config_directory(opt_view(config_home), opt_view(home)),
{
    let base = match config_home {
        Some(dir) => dir,
        None => {
            let dir = match home {
                Some(dir) => dir,
                None => ".".to_owned(),
            };
            join_path(dir.as_str(), ".config")
        },
    };
    join_path(base.as_str(), "rewriter")
}

/// The server that a queue is on: `chosen` for `REWRITER_QUEUE_URL`, or the configured one. An
/// empty choice means none, even where one is configured.
pub open spec fn chosen_server(
    chosen: Option<Seq<char>>,
    configured: Option<Seq<char>>,
) -> Option<Seq<char>> {
    match (match chosen {
        Some(url) => Some(url),
        None => configured,
    }) {
        Some(url) => if bare(url).len() == 0 {
            None
        } else {
            Some(bare(url))
        },
        None => None,
    }
}

/// The server that a queue is on, or none where it is a local one.
pub fn server_url(chosen: Option<String>, configured: Option<String>) -> (r: Option<String>)
    ensures
        opt(r) == chosen_server(opt_view(chosen), opt_view(configured)),
{
    let url = match chosen {
        Some(url) => url,
        None => match configured {
            Some(url) => url,
            None => {
                return None;
            },
        },
    };
    let clean = bare_url(url.as_str());
    if clean.as_str().is_empty() {
        None
    } else {
        Some(clean)
    }
}

/// The token that goes with a queue: `chosen` for `REWRITER_QUEUE_TOKEN`, or what the file at
/// `path` holds.
pub open spec fn chosen_token(
    chosen: Option<Seq<char>>,
    file: Option<Seq<char>>,
    path: Seq<char>,
) -> Result<Seq<char>, Seq<char>> {
    match chosen {
        Some(t) => Ok(trimmed(t)),
        None => match file {
            Some(t) => if trimmed(t).len() > 0 {
                Ok(trimmed(t))
            } else {
                Err(no_token(path))
            },
            None => Err(no_token(path)),
        },
    }
}

/// What is said where there is no token.
pub open spec fn no_token(path: Seq<char>) -> Seq<char> {
    "no queue token: set REWRITER_QUEUE_TOKEN or put one in "@ + path
}

/// The token that goes with a queue.
pub fn token(chosen: Option<String>, file: Option<String>, path: &str) -> (r: Result<
    String,
    String,
>)
    ensures
        either(r) == chosen_token(opt_view(chosen), opt_view(file), path@),
{
    if let Some(t) = chosen {
        return Ok(trim(t.as_str()));
    }
    if let Some(t) = file {
        let clean = trim(t.as_str());
        if !clean.as_str().is_empty() {
            return Ok(clean);
        }
    }
    Err("no queue token: set REWRITER_QUEUE_TOKEN or put one in ".to_owned().concat(path))
}

/// What is sent to a server.
#[derive(Debug, PartialEq)]
pub struct Target {
    pub method: &'static str,
    pub path: String,
    pub query: Vec<(String, String)>,
}

/// What is sent to a server, by its contents.
pub struct TargetView {
    pub method: Seq<char>,
    pub path: Seq<char>,
    pub query: Seq<(Seq<char>, Seq<char>)>,
}

/// The views of pairs of texts.
pub open spec fn pair_texts(list: Seq<(String, String)>) -> Seq<(Seq<char>, Seq<char>)> {
    list.map_values(|p: (String, String)| (p.0@, p.1@))
}

impl View for Target {
    type V = TargetView;

    open spec fn view(&self) -> TargetView {
        TargetView { method: self.method@, path: self.path@, query: pair_texts(self.query@) }
    }
}

/// The path of a job on a server, with what is asked of it.
pub open spec fn job_path(id: u32, what: Seq<char>) -> Seq<char> {
    "/jobs/"@ + decimal(id as nat) + what
}

fn make_job_path(id: u32, what: &str) -> (r: String)
    ensures
        r@ == job_path(id, what@),
{
    "/jobs/".to_owned().concat(decimal_text(id as u64).as_str()).concat(what)
}

/// What the source of a job is called on a server.
pub open spec fn upload_name(source: Seq<char>) -> Seq<char> {
    match crate::view::last_part(source) {
        Some(name) => name,
        None => Seq::empty(),
    }
}

/// What is sent to a server for a request.
pub open spec fn target_of(req: QueueRequestView) -> TargetView {
    match req {
        QueueRequestView::Submit { source, workspace, max_iter, inherit_env } => {
            let query = seq![
                ("name"@, upload_name(source)),
                (
                    "inherit_env"@,
                    if inherit_env {
                        "true"@
                    } else {
                        "false"@
                    },
                ),
            ];
            TargetView {
                method: "POST"@,
                path: "/jobs"@,
                query: match max_iter {
                    Some(n) => query.push(("max_iter"@, decimal(n as nat))),
                    None => query,
                },
            }
        },
        QueueRequestView::List => TargetView {
            method: "GET"@,
            path: "/jobs"@,
            query: Seq::empty(),
        },
        QueueRequestView::Status { id, lines } => TargetView {
            method: "GET"@,
            path: job_path(id, "?lines="@ + decimal(lines as nat)),
            query: Seq::empty(),
        },
        QueueRequestView::Cancel { id } => TargetView {
            method: "POST"@,
            path: job_path(id, "/cancel"@),
            query: Seq::empty(),
        },
        QueueRequestView::Fetch { id, out } => TargetView {
            method: "GET"@,
            path: job_path(id, "/result"@),
            query: Seq::empty(),
        },
        QueueRequestView::Download { id, out } => TargetView {
            method: "GET"@,
            path: job_path(id, "/artifacts.tar.gz"@),
            query: Seq::empty(),
        },
        QueueRequestView::Artifacts { id } => TargetView {
            method: "GET"@,
            path: job_path(id, "/artifacts"@),
            query: Seq::empty(),
        },
        QueueRequestView::Artifact { id, path, save_to } => TargetView {
            method: "GET"@,
            path: job_path(id, "/artifact"@),
            query: seq![("path"@, path)],
        },
    }
}

fn plain_target(method: &'static str, path: String) -> (r: Target)
    ensures
        r@ == (TargetView { method: method@, path: path@, query: Seq::empty() }),
{
    let t = Target { method, path, query: Vec::new() };
    assert(t@.query =~= Seq::<(Seq<char>, Seq<char>)>::empty());
    t
}

/// What is sent to a server for a request.
pub fn target(req: &QueueRequest) -> (r: Target)
    ensures
        r@ == target_of(req@),
{
    match req {
        QueueRequest::Submit { source, workspace: _, max_iter, inherit_env } => {
            let name = match crate::view::find_last_part(source.as_str()) {
                Some(name) => name,
                None => {
                    let none = String::new();
                    assert(none@ =~= Seq::<char>::empty());
                    none
                },
            };
            let inherit = if *inherit_env {
                "true"
            } else {
                "false"
            };
            let mut query = vec![
                ("name".to_owned(), name),
                ("inherit_env".to_owned(), inherit.to_owned()),
            ];
            if let Some(n) = max_iter {
                query.push(("max_iter".to_owned(), decimal_text(*n as u64)));
            }
            assert(pair_texts(query@) =~= target_of(req@).query);
            Target { method: "POST", path: "/jobs".to_owned(), query }
        },
        QueueRequest::List => plain_target("GET", "/jobs".to_owned()),
        QueueRequest::Status { id, lines } => {
            let what = "?lines=".to_owned().concat(decimal_text(*lines as u64).as_str());
            plain_target("GET", make_job_path(*id, what.as_str()))
        },
        QueueRequest::Cancel { id } => plain_target("POST", make_job_path(*id, "/cancel")),
        QueueRequest::Fetch { id, out: _ } => plain_target("GET", make_job_path(*id, "/result")),
        QueueRequest::Download { id, out: _ } => plain_target(
            "GET",
            make_job_path(*id, "/artifacts.tar.gz"),
        ),
        QueueRequest::Artifacts { id } => plain_target("GET", make_job_path(*id, "/artifacts")),
        QueueRequest::Artifact { id, path, save_to: _ } => {
            let query = vec![("path".to_owned(), path.clone())];
            assert(pair_texts(query@) =~= seq![("path"@, path@)]);
            Target { method: "GET", path: make_job_path(*id, "/artifact"), query }
        },
    }
}

/// How a server is told who asks.
pub fn authorization(token: &str) -> (r: String)
    ensures
        r@ == "Bearer "@ + token@,
{
    "Bearer ".to_owned().concat(token)
}

/// What is said where a server reports a failure.
pub fn refused_text(code: u16, body: &str) -> (r: String)
    ensures
        r@ == "queue server replied "@ + decimal(code as nat) + ": "@ + trimmed(body@),
{
    "queue server replied ".to_owned().concat(decimal_text(code as u64).as_str()).concat(
        ": ",
    ).concat(trim(body).as_str())
}

/// What is said where a server cannot be reached.
pub fn unreachable_text(base: &str, reason: &str) -> (r: String)
    ensures
        r@ == "cannot reach queue server at "@ + base@ + ": "@ + reason@,
{
    "cannot reach queue server at ".to_owned().concat(base).concat(": ").concat(reason)
}

/// What is said once something has been downloaded.
pub fn written_text(what: &str, id: u32, out: &str) -> (r: String)
    ensures
        r@ == what@ + " for job #"@ + decimal(id as nat) + " written to "@ + out@,
{
    what.to_owned().concat(" for job #").concat(decimal_text(id as u64).as_str()).concat(
        " written to ",
    ).concat(out)
}

/// The first manifest from `i` on that is a workspace's. One that cannot be read is passed over.
pub open spec fn workspace_at(manifests: Seq<Option<String>>, i: int) -> Option<int>
    decreases manifests.len() - i,
{
    if i < 0 || i >= manifests.len() {
        None
    } else {
        match opt_view(manifests[i]) {
            Some(text) => if has(text, "[workspace]"@) {
                Some(i)
            } else {
                workspace_at(manifests, i + 1)
            },
            None => workspace_at(manifests, i + 1),
        }
    }
}

/// The manifest that is uploaded with a source: `manifests` are those of the directories above
/// it, nearest first.
pub fn workspace_manifest(manifests: &[Option<String>]) -> (r: Option<usize>)
    ensures
        match r {
            Some(k) => workspace_at(manifests@, 0) == Some(k as int),
            None => workspace_at(manifests@, 0) is None,
        },
{
    let mut i: usize = 0;
    while i < manifests.len()
        invariant
            i <= manifests@.len(),
            workspace_at(manifests@, 0) == workspace_at(manifests@, i as int),
        decreases manifests@.len() - i,
    {
        if let Some(text) = &manifests[i] {
            if contains(text.as_str(), "[workspace]") {
                return Some(i);
            }
        }
        i += 1;
    }
    None
}

/// What is said of a job that was queued, by how many are before it.
pub open spec fn queued_note(id: u32, ahead: nat) -> Seq<char> {
    "queued job #"@ + decimal(id as nat) + " ("@ + decimal(ahead) + " ahead)"@
}

/// How many of some jobs stand before job `id` and are not over.
pub open spec fn ahead_of(id: u32, jobs: Seq<Shown>) -> nat
    decreases jobs.len(),
{
    if jobs.len() == 0 {
        0
    } else {
        let rest = ahead_of(id, jobs.drop_last());
        let s = jobs.last();
        if s.job.id < id && (shown_state(s) == State::Queued || shown_state(s) == State::Running) {
            rest + 1
        } else {
            rest
        }
    }
}

/// What is said of a job that was queued.
pub fn queued_text(id: u32, jobs: &[Shown]) -> (r: String)
    ensures
        r@ == queued_note(id, ahead_of(id, jobs@)),
{
    let mut ahead: u64 = 0;
    let mut i: usize = 0;
    assert(jobs@.take(0) =~= Seq::<Shown>::empty());
    while i < jobs.len()
        invariant
            i <= jobs@.len(),
            ahead <= i,
            ahead == ahead_of(id, jobs@.take(i as int)),
        decreases jobs@.len() - i,
    {
        let s = &jobs[i];
        assert(jobs@.take(i + 1).drop_last() =~= jobs@.take(i as int));
        assert(jobs@.take(i + 1).last() == jobs@[i as int]);
        let waiting = match crate::jobs::Queue::effective_state(&s.job, s.cancel_requested) {
            State::Queued => true,
            State::Running => true,
            _ => false,
        };
        if s.job.id < id && waiting {
            ahead += 1;
        }
        i += 1;
    }
    assert(jobs@.take(i as int) =~= jobs@);
    "queued job #".to_owned().concat(decimal_text(id as u64).as_str()).concat(" (").concat(
        decimal_text(ahead).as_str(),
    ).concat(" ahead)")
}

/// What is said of a job that is to be cancelled.
pub fn cancel_text(id: u32) -> (r: String)
    ensures
        r@ == "cancel requested for job #"@ + decimal(id as nat),
{
    "cancel requested for job #".to_owned().concat(decimal_text(id as u64).as_str())
}

/// What is shown of one job with the end of its log.
pub fn status_text(detail: &str, tail: &str) -> (r: String)
    ensures
        r@ == detail@ + "\n\n"@ + tail@,
{
    detail.to_owned().concat("\n\n").concat(tail)
}

pub const NOTHING_TO_FETCH: &'static str =
    "local jobs write straight to their workspace; there is nothing to fetch";

/// What is said where what is to be downloaded is here already.
pub fn already_here_text(workspace: &str) -> (r: String)
    ensures
        r@ == "local job — artifacts already on disk at "@ + path_join(workspace@, "artifacts"@),
{
    "local job — artifacts already on disk at ".to_owned().concat(
        join_path(workspace, "artifacts").as_str(),
    )
}

/// What is said of an artifact that was saved.
pub fn saved_text(bytes: usize, out: &str) -> (r: String)
    ensures
        r@ == "wrote "@ + decimal(bytes as nat) + " bytes to "@ + out@,
{
    "wrote ".to_owned().concat(decimal_text(bytes as u64).as_str()).concat(" bytes to ").concat(
        out,
    )
}

/// The list of artifacts, by their paths.
pub open spec fn artifact_list(paths: Seq<Seq<char>>) -> Seq<char> {
    if paths.len() == 0 {
        "(no artifacts yet)"@
    } else {
        joined(sorted(paths), "\n"@)
    }
}

/// The list of artifacts, by their paths; none where there is no directory for them.
pub fn list_artifacts_at(paths: Option<Vec<String>>) -> (r: String)
    ensures
        r@ == artifact_list(
            match paths {
                Some(list) => texts(list@),
                None => Seq::empty(),
            },
        ),
{
    match paths {
        Some(list) => {
            assert(texts(list@).len() == list@.len());
            if list.len() == 0 {
                "(no artifacts yet)".to_owned()
            } else {
                join(sort(list).as_slice(), "\n")
            }
        },
        None => "(no artifacts yet)".to_owned(),
    }
}

/// Whether a path can name an artifact: it names something, and leads neither up nor to the
/// root.
pub open spec fn is_artifact_path(rel: Seq<char>) -> bool {
    &&& rel.len() > 0
    &&& !"/"@.is_prefix_of(rel)
    &&& forall|i: int| 0 <= i < pieces(rel, '/').len() ==> #[trigger] pieces(rel, '/')[i] != ".."@
}

/// Where an artifact of a workspace stands.
pub fn read_artifact_at(workspace: &str, rel_path: &str) -> (r: Result<String, String>)
    ensures
        either(r) == (if is_artifact_path(rel_path@) {
            Ok(path_join(path_join(workspace@, "artifacts"@), rel_path@))
        } else {
            Err("invalid artifact path: "@ + rel_path@)
        }),
{
    let mut legal = !rel_path.is_empty() && !starts_with(rel_path, "/");
    let parts = split(rel_path, '/');
    let ghost all = pieces(rel_path@, '/');
    let ghost sound = legal;
    let mut i: usize = 0;
    while i < parts.len()
        invariant
            i <= parts@.len(),
            texts(parts@) == all,
            legal == (sound && forall|j: int| 0 <= j < i ==> #[trigger] all[j] != ".."@),
        decreases parts@.len() - i,
    {
        assert(all[i as int] == parts@[i as int]@);
        if same(parts[i].as_str(), "..") {
            assert(all[i as int] == ".."@);
            legal = false;
        }
        i += 1;
    }
    if legal {
        Ok(join_path(join_path(workspace, "artifacts").as_str(), rel_path))
    } else {
        Err("invalid artifact path: ".to_owned().concat(rel_path))
    }
}

/// What can be read of a workspace stands under its directory of artifacts.
pub proof fn law_artifacts_stay_inside(dir: Seq<char>, rel: Seq<char>)
    requires
        is_artifact_path(rel),
        dir.len() > 0,
        !"/"@.is_suffix_of(dir),
    ensures
        is_under(path_join(dir, rel), dir),
        path_join(dir, rel) == dir + "/"@ + rel,
        forall|i: int| 0 <= i < pieces(rel, '/').len() ==> #[trigger] pieces(rel, '/')[i] != ".."@,
{
    assert((dir + "/"@).is_prefix_of(path_join(dir, rel))) by {
        assert(path_join(dir, rel).take((dir + "/"@).len() as int) =~= dir + "/"@);
    }
}

} // verus!
