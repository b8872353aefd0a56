//! What can be asked of a queue, from a command line or by a tool call.

use crate::copied::opt_view;
use crate::estimation::{low_bits, low_usize};
use crate::json::{as_flag, as_text, as_whole, field, Json, JsonView};
use crate::numbers::{parse_u32, unsigned_of};
use crate::text::{chars_of, opt, same, string_of, texts};
use vstd::prelude::*;
use vstd::string::StringExecFns;

verus! {

/// How many lines of a log are shown where nothing is said of it.
pub const LOG_LINES: usize = 20;

/// What is asked of a queue.
#[derive(Debug, PartialEq)]
pub enum QueueRequest {
    Submit { source: String, workspace: String, max_iter: Option<u32>, inherit_env: bool },
    List,
    Status { id: u32, lines: usize },
    Cancel { id: u32 },
    Fetch { id: u32, out: String },
    Download { id: u32, out: String },
    Artifacts { id: u32 },
    /// One artifact, to be shown or saved.
    Artifact { id: u32, path: String, save_to: Option<String> },
}

/// What is asked of a queue, by its contents.
pub enum QueueRequestView {
    Submit { source: Seq<char>, workspace: Seq<char>, max_iter: Option<u32>, inherit_env: bool },
    List,
    Status { id: u32, lines: usize },
    Cancel { id: u32 },
    Fetch { id: u32, out: Seq<char> },
    Download { id: u32, out: Seq<char> },
    Artifacts { id: u32 },
    Artifact { id: u32, path: Seq<char>, save_to: Option<Seq<char>> },
}

impl View for QueueRequest {
    type V = QueueRequestView;

    open spec fn view(&self) -> QueueRequestView {
        match self {
            QueueRequest::Submit { source, workspace, max_iter, inherit_env } => {
                QueueRequestView::Submit {
                    source: source@,
                    workspace: workspace@,
                    max_iter: *max_iter,
                    inherit_env: *inherit_env,
                }
            },
            QueueRequest::List => QueueRequestView::List,
            QueueRequest::Status { id, lines } => QueueRequestView::Status {
                id: *id,
                lines: *lines,
            },
            QueueRequest::Cancel { id } => QueueRequestView::Cancel { id: *id },
            QueueRequest::Fetch { id, out } => QueueRequestView::Fetch { id: *id, out: out@ },
            QueueRequest::Download { id, out } => QueueRequestView::Download {
                id: *id,
                out: out@,
            },
            QueueRequest::Artifacts { id } => QueueRequestView::Artifacts { id: *id },
            QueueRequest::Artifact { id, path, save_to } => QueueRequestView::Artifact {
                id: *id,
                path: path@,
                save_to: opt_view(*save_to),
            },
        }
    }
}

/// What is said of a field that a tool call lacks.
pub open spec fn missing_field(name: Seq<char>) -> Seq<char> {
    "missing required field: "@ + name
}

/// The number of a job that a tool call names.
pub open spec fn named_job(args: JsonView) -> Result<u32, Seq<char>> {
    match as_whole(field(args, "id"@)) {
        Some(n) => Ok(low_bits(n, u32::MAX as nat) as u32),
        None => Err(missing_field("id"@)),
    }
}

/// A text that a tool call must have.
pub open spec fn named_text(args: JsonView, name: Seq<char>) -> Result<Seq<char>, Seq<char>> {
    match as_text(field(args, name)) {
        Some(s) => Ok(s),
        None => Err(missing_field(name)),
    }
}

/// What a tool call asks of a queue.
pub open spec fn tool_request(name: Seq<char>, args: JsonView) -> Result<
    QueueRequestView,
    Seq<char>,
> {
    if name == "queue_submit"@ {
        match named_text(args, "source"@) {
            Err(e) => Err(e),
            Ok(source) => match named_text(args, "workspace"@) {
                Err(e) => Err(e),
                Ok(workspace) => Ok(
                    QueueRequestView::Submit {
                        source,
                        workspace,
                        max_iter: match as_whole(field(args, "max_iter"@)) {
                            Some(n) => Some(low_bits(n, u32::MAX as nat) as u32),
                            None => None,
                        },
                        inherit_env: as_flag(field(args, "inherit_env"@)) == Some(true),
                    },
                ),
            },
        }
    } else if name == "queue_list"@ {
        Ok(QueueRequestView::List)
    } else if name == "queue_status"@ {
        match named_job(args) {
            Err(e) => Err(e),
            Ok(id) => Ok(
                QueueRequestView::Status {
                    id,
                    lines: match as_whole(field(args, "log_lines"@)) {
                        Some(n) => low_bits(n, usize::MAX as nat) as usize,
                        None => LOG_LINES,
                    },
                },
            ),
        }
    } else if name == "queue_fetch"@ {
        match named_job(args) {
            Err(e) => Err(e),
            Ok(id) => match named_text(args, "out"@) {
                Err(e) => Err(e),
                Ok(out) => Ok(QueueRequestView::Fetch { id, out }),
            },
        }
    } else if name == "queue_download"@ {
        match named_job(args) {
            Err(e) => Err(e),
            Ok(id) => match named_text(args, "out"@) {
                Err(e) => Err(e),
                Ok(out) => Ok(QueueRequestView::Download { id, out }),
            },
        }
    } else if name == "queue_artifacts"@ {
        match named_job(args) {
            Err(e) => Err(e),
            Ok(id) => Ok(QueueRequestView::Artifacts { id }),
        }
    } else if name == "queue_artifact"@ {
        match named_job(args) {
            Err(e) => Err(e),
            Ok(id) => match named_text(args, "path"@) {
                Err(e) => Err(e),
                Ok(path) => Ok(
                    QueueRequestView::Artifact {
                        id,
                        path,
                        save_to: as_text(field(args, "out"@)),
                    },
                ),
            },
        }
    } else if name == "queue_cancel"@ {
        match named_job(args) {
            Err(e) => Err(e),
            Ok(id) => Ok(QueueRequestView::Cancel { id }),
        }
    } else {
        Err("unknown tool: "@ + name)
    }
}

/// The view of a request, or of why there is none.
pub open spec fn request_view(r: Result<QueueRequest, String>) -> Result<
    QueueRequestView,
    Seq<char>,
> {
    match r {
        Ok(request) => Ok(request@),
        Err(e) => Err(e@),
    }
}

fn job_in(args: &Json) -> (r: Result<u32, String>)
    ensures
        match r {
            Ok(id) => named_job(args@) == Ok::<u32, Seq<char>>(id),
            Err(e) => named_job(args@) == Err::<u32, Seq<char>>(e@),
        },
{
    match args.field("id").as_whole() {
        Some(n) => Ok((n % 0x1_0000_0000) as u32),
        None => Err("missing required field: ".to_owned().concat("id")),
    }
}

fn text_in(args: &Json, name: &str) -> (r: Result<String, String>)
    ensures
        match r {
            Ok(s) => named_text(args@, name@) == Ok::<Seq<char>, Seq<char>>(s@),
            Err(e) => named_text(args@, name@) == Err::<Seq<char>, Seq<char>>(e@),
        },
{
    match args.field(name).as_text() {
        Some(s) => Ok(s.clone()),
        None => Err("missing required field: ".to_owned().concat(name)),
    }
}

/// What a tool call asks of a queue, or what it lacks.
pub fn call(name: &str, args: &Json) -> (r: Result<QueueRequest, String>)
    ensures
        request_view(r) == tool_request(name@, args@),
{
    if same(name, "queue_submit") {
        let source = text_in(args, "source")?;
        let workspace = text_in(args, "workspace")?;
        let max_iter = match args.field("max_iter").as_whole() {
            Some(n) => Some((n % 0x1_0000_0000) as u32),
            None => None,
        };
        let inherit_env = match args.field("inherit_env").as_flag() {
            Some(b) => b,
            None => false,
        };
        Ok(QueueRequest::Submit { source, workspace, max_iter, inherit_env })
    } else if same(name, "queue_list") {
        Ok(QueueRequest::List)
    } else if same(name, "queue_status") {
        let id: u32 = job_in(args)?;
        let lines: usize = match args.field("log_lines").as_whole() {
            Some(n) => low_usize(n),
            None => LOG_LINES,
        };
        Ok(QueueRequest::Status { id, lines })
    } else if same(name, "queue_fetch") {
        let id: u32 = job_in(args)?;
        let out = text_in(args, "out")?;
        Ok(QueueRequest::Fetch { id, out })
    } else if same(name, "queue_download") {
        let id: u32 = job_in(args)?;
        let out = text_in(args, "out")?;
        Ok(QueueRequest::Download { id, out })
    } else if same(name, "queue_artifacts") {
        let id: u32 = job_in(args)?;
        Ok(QueueRequest::Artifacts { id })
    } else if same(name, "queue_artifact") {
        let id: u32 = job_in(args)?;
        let path = text_in(args, "path")?;
        let save_to = match args.field("out").as_text() {
            Some(s) => Some(s.clone()),
            None => None,
        };
        Ok(QueueRequest::Artifact { id, path, save_to })
    } else if same(name, "queue_cancel") {
        let id: u32 = job_in(args)?;
        Ok(QueueRequest::Cancel { id })
    } else {
        Err("unknown tool: ".to_owned().concat(name))
    }
}

/// What the command line asks for. A number that is missing or none is left open: it is asked
/// for only once the queue has been opened.
#[derive(Debug, PartialEq)]
pub enum Command {
    Submit { source: String, workspace: String, max_iter: Option<u32>, inherit_env: bool },
    List,
    Status { id: Option<u32> },
    Cancel { id: Option<u32> },
    Fetch { id: Option<u32>, out: String },
    Download { id: Option<u32>, out: String },
    Artifacts { id: Option<u32> },
    Artifact { job: u32, path: String },
    Watch,
    Serve { bind: String },
    Worker,
    Mcp,
    /// Nothing that is known.
    Usage,
}

/// What the command line asks for, by its contents.
pub enum CommandView {
    Submit { source: Seq<char>, workspace: Seq<char>, max_iter: Option<u32>, inherit_env: bool },
    List,
    Status { id: Option<u32> },
    Cancel { id: Option<u32> },
    Fetch { id: Option<u32>, out: Seq<char> },
    Download { id: Option<u32>, out: Seq<char> },
    Artifacts { id: Option<u32> },
    Artifact { job: u32, path: Seq<char> },
    Watch,
    Serve { bind: Seq<char> },
    Worker,
    Mcp,
    Usage,
}

impl View for Command {
    type V = CommandView;

    open spec fn view(&self) -> CommandView {
        match self {
            Command::Submit { source, workspace, max_iter, inherit_env } => CommandView::Submit {
                source: source@,
                workspace: workspace@,
                max_iter: *max_iter,
                inherit_env: *inherit_env,
            },
            Command::List => CommandView::List,
            Command::Status { id } => CommandView::Status { id: *id },
            Command::Cancel { id } => CommandView::Cancel { id: *id },
            Command::Fetch { id, out } => CommandView::Fetch { id: *id, out: out@ },
            Command::Download { id, out } => CommandView::Download { id: *id, out: out@ },
            Command::Artifacts { id } => CommandView::Artifacts { id: *id },
            Command::Artifact { job, path } => CommandView::Artifact { job: *job, path: path@ },
            Command::Watch => CommandView::Watch,
            Command::Serve { bind } => CommandView::Serve { bind: bind@ },
            Command::Worker => CommandView::Worker,
            Command::Mcp => CommandView::Mcp,
            Command::Usage => CommandView::Usage,
        }
    }
}

/// What stands behind the first `name` from `i` on.
pub open spec fn flag_value(args: Seq<Seq<char>>, name: Seq<char>, i: int) -> Option<Seq<char>>
    decreases args.len() - i,
{
    if i < 0 || i + 1 >= args.len() {
        None
    } else if args[i] == name {
        Some(args[i + 1])
    } else {
        flag_value(args, name, i + 1)
    }
}

/// A text without the number signs that it begins with.
pub open spec fn unmarked(s: Seq<char>) -> Seq<char>
    decreases s.len(),
{
    if s.len() > 0 && s[0] == '#' {
        unmarked(s.skip(1))
    } else {
        s
    }
}

/// The number that a text is, if it is one.
pub open spec fn number_in(s: Seq<char>) -> Option<u32> {
    match unsigned_of(s, u32::MAX as nat) {
        Some(n) => Some(n as u32),
        None => None,
    }
}

/// The number of a job that the first argument is.
pub open spec fn job_argument(args: Seq<Seq<char>>) -> Option<u32> {
    if args.len() == 0 {
        None
    } else {
        number_in(unmarked(args[0]))
    }
}

/// What the command line asks for.
pub open spec fn command_of(args: Seq<Seq<char>>) -> CommandView {
    let rest = args.skip(1);
    if args.len() == 0 {
        CommandView::Usage
    } else if args[0] == "submit"@ {
        match (flag_value(rest, "--source"@, 0), flag_value(rest, "--workspace"@, 0)) {
            (Some(source), Some(workspace)) => CommandView::Submit {
                source,
                workspace,
                max_iter: match flag_value(rest, "--max-iter"@, 0) {
                    Some(n) => number_in(n),
                    None => None,
                },
                inherit_env: rest.contains("--inherit-env"@),
            },
            _ => CommandView::Usage,
        }
    } else if args[0] == "list"@ {
        CommandView::List
    } else if args[0] == "status"@ {
        CommandView::Status { id: job_argument(rest) }
    } else if args[0] == "cancel"@ {
        CommandView::Cancel { id: job_argument(rest) }
    } else if args[0] == "fetch"@ {
        match flag_value(rest, "--out"@, 0) {
            Some(out) => CommandView::Fetch { id: job_argument(rest), out },
            None => CommandView::Usage,
        }
    } else if args[0] == "download"@ {
        match flag_value(rest, "--out"@, 0) {
            Some(out) => CommandView::Download { id: job_argument(rest), out },
            None => CommandView::Usage,
        }
    } else if args[0] == "artifacts"@ {
        CommandView::Artifacts { id: job_argument(rest) }
    } else if args[0] == "artifact"@ {
        match job_argument(rest) {
            Some(id) => if rest.len() > 1 {
                CommandView::Artifact { job: id, path: rest[1] }
            } else {
                CommandView::Usage
            },
            None => CommandView::Usage,
        }
    } else if args[0] == "watch"@ {
        CommandView::Watch
    } else if args[0] == "serve"@ {
        CommandView::Serve {
            bind: match flag_value(rest, "--bind"@, 0) {
                Some(bind) => bind,
                None => "0.0.0.0:8003"@,
            },
        }
    } else if args[0] == "worker"@ {
        CommandView::Worker
    } else if args[0] == "mcp"@ {
        CommandView::Mcp
    } else {
        CommandView::Usage
    }
}

/// What stands behind the first `name` among arguments.
pub fn flag(args: &[String], name: &str) -> (r: Option<String>)
    ensures
        opt(r) == flag_value(texts(args@), name@, 0),
{
    let ghost all = texts(args@);
    let n: usize = args.len();
    let mut i: usize = 0;
    while n > 0 && i < n - 1
        invariant
            n == args@.len() == all.len(),
            all == texts(args@),
            i <= n,
            flag_value(all, name@, 0) == flag_value(all, name@, i as int),
        decreases n - i,
    {
        assert(all[i as int] == args@[i as int]@);
        if same(args[i].as_str(), name) {
            return Some(args[i + 1].clone());
        }
        i += 1;
    }
    None
}

/// The number that a text is, if it is one.
pub fn read_number(s: &str) -> (r: Option<u32>)
    ensures
        r == number_in(s@),
{
    parse_u32(s)
}

/// The number of a job that the first argument is.
pub fn id_arg(args: &[String]) -> (r: Option<u32>)
    ensures
        r == job_argument(texts(args@)),
{
    if args.len() == 0 {
        return None;
    }
    let v = chars_of(args[0].as_str());
    let mut i: usize = 0;
    assert(v@.skip(0) =~= v@);
    while i < v.len() && v[i] == '#'
        invariant
            i <= v@.len(),
            v@ == args@[0]@,
            unmarked(v@.skip(i as int)) == unmarked(v@),
        decreases v@.len() - i,
    {
        assert(v@.skip(i as int).skip(1) =~= v@.skip(i + 1));
        i += 1;
    }
    assert(v@.subrange(i as int, v@.len() as int) =~= v@.skip(i as int));
    read_number(string_of(v.as_slice(), i, v.len()).as_str())
}

fn has_flag(args: &[String], name: &str) -> (r: bool)
    ensures
        r == texts(args@).contains(name@),
{
    let ghost all = texts(args@);
    let mut i: usize = 0;
    while i < args.len()
        invariant
            i <= args@.len(),
            all == texts(args@),
            forall|j: int| 0 <= j < i ==> #[trigger] all[j] != name@,
        decreases args@.len() - i,
    {
        assert(all[i as int] == args@[i as int]@);
        if same(args[i].as_str(), name) {
            assert(all.contains(name@));
            return true;
        }
        i += 1;
    }
    false
}

fn rest_of(args: &[String]) -> (r: Vec<String>)
    requires
        args@.len() > 0,
    ensures
        texts(r@) == texts(args@).skip(1),
{
    let mut out: Vec<String> = Vec::new();
    let mut i: usize = 1;
    while i < args.len()
        invariant
            1 <= i <= args@.len(),
            texts(out@) =~= texts(args@).subrange(1, i as int),
        decreases args@.len() - i,
    {
        let ghost had = out@;
        let next = args[i].clone();
        out.push(next);
        assert(texts(out@) =~= texts(had).push(next@));
        i += 1;
    }
    assert(texts(args@).subrange(1, i as int) =~= texts(args@).skip(1));
    out
}

/// What the command line asks for.
pub fn parse_command(args: &[String]) -> (r: Command)
    ensures
        r@ == command_of(texts(args@)),
{
    if args.len() == 0 {
        return Command::Usage;
    }
    let verb = args[0].as_str();
    let rest = rest_of(args);
    let rest = rest.as_slice();
    assert(texts(args@)[0] == verb@);
    assert(texts(rest@).len() == rest@.len());
    if same(verb, "submit") {
        let source = flag(rest, "--source");
        let workspace = flag(rest, "--workspace");
        match (source, workspace) {
            (Some(source), Some(workspace)) => {
                let max_iter = match flag(rest, "--max-iter") {
                    Some(n) => read_number(n.as_str()),
                    None => None,
                };
                Command::Submit {
                    source,
                    workspace,
                    max_iter,
                    inherit_env: has_flag(rest, "--inherit-env"),
                }
            },
            _ => Command::Usage,
        }
    } else if same(verb, "list") {
        Command::List
    } else if same(verb, "status") {
        Command::Status { id: id_arg(rest) }
    } else if same(verb, "cancel") {
        Command::Cancel { id: id_arg(rest) }
    } else if same(verb, "fetch") {
        match flag(rest, "--out") {
            Some(out) => Command::Fetch { id: id_arg(rest), out },
            None => Command::Usage,
        }
    } else if same(verb, "download") {
        match flag(rest, "--out") {
            Some(out) => Command::Download { id: id_arg(rest), out },
            None => Command::Usage,
        }
    } else if same(verb, "artifacts") {
        Command::Artifacts { id: id_arg(rest) }
    } else if same(verb, "artifact") {
        match id_arg(rest) {
            Some(id) => if rest.len() > 1 {
                Command::Artifact { job: id, path: rest[1].clone() }
            } else {
                Command::Usage
            },
            None => Command::Usage,
        }
    } else if same(verb, "watch") {
        Command::Watch
    } else if same(verb, "serve") {
        match flag(rest, "--bind") {
            Some(bind) => Command::Serve { bind },
            None => Command::Serve { bind: "0.0.0.0:8003".to_owned() },
        }
    } else if same(verb, "worker") {
        Command::Worker
    } else if same(verb, "mcp") {
        Command::Mcp
    } else {
        Command::Usage
    }
}

/// The program that an editor starts to reach the queue, and its arguments: what is configured,
/// and otherwise the queue's own program in its role as a server of tools.
pub fn context_server_command(path: Option<String>, arguments: Option<Vec<String>>) -> (r: (
    String,
    Vec<String>,
))
    ensures
        r.0@ == (match opt(path) {
            Some(path) => path,
            None => "rewriter-queue"@,
        }),
        texts(r.1@) == (match arguments {
            Some(list) => if list@.len() > 0 {
                texts(list@)
            } else {
                seq!["mcp"@]
            },
            None => seq!["mcp"@],
        }),
{
    let program = match path {
        Some(path) => path,
        None => "rewriter-queue".to_owned(),
    };
    let mut args = match arguments {
        Some(list) => list,
        None => Vec::new(),
    };
    if args.len() == 0 {
        args.push("mcp".to_owned());
        assert(texts(args@) =~= seq!["mcp"@]);
    }
    (program, args)
}

} // verus!
