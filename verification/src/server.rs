//! What a server of a queue makes of the requests that it gets.

use crate::copied::opt_view;
use crate::milestones::{eq_ignore_ascii_case, same_letters};
use crate::numbers::{
    decimal, is_digit, law_decimal_reads_back, lemma_decimal_digits, lemma_decimal_is_short,
    parse_usize, unsigned_of,
};
use crate::paths::{bare, bare_url, unroot, unrooted};
use crate::remote::{job_path, pair_texts, target_of};
use crate::requests::{number_in, read_number, QueueRequestView, LOG_LINES};
use crate::text::{lemma_first_piece, lemma_one_piece, opt, pieces, same, split, texts};
use vstd::prelude::*;
use vstd::string::StringExecFns;

verus! {

/// The most bytes of an upload that are read.
pub const MAX_UPLOAD: u64 = 268_435_456;

/// What is asked of a server.
#[derive(Debug, PartialEq)]
pub enum ServerRequest {
    Submit { name: Option<String>, max_iter: Option<u32>, inherit_env: bool },
    List,
    Status { id: u32, lines: usize },
    Cancel { id: u32 },
    /// The whole workspace of a job.
    Result { id: u32 },
    /// All artifacts of a job.
    ArtifactsArchive { id: u32 },
    Artifacts { id: u32 },
    /// One artifact of a job. Whether one is named is looked at only once the job is there.
    Artifact { id: u32, path: Option<String> },
    Watch,
}

/// What is asked of a server, by its contents.
pub enum ServerRequestView {
    Submit { name: Option<Seq<char>>, max_iter: Option<u32>, inherit_env: bool },
    List,
    Status { id: u32, lines: usize },
    Cancel { id: u32 },
    Result { id: u32 },
    ArtifactsArchive { id: u32 },
    Artifacts { id: u32 },
    Artifact { id: u32, path: Option<Seq<char>> },
    Watch,
}

impl View for ServerRequest {
    type V = ServerRequestView;

    open spec fn view(&self) -> ServerRequestView {
        match self {
            ServerRequest::Submit { name, max_iter, inherit_env } => ServerRequestView::Submit {
                name: opt_view(*name),
                max_iter: *max_iter,
                inherit_env: *inherit_env,
            },
            ServerRequest::List => ServerRequestView::List,
            ServerRequest::Status { id, lines } => ServerRequestView::Status {
                id: *id,
                lines: *lines,
            },
            ServerRequest::Cancel { id } => ServerRequestView::Cancel { id: *id },
            ServerRequest::Result { id } => ServerRequestView::Result { id: *id },
            ServerRequest::ArtifactsArchive { id } => ServerRequestView::ArtifactsArchive {
                id: *id,
            },
            ServerRequest::Artifacts { id } => ServerRequestView::Artifacts { id: *id },
            ServerRequest::Artifact { id, path } => ServerRequestView::Artifact {
                id: *id,
                path: opt_view(*path),
            },
            ServerRequest::Watch => ServerRequestView::Watch,
        }
    }
}

/// A refusal: a status and what is said with it.
#[derive(Debug, PartialEq)]
pub struct Failure {
    pub code: u16,
    pub message: String,
}

impl View for Failure {
    type V = (u16, Seq<char>);

    open spec fn view(&self) -> (u16, Seq<char>) {
        (self.code, self.message@)
    }
}

/// The path and the query of a URL, or what is wrong with it.
pub type UrlView = Result<(Seq<char>, Seq<(Seq<char>, Seq<char>)>), Seq<char>>;

/// What the `url` crate reads from a URL: its path, and its query as pairs of decoded texts.
pub uninterp spec fn url_read(text: Seq<char>) -> UrlView;

/// Whether `c` is a small letter or a digit.
pub open spec fn is_simple(c: char) -> bool {
    'a' <= c <= 'z' || '0' <= c <= '9'
}

/// Whether a text is made of small letters and digits, and of dots behind the first of them.
pub open spec fn simple_segment(s: Seq<char>) -> bool {
    &&& s.len() > 0
    &&& is_simple(s[0])
    &&& forall|i: int| 0 <= i < s.len() ==> is_simple(#[trigger] s[i]) || s[i] == '.'
}

/// Whether a path is a slash and such texts with slashes between them.
pub open spec fn simple_path(p: Seq<char>) -> bool {
    &&& p.len() > 0
    &&& p[0] == '/'
    &&& forall|i: int|
        0 <= i < pieces(p.skip(1), '/').len() ==> simple_segment(
            #[trigger] pieces(p.skip(1), '/')[i],
        )
}

/// Whether `text` is a URL of the host `queue` with a simple path, which is `path`, and no query.
pub open spec fn simple_url(text: Seq<char>, path: Seq<char>) -> bool {
    text == "http://queue"@ + path && simple_path(path) && text.len() <= 4096
}

/// Whether `text` is such a URL with a query of one simple pair.
pub open spec fn simple_query(
    text: Seq<char>,
    path: Seq<char>,
    key: Seq<char>,
    value: Seq<char>,
) -> bool {
    &&& text == "http://queue"@ + path + "?"@ + key + "="@ + value
    &&& simple_path(path)
    &&& simple_segment(key)
    &&& simple_segment(value)
    &&& text.len() <= 4096
}

/// The view of what was read from a URL.
pub open spec fn url_view(r: Result<(String, Vec<(String, String)>), String>) -> UrlView {
    match r {
        Ok((path, query)) => Ok((path@, pair_texts(query@))),
        Err(e) => Err(e@),
    }
}

/// Whether a URL reads as this path and this query.
pub open spec fn is_url(
    r: Result<(String, Vec<(String, String)>), String>,
    path: Seq<char>,
    query: Seq<(Seq<char>, Seq<char>)>,
) -> bool {
    url_view(r) == UrlView::Ok((path, query))
}

/// `url::Url::parse`, with `path` and `query_pairs`: a function of the text alone. In a short
/// URL of small letters, digits, dots and slashes there is nothing to decode: its path is what
/// it says, and so is a query of one such pair.
#[verifier::external_body]
fn read_url(text: &str) -> (r: Result<(String, Vec<(String, String)>), String>)
    ensures
        url_view(r) == url_read(text@),
        forall|path: Seq<char>| simple_url(text@, path) ==> is_url(r, path, Seq::empty()),
        forall|path: Seq<char>, key: Seq<char>, value: Seq<char>|
            simple_query(text@, path, key, value) ==> is_url(r, path, seq![(key, value)]),
{
    match url::Url::parse(text) {
        Ok(u) => Ok((u.path().to_string(), u.query_pairs().into_owned().collect())),
        Err(e) => Err(e.to_string()),
    }
}

/// The first value under `key` in a query, from `i` on.
pub open spec fn query_value(
    query: Seq<(Seq<char>, Seq<char>)>,
    key: Seq<char>,
    i: int,
) -> Option<Seq<char>>
    decreases query.len() - i,
{
    if i < 0 || i >= query.len() {
        None
    } else if query[i].0 == key {
        Some(query[i].1)
    } else {
        query_value(query, key, i + 1)
    }
}

fn find_query(query: &[(String, String)], key: &str) -> (r: Option<String>)
    ensures
        opt(r) == query_value(pair_texts(query@), key@, 0),
{
    let ghost all = pair_texts(query@);
    let mut i: usize = 0;
    while i < query.len()
        invariant
            i <= query@.len(),
            all == pair_texts(query@),
            query_value(all, key@, 0) == query_value(all, key@, i as int),
        decreases query@.len() - i,
    {
        assert(all[i as int] == (query@[i as int].0@, query@[i as int].1@));
        if same(query[i].0.as_str(), key) {
            return Some(query[i].1.clone());
        }
        i += 1;
    }
    None
}

/// Whether the headers hold the token.
pub open spec fn is_authorized(headers: Seq<(Seq<char>, Seq<char>)>, token: Seq<char>) -> bool {
    exists|i: int|
        0 <= i < headers.len() && same_letters((#[trigger] headers[i]).0, "authorization"@)
            && headers[i].1 == "Bearer "@ + token
}

/// Whether the headers hold the token.
pub fn authorized(headers: &[(String, String)], token: &str) -> (r: bool)
    ensures
        r == is_authorized(pair_texts(headers@), token@),
{
    let ghost all = pair_texts(headers@);
    let expected = "Bearer ".to_owned().concat(token);
    let mut i: usize = 0;
    while i < headers.len()
        invariant
            i <= headers@.len(),
            all == pair_texts(headers@),
            expected@ == "Bearer "@ + token@,
            forall|j: int|
                0 <= j < i ==> !(same_letters((#[trigger] all[j]).0, "authorization"@)
                    && all[j].1 == "Bearer "@ + token@),
        decreases headers@.len() - i,
    {
        assert(all[i as int] == (headers@[i as int].0@, headers@[i as int].1@));
        if eq_ignore_ascii_case(headers[i].0.as_str(), "authorization") && same(
            headers[i].1.as_str(),
            expected.as_str(),
        ) {
            assert(same_letters(all[i as int].0, "authorization"@));
            return true;
        }
        i += 1;
    }
    false
}

/// A refusal of something that is no number of a job.
pub open spec fn bad_id(segment: Seq<char>) -> (u16, Seq<char>) {
    (400, "bad job id: "@ + segment)
}

/// What is asked of a server, or why it is refused, by its contents.
pub type RoutingView = Result<ServerRequestView, (u16, Seq<char>)>;

/// The view of what is asked of a server.
pub open spec fn routing_view(r: Result<ServerRequest, Failure>) -> RoutingView {
    match r {
        Ok(request) => Ok(request@),
        Err(e) => Err(e@),
    }
}

/// What a path of one part, below the root, asks for.
pub open spec fn top_route(
    method: Seq<char>,
    top: Seq<char>,
    query: Seq<(Seq<char>, Seq<char>)>,
) -> RoutingView {
    if top == "jobs"@ && method == "POST"@ {
        Ok(
            ServerRequestView::Submit {
                name: match query_value(query, "name"@, 0) {
                    Some(name) => if name.len() > 0 {
                        Some(name)
                    } else {
                        None
                    },
                    None => None,
                },
                max_iter: match query_value(query, "max_iter"@, 0) {
                    Some(n) => number_in(n),
                    None => None,
                },
                inherit_env: query_value(query, "inherit_env"@, 0) == Some("true"@),
            },
        )
    } else if top == "jobs"@ && method == "GET"@ {
        Ok(ServerRequestView::List)
    } else if top == "watch"@ && method == "GET"@ {
        Ok(ServerRequestView::Watch)
    } else {
        not_found()
    }
}

/// What is said of a path that leads nowhere.
pub open spec fn not_found() -> RoutingView {
    Err((404, "not found"@))
}

/// How many lines of a log are asked for.
pub open spec fn lines_asked(query: Seq<(Seq<char>, Seq<char>)>) -> usize {
    match query_value(query, "lines"@, 0) {
        Some(n) => match unsigned_of(n, usize::MAX as nat) {
            Some(n) => n as usize,
            None => LOG_LINES,
        },
        None => LOG_LINES,
    }
}

/// What a path of a job and a part below it asks for.
pub open spec fn job_route(
    method: Seq<char>,
    segment: Seq<char>,
    what: Seq<char>,
    query: Seq<(Seq<char>, Seq<char>)>,
) -> RoutingView {
    let get = method == "GET"@;
    if !((method == "POST"@ && what == "cancel"@) || (get && (what == "result"@ || what
        == "artifacts.tar.gz"@ || what == "artifacts"@ || what == "artifact"@))) {
        not_found()
    } else {
        match number_in(segment) {
            None => Err(bad_id(segment)),
            Some(id) => if method == "POST"@ && what == "cancel"@ {
                Ok(ServerRequestView::Cancel { id })
            } else if what == "result"@ {
                Ok(ServerRequestView::Result { id })
            } else if what == "artifacts.tar.gz"@ {
                Ok(ServerRequestView::ArtifactsArchive { id })
            } else if what == "artifacts"@ {
                Ok(ServerRequestView::Artifacts { id })
            } else {
                Ok(ServerRequestView::Artifact { id, path: query_value(query, "path"@, 0) })
            },
        }
    }
}

/// What a path asks for, by its parts.
pub open spec fn segments_route(
    method: Seq<char>,
    segments: Seq<Seq<char>>,
    query: Seq<(Seq<char>, Seq<char>)>,
) -> RoutingView {
    if segments.len() == 1 {
        top_route(method, segments[0], query)
    } else if segments.len() == 2 && segments[0] == "jobs"@ && method == "GET"@ {
        match number_in(segments[1]) {
            None => Err(bad_id(segments[1])),
            Some(id) => Ok(ServerRequestView::Status { id, lines: lines_asked(query) }),
        }
    } else if segments.len() == 3 && segments[0] == "jobs"@ {
        job_route(method, segments[1], segments[2], query)
    } else {
        not_found()
    }
}

/// The parts of the path of a URL.
pub open spec fn path_segments(path: Seq<char>) -> Seq<Seq<char>> {
    pieces(bare(unrooted(path)), '/')
}

/// What a request to a server asks for: nothing without the token.
pub open spec fn routed(
    token: Seq<char>,
    method: Seq<char>,
    url: Seq<char>,
    headers: Seq<(Seq<char>, Seq<char>)>,
) -> RoutingView {
    if !is_authorized(headers, token) {
        Err((401, "unauthorized"@))
    } else {
        match url_read("http://queue"@ + url) {
            Err(e) => Err((400, e)),
            Ok((path, query)) => segments_route(method, path_segments(path), query),
        }
    }
}

fn route_top(method: &str, top: &str, query: &[(String, String)]) -> (r: Result<
    ServerRequest,
    Failure,
>)
    ensures
        routing_view(r) == top_route(method@, top@, pair_texts(query@)),
{
    if same(top, "jobs") && same(method, "POST") {
        let name = match find_query(query, "name") {
            Some(name) => if name.as_str().is_empty() {
                None
            } else {
                Some(name)
            },
            None => None,
        };
        let max_iter = match find_query(query, "max_iter") {
            Some(n) => read_number(n.as_str()),
            None => None,
        };
        let inherit_env = match find_query(query, "inherit_env") {
            Some(text) => same(text.as_str(), "true"),
            None => false,
        };
        Ok(ServerRequest::Submit { name, max_iter, inherit_env })
    } else if same(top, "jobs") && same(method, "GET") {
        Ok(ServerRequest::List)
    } else if same(top, "watch") && same(method, "GET") {
        Ok(ServerRequest::Watch)
    } else {
        Err(Failure { code: 404, message: "not found".to_owned() })
    }
}

fn job_number(segment: &str) -> (r: Result<u32, Failure>)
    ensures
        match r {
            Ok(id) => number_in(segment@) == Some(id),
            Err(e) => number_in(segment@) is None && e@ == bad_id(segment@),
        },
{
    match read_number(segment) {
        Some(id) => Ok(id),
        None => Err(Failure { code: 400, message: "bad job id: ".to_owned().concat(segment) }),
    }
}

fn route_job(method: &str, segment: &str, what: &str, query: &[(String, String)]) -> (r: Result<
    ServerRequest,
    Failure,
>)
    ensures
        routing_view(r) == job_route(method@, segment@, what@, pair_texts(query@)),
{
    let get = same(method, "GET");
    let cancel = same(method, "POST") && same(what, "cancel");
    let known = same(what, "result") || same(what, "artifacts.tar.gz") || same(what, "artifacts")
        || same(what, "artifact");
    if !(cancel || (get && known)) {
        return Err(Failure { code: 404, message: "not found".to_owned() });
    }
    let id: u32 = job_number(segment)?;
    if cancel {
        Ok(ServerRequest::Cancel { id })
    } else if same(what, "result") {
        Ok(ServerRequest::Result { id })
    } else if same(what, "artifacts.tar.gz") {
        Ok(ServerRequest::ArtifactsArchive { id })
    } else if same(what, "artifacts") {
        Ok(ServerRequest::Artifacts { id })
    } else {
        Ok(ServerRequest::Artifact { id, path: find_query(query, "path") })
    }
}

fn route_segments(method: &str, segments: &[String], query: &[(String, String)]) -> (r: Result<
    ServerRequest,
    Failure,
>)
    ensures
        routing_view(r) == segments_route(method@, texts(segments@), pair_texts(query@)),
{
    assert(texts(segments@).len() == segments@.len());
    assert(forall|i: int|
        0 <= i < segments@.len() ==> #[trigger] texts(segments@)[i] == segments@[i]@);
    if segments.len() == 1 {
        route_top(method, segments[0].as_str(), query)
    } else if segments.len() == 2 && same(segments[0].as_str(), "jobs") && same(method, "GET") {
        let id: u32 = job_number(segments[1].as_str())?;
        let lines: usize = match find_query(query, "lines") {
            Some(n) => match parse_usize(n.as_str()) {
                Some(n) => n,
                None => LOG_LINES,
            },
            None => LOG_LINES,
        };
        Ok(ServerRequest::Status { id, lines })
    } else if segments.len() == 3 && same(segments[0].as_str(), "jobs") {
        route_job(method, segments[1].as_str(), segments[2].as_str(), query)
    } else {
        Err(Failure { code: 404, message: "not found".to_owned() })
    }
}

/// What a request that a client sends is to a server; those that carry texts of the user's own
/// are not among them.
pub open spec fn arrived(req: QueueRequestView) -> Option<ServerRequestView> {
    match req {
        QueueRequestView::List => Some(ServerRequestView::List),
        QueueRequestView::Status { id, lines } => Some(ServerRequestView::Status { id, lines }),
        QueueRequestView::Cancel { id } => Some(ServerRequestView::Cancel { id }),
        QueueRequestView::Fetch { id, out } => Some(ServerRequestView::Result { id }),
        QueueRequestView::Download { id, out } => Some(ServerRequestView::ArtifactsArchive { id }),
        QueueRequestView::Artifacts { id } => Some(ServerRequestView::Artifacts { id }),
        _ => None,
    }
}

proof fn lemma_segment_ends(s: Seq<char>)
    requires
        simple_segment(s),
    ensures
        !s.contains('/'),
        s[0] != '/',
        s.last() != '/',
{
    if s.contains('/') {
        let i = choose|i: int| 0 <= i < s.len() && s[i] == '/';
        assert(is_simple(s[i]) || s[i] == '.');
    }
    assert(is_simple(s[s.len() - 1]) || s[s.len() - 1] == '.');
}

proof fn lemma_number_segment(n: u64)
    ensures
        simple_segment(decimal(n as nat)),
        decimal(n as nat).len() <= 20,
{
    lemma_decimal_digits(n as nat);
    lemma_decimal_is_short(n);
    let d = decimal(n as nat);
    assert forall|i: int| 0 <= i < d.len() implies is_simple(#[trigger] d[i]) || d[i] == '.' by {
        assert(is_digit(d[i]));
    }
    assert(is_digit(d[0]));
}

proof fn lemma_top_path(s: Seq<char>)
    requires
        simple_segment(s),
    ensures
        simple_path("/"@ + s),
        path_segments("/"@ + s) == seq![s],
{
    reveal_strlit("/");
    lemma_segment_ends(s);
    let p = "/"@ + s;
    assert(p.skip(1) =~= s);
    lemma_one_piece(s, '/');
    reveal_with_fuel(unrooted, 2);
    assert(unrooted(p) == s);
    assert(bare(s) == s);
}

proof fn lemma_two_segments(a: Seq<char>, b: Seq<char>)
    requires
        simple_segment(a),
        simple_segment(b),
    ensures
        simple_path("/"@ + a + "/"@ + b),
        path_segments("/"@ + a + "/"@ + b) == seq![a, b],
{
    reveal_strlit("/");
    lemma_segment_ends(a);
    lemma_segment_ends(b);
    let p = "/"@ + a + "/"@ + b;
    let inner = a.push('/') + b;
    assert(p.skip(1) =~= inner);
    lemma_first_piece(a, b, '/');
    lemma_one_piece(b, '/');
    assert(pieces(inner, '/') =~= seq![a, b]);
    assert(inner[0] == a[0]);
    assert(inner.last() == b.last());
    reveal_with_fuel(unrooted, 2);
    assert(unrooted(p) == inner);
    assert(bare(inner) == inner);
}

proof fn lemma_three_segments(a: Seq<char>, b: Seq<char>, c: Seq<char>)
    requires
        simple_segment(a),
        simple_segment(b),
        simple_segment(c),
    ensures
        simple_path("/"@ + a + "/"@ + b + "/"@ + c),
        path_segments("/"@ + a + "/"@ + b + "/"@ + c) == seq![a, b, c],
{
    reveal_strlit("/");
    lemma_segment_ends(a);
    lemma_segment_ends(b);
    lemma_segment_ends(c);
    let p = "/"@ + a + "/"@ + b + "/"@ + c;
    let rest = b.push('/') + c;
    let inner = a.push('/') + rest;
    assert(p.skip(1) =~= inner);
    lemma_first_piece(a, rest, '/');
    lemma_first_piece(b, c, '/');
    lemma_one_piece(c, '/');
    assert(pieces(inner, '/') =~= seq![a, b, c]);
    assert(inner[0] == a[0]);
    assert(inner.last() == c.last());
    reveal_with_fuel(unrooted, 2);
    assert(unrooted(p) == inner);
    assert(bare(inner) == inner);
}

proof fn lemma_number_reads_back(id: u32)
    ensures
        number_in(decimal(id as nat)) == Some(id),
{
    law_decimal_reads_back(id as nat, u32::MAX as nat);
}

proof fn lemma_jobs_segment()
    ensures
        simple_segment("jobs"@),
        "jobs"@.len() == 4,
        "/jobs/"@ == "/"@ + "jobs"@ + "/"@,
        "/jobs"@ == "/"@ + "jobs"@,
{
    reveal_strlit("jobs");
    reveal_strlit("/jobs/");
    reveal_strlit("/jobs");
    reveal_strlit("/");
    assert("/jobs/"@ =~= "/"@ + "jobs"@ + "/"@);
    assert("/jobs"@ =~= "/"@ + "jobs"@);
}

proof fn lemma_job_path(id: u32, what: Seq<char>)
    requires
        simple_segment(what),
        what.len() <= 100,
    ensures
        simple_path(job_path(id, "/"@ + what)),
        path_segments(job_path(id, "/"@ + what)) == seq!["jobs"@, decimal(id as nat), what],
        number_in(decimal(id as nat)) == Some(id),
        job_path(id, "/"@ + what).len() <= 200,
{
    lemma_jobs_segment();
    lemma_number_segment(id as u64);
    lemma_number_reads_back(id);
    reveal_strlit("/");
    reveal_strlit("/jobs/");
    let d = decimal(id as nat);
    lemma_three_segments("jobs"@, d, what);
    assert(job_path(id, "/"@ + what) =~= "/"@ + "jobs"@ + "/"@ + d + "/"@ + what);
}

proof fn lemma_status_path(id: u32, lines: usize)
    ensures
        simple_path(job_path(id, Seq::empty())),
        path_segments(job_path(id, Seq::empty())) == seq!["jobs"@, decimal(id as nat)],
        number_in(decimal(id as nat)) == Some(id),
        job_path(id, Seq::empty()).len() <= 100,
        simple_segment("lines"@),
        "lines"@.len() == 5,
        simple_segment(decimal(lines as nat)),
        decimal(lines as nat).len() <= 20,
        lines_asked(seq![("lines"@, decimal(lines as nat))]) == lines,
        "?lines="@ == "?"@ + "lines"@ + "="@,
{
    lemma_jobs_segment();
    lemma_number_segment(id as u64);
    lemma_number_segment(lines as u64);
    lemma_number_reads_back(id);
    law_decimal_reads_back(lines as nat, usize::MAX as nat);
    reveal_strlit("/");
    reveal_strlit("/jobs/");
    reveal_strlit("lines");
    reveal_strlit("?lines=");
    reveal_strlit("?");
    reveal_strlit("=");
    let d = decimal(id as nat);
    lemma_two_segments("jobs"@, d);
    assert(job_path(id, Seq::empty()) =~= "/"@ + "jobs"@ + "/"@ + d);
    assert("?lines="@ =~= "?"@ + "lines"@ + "="@);
    let query = seq![("lines"@, decimal(lines as nat))];
    assert(query_value(query, "lines"@, 0) == Some(decimal(lines as nat)));
}

proof fn lemma_words()
    ensures
        simple_segment("cancel"@) && "cancel"@.len() == 6,
        simple_segment("result"@) && "result"@.len() == 6,
        simple_segment("artifacts"@) && "artifacts"@.len() == 9,
        simple_segment("artifacts.tar.gz"@) && "artifacts.tar.gz"@.len() == 16,
        "result"@ != "cancel"@,
        "GET"@ != "POST"@,
        "/cancel"@ == "/"@ + "cancel"@,
        "/result"@ == "/"@ + "result"@,
        "/artifacts"@ == "/"@ + "artifacts"@,
        "/artifacts.tar.gz"@ == "/"@ + "artifacts.tar.gz"@,
        "http://queue"@.len() == 12,
{
    reveal_strlit("cancel");
    reveal_strlit("result");
    reveal_strlit("artifacts");
    reveal_strlit("artifacts.tar.gz");
    reveal_strlit("/cancel");
    reveal_strlit("/result");
    reveal_strlit("/artifacts");
    reveal_strlit("/artifacts.tar.gz");
    reveal_strlit("/");
    reveal_strlit("GET");
    reveal_strlit("POST");
    reveal_strlit("http://queue");
    assert("result"@[0] == 'r');
    assert("cancel"@[0] == 'c');
    assert("GET"@.len() == 3);
    assert("POST"@.len() == 4);
    assert("/cancel"@ =~= "/"@ + "cancel"@);
    assert("/result"@ =~= "/"@ + "result"@);
    assert("/artifacts"@ =~= "/"@ + "artifacts"@);
    assert("/artifacts.tar.gz"@ =~= "/"@ + "artifacts.tar.gz"@);
}

/// What a request to a server asks for. Without the token it is refused whatever it is. What a
/// client sends for a request arrives as that request.
pub fn route(token: &str, method: &str, url: &str, headers: &[(String, String)]) -> (r: Result<
    ServerRequest,
    Failure,
>)
    ensures
        routing_view(r) == routed(token@, method@, url@, pair_texts(headers@)),
        forall|req: QueueRequestView|
            #![trigger arrived(req)]
            arrived(req) is Some && method@ == target_of(req).method && url@ == target_of(req).path
                && is_authorized(pair_texts(headers@), token@) ==> routing_view(r)
                == RoutingView::Ok(arrived(req)->Some_0),
{
    if !authorized(headers, token) {
        return Err(Failure { code: 401, message: "unauthorized".to_owned() });
    }
    let text = "http://queue".to_owned().concat(url);
    let read = read_url(text.as_str());
    proof {
        lemma_words();
        lemma_jobs_segment();
        reveal_strlit("?");
        reveal_strlit("=");
        reveal_strlit("/");
        assert forall|req: QueueRequestView|
            #![trigger arrived(req)]
            arrived(req) is Some && method@ == target_of(req).method && url@
                == target_of(req).path implies url_read(text@) is Ok && segments_route(
            method@,
            path_segments(url_read(text@)->Ok_0.0),
            url_read(text@)->Ok_0.1,
        ) == RoutingView::Ok(arrived(req)->Some_0) by {
            match req {
                QueueRequestView::List => {
                    lemma_top_path("jobs"@);
                    assert(simple_url(text@, url@));
                },
                QueueRequestView::Status { id, lines } => {
                    lemma_status_path(id, lines);
                    let n = decimal(lines as nat);
                    assert(text@ =~= "http://queue"@ + job_path(id, Seq::empty()) + "?"@ + "lines"@
                        + "="@ + n);
                    assert(simple_query(text@, job_path(id, Seq::empty()), "lines"@, n));
                },
                QueueRequestView::Cancel { id } => {
                    lemma_job_path(id, "cancel"@);
                    assert(simple_url(text@, url@));
                },
                QueueRequestView::Fetch { id, out } => {
                    lemma_job_path(id, "result"@);
                    assert(simple_url(text@, url@));
                },
                QueueRequestView::Download { id, out } => {
                    lemma_job_path(id, "artifacts.tar.gz"@);
                    assert(simple_url(text@, url@));
                },
                QueueRequestView::Artifacts { id } => {
                    lemma_job_path(id, "artifacts"@);
                    assert(simple_url(text@, url@));
                },
                _ => {},
            }
        }
    }
    match read {
        Err(e) => Err(Failure { code: 400, message: e }),
        Ok((path, query)) => {
            let inner = bare_url(unroot(path.as_str()).as_str());
            let segments = split(inner.as_str(), '/');
            route_segments(method, segments.as_slice(), query.as_slice())
        },
    }
}

/// A refusal of what could not be done: what is not there is not found.
pub fn fail(missing: bool, message: String) -> (r: Failure)
    ensures
        r@ == (if missing {
            404u16
        } else {
            400u16
        }, message@),
{
    Failure {
        code: if missing {
            404
        } else {
            400
        },
        message,
    }
}

pub const NO_SOURCE: &'static str = "upload has no source directory";

/// The artifact that a request names.
pub fn artifact_named(path: Option<String>) -> (r: Result<String, Failure>)
    ensures
        match r {
            Ok(p) => opt_view(path) == Some(p@),
            Err(e) => path is None && e@ == (400u16, "missing query param: path"@),
        },
{
    match path {
        Some(p) => Ok(p),
        None => Err(Failure { code: 400, message: "missing query param: path".to_owned() }),
    }
}

/// Without the token nothing is done: whatever is asked, the answer is that it is not allowed.
pub proof fn law_nothing_is_done_without_the_token(
    token: Seq<char>,
    method: Seq<char>,
    url: Seq<char>,
    headers: Seq<(Seq<char>, Seq<char>)>,
)
    requires
        forall|i: int| 0 <= i < headers.len() ==> (#[trigger] headers[i]).1 != "Bearer "@ + token,
    ensures
        routed(token, method, url, headers) == Err::<ServerRequestView, (u16, Seq<char>)>(
            (401, "unauthorized"@),
        ),
{
}

} // verus!
