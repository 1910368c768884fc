//! What the server does with a request: which file to read or write, and which bytes to send.
//! The connection loop performs each decision and hands the outcome back.

use vstd::prelude::*;
use vstd::utf8::encode_utf8;
use crate::request::{Request, RequestView};
use crate::response::{answer_body, answer_head, pair_views, respond_with_body};
use crate::text::{same_str, starts_with, starts_with_str};
use crate::wrappers::{guess_mime, mime_essence_of};

verus! {

broadcast use vstd::string::group_string_axioms;

/// What follows the writing of a reply.
#[derive(Debug, Clone, Copy, PartialEq, Eq, Structural)]
pub enum Finish {
    /// Nothing.
    Nothing,
    /// Flush the stream and shut down its writing side.
    ShutdownWrite,
    /// Flush the stream and shut down both sides.
    ShutdownBoth,
}

/// Bytes to write to the client, and what comes after.
pub struct Reply {
    /// Written first.
    pub head: String,
    /// Written after the head, unless empty.
    pub body: Vec<u8>,
    /// Done once both are written.
    pub finish: Finish,
    /// Status code and message of an answer that goes to the log.
    pub logged_status: Option<(String, String)>,
    /// Whether the connection ends after this reply rather than waiting for another request.
    pub ends_connection: bool,
}

/// The mathematical content of a reply.
pub struct ReplyView {
    pub head: Seq<char>,
    pub body: Seq<u8>,
    pub finish: Finish,
    pub logged_status: Option<(Seq<char>, Seq<char>)>,
    pub ends_connection: bool,
}

impl View for Reply {
    type V = ReplyView;

    open spec fn view(&self) -> ReplyView {
        ReplyView {
            head: self.head@,
            body: self.body@,
            finish: self.finish,
            logged_status: match self.logged_status {
                Some((code, message)) => Some((code@, message@)),
                None => None,
            },
            ends_connection: self.ends_connection,
        }
    }
}

/// The next step for a request.
pub enum Decision {
    /// Write this reply.
    Send(Reply),
    /// Read this file, then answer with `reply_with_file`.
    ReadFile { file_path: String, content_type: String },
    /// Write these bytes to this file, then answer with `reply_after_store`.
    WriteFile { file_path: String, contents: Vec<u8> },
}

/// The mathematical content of a decision.
pub enum DecisionView {
    Send(ReplyView),
    ReadFile(Seq<char>, Seq<char>),
    WriteFile(Seq<char>, Seq<u8>),
}

impl View for Decision {
    type V = DecisionView;

    open spec fn view(&self) -> DecisionView {
        match self {
            Decision::Send(reply) => DecisionView::Send(reply@),
            Decision::ReadFile { file_path, content_type } => DecisionView::ReadFile(
                file_path@,
                content_type@,
            ),
            Decision::WriteFile { file_path, contents } => DecisionView::WriteFile(
                file_path@,
                contents@,
            ),
        }
    }
}

/// The view of an optional string.
pub open spec fn opt_view(s: Option<String>) -> Option<Seq<char>> {
    match s {
        Some(t) => Some(t@),
        None => None,
    }
}

/// A fixed text sent as it is.
pub open spec fn raw(text: Seq<char>, finish: Finish, ends_connection: bool) -> ReplyView {
    ReplyView { head: text, body: Seq::empty(), finish, logged_status: None, ends_connection }
}

/// The answer to `r` with a status, a content type, a body and extra headers: compressed when
/// the request's `Accept-Encoding` mentions gzip, body bytes sent only for `GET`, then the
/// writing side is shut down and the connection ends.
pub open spec fn answered(
    r: RequestView,
    code: Seq<char>,
    message: Seq<char>,
    content_type: Seq<char>,
    body: Seq<u8>,
    extra: Seq<(Seq<char>, Seq<char>)>,
) -> ReplyView {
    let accept = r.header("accept-encoding"@);
    ReplyView {
        head: answer_head(code, message, content_type, body, accept, extra),
        body: answer_body(body, accept, r.method == "GET"@),
        finish: Finish::ShutdownWrite,
        logged_status: Some((code, message)),
        ends_connection: true,
    }
}

/// The answer for an unknown path, asking to close the connection.
pub open spec fn not_found_close() -> Seq<char> {
    "HTTP/1.1 404 Not Found\r\nConnection: close\r\n\r\n"@
}

/// The answer for a file that cannot be read, or an unknown method.
pub open spec fn not_found() -> Seq<char> {
    "HTTP/1.1 404 Not Found\r\n\r\n"@
}

/// The answer when `/files/` has no directory or a file cannot be written.
pub open spec fn server_error() -> Seq<char> {
    "HTTP/1.1 500 Internal Server Error\r\n\r\n"@
}

/// The answer once an uploaded file has been written.
pub open spec fn created() -> Seq<char> {
    "HTTP/1.1 201 Created\r\n\r\n"@
}

/// The answer to an upload without a body.
pub open spec fn bad_request() -> Seq<char> {
    "HTTP/1.1 400 Bad Request\r\n\r\n"@
}

/// The answer to `/echo`.
pub open spec fn echo_close() -> Seq<char> {
    "HTTP/1.1 200 OK\r\nConnection: close\r\n\r\n"@
}

/// A `/search` request carries both the `lang` and the `q` parameter.
pub open spec fn search_ready(r: RequestView) -> bool {
    (r.method == "GET"@ || r.method == "HEAD"@) && starts_with(r.path, "/search"@) ==> {
        &&& r.params.dom().contains("lang"@)
        &&& r.params.dom().contains("q"@)
    }
}

/// The next step for request `r`, where `files_dir` is the directory of `/files/`
/// (none when the server was started without one).
pub open spec fn plan(r: RequestView, files_dir: Option<Seq<char>>) -> DecisionView {
    let p = r.path;
    if r.method == "GET"@ || r.method == "HEAD"@ {
        if p == "/"@ {
            DecisionView::ReadFile("public/index.html"@, mime_essence_of("public/index.html"@))
        } else if starts_with(p, "/public/"@) {
            let file_path = "public/"@ + p.skip(8);
            DecisionView::ReadFile(file_path, mime_essence_of(file_path))
        } else if p == "/echo"@ {
            DecisionView::Send(raw(echo_close(), Finish::ShutdownBoth, true))
        } else if starts_with(p, "/search"@) {
            let text = r.params["q"@] + " "@ + r.params["lang"@];
            DecisionView::Send(
                answered(r, "200"@, "OK"@, "text/plain"@, encode_utf8(text), seq![]),
            )
        } else if p == "/status-demo"@ {
            DecisionView::Send(
                answered(
                    r,
                    "411"@,
                    "This is a status message"@,
                    "text/plain"@,
                    encode_utf8("This is a status code response"@),
                    seq![("X-DEMO"@, "true"@)],
                ),
            )
        } else if starts_with(p, "/echo/"@) {
            DecisionView::Send(
                answered(r, "200"@, "OK"@, "text/plain"@, encode_utf8(p.skip(6)), seq![]),
            )
        } else if p == "/custom-header"@ {
            DecisionView::Send(
                answered(
                    r,
                    "200"@,
                    "OK"@,
                    "text/plain"@,
                    encode_utf8("This response has custom headers"@),
                    seq![("X-Powered-By"@, "Rust Web Server"@), ("Cache-Control"@, "no-cache"@)],
                ),
            )
        } else if p == "/user-agent"@ {
            DecisionView::Send(
                answered(
                    r,
                    "200"@,
                    "OK"@,
                    "text/plain"@,
                    encode_utf8(r.header("user-agent"@)),
                    seq![],
                ),
            )
        } else if starts_with(p, "/files/"@) {
            match files_dir {
                None => DecisionView::Send(raw(server_error(), Finish::Nothing, true)),
                Some(dir) => DecisionView::ReadFile(dir + p.skip(7), "application/octet-stream"@),
            }
        } else {
            DecisionView::Send(raw(not_found_close(), Finish::ShutdownBoth, false))
        }
    } else if r.method == "POST"@ {
        if starts_with(p, "/files/"@) {
            match files_dir {
                None => DecisionView::Send(raw(server_error(), Finish::Nothing, true)),
                Some(dir) => match r.body {
                    Some(contents) => DecisionView::WriteFile(dir + p.skip(7), contents),
                    None => DecisionView::Send(raw(bad_request(), Finish::Nothing, true)),
                },
            }
        } else {
            DecisionView::Send(raw(not_found_close(), Finish::ShutdownBoth, false))
        }
    } else {
        DecisionView::Send(raw(not_found(), Finish::Nothing, false))
    }
}

/// The answer once the file of a `ReadFile` step has been read (`None`: it could not be).
pub open spec fn file_reply(r: RequestView, content_type: Seq<char>, contents: Option<Seq<u8>>) -> ReplyView {
    match contents {
        Some(c) => answered(r, "200"@, "OK"@, content_type, c, seq![]),
        None => raw(not_found(), Finish::Nothing, true),
    }
}

/// The answer once the file of a `WriteFile` step has been written, or not.
pub open spec fn store_reply(stored: bool) -> ReplyView {
    if stored {
        raw(created(), Finish::Nothing, true)
    } else {
        raw(server_error(), Finish::Nothing, true)
    }
}

/// A fixed text as a reply.
fn raw_reply(text: &str, finish: Finish, ends_connection: bool) -> (r: Reply)
    ensures
        r@ == raw(text@, finish, ends_connection),
{
    Reply {
        head: text.to_owned(),
        body: Vec::new(),
        finish,
        logged_status: None,
        ends_connection,
    }
}

/// The answer to `request` with the given status, content type, body and extra headers.
fn answer(
    request: &Request,
    status_code: &str,
    status_message: &str,
    content_type: &str,
    body: &[u8],
    extra_headers: &Vec<(String, String)>,
) -> (r: Reply)
    ensures
        r@ == answered(
            request@,
            status_code@,
            status_message@,
            content_type@,
            body@,
            pair_views(extra_headers@),
        ),
{
    let accept_encoding = request.get_header("accept-encoding");
    let send_body = same_str(request.method.as_str(), "GET");
    let response = respond_with_body(
        status_code,
        status_message,
        content_type,
        body,
        accept_encoding.as_str(),
        extra_headers,
        send_body,
    );
    Reply {
        head: response.head,
        body: response.body,
        finish: Finish::ShutdownWrite,
        logged_status: Some((status_code.to_owned(), status_message.to_owned())),
        ends_connection: true,
    }
}

/// `s` without its first `n` characters.
fn skip_chars(s: &str, n: usize) -> (r: &str)
    requires
        n <= s@.len(),
    ensures
        r@ == s@.skip(n as int),
{
    let len = s.unicode_len();
    s.substring_char(n, len)
}

/// `prefix` followed by `s` without its first `n` characters.
fn joined_path(prefix: &str, s: &str, n: usize) -> (r: String)
    requires
        n <= s@.len(),
    ensures
        r@ == prefix@ + s@.skip(n as int),
{
    let mut out = prefix.to_owned();
    out.append(skip_chars(s, n));
    out
}

impl Request {
    /// Whether a `/search` request has both parameters that its answer needs.
    pub fn search_ready(&self) -> (b: bool)
        ensures
            b == search_ready(self@),
    {
        let get_or_head = same_str(self.method.as_str(), "GET") || same_str(
            self.method.as_str(),
            "HEAD",
        );
        if get_or_head && starts_with_str(self.path.as_str(), "/search") {
            self.get_query("lang").is_some() && self.get_query("q").is_some()
        } else {
            true
        }
    }
}

/// Decides the next step for `request`, with `files_dir` the directory of `/files/`.
pub fn decide(request: &Request, files_dir: &Option<String>) -> (d: Decision)
    requires
        search_ready(request@),
    ensures
        d@ == plan(request@, opt_view(*files_dir)),
{
    let method = request.method.as_str();
    let path = request.path.as_str();
    let no_extra: Vec<(String, String)> = Vec::new();
    assert(pair_views(no_extra@) =~= seq![]);
    if same_str(method, "GET") || same_str(method, "HEAD") {
        if same_str(path, "/") {
            let file_path = "public/index.html";
            let content_type = guess_mime(file_path);
            Decision::ReadFile { file_path: file_path.to_owned(), content_type }
        } else if starts_with_str(path, "/public/") {
            proof { reveal_strlit("/public/"); }
            let file_path = joined_path("public/", path, 8);
            let content_type = guess_mime(file_path.as_str());
            Decision::ReadFile { file_path, content_type }
        } else if same_str(path, "/echo") {
            Decision::Send(raw_reply(
                "HTTP/1.1 200 OK\r\nConnection: close\r\n\r\n",
                Finish::ShutdownBoth,
                true,
            ))
        } else if starts_with_str(path, "/search") {
            let lang = request.get_query("lang").unwrap();
            let q = request.get_query("q").unwrap();
            let mut text = q.clone();
            text.append(" ");
            text.append(lang.as_str());
            Decision::Send(answer(request, "200", "OK", "text/plain", text.as_str().as_bytes(), &no_extra))
        } else if same_str(path, "/status-demo") {
            let extra = vec![("X-DEMO".to_owned(), "true".to_owned())];
            assert(pair_views(extra@) =~= seq![("X-DEMO"@, "true"@)]);
            Decision::Send(answer(
                request,
                "411",
                "This is a status message",
                "text/plain",
                "This is a status code response".as_bytes(),
                &extra,
            ))
        } else if starts_with_str(path, "/echo/") {
            proof { reveal_strlit("/echo/"); }
            let echo_text = skip_chars(path, 6);
            Decision::Send(answer(request, "200", "OK", "text/plain", echo_text.as_bytes(), &no_extra))
        } else if same_str(path, "/custom-header") {
            let extra = vec![
                ("X-Powered-By".to_owned(), "Rust Web Server".to_owned()),
                ("Cache-Control".to_owned(), "no-cache".to_owned()),
            ];
            assert(pair_views(extra@) =~= seq![
                ("X-Powered-By"@, "Rust Web Server"@),
                ("Cache-Control"@, "no-cache"@),
            ]);
            Decision::Send(answer(
                request,
                "200",
                "OK",
                "text/plain",
                "This response has custom headers".as_bytes(),
                &extra,
            ))
        } else if same_str(path, "/user-agent") {
            let user_agent = request.get_header("user-agent");
            Decision::Send(answer(
                request,
                "200",
                "OK",
                "text/plain",
                user_agent.as_str().as_bytes(),
                &no_extra,
            ))
        } else if starts_with_str(path, "/files/") {
            proof { reveal_strlit("/files/"); }
            match files_dir {
                None => Decision::Send(raw_reply(
                    "HTTP/1.1 500 Internal Server Error\r\n\r\n",
                    Finish::Nothing,
                    true,
                )),
                Some(dir) => Decision::ReadFile {
                    file_path: joined_path(dir.as_str(), path, 7),
                    content_type: "application/octet-stream".to_owned(),
                },
            }
        } else {
            Decision::Send(raw_reply(
                "HTTP/1.1 404 Not Found\r\nConnection: close\r\n\r\n",
                Finish::ShutdownBoth,
                false,
            ))
        }
    } else if same_str(method, "POST") {
        if starts_with_str(path, "/files/") {
            proof { reveal_strlit("/files/"); }
            match files_dir {
                None => Decision::Send(raw_reply(
                    "HTTP/1.1 500 Internal Server Error\r\n\r\n",
                    Finish::Nothing,
                    true,
                )),
                Some(dir) => match &request.body {
                    Some(contents) => Decision::WriteFile {
                        file_path: joined_path(dir.as_str(), path, 7),
                        contents: contents.clone(),
                    },
                    None => Decision::Send(raw_reply(
                        "HTTP/1.1 400 Bad Request\r\n\r\n",
                        Finish::Nothing,
                        true,
                    )),
                },
            }
        } else {
            Decision::Send(raw_reply(
                "HTTP/1.1 404 Not Found\r\nConnection: close\r\n\r\n",
                Finish::ShutdownBoth,
                false,
            ))
        }
    } else {
        Decision::Send(raw_reply("HTTP/1.1 404 Not Found\r\n\r\n", Finish::Nothing, false))
    }
}

/// The answer to `request` once the file of its `ReadFile` step has been read
/// (`None` where it could not be).
pub fn reply_with_file(request: &Request, content_type: &str, contents: Option<Vec<u8>>) -> (r: Reply)
    ensures
        r@ == file_reply(
            request@,
            content_type@,
            match contents {
                Some(c) => Some(c@),
                None => None,
            },
        ),
{
    match contents {
        Some(c) => {
            let no_extra: Vec<(String, String)> = Vec::new();
            assert(pair_views(no_extra@) =~= seq![]);
            answer(request, "200", "OK", content_type, c.as_slice(), &no_extra)
        },
        None => raw_reply("HTTP/1.1 404 Not Found\r\n\r\n", Finish::Nothing, true),
    }
}

/// The answer once the file of a `WriteFile` step has been written (`stored`) or not.
pub fn reply_after_store(stored: bool) -> (r: Reply)
    ensures
        r@ == store_reply(stored),
{
    if stored {
        raw_reply("HTTP/1.1 201 Created\r\n\r\n", Finish::Nothing, true)
    } else {
        raw_reply("HTTP/1.1 500 Internal Server Error\r\n\r\n", Finish::Nothing, true)
    }
}

} // verus!
