//! A parsed request: request line, header lines, body and query parameters.

use vstd::prelude::*;
use crate::number::parse_usize_str;
use crate::query::{params_of, parse_query_params, path_of, QueryParams};
use crate::text::{
    parse_usize, remove_all, remove_all_str, same_str, split, split_str, starts_with,
    starts_with_str, trim, trim_str, views,
};
use crate::wrappers::{lowercase_of, to_lowercase};

verus! {

broadcast use vstd::string::group_string_axioms;

/// A request as the server keeps it.
pub struct Request {
    /// The first word of the request line, such as `GET`.
    pub method: String,
    /// The request target up to its first `?`.
    pub path: String,
    /// The rest of the request line after the second space, line end included.
    pub version: String,
    /// The header lines, each trimmed.
    pub headers: Vec<String>,
    /// The body, once it has been read.
    pub body: Option<Vec<u8>>,
    /// The parameters after the `?` of the request target.
    pub query_params: QueryParams,
}

/// Why a request could not be parsed.
#[derive(Debug, PartialEq, Eq, Structural)]
pub enum RequestError {
    /// The request line does not consist of exactly three space-separated parts.
    MalformedRequestLine,
}

/// The mathematical content of a request.
pub struct RequestView {
    pub method: Seq<char>,
    pub path: Seq<char>,
    pub version: Seq<char>,
    pub headers: Seq<Seq<char>>,
    pub body: Option<Seq<u8>>,
    pub params: Map<Seq<char>, Seq<char>>,
}

impl View for Request {
    type V = RequestView;

    open spec fn view(&self) -> RequestView {
        RequestView {
            method: self.method@,
            path: self.path@,
            version: self.version@,
            headers: views(self.headers@),
            body: match self.body {
                Some(b) => Some(b@),
                None => None,
            },
            params: self.query_params@,
        }
    }
}

/// The value that the lookup of a (lowercased, trimmed) header name gives among lowercased
/// header lines: the first line that begins with the name, with every `name: ` in it removed
/// and the rest trimmed; empty where no line begins with the name.
pub open spec fn header_value(headers: Seq<Seq<char>>, target: Seq<char>) -> Seq<char>
    decreases headers.len(),
{
    if headers.len() == 0 {
        Seq::empty()
    } else if starts_with(headers[0], target) {
        trim(remove_all(headers[0], target + ": "@))
    } else {
        header_value(headers.drop_first(), target)
    }
}

/// The lowercase forms of header lines.
pub open spec fn lowered(headers: Seq<Seq<char>>) -> Seq<Seq<char>> {
    headers.map_values(|h: Seq<char>| lowercase_of(h))
}

/// Each line trimmed.
pub open spec fn trimmed(lines: Seq<Seq<char>>) -> Seq<Seq<char>> {
    lines.map_values(|l: Seq<char>| trim(l))
}

impl RequestView {
    /// The value of header `name`, found without regard to case: see `header_value`.
    pub open spec fn header(self, name: Seq<char>) -> Seq<char> {
        header_value(lowered(self.headers), trim(lowercase_of(name)))
    }

    /// The `Content-Length` of the request as a number, 0 where it is missing or not a number.
    pub open spec fn content_length(self) -> usize {
        match parse_usize(self.header("content-length"@)) {
            Some(n) => n,
            None => 0,
        }
    }

    /// Whether the connection ends after this request: for `HTTP/1.0` unless
    /// `Connection: keep-alive`, for `HTTP/1.1` only with `Connection: close`, otherwise always.
    pub open spec fn closes(self) -> bool {
        let version = trim(self.version);
        let connection = self.header("connection"@);
        if version == "HTTP/1.0"@ {
            connection != "keep-alive"@
        } else if version == "HTTP/1.1"@ {
            connection == "close"@
        } else {
            true
        }
    }
}

/// The request that a request line and its raw header lines denote, if the line has
/// exactly three space-separated parts.
pub open spec fn request_of(line: Seq<char>, header_lines: Seq<Seq<char>>) -> Option<RequestView> {
    let parts = split(line, ' ');
    if parts.len() == 3 {
        Some(
            RequestView {
                method: parts[0],
                path: path_of(parts[1]),
                version: parts[2],
                headers: trimmed(header_lines),
                body: None,
                params: params_of(parts[1]),
            },
        )
    } else {
        None
    }
}

/// Whether a line read after the request line closes the header block (it is the empty line).
pub fn ends_header_block(line: &str) -> (b: bool)
    ensures
        b == (line@ == "\r\n"@),
{
    same_str(line, "\r\n")
}

/// Finds a header's value among lowercased header lines, for a lowercased and trimmed name.
pub fn find_header(headers: &Vec<String>, target: &str) -> (r: String)
    ensures
        r@ == header_value(views(headers@), target@),
{
    let mut pattern = target.to_owned();
    pattern.append(": ");
    let mut i: usize = 0;
    assert(views(headers@).skip(0) =~= views(headers@));
    while i < headers.len()
        invariant
            i <= headers@.len(),
            pattern@ == target@ + ": "@,
            header_value(views(headers@), target@) == header_value(
                views(headers@).skip(i as int),
                target@,
            ),
        decreases headers.len() - i,
    {
        let ghost rest = views(headers@).skip(i as int);
        assert(rest[0] == headers@[i as int]@);
        assert(rest.drop_first() =~= views(headers@).skip(i + 1));
        if starts_with_str(headers[i].as_str(), target) {
            let removed = remove_all_str(headers[i].as_str(), pattern.as_str());
            return trim_str(removed.as_str()).to_owned();
        }
        i = i + 1;
    }
    String::new()
}

impl Request {
    /// Parses a request line (as read, line end included) and the header lines that follow
    /// it (as read, up to the empty line). The body is not read yet.
    pub fn new(request_line: &str, header_lines: &Vec<String>) -> (r: Result<Request, RequestError>)
        ensures
            r is Err <==> request_of(request_line@, views(header_lines@)) is None,
            r matches Ok(req) ==> Some(req@) == request_of(request_line@, views(header_lines@)),
    {
        let mut headers: Vec<String> = Vec::new();
        let mut i: usize = 0;
        while i < header_lines.len()
            invariant
                i <= header_lines@.len(),
                headers@.len() == i,
                forall|j: int| 0 <= j < i ==> #[trigger] headers@[j]@ == trim(header_lines@[j]@),
            decreases header_lines.len() - i,
        {
            headers.push(trim_str(header_lines[i].as_str()).to_owned());
            i = i + 1;
        }
        assert(views(headers@) =~= trimmed(views(header_lines@)));
        let parts = split_str(request_line, ' ');
        if parts.len() != 3 {
            return Err(RequestError::MalformedRequestLine);
        }
        assert(parts@[1]@ == views(parts@)[1]);
        let (path, query_params) = parse_query_params(parts[1].as_str());
        let request = Request {
            method: parts[0].clone(),
            path: path.to_owned(),
            version: parts[2].clone(),
            headers,
            body: None,
            query_params,
        };
        assert(request@.headers == trimmed(views(header_lines@)));
        Ok(request)
    }

    /// The value of a query parameter.
    pub fn get_query(&self, key: &str) -> (r: Option<&String>)
        ensures
            r is Some <==> self@.params.dom().contains(key@),
            r matches Some(v) ==> v@ == self@.params[key@],
    {
        self.query_params.get(key)
    }

    /// The value of a header, the name compared without regard to case: the first header
    /// line whose lowercase form begins with the lowercased, trimmed name gives it, with every
    /// `name: ` removed from that lowercase line and the rest trimmed. Empty if there is none.
    pub fn get_header(&self, target_header: &str) -> (r: String)
        ensures
            r@ == self@.header(target_header@),
    {
        let lower_target = to_lowercase(target_header);
        let target = trim_str(lower_target.as_str());
        let mut lowered_headers: Vec<String> = Vec::new();
        let mut i: usize = 0;
        while i < self.headers.len()
            invariant
                i <= self.headers@.len(),
                lowered_headers@.len() == i,
                forall|j: int|
                    0 <= j < i ==> #[trigger] lowered_headers@[j]@ == lowercase_of(
                        self.headers@[j]@,
                    ),
            decreases self.headers.len() - i,
        {
            lowered_headers.push(to_lowercase(self.headers[i].as_str()));
            i = i + 1;
        }
        assert(views(lowered_headers@) =~= lowered(views(self.headers@)));
        find_header(&lowered_headers, target)
    }

    /// The length of the body announced by `Content-Length`, 0 where it is missing or is not
    /// a number that fits.
    pub fn content_length(&self) -> (n: usize)
        ensures
            n == self@.content_length(),
    {
        let value = self.get_header("content-length");
        match parse_usize_str(value.as_str()) {
            Some(n) => n,
            None => 0,
        }
    }

    /// Stores the body that was read.
    pub fn set_body(&mut self, body: Vec<u8>)
        ensures
            final(self)@ == (RequestView { body: Some(body@), ..old(self)@ }),
    {
        self.body = Some(body);
    }

    /// Whether the connection is to be closed after this request has been answered.
    pub fn should_close(&self) -> (b: bool)
        ensures
            b == self@.closes(),
    {
        let connection_type = self.get_header("connection");
        let version = trim_str(self.version.as_str());
        if same_str(version, "HTTP/1.0") {
            !same_str(connection_type.as_str(), "keep-alive")
        } else if same_str(version, "HTTP/1.1") {
            same_str(connection_type.as_str(), "close")
        } else {
            true
        }
    }
}

} // verus!
