//! The lines that the server appends to its log for each request and each answer.

use vstd::prelude::*;
use crate::request::Request;
use crate::text::{trim, trim_str};

verus! {

broadcast use vstd::string::group_string_axioms;

/// `[time] METHOD path version from peer` and a line end.
pub open spec fn request_log(
    timestamp: Seq<char>,
    method: Seq<char>,
    path: Seq<char>,
    version: Seq<char>,
    peer: Seq<char>,
) -> Seq<char> {
    "["@ + timestamp + "] "@ + method + " "@ + path + " "@ + trim(version) + " from "@ + peer
        + "\n"@
}

/// `[time] METHOD path version code message from peer` and a line end.
pub open spec fn response_log(
    timestamp: Seq<char>,
    method: Seq<char>,
    path: Seq<char>,
    version: Seq<char>,
    code: Seq<char>,
    message: Seq<char>,
    peer: Seq<char>,
) -> Seq<char> {
    "["@ + timestamp + "] "@ + method + " "@ + path + " "@ + trim(version) + " "@ + code + " "@
        + message + " from "@ + peer + "\n"@
}

/// The log line for a request received from `peer` at `timestamp`.
pub fn request_log_line(timestamp: &str, request: &Request, peer: &str) -> (r: String)
    ensures
        r@ == request_log(timestamp@, request@.method, request@.path, request@.version, peer@),
{
    let mut line = String::new();
    line.append("[");
    line.append(timestamp);
    line.append("] ");
    line.append(request.method.as_str());
    line.append(" ");
    line.append(request.path.as_str());
    line.append(" ");
    line.append(trim_str(request.version.as_str()));
    line.append(" from ");
    line.append(peer);
    line.append("\n");
    assert(line@ =~= request_log(
        timestamp@,
        request@.method,
        request@.path,
        request@.version,
        peer@,
    ));
    line
}

/// The log line for an answer with `status_code` and `status_message` to `request`.
pub fn response_log_line(
    timestamp: &str,
    status_code: &str,
    status_message: &str,
    request: &Request,
    peer: &str,
) -> (r: String)
    ensures
        r@ == response_log(
            timestamp@,
            request@.method,
            request@.path,
            request@.version,
            status_code@,
            status_message@,
            peer@,
        ),
{
    let mut line = String::new();
    line.append("[");
    line.append(timestamp);
    line.append("] ");
    line.append(request.method.as_str());
    line.append(" ");
    line.append(request.path.as_str());
    line.append(" ");
    line.append(trim_str(request.version.as_str()));
    line.append(" ");
    line.append(status_code);
    line.append(" ");
    line.append(status_message);
    line.append(" from ");
    line.append(peer);
    line.append("\n");
    assert(line@ =~= response_log(
        timestamp@,
        request@.method,
        request@.path,
        request@.version,
        status_code@,
        status_message@,
        peer@,
    ));
    line
}

} // verus!
