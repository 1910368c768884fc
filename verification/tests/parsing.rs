use http_server::number::{decimal_string, parse_usize_str};
use http_server::query::{parse_query_params, QueryParams};
use http_server::request::{ends_header_block, find_header, Request, RequestError};
use http_server::text::{contains_str, remove_all_str, same_str, split_once_str, split_str, starts_with_str, trim_str};

fn lines(v: &[&str]) -> Vec<String> {
    v.iter().map(|s| s.to_string()).collect()
}

fn request(line: &str, headers: &[&str]) -> Request {
    Request::new(line, &lines(headers)).unwrap()
}

#[test]
fn query_params_split_path_and_pairs() {
    let (path, params) = parse_query_params("/search?q=rust&lang=en");
    assert_eq!(path, "/search");
    assert_eq!(params.get("q").map(|s| s.as_str()), Some("rust"));
    assert_eq!(params.get("lang").map(|s| s.as_str()), Some("en"));
    assert_eq!(params.get("other"), None);
}

#[test]
fn query_params_without_question_mark() {
    let (path, params) = parse_query_params("/plain/path");
    assert_eq!(path, "/plain/path");
    assert_eq!(params.get("q"), None);
}

#[test]
fn query_params_later_pair_wins() {
    let (_, params) = parse_query_params("/a?x=1&x=2");
    assert_eq!(params.get("x").map(|s| s.as_str()), Some("2"));
}

#[test]
fn query_params_edge_pairs() {
    let (path, params) = parse_query_params("/a?b?c=1=2&flag&empty=&&=v");
    assert_eq!(path, "/a");
    assert_eq!(params.get("b?c").map(|s| s.as_str()), Some("1=2"));
    assert_eq!(params.get("flag"), None);
    assert_eq!(params.get("empty").map(|s| s.as_str()), Some(""));
    assert_eq!(params.get("").map(|s| s.as_str()), Some("v"));
}

#[test]
fn query_params_insert_then_get() {
    let mut params = QueryParams::new();
    params.insert("k".to_string(), "one".to_string());
    params.insert("k".to_string(), "two".to_string());
    assert_eq!(params.get("k").map(|s| s.as_str()), Some("two"));
}

#[test]
fn request_line_and_headers_are_parsed() {
    let req = request(
        "GET /echo/abc?x=1 HTTP/1.1\r\n",
        &["Host: localhost:4221\r\n", "  User-Agent: Curl/7.64\r\n"],
    );
    assert_eq!(req.method, "GET");
    assert_eq!(req.path, "/echo/abc");
    assert_eq!(req.version, "HTTP/1.1\r\n");
    assert_eq!(req.headers, vec!["Host: localhost:4221".to_string(), "User-Agent: Curl/7.64".to_string()]);
    assert!(req.body.is_none());
    assert_eq!(req.get_query("x").map(|s| s.as_str()), Some("1"));
}

#[test]
fn malformed_request_lines_are_refused() {
    assert_eq!(Request::new("GET /\r\n", &vec![]).err(), Some(RequestError::MalformedRequestLine));
    assert_eq!(Request::new("GET  / HTTP/1.1\r\n", &vec![]).err(), Some(RequestError::MalformedRequestLine));
    assert_eq!(Request::new("", &vec![]).err(), Some(RequestError::MalformedRequestLine));
    assert!(Request::new("A B C", &vec![]).is_ok());
}

#[test]
fn header_lookup_ignores_case_and_lowercases_value() {
    let req = request("GET / HTTP/1.1\r\n", &["User-Agent: Mozilla/5.0\r\n", "Accept-Encoding: gzip, br\r\n"]);
    assert_eq!(req.get_header("user-agent"), "mozilla/5.0");
    assert_eq!(req.get_header("  ACCEPT-ENCODING "), "gzip, br");
    assert_eq!(req.get_header("connection"), "");
}

#[test]
fn header_lookup_takes_first_prefix_match() {
    let req = request("GET / HTTP/1.1\r\n", &["X-Ab: 1\r\n", "X-A: 2\r\n"]);
    assert_eq!(req.get_header("x-a"), "x-ab: 1");
    assert_eq!(req.get_header(""), "x-ab1");
}

#[test]
fn find_header_on_lowered_lines() {
    let hs = lines(&["host: a", "content-length: 42"]);
    assert_eq!(find_header(&hs, "content-length"), "42");
    assert_eq!(find_header(&hs, "absent"), "");
}

#[test]
fn content_length_values() {
    assert_eq!(request("POST /x HTTP/1.1\r\n", &["Content-Length: 12\r\n"]).content_length(), 12);
    assert_eq!(request("POST /x HTTP/1.1\r\n", &["Content-Length: +7\r\n"]).content_length(), 7);
    assert_eq!(request("POST /x HTTP/1.1\r\n", &["Content-Length: abc\r\n"]).content_length(), 0);
    assert_eq!(request("POST /x HTTP/1.1\r\n", &["Content-Length: -1\r\n"]).content_length(), 0);
    assert_eq!(request("POST /x HTTP/1.1\r\n", &[]).content_length(), 0);
}

#[test]
fn set_body_stores_bytes() {
    let mut req = request("POST /files/a HTTP/1.1\r\n", &["Content-Length: 3\r\n"]);
    req.set_body(vec![1, 2, 3]);
    assert_eq!(req.body, Some(vec![1, 2, 3]));
}

#[test]
fn keep_alive_rules() {
    assert!(request("GET / HTTP/1.0\r\n", &[]).should_close());
    assert!(!request("GET / HTTP/1.0\r\n", &["Connection: Keep-Alive\r\n"]).should_close());
    assert!(!request("GET / HTTP/1.1\r\n", &[]).should_close());
    assert!(request("GET / HTTP/1.1\r\n", &["Connection: close\r\n"]).should_close());
    assert!(request("GET / HTTP/2\r\n", &[]).should_close());
}

#[test]
fn header_block_end() {
    assert!(ends_header_block("\r\n"));
    assert!(!ends_header_block("\n"));
    assert!(!ends_header_block("Host: x\r\n"));
}

#[test]
fn decimal_and_parse() {
    assert_eq!(decimal_string(0), "0");
    assert_eq!(decimal_string(7), "7");
    assert_eq!(decimal_string(1234), "1234");
    assert_eq!(decimal_string(usize::MAX), usize::MAX.to_string());
    assert_eq!(parse_usize_str("1234"), Some(1234));
    assert_eq!(parse_usize_str("+0"), Some(0));
    assert_eq!(parse_usize_str(""), None);
    assert_eq!(parse_usize_str("+"), None);
    assert_eq!(parse_usize_str(" 1"), None);
    assert_eq!(parse_usize_str("18446744073709551616"), None);
}

#[test]
fn decimal_parses_back() {
    for n in [0usize, 9, 10, 99, 4221, usize::MAX] {
        assert_eq!(parse_usize_str(&decimal_string(n)), Some(n));
    }
}

#[test]
fn text_helpers() {
    assert_eq!(trim_str("\t a b \u{3000}\r\n"), "a b");
    assert_eq!(trim_str("   "), "");
    assert!(starts_with_str("/public/x", "/public/"));
    assert!(!starts_with_str("/pub", "/public/"));
    assert!(contains_str("deflate, gzip", "gzip"));
    assert!(!contains_str("gzi", "gzip"));
    assert!(contains_str("", ""));
    assert!(same_str("a", "a"));
    assert_eq!(remove_all_str("host: host: x", "host: "), "x");
    assert_eq!(remove_all_str("aaa", "aa"), "a");
    assert_eq!(split_once_str("k=v=w", '='), Some(("k", "v=w")));
    assert_eq!(split_once_str("kv", '='), None);
}

#[test]
fn split_and_join_back() {
    let line = "GET /a b HTTP/1.1";
    let parts = split_str(line, ' ');
    assert_eq!(parts, vec!["GET", "/a", "b", "HTTP/1.1"]);
    assert_eq!(parts.join(" "), line);
    assert_eq!(split_str("", '&'), vec![""]);
    assert_eq!(split_str("&", '&'), vec!["", ""]);
}

#[test]
fn request_line_reassembles() {
    let line = "GET /a?b=1 HTTP/1.1\r\n";
    let req = request(line, &[]);
    let target = split_str(line, ' ')[1].clone();
    assert_eq!(format!("{} {} {}", req.method, target, req.version), line);
    assert_eq!(req.path, "/a");
    assert_eq!(req.get_query("b").map(|s| s.as_str()), Some("1"));
}

#[test]
fn query_written_then_parsed_round_trips() {
    let pairs = [("q", "rust lang"), ("lang", "en=GB"), ("", "x")];
    let query: Vec<String> = pairs.iter().map(|(k, v)| format!("{}={}", k, v)).collect();
    let target = format!("/search{}{}", "?", query.join("&"));
    let (path, params) = parse_query_params(&target);
    assert_eq!(path, "/search");
    for (k, v) in pairs {
        assert_eq!(params.get(k).map(|s| s.as_str()), Some(v));
    }
    let (path, params) = parse_query_params("/empty?");
    assert_eq!(path, "/empty");
    assert_eq!(params.get(""), None);
}
