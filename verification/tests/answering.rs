use std::io::Read;

use http_server::log::{request_log_line, response_log_line};
use http_server::request::Request;
use http_server::response::{assemble_response, respond_with_body};
use http_server::server::{decide, reply_after_store, reply_with_file, Decision, Finish, Reply};

fn request(line: &str, headers: &[&str]) -> Request {
    let hs: Vec<String> = headers.iter().map(|s| s.to_string()).collect();
    Request::new(line, &hs).unwrap()
}

fn sent(d: Decision) -> Reply {
    match d {
        Decision::Send(r) => r,
        _ => panic!("expected a reply"),
    }
}

fn gunzip(bytes: &[u8]) -> Vec<u8> {
    let mut out = Vec::new();
    flate2::read::GzDecoder::new(bytes).read_to_end(&mut out).unwrap();
    out
}

#[test]
fn plain_response_is_framed() {
    let resp = respond_with_body("200", "OK", "text/plain", b"hello", "", &vec![], true);
    assert_eq!(resp.head, "HTTP/1.1 200 OK\r\nContent-Type: text/plain\r\nContent-Length: 5\r\n\r\n");
    assert_eq!(resp.body, b"hello".to_vec());
}

#[test]
fn extra_headers_follow_in_order() {
    let extra = vec![("A".to_string(), "1".to_string()), ("B".to_string(), "2".to_string())];
    let resp = respond_with_body("404", "Not Found", "text/html", b"", "identity", &extra, false);
    assert_eq!(
        resp.head,
        "HTTP/1.1 404 Not Found\r\nContent-Type: text/html\r\nContent-Length: 0\r\nA: 1\r\nB: 2\r\n\r\n"
    );
    assert!(resp.body.is_empty());
}

#[test]
fn gzip_body_when_accepted() {
    let body = b"some text that is compressed".to_vec();
    let resp = respond_with_body("200", "OK", "text/plain", &body, "deflate, gzip", &vec![], true);
    assert_ne!(resp.body, body);
    assert_eq!(&resp.body[..3], &[0x1f, 0x8b, 8]);
    assert_eq!(gunzip(&resp.body), body);
    let expected = format!(
        "HTTP/1.1 200 OK\r\nContent-Type: text/plain\r\nContent-Encoding: gzip\r\nContent-Length: {}\r\n\r\n",
        resp.body.len()
    );
    assert_eq!(resp.head, expected);
}

#[test]
fn gzip_head_without_body() {
    let with = respond_with_body("200", "OK", "text/plain", b"abc", "gzip", &vec![], true);
    let without = respond_with_body("200", "OK", "text/plain", b"abc", "gzip", &vec![], false);
    assert_eq!(with.head, without.head);
    assert!(without.body.is_empty());
}

#[test]
fn assemble_uses_encoded_length() {
    let resp = assemble_response("201", "Created", "a/b", vec![1, 2, 3], true, &vec![], true);
    assert_eq!(resp.head, "HTTP/1.1 201 Created\r\nContent-Type: a/b\r\nContent-Encoding: gzip\r\nContent-Length: 3\r\n\r\n");
    assert_eq!(resp.body, vec![1, 2, 3]);
}

#[test]
fn root_reads_index_file() {
    match decide(&request("GET / HTTP/1.1\r\n", &[]), &None) {
        Decision::ReadFile { file_path, content_type } => {
            assert_eq!(file_path, "public/index.html");
            assert_eq!(content_type, "text/html");
        }
        _ => panic!("expected a file read"),
    }
}

#[test]
fn public_files_get_their_media_type() {
    match decide(&request("HEAD /public/css/site.css HTTP/1.1\r\n", &[]), &None) {
        Decision::ReadFile { file_path, content_type } => {
            assert_eq!(file_path, "public/css/site.css");
            assert_eq!(content_type, "text/css");
        }
        _ => panic!("expected a file read"),
    }
    match decide(&request("GET /public/noext HTTP/1.1\r\n", &[]), &None) {
        Decision::ReadFile { content_type, .. } => assert_eq!(content_type, "application/octet-stream"),
        _ => panic!("expected a file read"),
    }
}

#[test]
fn echo_closes_connection() {
    let r = sent(decide(&request("GET /echo HTTP/1.1\r\n", &[]), &None));
    assert_eq!(r.head, "HTTP/1.1 200 OK\r\nConnection: close\r\n\r\n");
    assert_eq!(r.finish, Finish::ShutdownBoth);
    assert!(r.ends_connection);
    assert!(r.logged_status.is_none());
}

#[test]
fn echo_text_is_answered() {
    let r = sent(decide(&request("GET /echo/hello%20x HTTP/1.1\r\n", &[]), &None));
    assert_eq!(r.head, "HTTP/1.1 200 OK\r\nContent-Type: text/plain\r\nContent-Length: 9\r\n\r\n");
    assert_eq!(r.body, b"hello%20x".to_vec());
    assert_eq!(r.finish, Finish::ShutdownWrite);
    assert_eq!(r.logged_status, Some(("200".to_string(), "OK".to_string())));
}

#[test]
fn search_answers_query_then_lang() {
    let req = request("GET /search?lang=en&q=rust HTTP/1.1\r\n", &[]);
    assert!(req.search_ready());
    let r = sent(decide(&req, &None));
    assert_eq!(r.body, b"rust en".to_vec());
    let missing = request("GET /search?q=rust HTTP/1.1\r\n", &[]);
    assert!(!missing.search_ready());
    assert!(request("POST /search HTTP/1.1\r\n", &[]).search_ready());
}

#[test]
fn status_demo_has_extra_header() {
    let r = sent(decide(&request("GET /status-demo HTTP/1.1\r\n", &[]), &None));
    assert_eq!(
        r.head,
        "HTTP/1.1 411 This is a status message\r\nContent-Type: text/plain\r\nContent-Length: 30\r\nX-DEMO: true\r\n\r\n"
    );
    assert_eq!(r.body, b"This is a status code response".to_vec());
}

#[test]
fn custom_header_route() {
    let r = sent(decide(&request("GET /custom-header HTTP/1.1\r\n", &[]), &None));
    assert_eq!(
        r.head,
        "HTTP/1.1 200 OK\r\nContent-Type: text/plain\r\nContent-Length: 32\r\nX-Powered-By: Rust Web Server\r\nCache-Control: no-cache\r\n\r\n"
    );
}

#[test]
fn user_agent_is_echoed_lowercased() {
    let r = sent(decide(&request("GET /user-agent HTTP/1.1\r\n", &["User-Agent: Foo/1.0\r\n"]), &None));
    assert_eq!(r.body, b"foo/1.0".to_vec());
}

#[test]
fn head_sends_no_body() {
    let get = sent(decide(&request("GET /echo/abc HTTP/1.1\r\n", &["Accept-Encoding: gzip\r\n"]), &None));
    let head = sent(decide(&request("HEAD /echo/abc HTTP/1.1\r\n", &["Accept-Encoding: gzip\r\n"]), &None));
    assert_eq!(get.head, head.head);
    assert!(head.body.is_empty());
    assert_eq!(gunzip(&get.body), b"abc".to_vec());
}

#[test]
fn files_routes() {
    let dir = Some("/tmp/data/".to_string());
    match decide(&request("GET /files/a.bin HTTP/1.1\r\n", &[]), &dir) {
        Decision::ReadFile { file_path, content_type } => {
            assert_eq!(file_path, "/tmp/data/a.bin");
            assert_eq!(content_type, "application/octet-stream");
        }
        _ => panic!("expected a file read"),
    }
    let r = sent(decide(&request("GET /files/a.bin HTTP/1.1\r\n", &[]), &None));
    assert_eq!(r.head, "HTTP/1.1 500 Internal Server Error\r\n\r\n");
    assert!(r.ends_connection);

    let mut post = request("POST /files/new.txt HTTP/1.1\r\n", &["Content-Length: 2\r\n"]);
    let r = sent(decide(&post, &dir));
    assert_eq!(r.head, "HTTP/1.1 400 Bad Request\r\n\r\n");
    post.set_body(b"hi".to_vec());
    match decide(&post, &dir) {
        Decision::WriteFile { file_path, contents } => {
            assert_eq!(file_path, "/tmp/data/new.txt");
            assert_eq!(contents, b"hi".to_vec());
        }
        _ => panic!("expected a file write"),
    }
}

#[test]
fn unknown_routes_and_methods() {
    let r = sent(decide(&request("GET /nowhere HTTP/1.1\r\n", &[]), &None));
    assert_eq!(r.head, "HTTP/1.1 404 Not Found\r\nConnection: close\r\n\r\n");
    assert_eq!(r.finish, Finish::ShutdownBoth);
    assert!(!r.ends_connection);
    let r = sent(decide(&request("POST /x HTTP/1.1\r\n", &[]), &None));
    assert_eq!(r.head, "HTTP/1.1 404 Not Found\r\nConnection: close\r\n\r\n");
    let r = sent(decide(&request("DELETE / HTTP/1.1\r\n", &[]), &None));
    assert_eq!(r.head, "HTTP/1.1 404 Not Found\r\n\r\n");
    assert_eq!(r.finish, Finish::Nothing);
    assert!(!r.ends_connection);
}

#[test]
fn file_replies() {
    let req = request("GET / HTTP/1.1\r\n", &[]);
    let r = reply_with_file(&req, "text/html", Some(b"<p>".to_vec()));
    assert_eq!(r.head, "HTTP/1.1 200 OK\r\nContent-Type: text/html\r\nContent-Length: 3\r\n\r\n");
    assert_eq!(r.body, b"<p>".to_vec());
    let r = reply_with_file(&req, "text/html", None);
    assert_eq!(r.head, "HTTP/1.1 404 Not Found\r\n\r\n");
    assert!(r.ends_connection);
    let head = request("HEAD / HTTP/1.1\r\n", &[]);
    let h = reply_with_file(&head, "text/html", Some(b"<p>".to_vec()));
    assert!(h.body.is_empty());
    assert_eq!(reply_after_store(true).head, "HTTP/1.1 201 Created\r\n\r\n");
    assert_eq!(reply_after_store(false).head, "HTTP/1.1 500 Internal Server Error\r\n\r\n");
}

#[test]
fn log_lines() {
    let req = request("GET /a HTTP/1.1\r\n", &[]);
    assert_eq!(request_log_line("2024-01-01 00:00:00", &req, "1.2.3.4:5"), "[2024-01-01 00:00:00] GET /a HTTP/1.1 from 1.2.3.4:5\n");
    assert_eq!(
        response_log_line("t", "200", "OK", &req, "p"),
        "[t] GET /a HTTP/1.1 200 OK from p\n"
    );
}
