# http_server

A small HTTP/1.1 file and echo server. The library in `src/` holds its logic, verified with
Verus; `app/` holds the program around it (sockets, files, threads, clock, signals).

- `src/text.rs`: splitting, trimming, prefix and substring tests, pattern removal.
- `src/number.rs`: decimal notation of lengths and reading it back.
- `src/query.rs`: the query part of a request target and its parameters.
- `src/request.rs`: parsing of request line and headers, header lookup, `Content-Length`,
  keep-alive.
- `src/response.rs`: status line and headers of a response, gzip compression of the body.
- `src/server.rs`: what to answer to a request (which file to read or write, which bytes to
  send and what follows), as steps that the connection loop in `app/` performs.
- `src/log.rs`: the log lines for requests and answers.
- `src/laws.rs`: properties that relate these functions.
- `src/wrappers.rs`: the calls into `str::to_lowercase`, flate2 and mime_guess.
