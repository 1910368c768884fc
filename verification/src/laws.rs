//! Properties that relate the parsing and answering functions to one another.

use vstd::prelude::*;
use crate::query::{pairs_map, params_of, path_of};
use crate::request::{lowered, request_of, RequestView};
use crate::number::law_decimal_parses_back;
use crate::response::{accepts_gzip, answer_body, answer_head, response_head};
use crate::server::{answered, file_reply, plan, DecisionView};
use crate::text::{is_whitespace, trim_end, trim_start, contains, decimal, is_first, join, parse_usize, remove_all, split, split_once, starts_with, trim};
use crate::wrappers::{gzip_of, lowercase_of};
use vstd::utf8::encode_utf8;

verus! {

broadcast use vstd::string::group_string_axioms;

proof fn lemma_split_nonempty(s: Seq<char>, sep: char)
    ensures
        split(s, sep).len() >= 1,
    decreases s.len(),
{
    if s.len() > 0 {
        lemma_split_nonempty(s.drop_last(), sep);
    }
}

/// Splitting at a separator loses nothing: joining the pieces with the separator gives the
/// text back, and no piece contains the separator.
pub proof fn law_split_join(s: Seq<char>, sep: char)
    ensures
        join(split(s, sep), sep) == s,
        forall|i: int| 0 <= i < split(s, sep).len() ==> !(#[trigger] split(s, sep)[i]).contains(sep),
    decreases s.len(),
{
    if s.len() == 0 {
        assert(!Seq::<char>::empty().contains(sep));
    } else {
        let prefix = s.drop_last();
        let c = s.last();
        let parts = split(prefix, sep);
        law_split_join(prefix, sep);
        lemma_split_nonempty(prefix, sep);
        let whole = split(s, sep);
        if c == sep {
            assert(whole == parts.push(Seq::empty()));
            assert(whole.drop_last() =~= parts);
            assert(s =~= prefix + seq![sep] + Seq::<char>::empty());
            assert forall|i: int| 0 <= i < whole.len() implies !(#[trigger] whole[i]).contains(sep) by {
                if i < parts.len() {
                    assert(whole[i] == parts[i]);
                } else {
                    assert(!Seq::<char>::empty().contains(sep));
                }
            }
        } else {
            let n = parts.len();
            let piece = parts.last().push(c);
            assert(whole == parts.update(n - 1, piece));
            if n == 1 {
                assert(join(parts, sep) == parts[0]);
                assert(s =~= prefix.push(c));
            } else {
                assert(whole.drop_last() =~= parts.drop_last());
                assert(join(parts, sep) == join(parts.drop_last(), sep) + seq![sep] + parts.last());
                assert(s =~= prefix.push(c));
                assert(prefix == join(parts.drop_last(), sep) + seq![sep] + parts.last());
                assert(s =~= join(parts.drop_last(), sep) + seq![sep] + piece);
            }
            assert forall|i: int| 0 <= i < whole.len() implies !(#[trigger] whole[i]).contains(sep) by {
                if i < n - 1 {
                    assert(whole[i] == parts[i]);
                } else {
                    assert(!parts[n - 1].contains(sep));
                    if piece.contains(sep) {
                        let j = choose|j: int| 0 <= j < piece.len() && piece[j] == sep;
                        if j < parts[n - 1].len() {
                            assert(parts[n - 1][j] == sep);
                        }
                    }
                }
            }
        }
    }
}

/// A request line that parses is the method, the request target and the version (line end
/// included) with one space between each two, and none of the three contains a space;
/// the path is the target up to its first `?`.
pub proof fn law_request_line_reassembles(line: Seq<char>, header_lines: Seq<Seq<char>>)
    requires
        request_of(line, header_lines) is Some,
    ensures
        ({
            let r = request_of(line, header_lines).unwrap();
            let target = split(line, ' ')[1];
            &&& line == r.method + " "@ + target + " "@ + r.version
            &&& !r.method.contains(' ')
            &&& !target.contains(' ')
            &&& !r.version.contains(' ')
            &&& r.path == path_of(target)
        }),
{
    let parts = split(line, ' ');
    law_split_join(line, ' ');
    assert(!parts[0].contains(' '));
    assert(!parts[1].contains(' '));
    assert(!parts[2].contains(' '));
    reveal_strlit(" ");
    assert(parts.drop_last().drop_last() =~= seq![parts[0]]);
    assert(join(parts.drop_last(), ' ') == join(parts.drop_last().drop_last(), ' ') + seq![' ']
        + parts[1]);
    assert(line =~= parts[0] + " "@ + parts[1] + " "@ + parts[2]);
}

/// If `c` occurs in `s`, there is a first occurrence.
proof fn lemma_first_exists(s: Seq<char>, c: char, k: int)
    requires
        0 <= k < s.len(),
        s[k] == c,
    ensures
        exists|i: int| #[trigger] is_first(s, c, i),
    decreases k,
{
    if forall|j: int| 0 <= j < k ==> s[j] != c {
        assert(is_first(s, c, k));
    } else {
        let j = choose|j: int| 0 <= j < k && s[j] == c;
        lemma_first_exists(s, c, j);
    }
}

/// A request target without `?` is all path; one with `?` is the path, the `?` and the query,
/// and the path holds no `?`.
pub proof fn law_target_reassembles(target: Seq<char>)
    ensures
        match split_once(target, '?') {
            Some((path, query)) => target == path + seq!['?'] + query && !path.contains('?'),
            None => !target.contains('?') && path_of(target) == target,
        },
{
    if exists|i: int| #[trigger] is_first(target, '?', i) {
        let i = choose|i: int| #[trigger] is_first(target, '?', i);
        assert(target =~= target.take(i) + seq!['?'] + target.skip(i + 1));
        if target.take(i).contains('?') {
            let j = choose|j: int| 0 <= j < target.take(i).len() && target.take(i)[j] == '?';
            assert(target[j] == '?');
        }
    } else {
        if target.contains('?') {
            let k = choose|k: int| 0 <= k < target.len() && target[k] == '?';
            lemma_first_exists(target, '?', k);
        }
    }
}

/// Splitting `a`, `c`, `b` at its first `c` gives `a` and `b` back when `a` holds no `c`.
proof fn lemma_split_once_at(a: Seq<char>, c: char, b: Seq<char>)
    requires
        !a.contains(c),
    ensures
        split_once(a + seq![c] + b, c) == Some((a, b)),
{
    let s = a + seq![c] + b;
    let n = a.len() as int;
    assert forall|j: int| 0 <= j < n implies s[j] != c by {
        assert(s[j] == a[j]);
    }
    assert(is_first(s, c, n));
    let i = choose|i: int| #[trigger] is_first(s, c, i);
    assert(i == n) by {
        if i < n {
            assert(s[i] != c);
        } else if i > n {
            assert(s[n] != c);
        }
    }
    assert(s.take(n) =~= a);
    assert(s.skip(n + 1) =~= b);
}

/// A pair `k=v` (with no `=` in `k`) at the end of a query sets `k` to `v`, whatever came before.
pub proof fn law_later_pair_wins(pairs: Seq<Seq<char>>, k: Seq<char>, v: Seq<char>)
    requires
        !k.contains('='),
    ensures
        pairs_map(pairs.push(k + seq!['='] + v)).dom().contains(k),
        pairs_map(pairs.push(k + seq!['='] + v))[k] == v,
{
    lemma_split_once_at(k, '=', v);
    assert(pairs.push(k + seq!['='] + v).drop_last() =~= pairs);
}

/// A text without the separator is one piece.
proof fn lemma_split_without_sep(x: Seq<char>, sep: char)
    requires
        !x.contains(sep),
    ensures
        split(x, sep) == seq![x],
    decreases x.len(),
{
    if x.len() > 0 {
        assert(!x.drop_last().contains(sep)) by {
            if x.drop_last().contains(sep) {
                let j = choose|j: int| 0 <= j < x.drop_last().len() && x.drop_last()[j] == sep;
                assert(x[j] == sep);
            }
        }
        lemma_split_without_sep(x.drop_last(), sep);
        assert(x.drop_last().push(x.last()) =~= x);
        assert(split(x, sep) =~= seq![x]);
    } else {
        assert(x =~= Seq::<char>::empty());
    }
}

/// Splitting `a`, `sep`, `b` gives the pieces of `a` and then `b`, when `b` holds no separator.
proof fn lemma_split_append(a: Seq<char>, sep: char, b: Seq<char>)
    requires
        !b.contains(sep),
    ensures
        split(a + seq![sep] + b, sep) == split(a, sep).push(b),
    decreases b.len(),
{
    let s = a + seq![sep] + b;
    if b.len() == 0 {
        assert(s.drop_last() =~= a);
        assert(b =~= Seq::<char>::empty());
    } else {
        let b0 = b.drop_last();
        assert(!b0.contains(sep)) by {
            if b0.contains(sep) {
                let j = choose|j: int| 0 <= j < b0.len() && b0[j] == sep;
                assert(b[j] == sep);
            }
        }
        lemma_split_append(a, sep, b0);
        assert(s.drop_last() =~= a + seq![sep] + b0);
        assert(s.last() == b.last());
        assert(b.last() != sep) by {
            assert(b[b.len() - 1] == b.last());
        }
        let prev = split(a, sep).push(b0);
        assert(split(s, sep) == prev.update(prev.len() - 1, prev.last().push(b.last())));
        assert(b0.push(b.last()) =~= b);
        assert(split(s, sep) =~= split(a, sep).push(b));
    }
}

/// Joining pieces without the separator and splitting again gives the pieces back.
proof fn lemma_split_of_join(parts: Seq<Seq<char>>, sep: char)
    requires
        parts.len() >= 1,
        forall|i: int| 0 <= i < parts.len() ==> !(#[trigger] parts[i]).contains(sep),
    ensures
        split(join(parts, sep), sep) == parts,
    decreases parts.len(),
{
    if parts.len() == 1 {
        lemma_split_without_sep(parts[0], sep);
        assert(seq![parts[0]] =~= parts);
    } else {
        let init = parts.drop_last();
        assert forall|i: int| 0 <= i < init.len() implies !(#[trigger] init[i]).contains(sep) by {
            assert(init[i] == parts[i]);
        }
        lemma_split_of_join(init, sep);
        assert(!parts.last().contains(sep)) by {
            assert(parts[parts.len() - 1] == parts.last());
        }
        lemma_split_append(join(init, sep), sep, parts.last());
        assert(init.push(parts.last()) =~= parts);
    }
}

/// The text `k=v` of a query pair.
pub open spec fn pair_text(kv: (Seq<char>, Seq<char>)) -> Seq<char> {
    kv.0 + seq!['='] + kv.1
}

/// The map of key and value pairs where a later pair replaces an earlier one with the same key.
pub open spec fn assoc_map(pairs: Seq<(Seq<char>, Seq<char>)>) -> Map<Seq<char>, Seq<char>>
    decreases pairs.len(),
{
    if pairs.len() == 0 {
        Map::empty()
    } else {
        assoc_map(pairs.drop_last()).insert(pairs.last().0, pairs.last().1)
    }
}

/// The pieces `k=v` (with no `=` in any `k`) denote the pairs.
proof fn lemma_pairs_map_of_texts(pairs: Seq<(Seq<char>, Seq<char>)>)
    requires
        forall|i: int| 0 <= i < pairs.len() ==> !(#[trigger] pairs[i]).0.contains('='),
    ensures
        pairs_map(pairs.map_values(|kv: (Seq<char>, Seq<char>)| pair_text(kv))) == assoc_map(pairs),
    decreases pairs.len(),
{
    let texts = pairs.map_values(|kv: (Seq<char>, Seq<char>)| pair_text(kv));
    if pairs.len() > 0 {
        let init = pairs.drop_last();
        assert forall|i: int| 0 <= i < init.len() implies !(#[trigger] init[i]).0.contains('=') by {
            assert(init[i] == pairs[i]);
        }
        lemma_pairs_map_of_texts(init);
        assert(texts.drop_last() =~= init.map_values(|kv: (Seq<char>, Seq<char>)| pair_text(kv)));
        let last = pairs.last();
        assert(!last.0.contains('=')) by {
            assert(pairs[pairs.len() - 1] == last);
        }
        assert(texts.last() == pair_text(last));
        lemma_split_once_at(last.0, '=', last.1);
    } else {
        assert(texts.len() == 0);
    }
}

/// Writing a path and key and value pairs as a request target, `path?k=v&k2=v2`, and parsing
/// it gives back the path and the pairs (a later pair replacing an earlier one with the same
/// key), when the path holds no `?`, no key holds `&` or `=`, and no value holds `&`.
pub proof fn law_query_round_trip(path: Seq<char>, pairs: Seq<(Seq<char>, Seq<char>)>)
    requires
        !path.contains('?'),
        forall|i: int| 0 <= i < pairs.len() ==> !(#[trigger] pairs[i]).0.contains('&') && !pairs[i].0.contains('='),
        forall|i: int| 0 <= i < pairs.len() ==> !(#[trigger] pairs[i]).1.contains('&'),
    ensures
        ({
            let query = join(pairs.map_values(|kv: (Seq<char>, Seq<char>)| pair_text(kv)), '&');
            let target = path + seq!['?'] + query;
            &&& path_of(target) == path
            &&& params_of(target) == assoc_map(pairs)
        }),
{
    let texts = pairs.map_values(|kv: (Seq<char>, Seq<char>)| pair_text(kv));
    let query = join(texts, '&');
    lemma_split_once_at(path, '?', query);
    lemma_pairs_map_of_texts(pairs);
    if pairs.len() == 0 {
        assert(query == Seq::<char>::empty());
        assert(split(query, '&') == seq![Seq::<char>::empty()]);
        assert(seq![Seq::<char>::empty()].drop_last() =~= Seq::<Seq<char>>::empty());
        assert(split_once(Seq::<char>::empty(), '=') is None);
        assert(texts =~= Seq::<Seq<char>>::empty());
    } else {
        assert forall|i: int| 0 <= i < texts.len() implies !(#[trigger] texts[i]).contains('&') by {
            let kv = pairs[i];
            assert(texts[i] == kv.0 + seq!['='] + kv.1);
            if texts[i].contains('&') {
                let j = choose|j: int| 0 <= j < texts[i].len() && texts[i][j] == '&';
                if j < kv.0.len() {
                    assert(kv.0[j] == '&');
                } else if j > kv.0.len() {
                    assert(kv.1[j - kv.0.len() - 1] == '&');
                }
            }
        }
        lemma_split_of_join(texts, '&');
    }
}

/// `HEAD` is answered like `GET` but without the body: for the same request otherwise, the
/// same file is read, or the same head is sent with the same follow-up, and `HEAD` sends no
/// body bytes; likewise once the file has been read.
pub proof fn law_head_answers_like_get(
    r: RequestView,
    files_dir: Option<Seq<char>>,
    content_type: Seq<char>,
    contents: Option<Seq<u8>>,
)
    ensures
        ({
            let get = RequestView { method: "GET"@, ..r };
            let head = RequestView { method: "HEAD"@, ..r };
            &&& match (plan(get, files_dir), plan(head, files_dir)) {
                (DecisionView::Send(g), DecisionView::Send(h)) => {
                    &&& g.head == h.head
                    &&& g.finish == h.finish
                    &&& g.logged_status == h.logged_status
                    &&& g.ends_connection == h.ends_connection
                    &&& h.body.len() == 0
                },
                (DecisionView::ReadFile(p1, c1), DecisionView::ReadFile(p2, c2)) => p1 == p2 && c1
                    == c2,
                _ => false,
            }
            &&& file_reply(get, content_type, contents).head == file_reply(
                head,
                content_type,
                contents,
            ).head
            &&& file_reply(head, content_type, contents).body.len() == 0
        }),
{
    reveal_strlit("GET");
    reveal_strlit("HEAD");
    assert("GET"@.len() == 3);
    assert("HEAD"@.len() == 4);
}

/// The `Content-Length` of an answer to `GET` is the number of body bytes sent after the head,
/// written so that reading it back as a number gives that count.
pub proof fn law_content_length_counts_body(
    r: RequestView,
    code: Seq<char>,
    message: Seq<char>,
    content_type: Seq<char>,
    body: Seq<u8>,
    extra: Seq<(Seq<char>, Seq<char>)>,
)
    requires
        r.method == "GET"@,
    ensures
        ({
            let a = answered(r, code, message, content_type, body, extra);
            &&& a.head == response_head(
                code,
                message,
                content_type,
                accepts_gzip(r.header("accept-encoding"@)),
                a.body.len(),
                extra,
            )
            &&& a.body.len() <= usize::MAX ==> parse_usize(decimal(a.body.len())) == Some(
                a.body.len() as usize,
            )
        }),
{
    let a = answered(r, code, message, content_type, body, extra);
    if a.body.len() <= usize::MAX {
        law_decimal_parses_back(a.body.len() as usize);
    }
}

/// `/echo/<text>` answers with the text after `/echo/` exactly as written in the path
/// (compressed with gzip when the client accepts it, and sent only for `GET`).
pub proof fn law_echo_sends_text_as_written(r: RequestView, files_dir: Option<Seq<char>>)
    requires
        r.method == "GET"@ || r.method == "HEAD"@,
        starts_with(r.path, "/echo/"@),
    ensures
        plan(r, files_dir) matches DecisionView::Send(reply) && {
            let text = encode_utf8(r.path.skip(6));
            let accept = r.header("accept-encoding"@);
            &&& reply.body == (if r.method == "GET"@ {
                if contains(accept, "gzip"@) {
                    gzip_of(text)
                } else {
                    text
                }
            } else {
                Seq::empty()
            })
            &&& reply.logged_status == Some(("200"@, "OK"@))
        },
{
    let p = r.path;
    reveal_strlit("/echo/");
    reveal_strlit("/");
    reveal_strlit("/public/");
    reveal_strlit("/echo");
    reveal_strlit("/search");
    reveal_strlit("/status-demo");
    reveal_strlit("200");
    reveal_strlit("OK");
    assert("/echo/"@.len() == 6);
    assert(p.subrange(0, 6) == "/echo/"@);
    assert(p[1] == p.subrange(0, 6)[1]);
    assert(p[1] == 'e');
    assert(p.len() >= 6);
    assert(p != "/"@) by {
        assert("/"@.len() == 1);
    }
    assert(p != "/echo"@) by {
        assert("/echo"@.len() == 5);
    }
    assert(!starts_with(p, "/public/"@)) by {
        if starts_with(p, "/public/"@) {
            assert(p.subrange(0, 8)[1] == "/public/"@[1]);
        }
    }
    assert(!starts_with(p, "/search"@)) by {
        if starts_with(p, "/search"@) {
            assert(p.subrange(0, 7)[1] == "/search"@[1]);
        }
    }
    assert(p != "/status-demo"@) by {
        assert("/status-demo"@[1] == 's');
    }
}

/// The parameters of a parsed request are those of the request target exactly as written
/// between the two spaces of the request line.
pub proof fn law_request_params_as_written(line: Seq<char>, header_lines: Seq<Seq<char>>)
    requires
        request_of(line, header_lines) is Some,
    ensures
        request_of(line, header_lines).unwrap().params == params_of(split(line, ' ')[1]),
        request_of(line, header_lines).unwrap().path == path_of(split(line, ' ')[1]),
{
}

/// A request line written as method, target and version with single spaces (none of them
/// holding a space) parses, and the parameters are those of `path?k=v&…` as written.
pub proof fn law_request_line_parses_query_as_written(
    method: Seq<char>,
    path: Seq<char>,
    pairs: Seq<(Seq<char>, Seq<char>)>,
    version: Seq<char>,
    header_lines: Seq<Seq<char>>,
)
    requires
        !method.contains(' '),
        !version.contains(' '),
        !path.contains(' '),
        !path.contains('?'),
        forall|i: int|
            0 <= i < pairs.len() ==> !(#[trigger] pairs[i]).0.contains('&') && !pairs[i].0.contains(
                '=',
            ) && !pairs[i].0.contains(' '),
        forall|i: int|
            0 <= i < pairs.len() ==> !(#[trigger] pairs[i]).1.contains('&') && !pairs[i].1.contains(
                ' ',
            ),
    ensures
        ({
            let query = join(pairs.map_values(|kv: (Seq<char>, Seq<char>)| pair_text(kv)), '&');
            let target = path + seq!['?'] + query;
            let line = method + seq![' '] + target + seq![' '] + version;
            &&& request_of(line, header_lines) is Some
            &&& request_of(line, header_lines).unwrap().method == method
            &&& request_of(line, header_lines).unwrap().path == path
            &&& request_of(line, header_lines).unwrap().version == version
            &&& request_of(line, header_lines).unwrap().params == assoc_map(pairs)
        }),
{
    let texts = pairs.map_values(|kv: (Seq<char>, Seq<char>)| pair_text(kv));
    let query = join(texts, '&');
    let target = path + seq!['?'] + query;
    law_query_round_trip(path, pairs);
    assert(!query.contains(' ')) by {
        lemma_join_without(texts, '&', ' ');
        assert forall|i: int| 0 <= i < texts.len() implies !(#[trigger] texts[i]).contains(' ') by {
            let kv = pairs[i];
            assert(texts[i] == kv.0 + seq!['='] + kv.1);
            if texts[i].contains(' ') {
                let j = choose|j: int| 0 <= j < texts[i].len() && texts[i][j] == ' ';
                if j < kv.0.len() {
                    assert(kv.0[j] == ' ');
                } else if j > kv.0.len() {
                    assert(kv.1[j - kv.0.len() - 1] == ' ');
                }
            }
        }
    }
    assert(!target.contains(' ')) by {
        if target.contains(' ') {
            let j = choose|j: int| 0 <= j < target.len() && target[j] == ' ';
            if j < path.len() {
                assert(path[j] == ' ');
            } else if j > path.len() {
                assert(query[j - path.len() - 1] == ' ');
            }
        }
    }
    let parts = seq![method, target, version];
    assert(join(parts, ' ') =~= method + seq![' '] + target + seq![' '] + version) by {
        let two = parts.drop_last();
        assert(two =~= seq![method, target]);
        assert(two.drop_last() =~= seq![method]);
        assert(join(two.drop_last(), ' ') == method);
        assert(join(two, ' ') == join(two.drop_last(), ' ') + seq![' '] + target);
        assert(join(parts, ' ') == join(two, ' ') + seq![' '] + version);
    }
    assert forall|i: int| 0 <= i < parts.len() implies !(#[trigger] parts[i]).contains(' ') by {}
    lemma_split_of_join(parts, ' ');
}

/// Joined pieces hold a character other than the separator only where a piece holds it.
proof fn lemma_join_without(parts: Seq<Seq<char>>, sep: char, c: char)
    requires
        c != sep,
    ensures
        (forall|i: int| 0 <= i < parts.len() ==> !(#[trigger] parts[i]).contains(c)) ==> !join(
            parts,
            sep,
        ).contains(c),
    decreases parts.len(),
{
    if forall|i: int| 0 <= i < parts.len() ==> !(#[trigger] parts[i]).contains(c) {
        if parts.len() == 0 {
            assert(!Seq::<char>::empty().contains(c));
        } else if parts.len() == 1 {
        } else {
            let init = parts.drop_last();
            assert forall|i: int| 0 <= i < init.len() implies !(#[trigger] init[i]).contains(c) by {
                assert(init[i] == parts[i]);
            }
            lemma_join_without(init, sep, c);
            let a = join(init, sep);
            let b = parts.last();
            assert(!b.contains(c)) by {
                assert(parts[parts.len() - 1] == b);
            }
            let whole = a + seq![sep] + b;
            if whole.contains(c) {
                let j = choose|j: int| 0 <= j < whole.len() && whole[j] == c;
                if j < a.len() {
                    assert(a[j] == c);
                } else if j > a.len() {
                    assert(b[j - a.len() - 1] == c);
                }
            }
        }
    }
}

/// Header lookup takes the first header line whose lowercase form begins with the lowercased,
/// trimmed name, wherever it stands: the value is that line lowercased, with every `name: `
/// removed, trimmed.
pub proof fn law_header_first_match(r: RequestView, name: Seq<char>, i: int)
    requires
        0 <= i < r.headers.len(),
        starts_with(lowercase_of(r.headers[i]), trim(lowercase_of(name))),
        forall|j: int|
            0 <= j < i ==> !starts_with(lowercase_of(#[trigger] r.headers[j]), trim(lowercase_of(name))),
    ensures
        r.header(name) == trim(
            remove_all(lowercase_of(r.headers[i]), trim(lowercase_of(name)) + ": "@),
        ),
{
    let hs = lowered(r.headers);
    let t = trim(lowercase_of(name));
    assert forall|j: int| 0 <= j < i implies !starts_with(#[trigger] hs[j], t) by {
        assert(hs[j] == lowercase_of(r.headers[j]));
    }
    assert(hs[i] == lowercase_of(r.headers[i]));
    assert(hs.skip(0) =~= hs);
    lemma_header_value_at(hs, t, 0, i);
}

/// Walking the lowered lines from position `k` finds the first match at `i`.
proof fn lemma_header_value_at(hs: Seq<Seq<char>>, t: Seq<char>, k: int, i: int)
    requires
        0 <= k <= i < hs.len(),
        starts_with(hs[i], t),
        forall|j: int| k <= j < i ==> !starts_with(#[trigger] hs[j], t),
    ensures
        crate::request::header_value(hs.skip(k), t) == trim(remove_all(hs[i], t + ": "@)),
    decreases i - k,
{
    let rest = hs.skip(k);
    assert(rest[0] == hs[k]);
    if k < i {
        assert(rest.drop_first() =~= hs.skip(k + 1));
        lemma_header_value_at(hs, t, k + 1, i);
    }
}

/// No header line matches: the value is empty.
pub proof fn law_header_absent(r: RequestView, name: Seq<char>)
    requires
        forall|j: int|
            0 <= j < r.headers.len() ==> !starts_with(lowercase_of(#[trigger] r.headers[j]), trim(lowercase_of(name))),
    ensures
        r.header(name) == Seq::<char>::empty(),
{
    let hs = lowered(r.headers);
    let t = trim(lowercase_of(name));
    assert forall|j: int| 0 <= j < hs.len() implies !starts_with(#[trigger] hs[j], t) by {
        assert(hs[j] == lowercase_of(r.headers[j]));
    }
    assert(hs.skip(0) =~= hs);
    lemma_header_value_none(hs, t, 0);
}

proof fn lemma_header_value_none(hs: Seq<Seq<char>>, t: Seq<char>, k: int)
    requires
        0 <= k <= hs.len(),
        forall|j: int| k <= j < hs.len() ==> !starts_with(#[trigger] hs[j], t),
    ensures
        crate::request::header_value(hs.skip(k), t) == Seq::<char>::empty(),
    decreases hs.len() - k,
{
    let rest = hs.skip(k);
    if k < hs.len() {
        assert(rest[0] == hs[k]);
        assert(rest.drop_first() =~= hs.skip(k + 1));
        lemma_header_value_none(hs, t, k + 1);
    } else {
        assert(rest.len() == 0);
    }
}

/// A matching line placed after lines that do not match is found as if it stood alone.
pub proof fn law_header_found_after_others(r: RequestView, l: Seq<char>, name: Seq<char>)
    requires
        forall|j: int|
            0 <= j < r.headers.len() ==> !starts_with(lowercase_of(#[trigger] r.headers[j]), trim(lowercase_of(name))),
    ensures
        (RequestView { headers: r.headers.push(l), ..r }).header(name) == (RequestView {
            headers: seq![l],
            ..r
        }).header(name),
{
    let t = trim(lowercase_of(name));
    let longer = RequestView { headers: r.headers.push(l), ..r };
    let single = RequestView { headers: seq![l], ..r };
    if starts_with(lowercase_of(l), t) {
        assert forall|j: int| 0 <= j < r.headers.len() implies !starts_with(lowercase_of(#[trigger] longer.headers[j]), t) by {
            assert(longer.headers[j] == r.headers[j]);
        }
        law_header_first_match(longer, name, r.headers.len() as int);
        law_header_first_match(single, name, 0);
    } else {
        assert forall|j: int| 0 <= j < longer.headers.len() implies !starts_with(lowercase_of(#[trigger] longer.headers[j]), t) by {
            if j < r.headers.len() {
                assert(longer.headers[j] == r.headers[j]);
            }
        }
        law_header_absent(longer, name);
        law_header_absent(single, name);
    }
}

/// gzip is chosen whenever `Accept-Encoding` contains `gzip` anywhere, and only then: the
/// answer then carries `Content-Encoding: gzip` and the compressed body, otherwise the body as
/// given.
pub proof fn law_gzip_when_mentioned(
    code: Seq<char>,
    message: Seq<char>,
    content_type: Seq<char>,
    body: Seq<u8>,
    accept_encoding: Seq<char>,
    extra: Seq<(Seq<char>, Seq<char>)>,
)
    ensures
        contains(accept_encoding, "gzip"@) ==> {
            &&& answer_body(body, accept_encoding, true) == gzip_of(body)
            &&& answer_head(code, message, content_type, body, accept_encoding, extra) == "HTTP/1.1 "@
                + code + " "@ + message + "\r\nContent-Type: "@ + content_type + "\r\n"@
                + "Content-Encoding: gzip\r\n"@ + "Content-Length: "@ + decimal(gzip_of(body).len())
                + "\r\n"@ + crate::response::header_lines(extra) + "\r\n"@
        },
        !contains(accept_encoding, "gzip"@) ==> {
            &&& answer_body(body, accept_encoding, true) == body
            &&& answer_head(code, message, content_type, body, accept_encoding, extra) == "HTTP/1.1 "@
                + code + " "@ + message + "\r\nContent-Type: "@ + content_type + "\r\n"@
                + "Content-Length: "@ + decimal(body.len()) + "\r\n"@ + crate::response::header_lines(
                extra,
            ) + "\r\n"@
        },
        answer_body(body, accept_encoding, false) == Seq::<u8>::empty(),
{
    if !contains(accept_encoding, "gzip"@) {
        let head = answer_head(code, message, content_type, body, accept_encoding, extra);
        assert(head =~= "HTTP/1.1 "@ + code + " "@ + message + "\r\nContent-Type: "@ + content_type
            + "\r\n"@ + "Content-Length: "@ + decimal(body.len()) + "\r\n"@
            + crate::response::header_lines(extra) + "\r\n"@);
    }
}

/// An `HTTP/1.1` request closes the connection exactly when its `Connection` header value is
/// `close`; an `HTTP/1.0` request keeps it open exactly when the value is `keep-alive`; any
/// other version closes it.
pub proof fn law_keep_alive(r: RequestView)
    ensures
        trim(r.version) == "HTTP/1.1"@ ==> (r.closes() <==> r.header("connection"@) == "close"@),
        trim(r.version) == "HTTP/1.0"@ ==> (r.closes() <==> r.header("connection"@) != "keep-alive"@),
        trim(r.version) != "HTTP/1.1"@ && trim(r.version) != "HTTP/1.0"@ ==> r.closes(),
{
    reveal_strlit("HTTP/1.1");
    reveal_strlit("HTTP/1.0");
    assert("HTTP/1.1"@[7] != "HTTP/1.0"@[7]);
}

/// `/search` answers with the `q` parameter, a space and the `lang` parameter, as written in
/// the query (compressed when the client accepts gzip, sent only for `GET`).
pub proof fn law_search_answers_q_then_lang(r: RequestView, files_dir: Option<Seq<char>>)
    requires
        r.method == "GET"@ || r.method == "HEAD"@,
        starts_with(r.path, "/search"@),
    ensures
        plan(r, files_dir) matches DecisionView::Send(reply) && {
            let text = encode_utf8(r.params["q"@] + seq![' '] + r.params["lang"@]);
            let accept = r.header("accept-encoding"@);
            &&& reply.body == (if r.method == "GET"@ {
                if contains(accept, "gzip"@) {
                    gzip_of(text)
                } else {
                    text
                }
            } else {
                Seq::empty()
            })
            &&& reply.logged_status == Some(("200"@, "OK"@))
        },
{
    let p = r.path;
    reveal_strlit("/search");
    reveal_strlit("/");
    reveal_strlit("/public/");
    reveal_strlit("/echo");
    reveal_strlit(" ");
    reveal_strlit("200");
    reveal_strlit("OK");
    assert(p.subrange(0, 7) == "/search"@);
    assert(p[1] == p.subrange(0, 7)[1]);
    assert(p[1] == 's');
    assert(p != "/"@) by {
        assert("/"@.len() == 1);
    }
    assert(p != "/echo"@) by {
        assert("/echo"@[1] == 'e');
    }
    assert(!starts_with(p, "/public/"@)) by {
        if starts_with(p, "/public/"@) {
            assert(p.subrange(0, 8)[1] == "/public/"@[1]);
        }
    }
    assert(" "@ =~= seq![' ']);
}

/// With a files directory, `GET`/`HEAD` of `/files/<name>` reads `<dir><name>` as
/// `application/octet-stream`, and `POST` of it with a body writes that body to `<dir><name>`.
pub proof fn law_files_use_directory_and_name(r: RequestView, dir: Seq<char>)
    requires
        starts_with(r.path, "/files/"@),
    ensures
        (r.method == "GET"@ || r.method == "HEAD"@) ==> plan(r, Some(dir)) == DecisionView::ReadFile(
            dir + r.path.skip(7),
            "application/octet-stream"@,
        ),
        r.method == "POST"@ && r.body is Some ==> plan(r, Some(dir)) == DecisionView::WriteFile(
            dir + r.path.skip(7),
            r.body.unwrap(),
        ),
{
    let p = r.path;
    reveal_strlit("/files/");
    reveal_strlit("/");
    reveal_strlit("/public/");
    reveal_strlit("/echo");
    reveal_strlit("/search");
    reveal_strlit("/status-demo");
    reveal_strlit("/echo/");
    reveal_strlit("/custom-header");
    reveal_strlit("/user-agent");
    reveal_strlit("GET");
    reveal_strlit("HEAD");
    reveal_strlit("POST");
    assert(p.subrange(0, 7) == "/files/"@);
    assert(p[1] == p.subrange(0, 7)[1]);
    assert(p[1] == 'f');
    assert(p != "/"@) by {
        assert("/"@.len() == 1);
    }
    assert(p != "/echo"@) by {
        assert("/echo"@[1] == 'e');
    }
    assert(p != "/status-demo"@) by {
        assert("/status-demo"@[1] == 's');
    }
    assert(p != "/custom-header"@) by {
        assert("/custom-header"@[1] == 'c');
    }
    assert(p != "/user-agent"@) by {
        assert("/user-agent"@[1] == 'u');
    }
    assert(!starts_with(p, "/public/"@)) by {
        if starts_with(p, "/public/"@) {
            assert(p.subrange(0, 8)[1] == "/public/"@[1]);
        }
    }
    assert(!starts_with(p, "/search"@)) by {
        if starts_with(p, "/search"@) {
            assert(p.subrange(0, 7)[1] == "/search"@[1]);
        }
    }
    assert(!starts_with(p, "/echo/"@)) by {
        if starts_with(p, "/echo/"@) {
            assert(p.subrange(0, 6)[1] == "/echo/"@[1]);
        }
    }
    assert("POST"@ != "GET"@) by {
        assert("POST"@.len() == 4 && "GET"@.len() == 3);
    }
    assert("POST"@ != "HEAD"@) by {
        assert("POST"@[0] == 'P' && "HEAD"@[0] == 'H');
    }
}

/// `/user-agent` answers with the value of the `User-Agent` header that the lookup gives.
pub proof fn law_user_agent_answers_header(r: RequestView, files_dir: Option<Seq<char>>)
    requires
        r.method == "GET"@,
        r.path == "/user-agent"@,
    ensures
        plan(r, files_dir) matches DecisionView::Send(reply) && {
            let text = encode_utf8(r.header("user-agent"@));
            reply.body == (if contains(r.header("accept-encoding"@), "gzip"@) {
                gzip_of(text)
            } else {
                text
            })
        },
{
    let p = r.path;
    reveal_strlit("/user-agent");
    reveal_strlit("/");
    reveal_strlit("/public/");
    reveal_strlit("/echo");
    reveal_strlit("/search");
    reveal_strlit("/status-demo");
    reveal_strlit("/echo/");
    reveal_strlit("/custom-header");
    assert(p[1] == 'u');
    assert(p != "/"@) by {
        assert("/"@.len() == 1);
    }
    assert(p != "/echo"@) by {
        assert("/echo"@[1] == 'e');
    }
    assert(p != "/status-demo"@) by {
        assert("/status-demo"@[1] == 's');
    }
    assert(p != "/custom-header"@) by {
        assert("/custom-header"@[1] == 'c');
    }
    assert(!starts_with(p, "/public/"@)) by {
        if starts_with(p, "/public/"@) {
            assert(p.subrange(0, 8)[1] == "/public/"@[1]);
        }
    }
    assert(!starts_with(p, "/search"@)) by {
        if starts_with(p, "/search"@) {
            assert(p.subrange(0, 7)[1] == "/search"@[1]);
        }
    }
    assert(!starts_with(p, "/echo/"@)) by {
        if starts_with(p, "/echo/"@) {
            assert(p.subrange(0, 6)[1] == "/echo/"@[1]);
        }
    }
}

/// Methods other than `GET`, `HEAD` and `POST` get a bare 404 and the connection stays open.
pub proof fn law_other_methods_not_found(r: RequestView, files_dir: Option<Seq<char>>)
    requires
        r.method != "GET"@,
        r.method != "HEAD"@,
        r.method != "POST"@,
    ensures
        plan(r, files_dir) matches DecisionView::Send(reply) && {
            &&& reply.head == "HTTP/1.1 404 Not Found\r\n\r\n"@
            &&& reply.body.len() == 0
            &&& !reply.ends_connection
            &&& reply.logged_status is None
        },
{
}

/// The leading whitespace removed by `trim_start`, and where the rest begins.
proof fn lemma_trim_start(s: Seq<char>) -> (a: int)
    ensures
        0 <= a <= s.len(),
        trim_start(s) == s.skip(a),
        forall|i: int| 0 <= i < a ==> is_whitespace(#[trigger] s[i]),
        a < s.len() ==> !is_whitespace(s[a]),
    decreases s.len(),
{
    if s.len() > 0 && is_whitespace(s[0]) {
        let a0 = lemma_trim_start(s.drop_first());
        assert(s.drop_first().skip(a0) =~= s.skip(a0 + 1));
        assert forall|i: int| 0 <= i < a0 + 1 implies is_whitespace(#[trigger] s[i]) by {
            if i > 0 {
                assert(s[i] == s.drop_first()[i - 1]);
            }
        }
        if a0 + 1 < s.len() {
            assert(s[a0 + 1] == s.drop_first()[a0]);
        }
        a0 + 1
    } else {
        assert(s.skip(0) =~= s);
        0
    }
}

/// The trailing whitespace removed by `trim_end`, and where the rest ends.
proof fn lemma_trim_end(s: Seq<char>) -> (b: int)
    ensures
        0 <= b <= s.len(),
        trim_end(s) == s.take(b),
        forall|i: int| b <= i < s.len() ==> is_whitespace(#[trigger] s[i]),
        b > 0 ==> !is_whitespace(s[b - 1]),
    decreases s.len(),
{
    if s.len() > 0 && is_whitespace(s.last()) {
        let b0 = lemma_trim_end(s.drop_last());
        assert(s.drop_last().take(b0) =~= s.take(b0));
        assert forall|i: int| b0 <= i < s.len() implies is_whitespace(#[trigger] s[i]) by {
            if i < s.len() - 1 {
                assert(s[i] == s.drop_last()[i]);
            }
        }
        if b0 > 0 {
            assert(s[b0 - 1] == s.drop_last()[b0 - 1]);
        }
        b0
    } else {
        assert(s.take(s.len() as int) =~= s);
        s.len() as int
    }
}

/// Trimming removes exactly the whitespace at both ends: the result is the piece of the text
/// between a run of leading whitespace and a run of trailing whitespace, and it neither begins
/// nor ends with whitespace. The returned pair gives where the piece begins and ends.
pub proof fn law_trim_removes_only_outer_whitespace(s: Seq<char>) -> (ab: (int, int))
    ensures
        0 <= ab.0 <= ab.1 <= s.len(),
        trim(s) == s.subrange(ab.0, ab.1),
        forall|i: int| 0 <= i < ab.0 ==> is_whitespace(#[trigger] s[i]),
        forall|i: int| ab.1 <= i < s.len() ==> is_whitespace(#[trigger] s[i]),
        ab.0 < ab.1 ==> !is_whitespace(s[ab.0]) && !is_whitespace(s[ab.1 - 1]),
{
    let a = lemma_trim_start(s);
    let t = s.skip(a);
    let b = lemma_trim_end(t);
    assert(t.take(b) =~= s.subrange(a, a + b));
    assert forall|i: int| a + b <= i < s.len() implies is_whitespace(#[trigger] s[i]) by {
        assert(s[i] == t[i - a]);
    }
    if b > 0 {
        assert(s[a] == t[0]);
        assert(s[a + b - 1] == t[b - 1]);
    }
    (a, a + b)
}

} // verus!
