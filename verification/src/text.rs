//! Character-level helpers over the views of strings: splitting, trimming,
//! prefix and substring tests, pattern removal and decimal numbers.

use vstd::prelude::*;

verus! {

broadcast use vstd::string::group_string_axioms;

/// `char::is_whitespace`: the characters with the Unicode `White_Space` property.
pub open spec fn is_whitespace(c: char) -> bool {
    let x = c as u32;
    ||| 0x9 <= x <= 0xd
    ||| x == 0x20
    ||| x == 0x85
    ||| x == 0xa0
    ||| x == 0x1680
    ||| 0x2000 <= x <= 0x200a
    ||| x == 0x2028
    ||| x == 0x2029
    ||| x == 0x202f
    ||| x == 0x205f
    ||| x == 0x3000
}

/// `s` without its leading whitespace.
pub open spec fn trim_start(s: Seq<char>) -> Seq<char>
    decreases s.len(),
{
    if s.len() > 0 && is_whitespace(s[0]) {
        trim_start(s.drop_first())
    } else {
        s
    }
}

/// `s` without its trailing whitespace.
pub open spec fn trim_end(s: Seq<char>) -> Seq<char>
    decreases s.len(),
{
    if s.len() > 0 && is_whitespace(s.last()) {
        trim_end(s.drop_last())
    } else {
        s
    }
}

/// `str::trim`: `s` without leading and trailing whitespace.
pub open spec fn trim(s: Seq<char>) -> Seq<char> {
    trim_end(trim_start(s))
}

/// `p` occurs in `s` at position `i`.
pub open spec fn occurs_at(s: Seq<char>, p: Seq<char>, i: int) -> bool {
    0 <= i && i + p.len() <= s.len() && s.subrange(i, i + p.len()) == p
}

/// `str::starts_with` for a string pattern.
pub open spec fn starts_with(s: Seq<char>, p: Seq<char>) -> bool {
    occurs_at(s, p, 0)
}

/// `str::contains` for a string pattern.
pub open spec fn contains(s: Seq<char>, p: Seq<char>) -> bool {
    exists|i: int| #[trigger] occurs_at(s, p, i)
}

/// `str::split` by one character: the pieces between the separators, empty ones included.
pub open spec fn split(s: Seq<char>, sep: char) -> Seq<Seq<char>>
    decreases s.len(),
{
    if s.len() == 0 {
        seq![Seq::empty()]
    } else {
        let parts = split(s.drop_last(), sep);
        if s.last() == sep {
            parts.push(Seq::empty())
        } else {
            parts.update(parts.len() - 1, parts.last().push(s.last()))
        }
    }
}

/// The pieces joined again, with `sep` between each two.
pub open spec fn join(parts: Seq<Seq<char>>, sep: char) -> Seq<char>
    decreases parts.len(),
{
    if parts.len() <= 1 {
        if parts.len() == 1 { parts[0] } else { Seq::empty() }
    } else {
        join(parts.drop_last(), sep) + seq![sep] + parts.last()
    }
}

/// `i` is the position of the first `c` in `s`.
pub open spec fn is_first(s: Seq<char>, c: char, i: int) -> bool {
    0 <= i < s.len() && s[i] == c && forall|j: int| 0 <= j < i ==> s[j] != c
}

/// `splitn(2, c)` when it yields two pieces: the text before the first `c` and the text after it.
pub open spec fn split_once(s: Seq<char>, c: char) -> Option<(Seq<char>, Seq<char>)> {
    if exists|i: int| #[trigger] is_first(s, c, i) {
        let i = choose|i: int| #[trigger] is_first(s, c, i);
        Some((s.take(i), s.skip(i + 1)))
    } else {
        None
    }
}

/// `str::replace(p, "")`: every occurrence of `p`, matched left to right without overlap, removed.
pub open spec fn remove_all(s: Seq<char>, p: Seq<char>) -> Seq<char>
    decreases s.len(),
{
    if s.len() == 0 {
        s
    } else if p.len() > 0 && starts_with(s, p) {
        remove_all(s.skip(p.len() as int), p)
    } else {
        seq![s[0]] + remove_all(s.drop_first(), p)
    }
}

/// The character of the decimal digit `d`.
pub open spec fn digit_char(d: int) -> char {
    if d == 0 {
        '0'
    } else if d == 1 {
        '1'
    } else if d == 2 {
        '2'
    } else if d == 3 {
        '3'
    } else if d == 4 {
        '4'
    } else if d == 5 {
        '5'
    } else if d == 6 {
        '6'
    } else if d == 7 {
        '7'
    } else if d == 8 {
        '8'
    } else {
        '9'
    }
}

/// The decimal notation of `n`, without leading zeros.
pub open spec fn decimal(n: nat) -> Seq<char>
    decreases n,
{
    if n < 10 {
        seq![digit_char(n as int)]
    } else {
        decimal(n / 10) + seq![digit_char((n % 10) as int)]
    }
}

/// `c` is one of `0` to `9`.
pub open spec fn is_digit(c: char) -> bool {
    48 <= c as u32 <= 57
}

/// The number that the decimal digits `d` denote.
pub open spec fn digits_value(d: Seq<char>) -> nat
    decreases d.len(),
{
    if d.len() == 0 {
        0
    } else {
        digits_value(d.drop_last()) * 10 + (d.last() as u32 - 48) as nat
    }
}

/// Every character of `d` is a decimal digit.
pub open spec fn all_digits(d: Seq<char>) -> bool {
    forall|i: int| 0 <= i < d.len() ==> is_digit(#[trigger] d[i])
}

/// The digits of a number's text: the text without one leading `+`.
pub open spec fn unsigned_digits(s: Seq<char>) -> Seq<char> {
    if s.len() > 0 && s[0] == '+' {
        s.drop_first()
    } else {
        s
    }
}

/// `str::parse::<usize>`: an optional `+` and one or more decimal digits whose value fits.
pub open spec fn parse_usize(s: Seq<char>) -> Option<usize> {
    let d = unsigned_digits(s);
    if d.len() > 0 && all_digits(d) && digits_value(d) <= usize::MAX {
        Some(digits_value(d) as usize)
    } else {
        None
    }
}

/// The characters of `s`, one by one.
pub fn chars_of(s: &str) -> (v: Vec<char>)
    ensures
        v@ == s@,
{
    let mut v: Vec<char> = Vec::new();
    for c in it: s.chars()
        invariant
            it.seq() == s@,
            v@ == it.seq().take(it.index()),
    {
        v.push(c);
    }
    v
}

/// Whether `c` has the Unicode `White_Space` property.
pub fn whitespace(c: char) -> (b: bool)
    ensures
        b == is_whitespace(c),
{
    let x = c as u32;
    (0x9 <= x && x <= 0xd) || x == 0x20 || x == 0x85 || x == 0xa0 || x == 0x1680 || (0x2000 <= x
        && x <= 0x200a) || x == 0x2028 || x == 0x2029 || x == 0x202f || x == 0x205f || x == 0x3000
}

/// `s` without leading and trailing whitespace.
pub fn trim_str(s: &str) -> (r: &str)
    ensures
        r@ == trim(s@),
{
    let cs = chars_of(s);
    let n = cs.len();
    let mut a: usize = 0;
    assert(s@.skip(0) =~= s@);
    while a < n && whitespace(cs[a])
        invariant
            a <= n,
            n == cs@.len(),
            cs@ == s@,
            trim_start(s@) == trim_start(s@.skip(a as int)),
        decreases n - a,
    {
        assert(s@.skip(a as int).drop_first() =~= s@.skip(a + 1));
        a = a + 1;
    }
    let ghost t = s@.skip(a as int);
    assert(trim_start(s@) == t);
    let mut b: usize = n;
    assert(t =~= s@.subrange(a as int, b as int));
    while b > a && whitespace(cs[b - 1])
        invariant
            a <= b <= n,
            n == cs@.len(),
            cs@ == s@,
            t == s@.skip(a as int),
            trim_end(t) == trim_end(s@.subrange(a as int, b as int)),
        decreases b - a,
    {
        assert(s@.subrange(a as int, b as int).drop_last() =~= s@.subrange(a as int, b - 1));
        b = b - 1;
    }
    s.substring_char(a, b)
}

/// Whether `p` occurs in `s` at position `i`.
fn occurs_at_exec(s: &Vec<char>, p: &Vec<char>, i: usize) -> (b: bool)
    requires
        i <= s.len(),
    ensures
        b == occurs_at(s@, p@, i as int),
{
    if p.len() > s.len() - i {
        return false;
    }
    let mut k: usize = 0;
    while k < p.len()
        invariant
            k <= p.len(),
            i + p.len() <= s.len(),
            forall|j: int| 0 <= j < k ==> s@[i + j] == p@[j],
        decreases p.len() - k,
    {
        if s[i + k] != p[k] {
            assert(s@.subrange(i as int, i + p.len())[k as int] != p@[k as int]);
            return false;
        }
        k = k + 1;
    }
    assert(s@.subrange(i as int, i + p.len()) =~= p@);
    true
}

/// Whether `s` begins with `p`.
pub fn starts_with_str(s: &str, p: &str) -> (b: bool)
    ensures
        b == starts_with(s@, p@),
{
    let cs = chars_of(s);
    let ps = chars_of(p);
    occurs_at_exec(&cs, &ps, 0)
}

/// Whether `p` occurs anywhere in `s`.
pub fn contains_str(s: &str, p: &str) -> (b: bool)
    ensures
        b == contains(s@, p@),
{
    let cs = chars_of(s);
    let ps = chars_of(p);
    if ps.len() == 0 {
        assert(s@.subrange(0, 0) =~= p@);
        assert(occurs_at(s@, p@, 0));
        return true;
    }
    if ps.len() > cs.len() {
        assert forall|j: int| !#[trigger] occurs_at(s@, p@, j) by {}
        return false;
    }
    let last = cs.len() - ps.len();
    let mut i: usize = 0;
    while i <= last
        invariant
            cs@ == s@,
            ps@ == p@,
            last == cs@.len() - ps@.len(),
            last < usize::MAX,
            i <= last + 1,
            forall|j: int| 0 <= j < i ==> !occurs_at(s@, p@, j),
        decreases last + 1 - i,
    {
        if occurs_at_exec(&cs, &ps, i) {
            return true;
        }
        i = i + 1;
    }
    assert forall|j: int| !#[trigger] occurs_at(s@, p@, j) by {
        if 0 <= j < i {
        }
    }
    false
}

/// Whether the texts are the same.
pub fn same_str(a: &str, b: &str) -> (r: bool)
    ensures
        r == (a@ == b@),
{
    let x = a.to_owned();
    let y = b.to_owned();
    x == y
}

/// The views of a vector of strings.
pub open spec fn views(v: Seq<String>) -> Seq<Seq<char>> {
    v.map_values(|x: String| x@)
}

/// `str::split` by one character.
pub fn split_str(s: &str, sep: char) -> (parts: Vec<String>)
    ensures
        views(parts@) == split(s@, sep),
{
    let cs = chars_of(s);
    let n = cs.len();
    let mut parts: Vec<String> = Vec::new();
    let mut start: usize = 0;
    let mut i: usize = 0;
    assert(s@.take(0) =~= Seq::<char>::empty());
    assert(views(parts@).push(s@.subrange(0, 0)) =~= split(s@.take(0), sep));
    while i < n
        invariant
            start <= i <= n,
            n == cs@.len(),
            cs@ == s@,
            views(parts@).push(s@.subrange(start as int, i as int)) == split(s@.take(i as int), sep),
        decreases n - i,
    {
        assert(s@.take(i + 1).drop_last() =~= s@.take(i as int));
        assert(s@.take(i + 1).last() == cs@[i as int]);
        if cs[i] == sep {
            let piece = s.substring_char(start, i).to_owned();
            let ghost before = views(parts@);
            parts.push(piece);
            assert(views(parts@) =~= before.push(piece@));
            start = i + 1;
            i = i + 1;
            assert(s@.subrange(start as int, i as int) =~= Seq::<char>::empty());
            assert(views(parts@).push(s@.subrange(start as int, i as int)) =~= split(
                s@.take(i as int),
                sep,
            ));
        } else {
            let ghost prev = views(parts@).push(s@.subrange(start as int, i as int));
            i = i + 1;
            assert(s@.subrange(start as int, i - 1).push(cs@[i - 1]) =~= s@.subrange(
                start as int,
                i as int,
            ));
            assert(views(parts@).push(s@.subrange(start as int, i as int)) =~= prev.update(
                prev.len() - 1,
                prev.last().push(cs@[i - 1]),
            ));
        }
    }
    let last = s.substring_char(start, n).to_owned();
    let ghost before = views(parts@);
    parts.push(last);
    assert(views(parts@) =~= before.push(last@));
    assert(s@.take(n as int) =~= s@);
    parts
}

/// `splitn(2, c)` yielding two pieces: the text before the first `c` and after it, if `c` occurs.
pub fn split_once_str(s: &str, c: char) -> (r: Option<(&str, &str)>)
    ensures
        match r {
            Some((a, b)) => split_once(s@, c) == Some((a@, b@)),
            None => split_once(s@, c) is None,
        },
{
    let cs = chars_of(s);
    let n = cs.len();
    let mut i: usize = 0;
    while i < n
        invariant
            i <= n,
            n == cs@.len(),
            cs@ == s@,
            forall|j: int| 0 <= j < i ==> s@[j] != c,
        decreases n - i,
    {
        if cs[i] == c {
            assert(is_first(s@, c, i as int));
            proof {
                let k = choose|k: int| #[trigger] is_first(s@, c, k);
                assert(k == i) by {
                    if k < i {
                        assert(s@[k] != c);
                    } else if k > i {
                        assert(s@[i as int] != c);
                    }
                }
            }
            let a = s.substring_char(0, i);
            let b = s.substring_char(i + 1, n);
            assert(a@ =~= s@.take(i as int));
            assert(b@ =~= s@.skip(i + 1));
            return Some((a, b));
        }
        i = i + 1;
    }
    assert forall|k: int| !#[trigger] is_first(s@, c, k) by {
        if 0 <= k < s@.len() {
            assert(s@[k] != c);
        }
    }
    None
}

/// `s` with every occurrence of `p` removed, matched left to right without overlap.
pub fn remove_all_str(s: &str, p: &str) -> (r: String)
    ensures
        r@ == remove_all(s@, p@),
{
    let cs = chars_of(s);
    let ps = chars_of(p);
    let n = cs.len();
    let mut out = String::new();
    let mut seg: usize = 0;
    let mut i: usize = 0;
    assert(s@.skip(0) =~= s@);
    assert(out@ + s@.subrange(0, 0) =~= Seq::<char>::empty());
    while i < n
        invariant
            seg <= i <= n,
            n == cs@.len(),
            cs@ == s@,
            ps@ == p@,
            remove_all(s@, p@) == out@ + s@.subrange(seg as int, i as int) + remove_all(
                s@.skip(i as int),
                p@,
            ),
        decreases n - i,
    {
        let ghost rest = s@.skip(i as int);
        assert(rest.len() > 0);
        if ps.len() > 0 && occurs_at_exec(&cs, &ps, i) {
            assert(rest.subrange(0, p@.len() as int) =~= s@.subrange(i as int, i + p@.len()));
            assert(starts_with(rest, p@));
            assert(rest.skip(p@.len() as int) =~= s@.skip(i + p@.len()));
            out.append(s.substring_char(seg, i));
            i = i + ps.len();
            seg = i;
            assert(s@.subrange(seg as int, i as int) =~= Seq::<char>::empty());
            assert(remove_all(s@, p@) =~= out@ + s@.subrange(seg as int, i as int) + remove_all(
                s@.skip(i as int),
                p@,
            ));
        } else {
            assert(!starts_with(rest, p@) || p@.len() == 0) by {
                if p@.len() > 0 && starts_with(rest, p@) {
                    assert(rest.subrange(0, p@.len() as int) =~= s@.subrange(
                        i as int,
                        i + p@.len(),
                    ));
                }
            }
            assert(rest.drop_first() =~= s@.skip(i + 1));
            assert(rest[0] == s@[i as int]);
            let ghost old_seg = s@.subrange(seg as int, i as int);
            i = i + 1;
            assert(old_seg + seq![s@[i - 1]] =~= s@.subrange(seg as int, i as int));
            assert(remove_all(s@, p@) =~= out@ + s@.subrange(seg as int, i as int) + remove_all(
                s@.skip(i as int),
                p@,
            ));
        }
    }
    assert(s@.skip(n as int) =~= Seq::<char>::empty());
    out.append(s.substring_char(seg, n));
    assert(remove_all(s@, p@) =~= out@);
    out
}

} // verus!
