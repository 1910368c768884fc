//! The query part of a request target: `?k=v&k2=v2`.

use vstd::prelude::*;
use crate::text::{split, split_once, split_once_str, split_str, views};

verus! {

broadcast use vstd::string::group_string_axioms;

/// The map that a list of entries denotes when each later entry replaces an earlier one
/// with the same key.
pub open spec fn entries_map(e: Seq<(String, String)>) -> Map<Seq<char>, Seq<char>>
    decreases e.len(),
{
    if e.len() == 0 {
        Map::empty()
    } else {
        entries_map(e.drop_last()).insert(e.last().0@, e.last().1@)
    }
}

/// The parameters of a query, from keys to values.
pub struct QueryParams {
    entries: Vec<(String, String)>,
}

impl View for QueryParams {
    type V = Map<Seq<char>, Seq<char>>;

    closed spec fn view(&self) -> Map<Seq<char>, Seq<char>> {
        entries_map(self.entries@)
    }
}

impl QueryParams {
    /// No parameters.
    pub fn new() -> (q: QueryParams)
        ensures
            q@ == Map::<Seq<char>, Seq<char>>::empty(),
    {
        QueryParams { entries: Vec::new() }
    }

    /// Sets `key` to `value`, replacing an earlier value of `key`.
    pub fn insert(&mut self, key: String, value: String)
        ensures
            final(self)@ == old(self)@.insert(key@, value@),
    {
        let ghost before = self.entries@;
        self.entries.push((key, value));
        assert(self.entries@.drop_last() =~= before);
    }

    /// The value of `key`, if it has one.
    pub fn get(&self, key: &str) -> (r: Option<&String>)
        ensures
            r is Some <==> self@.dom().contains(key@),
            r matches Some(v) ==> v@ == self@[key@],
    {
        let k = key.to_owned();
        let mut i = self.entries.len();
        assert(self.entries@.take(i as int) =~= self.entries@);
        while i > 0
            invariant
                i <= self.entries@.len(),
                k@ == key@,
                entries_map(self.entries@).dom().contains(key@) == entries_map(
                    self.entries@.take(i as int),
                ).dom().contains(key@),
                entries_map(self.entries@).dom().contains(key@) ==> entries_map(self.entries@)[key@]
                    == entries_map(self.entries@.take(i as int))[key@],
            decreases i,
        {
            let ghost prefix = self.entries@.take(i as int);
            assert(prefix.drop_last() =~= self.entries@.take(i - 1));
            assert(prefix.last() == self.entries@[i - 1]);
            if self.entries[i - 1].0 == k {
                return Some(&self.entries[i - 1].1);
            }
            i = i - 1;
        }
        None
    }
}

/// The parameters that the `&`-separated pairs denote: a pair `k=v` (split at its first `=`)
/// sets `k` to `v`, a later pair replacing an earlier one; a pair without `=` is ignored.
pub open spec fn pairs_map(pairs: Seq<Seq<char>>) -> Map<Seq<char>, Seq<char>>
    decreases pairs.len(),
{
    if pairs.len() == 0 {
        Map::empty()
    } else {
        let m = pairs_map(pairs.drop_last());
        match split_once(pairs.last(), '=') {
            Some((k, v)) => m.insert(k, v),
            None => m,
        }
    }
}

/// The path of a request target: the text before its first `?`, or all of it.
pub open spec fn path_of(target: Seq<char>) -> Seq<char> {
    match split_once(target, '?') {
        Some((path, _)) => path,
        None => target,
    }
}

/// The parameters of a request target: those of the text after its first `?`, or none.
pub open spec fn params_of(target: Seq<char>) -> Map<Seq<char>, Seq<char>> {
    match split_once(target, '?') {
        Some((_, query)) => pairs_map(split(query, '&')),
        None => Map::empty(),
    }
}

/// Splits a request target into its path and its query parameters.
pub fn parse_query_params(full_path: &str) -> (r: (&str, QueryParams))
    ensures
        r.0@ == path_of(full_path@),
        r.1@ == params_of(full_path@),
{
    let mut params = QueryParams::new();
    match split_once_str(full_path, '?') {
        None => (full_path, params),
        Some((path, query)) => {
            let pairs = split_str(query, '&');
            let mut i: usize = 0;
            assert(views(pairs@).take(0) =~= Seq::<Seq<char>>::empty());
            while i < pairs.len()
                invariant
                    i <= pairs@.len(),
                    views(pairs@) == split(query@, '&'),
                    params@ == pairs_map(views(pairs@).take(i as int)),
                decreases pairs.len() - i,
            {
                let ghost taken = views(pairs@).take(i + 1);
                assert(taken.drop_last() =~= views(pairs@).take(i as int));
                assert(taken.last() == pairs@[i as int]@);
                match split_once_str(pairs[i].as_str(), '=') {
                    Some((k, v)) => {
                        params.insert(k.to_owned(), v.to_owned());
                    },
                    None => {},
                }
                i = i + 1;
            }
            assert(views(pairs@).take(pairs@.len() as int) =~= views(pairs@));
            (path, params)
        },
    }
}

} // verus!
