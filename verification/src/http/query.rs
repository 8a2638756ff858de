//! The query component of a request target: percent-decoded keys, each
//! with the ordered list of its decoded values.

use vstd::prelude::*;
use vstd::string::*;
use vstd::utf8::{
    decode_utf8, encode_utf8, encode_utf8_decode_utf8, encode_utf8_valid_utf8, valid_utf8,
};
use super::bytes::{byte_spans_of, position_in_bytes, split_byte_spans};
use super::percent::{
    ascii_string, ascii_text, decode_bytes, encode_bytes, lemma_ascii_is_utf8,
    lemma_percent_encode_is_ascii, lemma_percent_round_trip, percent_decode, percent_encode,
};
use super::text::{
    chars_of, lemma_position_from, lemma_position_is, position, position_in, split, str_from_utf8,
};

verus! {

/// Why a query string was refused.
#[derive(Debug, Clone, Copy, PartialEq, Eq, Structural)]
pub enum QueryError {
    InvalidFormat,
    InvalidEncoding,
}

/// A key with its values, as the proofs see it.
pub type Param = (Seq<char>, Seq<Seq<char>>);

/// The keys of a list of parameters, in order.
pub open spec fn keys(params: Seq<Param>) -> Seq<Seq<char>> {
    params.map_values(|p: Param| p.0)
}

/// The values recorded under `key`, if any.
pub open spec fn values_of(params: Seq<Param>, key: Seq<char>) -> Option<Seq<Seq<char>>> {
    let i = position(keys(params), key);
    if 0 <= i < params.len() {
        Some(params[i].1)
    } else {
        None
    }
}

/// The parameters after `value` arrives under `key`: added at the end of
/// the values already there, or recorded under a new key at the end.
pub open spec fn add_value(params: Seq<Param>, key: Seq<char>, value: Seq<char>) -> Seq<Param> {
    let i = position(keys(params), key);
    if 0 <= i < params.len() {
        params.update(i, (key, params[i].1.push(value)))
    } else {
        params.push((key, seq![value]))
    }
}

/// The text that percent-encoded bytes stand for; `None` when an escape is
/// malformed or the decoded bytes are not UTF-8.
pub open spec fn decode_component(bytes: Seq<u8>) -> Option<Seq<char>> {
    match percent_decode(bytes) {
        Some(raw) => if valid_utf8(raw) {
            Some(decode_utf8(raw))
        } else {
            None
        },
        None => None,
    }
}

/// Key and value of one `key=value` pair, cut at the first `=`. A pair
/// without `=` is a key with the empty value.
pub open spec fn decode_pair(pair: Seq<u8>) -> Option<(Seq<char>, Seq<char>)> {
    let eq = position(pair, 0x3Du8);
    let value = if 0 <= eq < pair.len() {
        pair.skip(eq + 1)
    } else {
        Seq::empty()
    };
    match (decode_component(pair.take(eq)), decode_component(value)) {
        (Some(k), Some(v)) => Some((k, v)),
        _ => None,
    }
}

/// The parameters after the given pairs arrive in order. Empty pairs are
/// passed over; one pair that does not decode spoils the whole.
pub open spec fn add_pairs(params: Seq<Param>, pairs: Seq<Seq<u8>>) -> Option<Seq<Param>>
    decreases pairs.len(),
{
    if pairs.len() == 0 {
        Some(params)
    } else if pairs[0].len() == 0 {
        add_pairs(params, pairs.drop_first())
    } else {
        match decode_pair(pairs[0]) {
            Some((k, v)) => add_pairs(add_value(params, k, v), pairs.drop_first()),
            None => None,
        }
    }
}

/// What a query string means: its `&`-separated pairs, decoded and grouped
/// by key.
pub open spec fn parse_query(s: Seq<char>) -> Option<Seq<Param>> {
    add_pairs(Seq::empty(), split(encode_utf8(s), seq![0x26u8]))
}

/// The query of a request target: what follows the first `?`, if there is
/// one.
pub open spec fn query_of_url(url: Seq<char>) -> Option<Seq<Param>> {
    let q = position(url, '?');
    if 0 <= q < url.len() {
        parse_query(url.skip(q + 1))
    } else {
        Some(Seq::empty())
    }
}

/// What `decode_url` makes of a text.
pub open spec fn decode_url_spec(s: Seq<char>) -> Option<Seq<char>> {
    decode_component(encode_utf8(s))
}

/// What `encode_url` makes of a text.
pub open spec fn encode_url_spec(s: Seq<char>) -> Seq<char> {
    ascii_text(percent_encode(encode_utf8(s)))
}

/// Decoding what was encoded gives the text back, whatever the text.
pub proof fn lemma_url_round_trip(s: Seq<char>)
    ensures
        decode_url_spec(encode_url_spec(s)) == Some(s),
{
    let raw = encode_utf8(s);
    let written = percent_encode(raw);
    lemma_percent_encode_is_ascii(raw);
    lemma_ascii_is_utf8(written);
    lemma_percent_round_trip(raw);
    encode_utf8_valid_utf8(s);
    encode_utf8_decode_utf8(s);
}

/// Stored values as the proofs see them.
pub open spec fn values_view(values: Seq<String>) -> Seq<Seq<char>> {
    values.map_values(|v: String| v@)
}

/// Stored parameters as the proofs see them.
pub open spec fn params_view(params: Seq<(String, Vec<String>)>) -> Seq<Param> {
    params.map_values(|p: (String, Vec<String>)| (p.0@, values_view(p.1@)))
}

/// The pairs `(key, value)` of all parameters, keys in order and the values
/// of each key in order.
pub open spec fn flatten(params: Seq<Param>) -> Seq<(Seq<char>, Seq<char>)>
    decreases params.len(),
{
    if params.len() == 0 {
        Seq::empty()
    } else {
        flatten(params.drop_last()) + params.last().1.map_values(
            |v: Seq<char>| (params.last().0, v),
        )
    }
}

/// Pairs of strings as the proofs see them.
pub open spec fn pairs_view(pairs: Seq<(String, String)>) -> Seq<(Seq<char>, Seq<char>)> {
    pairs.map_values(|p: (String, String)| (p.0@, p.1@))
}

/// Decoded query parameters, keys in the order in which they first
/// arrived.
#[derive(Debug)]
pub struct Query {
    params: Vec<(String, Vec<String>)>,
}

impl View for Query {
    type V = Seq<Param>;

    closed spec fn view(&self) -> Seq<Param> {
        params_view(self.params@)
    }
}

fn decode_range(bytes: &[u8], from: usize, to: usize) -> (r: Option<String>)
    requires
        from <= to <= bytes@.len(),
    ensures
        match r {
            Some(s) => decode_component(bytes@.subrange(from as int, to as int)) == Some(s@),
            None => decode_component(bytes@.subrange(from as int, to as int)) is None,
        },
{
    match decode_bytes(bytes, from, to) {
        None => None,
        Some(raw) => match str_from_utf8(raw.as_slice()) {
            Ok(s) => Some(s.to_owned()),
            Err(_) => None,
        },
    }
}

fn clone_values(values: &Vec<String>) -> (r: Vec<String>)
    ensures
        values_view(r@) == values_view(values@),
{
    let mut out: Vec<String> = Vec::new();
    let mut i: usize = 0;
    while i < values.len()
        invariant
            i <= values.len(),
            out.len() == i,
            forall|j: int| 0 <= j < i ==> out[j]@ == values[j]@,
        decreases values.len() - i,
    {
        out.push(values[i].clone());
        i = i + 1;
    }
    assert(values_view(out@) =~= values_view(values@));
    out
}

impl Query {
    #[verifier::type_invariant]
    spec fn well_formed(&self) -> bool {
        &&& keys(params_view(self.params@)).no_duplicates()
        &&& forall|i: int| 0 <= i < self.params.len() ==> (#[trigger] self.params[i]).1.len() > 0
    }

    /// No parameters.
    pub fn new() -> (r: Query)
        ensures
            r@ == Seq::<Param>::empty(),
    {
        let r = Query { params: Vec::new() };
        assert(params_view(r.params@) =~= Seq::<Param>::empty());
        r
    }

    fn index_of(&self, key: &str) -> (i: usize)
        ensures
            i as int == position(keys(self@), key@),
            i <= self.params.len(),
            self.params@.len() == self@.len(),
            forall|j: int| 0 <= j < self.params.len() ==> (#[trigger] self@[j]) == (
                self.params[j].0@,
                values_view(self.params[j].1@),
            ),
    {
        let ghost names = keys(self@);
        let wanted = key.to_owned();
        let n = self.params.len();
        let mut i: usize = 0;
        while i < n && self.params[i].0 != wanted
            invariant
                i <= n == self.params.len(),
                wanted@ == key@,
                names == keys(params_view(self.params@)),
                forall|j: int| 0 <= j < i ==> names[j] != key@,
            decreases n - i,
        {
            i = i + 1;
        }
        proof {
            lemma_position_is(names, key@, 0, i as int);
        }
        i
    }

    /// Records `value` under `key`, after the values already there.
    fn add(&mut self, key: String, value: String)
        ensures
            final(self)@ == add_value(old(self)@, key@, value@),
    {
        let i = self.index_of(key.as_str());
        proof {
            use_type_invariant(&*self);
            lemma_position_from(keys(self@), key@, 0);
        }
        let ghost before = self@;
        assert(keys(before).no_duplicates());
        let mut params: Vec<(String, Vec<String>)> = Vec::new();
        assert(keys(params_view(params@)) =~= Seq::<Seq<char>>::empty());
        std::mem::swap(&mut self.params, &mut params);
        if i < params.len() {
            params[i].1.push(value);
            assert(values_view(params[i as int].1@) =~= before[i as int].1.push(value@));
            assert(params_view(params@) =~= before.update(
                i as int,
                (key@, before[i as int].1.push(value@)),
            ));
            assert(keys(params_view(params@)) =~= keys(before));
        } else {
            let mut values: Vec<String> = Vec::new();
            values.push(value);
            assert(values_view(values@) =~= seq![value@]);
            params.push((key, values));
            assert(params_view(params@) =~= before.push((key@, seq![value@])));
            assert(keys(params_view(params@)) =~= keys(before).push(key@));
        }
        self.params = params;
    }

    /// Parses a query string, given without the leading `?`.
    pub fn parse(query_string: &str) -> (r: Result<Query, QueryError>)
        ensures
            match r {
                Ok(q) => parse_query(query_string@) == Some(q@),
                Err(e) => e == QueryError::InvalidEncoding && parse_query(query_string@) is None,
            },
    {
        let bytes = query_string.as_bytes();
        let spans = split_byte_spans(bytes, 0x26);
        let ghost pairs = byte_spans_of(bytes@, spans@);
        let mut query = Query::new();
        let mut k: usize = 0;
        assert(pairs.skip(0) == pairs);
        while k < spans.len()
            invariant
                k <= spans.len(),
                pairs == byte_spans_of(bytes@, spans@),
                parse_query(query_string@) == add_pairs(Seq::empty(), pairs),
                forall|j: int|
                    0 <= j < spans.len() ==> (#[trigger] spans[j]).0 <= spans[j].1 <= bytes@.len(),
                add_pairs(Seq::empty(), pairs) == add_pairs(query@, pairs.skip(k as int)),
            decreases spans.len() - k,
        {
            let (a, b) = spans[k];
            let ghost pair = bytes@.subrange(a as int, b as int);
            assert(pairs.skip(k as int)[0] == pair);
            assert(pairs.skip(k as int).drop_first() == pairs.skip(k + 1));
            if a != b {
                let eq = position_in_bytes(bytes, a, b, 0x3D);
                assert(pair.take(eq - a) == bytes@.subrange(a as int, eq as int));
                let key = match decode_range(bytes, a, eq) {
                    Some(s) => s,
                    None => {
                        return Err(QueryError::InvalidEncoding);
                    },
                };
                let from = if eq < b {
                    eq + 1
                } else {
                    b
                };
                assert(bytes@.subrange(from as int, b as int) =~= if eq < b {
                    pair.skip(eq - a + 1)
                } else {
                    Seq::empty()
                });
                let value = match decode_range(bytes, from, b) {
                    Some(s) => s,
                    None => {
                        return Err(QueryError::InvalidEncoding);
                    },
                };
                query.add(key, value);
            }
            k = k + 1;
        }
        Ok(query)
    }

    /// Parses the query of a request target: what follows its first `?`.
    pub fn from_url(url: &str) -> (r: Result<Query, QueryError>)
        ensures
            match r {
                Ok(q) => query_of_url(url@) == Some(q@),
                Err(e) => e == QueryError::InvalidEncoding && query_of_url(url@) is None,
            },
    {
        let cs = chars_of(url);
        let n = cs.len();
        assert(cs@.subrange(0, n as int) == url@);
        let q = position_in(&cs, 0, n, '?');
        if q < n {
            assert(url@.skip(q + 1) == url@.subrange(q + 1, n as int));
            Query::parse(url.substring_char(q + 1, n))
        } else {
            Ok(Query::new())
        }
    }

    /// The first value recorded under `key`.
    pub fn get(&self, key: &str) -> (r: Option<&str>)
        ensures
            match r {
                Some(v) => values_of(self@, key@) is Some && values_of(self@, key@)->0.len() > 0
                    && v@ == values_of(self@, key@)->0[0],
                None => values_of(self@, key@) is None,
            },
    {
        let i = self.index_of(key);
        proof {
            use_type_invariant(self);
        }
        if i < self.params.len() {
            assert(self.params[i as int].1.len() > 0);
            Some(self.params[i].1[0].as_str())
        } else {
            None
        }
    }

    /// All values recorded under `key`, in the order in which they arrived.
    pub fn get_all(&self, key: &str) -> (r: Option<&[String]>)
        ensures
            match r {
                Some(vs) => values_of(self@, key@) == Some(values_view(vs@)),
                None => values_of(self@, key@) is None,
            },
    {
        let i = self.index_of(key);
        if i < self.params.len() {
            Some(self.params[i].1.as_slice())
        } else {
            None
        }
    }

    /// True when a value is recorded under `key`.
    pub fn contains(&self, key: &str) -> (r: bool)
        ensures
            r == values_of(self@, key@) is Some,
    {
        let i = self.index_of(key);
        i < self.params.len()
    }

    /// The number of keys. No key is recorded twice, and every key has at
    /// least one value.
    pub fn len(&self) -> (r: usize)
        ensures
            r == self@.len(),
            keys(self@).no_duplicates(),
            forall|i: int| 0 <= i < self@.len() ==> (#[trigger] self@[i]).1.len() > 0,
    {
        proof {
            use_type_invariant(self);
            assert forall|i: int| 0 <= i < self@.len() implies (#[trigger] self@[i]).1.len()
                > 0 by {
                assert(self.params[i].1.len() > 0);
            }
        }
        self.params.len()
    }

    /// True when there is no key.
    pub fn is_empty(&self) -> (r: bool)
        ensures
            r == (self@.len() == 0),
    {
        self.params.len() == 0
    }

    /// Each key with its first value, keys in order.
    pub fn iter(&self) -> (r: Vec<(String, String)>)
        ensures
            r.len() == self@.len(),
            forall|i: int|
                0 <= i < r.len() ==> (#[trigger] r[i]).0@ == self@[i].0 && self@[i].1.len() > 0
                    && r[i].1@ == self@[i].1[0],
    {
        proof {
            use_type_invariant(self);
        }
        let mut out: Vec<(String, String)> = Vec::new();
        let n = self.params.len();
        let mut i: usize = 0;
        while i < n
            invariant
                i <= n == self.params.len(),
                out.len() == i,
                forall|j: int| 0 <= j < n ==> (#[trigger] self.params[j]).1.len() > 0,
                forall|j: int|
                    0 <= j < i ==> (#[trigger] out[j]).0@ == self.params[j].0@ && out[j].1@
                        == self.params[j].1[0]@,
            decreases n - i,
        {
            assert(self.params[i as int].1.len() > 0);
            out.push((self.params[i].0.clone(), self.params[i].1[0].clone()));
            i = i + 1;
        }
        out
    }

    /// Every pair of key and value: keys in order, the values of each key
    /// in order.
    pub fn iter_all(&self) -> (r: Vec<(String, String)>)
        ensures
            pairs_view(r@) == flatten(self@),
    {
        let mut out: Vec<(String, String)> = Vec::new();
        let n = self.params.len();
        let mut i: usize = 0;
        assert(self@.take(0) =~= Seq::<Param>::empty());
        assert(pairs_view(out@) =~= flatten(self@.take(0)));
        while i < n
            invariant
                i <= n == self.params.len(),
                self@.len() == n,
                pairs_view(out@) == flatten(self@.take(i as int)),
            decreases n - i,
        {
            let ghost done = pairs_view(out@);
            let ghost upto = self@.take(i + 1);
            assert(upto.drop_last() == self@.take(i as int));
            assert(upto.last() == self@[i as int]);
            let ghost key = self@[i as int].0;
            let ghost values = self@[i as int].1;
            assert(key == self.params[i as int].0@);
            assert(values == values_view(self.params[i as int].1@));
            let m = self.params[i].1.len();
            let mut j: usize = 0;
            while j < m
                invariant
                    i < n == self.params.len(),
                    j <= m == self.params[i as int].1.len(),
                    key == self.params[i as int].0@,
                    values == values_view(self.params[i as int].1@),
                    pairs_view(out@) == done + values.take(j as int).map_values(
                        |v: Seq<char>| (key, v),
                    ),
                decreases m - j,
            {
                let ghost part = pairs_view(out@);
                out.push((self.params[i].0.clone(), self.params[i].1[j].clone()));
                assert(pairs_view(out@) =~= part.push((key, values[j as int])));
                assert(values.take(j + 1).map_values(|v: Seq<char>| (key, v))
                    =~= values.take(j as int).map_values(|v: Seq<char>| (key, v)).push(
                    (key, values[j as int]),
                ));
                j = j + 1;
            }
            assert(values.take(m as int) == values);
            i = i + 1;
        }
        assert(self@.take(n as int) == self@);
        out
    }

    /// Percent-decodes `s`: `%XX` is the byte with that hexadecimal value,
    /// `+` is a space, and the resulting bytes must be UTF-8.
    pub fn decode_url(s: &str) -> (r: Result<String, QueryError>)
        ensures
            match r {
                Ok(t) => decode_url_spec(s@) == Some(t@),
                Err(e) => e == QueryError::InvalidEncoding && decode_url_spec(s@) is None,
            },
    {
        let bytes = s.as_bytes();
        assert(bytes@.subrange(0, bytes@.len() as int) == bytes@);
        match decode_range(bytes, 0, bytes.len()) {
            Some(t) => Ok(t),
            None => Err(QueryError::InvalidEncoding),
        }
    }

    /// Percent-encodes the UTF-8 bytes of `s`.
    pub fn encode_url(s: &str) -> (r: String)
        ensures
            r@ == encode_url_spec(s@),
    {
        let written = encode_bytes(s.as_bytes());
        proof {
            lemma_percent_encode_is_ascii(encode_utf8(s@));
        }
        ascii_string(written.as_slice())
    }
}

impl Clone for Query {
    fn clone(&self) -> (r: Query)
        ensures
            r@ == self@,
    {
        proof {
            use_type_invariant(self);
        }
        let mut params: Vec<(String, Vec<String>)> = Vec::new();
        let n = self.params.len();
        let mut i: usize = 0;
        while i < n
            invariant
                i <= n == self.params.len(),
                params.len() == i,
                forall|j: int|
                    0 <= j < i ==> (#[trigger] params[j]).0@ == self.params[j].0@ && values_view(
                        params[j].1@,
                    ) == values_view(self.params[j].1@),
            decreases n - i,
        {
            params.push((self.params[i].0.clone(), clone_values(&self.params[i].1)));
            i = i + 1;
        }
        assert(params_view(params@) =~= params_view(self.params@));
        assert forall|j: int| 0 <= j < params.len() implies (#[trigger] params[j]).1.len() > 0 by {
            assert(self.params[j].1.len() > 0);
            assert(values_view(params[j].1@).len() == values_view(self.params[j].1@).len());
        }
        Query { params }
    }
}

impl Default for Query {
    fn default() -> (r: Query)
        ensures
            r@ == Seq::<Param>::empty(),
    {
        Query::new()
    }
}

} // verus!
