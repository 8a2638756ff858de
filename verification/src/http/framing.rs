//! How the length of a body is decided from the header fields, and which
//! combinations of fields are refused because they leave it undecided.

use vstd::prelude::*;
use vstd::string::*;
use super::body::{BodyError, BodyErrorView};
use super::error::{ParseError, ParseErrorView};
use super::header::{fields_view, Field, HeaderError};
use super::number::{parse_unsigned, parse_unsigned_in};
use super::text::{chars_of, contains_seq, find_in, lowercase, span_is, to_lowercase};

verus! {

/// How the body of a message is delimited.
#[derive(Debug, Clone, Copy, PartialEq, Eq, Structural)]
pub enum Framing {
    /// No body: neither framing header is present.
    NoBody,
    /// A body of exactly this many bytes.
    Length(usize),
    /// A body sent as chunks.
    Chunked,
}

/// The values of the fields whose name, lower-cased, is `key`, in order.
pub open spec fn values_named(fields: Seq<Field>, key: Seq<char>) -> Seq<Seq<char>>
    decreases fields.len(),
{
    if fields.len() == 0 {
        Seq::empty()
    } else {
        let before = values_named(fields.drop_last(), key);
        if lowercase(fields.last().0) == key {
            before.push(fields.last().1)
        } else {
            before
        }
    }
}

/// The framing that the header lines of a message call for, decided on the
/// lines as they were sent, before repeated names are folded.
///
/// Refused as undecidable: more than one `Transfer-Encoding` line, more
/// than one `Content-Length` line, and a chunked `Transfer-Encoding`
/// together with a `Content-Length`.
pub open spec fn framing_of(fields: Seq<Field>) -> Result<Framing, ParseErrorView> {
    let encodings = values_named(fields, "transfer-encoding"@);
    let lengths = values_named(fields, "content-length"@);
    if encodings.len() > 1 || lengths.len() > 1 {
        Err(ParseErrorView::Header(HeaderError::InvalidHeaderValue))
    } else if encodings.len() == 1 && contains_seq(lowercase(encodings[0]), "chunked"@) {
        if lengths.len() == 1 {
            Err(ParseErrorView::Header(HeaderError::InvalidHeaderValue))
        } else {
            Ok(Framing::Chunked)
        }
    } else if lengths.len() == 1 {
        match parse_unsigned(lengths[0], 10) {
            Some(n) => Ok(Framing::Length(n as usize)),
            None => Err(ParseErrorView::Body(BodyErrorView::InvalidContentLength(lengths[0]))),
        }
    } else {
        Ok(Framing::NoBody)
    }
}

/// Fields that carry the name count among the values of that name.
pub proof fn lemma_values_named_counts(fields: Seq<Field>, key: Seq<char>, i: int, j: int)
    requires
        0 <= i < fields.len(),
        lowercase(fields[i].0) == key,
    ensures
        values_named(fields, key).len() >= 1,
        0 <= j < fields.len() && j != i && lowercase(fields[j].0) == key ==> values_named(
            fields,
            key,
        ).len() >= 2,
    decreases fields.len(),
{
    let last = fields.len() - 1;
    let init = fields.drop_last();
    if i < last {
        lemma_values_named_counts(init, key, i, j);
    }
    if 0 <= j < last && j != i && lowercase(fields[j].0) == key {
        lemma_values_named_counts(init, key, j, i);
    }
}

/// Two lines named `Content-Length`, whatever their values, are refused.
pub proof fn lemma_two_content_lengths_refused(fields: Seq<Field>, i: int, j: int)
    requires
        0 <= i < fields.len(),
        0 <= j < fields.len(),
        i != j,
        lowercase(fields[i].0) == "content-length"@,
        lowercase(fields[j].0) == "content-length"@,
    ensures
        framing_of(fields) is Err,
{
    lemma_values_named_counts(fields, "content-length"@, i, j);
}

/// Two lines named `Transfer-Encoding`, whatever their values, are refused.
pub proof fn lemma_two_transfer_encodings_refused(fields: Seq<Field>, i: int, j: int)
    requires
        0 <= i < fields.len(),
        0 <= j < fields.len(),
        i != j,
        lowercase(fields[i].0) == "transfer-encoding"@,
        lowercase(fields[j].0) == "transfer-encoding"@,
    ensures
        framing_of(fields) is Err,
{
    lemma_values_named_counts(fields, "transfer-encoding"@, i, j);
}

/// A `Content-Length` line beside a chunked `Transfer-Encoding` line is
/// refused: the message is never framed by either of the two.
pub proof fn lemma_length_with_chunked_refused(fields: Seq<Field>, i: int, j: int)
    requires
        0 <= i < fields.len(),
        0 <= j < fields.len(),
        lowercase(fields[i].0) == "content-length"@,
        lowercase(fields[j].0) == "transfer-encoding"@,
        contains_seq(lowercase(fields[j].1), "chunked"@),
    ensures
        framing_of(fields) is Err,
{
    lemma_values_named_counts(fields, "content-length"@, i, i);
    lemma_values_named_counts(fields, "transfer-encoding"@, j, j);
    let encodings = values_named(fields, "transfer-encoding"@);
    if encodings.len() == 1 {
        lemma_single_value(fields, "transfer-encoding"@, j);
    }
}

/// When one field only carries the name, its value is the one value of
/// that name.
pub proof fn lemma_single_value(fields: Seq<Field>, key: Seq<char>, i: int)
    requires
        0 <= i < fields.len(),
        lowercase(fields[i].0) == key,
        values_named(fields, key).len() == 1,
    ensures
        values_named(fields, key)[0] == fields[i].1,
    decreases fields.len(),
{
    let last = fields.len() - 1;
    let init = fields.drop_last();
    if i < last {
        lemma_values_named_counts(init, key, i, i);
        lemma_single_value(init, key, i);
    } else {
        assert(values_named(init, key).len() == 0);
    }
}

/// True when the two texts are the same.
pub fn text_eq(a: &str, b: &str) -> (r: bool)
    ensures
        r == (a@ == b@),
{
    let cs = chars_of(a);
    assert(cs@.subrange(0, cs.len() as int) == a@);
    span_is(&cs, 0, cs.len(), b)
}

/// True when `word` occurs in `text`.
pub fn text_contains(text: &str, word: &str) -> (r: bool)
    ensures
        r == contains_seq(text@, word@),
{
    let cs = chars_of(text);
    let pat = chars_of(word);
    let n = cs.len();
    assert(cs@.subrange(0, n as int) == cs@);
    find_in(&cs, 0, n, &pat) < n || pat.len() == 0
}

/// Decides the framing from the header lines of a message, given as the
/// fields they parse to, in the order of the lines.
pub fn decide_framing(fields: &Vec<(String, String)>) -> (r: Result<Framing, ParseError>)
    ensures
        match r {
            Ok(f) => framing_of(fields_view(fields@)) == Ok::<Framing, ParseErrorView>(f),
            Err(e) => framing_of(fields_view(fields@)) == Err::<Framing, ParseErrorView>(e@),
        },
{
    let ghost all = fields_view(fields@);
    let mut encodings: usize = 0;
    let mut lengths: usize = 0;
    let mut encoding_at: usize = 0;
    let mut length_at: usize = 0;
    let mut k: usize = 0;
    while k < fields.len()
        invariant
            k <= fields.len(),
            all == fields_view(fields@),
            encodings <= k,
            lengths <= k,
            encodings == values_named(all.take(k as int), "transfer-encoding"@).len(),
            lengths == values_named(all.take(k as int), "content-length"@).len(),
            encodings > 0 ==> encoding_at < k && values_named(
                all.take(k as int),
                "transfer-encoding"@,
            ).last() == fields[encoding_at as int].1@,
            lengths > 0 ==> length_at < k && values_named(
                all.take(k as int),
                "content-length"@,
            ).last() == fields[length_at as int].1@,
        decreases fields.len() - k,
    {
        assert(all.take(k + 1).drop_last() == all.take(k as int));
        assert(all.take(k + 1).last() == (fields[k as int].0@, fields[k as int].1@));
        let name = to_lowercase(fields[k].0.as_str());
        if text_eq(name.as_str(), "transfer-encoding") {
            encodings = encodings + 1;
            encoding_at = k;
        }
        if text_eq(name.as_str(), "content-length") {
            lengths = lengths + 1;
            length_at = k;
        }
        k = k + 1;
    }
    assert(all.take(k as int) == all);
    if encodings > 1 || lengths > 1 {
        return Err(ParseError::Header(HeaderError::InvalidHeaderValue));
    }
    if encodings == 1 {
        let coding = to_lowercase(fields[encoding_at].1.as_str());
        if text_contains(coding.as_str(), "chunked") {
            if lengths == 1 {
                return Err(ParseError::Header(HeaderError::InvalidHeaderValue));
            }
            return Ok(Framing::Chunked);
        }
    }
    if lengths == 1 {
        let value = &fields[length_at].1;
        let cs = chars_of(value.as_str());
        assert(cs@.subrange(0, cs.len() as int) == cs@);
        return match parse_unsigned_in(&cs, 0, cs.len(), 10) {
            Some(n) => Ok(Framing::Length(n)),
            None => Err(ParseError::Body(BodyError::InvalidContentLength(value.clone()))),
        };
    }
    Ok(Framing::NoBody)
}

} // verus!
