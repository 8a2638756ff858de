//! The header store: a case-insensitive collection of header fields that
//! folds repeated names into one comma-joined value.

use vstd::prelude::*;
use vstd::string::*;
use super::text::{
    chars_of, lowercase, position, position_in, spans_of, spans_within, split, split_spans,
    substring, to_lowercase, trim, trim_bounds, until_empty,
};

verus! {

/// Why a header line was refused.
#[derive(Debug, Clone, Copy, PartialEq, Eq, Structural)]
pub enum HeaderError {
    MissingColon,
    EmptyHeaderName,
    EmptyHeaderValue,
    InvalidHeaderName,
    InvalidHeaderValue,
}

/// A header field as the proofs see it: name and value.
pub type Field = (Seq<char>, Seq<char>);

/// The names of a list of fields, in order.
pub open spec fn names(fields: Seq<Field>) -> Seq<Seq<char>> {
    fields.map_values(|f: Field| f.0)
}

/// The value stored under `key`, if any.
pub open spec fn lookup(fields: Seq<Field>, key: Seq<char>) -> Option<Seq<char>> {
    let i = position(names(fields), key);
    if 0 <= i < fields.len() {
        Some(fields[i].1)
    } else {
        None
    }
}

/// The store after `value` arrives under `key`: appended to the value
/// already there, after a comma, or added as a new field at the end.
pub open spec fn fold_in(fields: Seq<Field>, key: Seq<char>, value: Seq<char>) -> Seq<Field> {
    let i = position(names(fields), key);
    if 0 <= i < fields.len() {
        fields.update(i, (key, fields[i].1 + seq![','] + value))
    } else {
        fields.push((key, value))
    }
}

/// A character allowed in a header name.
pub open spec fn is_token_char(c: char) -> bool {
    let u = c as u32;
    ||| 0x30 <= u <= 0x39
    ||| 0x41 <= u <= 0x5A
    ||| 0x61 <= u <= 0x7A
    ||| c == '!'
    ||| c == '#'
    ||| c == '$'
    ||| c == '%'
    ||| c == '&'
    ||| c == '\''
    ||| c == '*'
    ||| c == '+'
    ||| c == '-'
    ||| c == '.'
    ||| c == '^'
    ||| c == '_'
    ||| c == '`'
    ||| c == '|'
    ||| c == '~'
}

/// A character allowed in a header value: space, tab, a printable ASCII
/// character, or anything outside ASCII.
pub open spec fn is_value_char(c: char) -> bool {
    let u = c as u32;
    c == ' ' || c == '\t' || 0x21 <= u <= 0x7E || u > 0x7F
}

/// A header name: one or more token characters.
pub open spec fn valid_token(s: Seq<char>) -> bool {
    s.len() > 0 && forall|i: int| 0 <= i < s.len() ==> is_token_char(#[trigger] s[i])
}

/// A header value: no control characters.
pub open spec fn valid_header_value(s: Seq<char>) -> bool {
    forall|i: int| 0 <= i < s.len() ==> is_value_char(#[trigger] s[i])
}

/// What one header line means: the text before the first colon is the name,
/// the text after it the value, both trimmed.
pub open spec fn parse_header_line_spec(line: Seq<char>) -> Result<Field, HeaderError> {
    let colon = position(line, ':');
    if !(0 <= colon < line.len()) {
        Err(HeaderError::MissingColon)
    } else {
        let name = trim(line.take(colon));
        let value = trim(line.skip(colon + 1));
        if name.len() == 0 {
            Err(HeaderError::EmptyHeaderName)
        } else if value.len() == 0 {
            Err(HeaderError::EmptyHeaderValue)
        } else if !valid_token(name) {
            Err(HeaderError::InvalidHeaderName)
        } else if !valid_header_value(value) {
            Err(HeaderError::InvalidHeaderValue)
        } else {
            Ok((name, value))
        }
    }
}

/// The fields of the leading lines that parse.
pub open spec fn parsed_fields(lines: Seq<Seq<char>>) -> Seq<Field>
    decreases lines.len(),
{
    if lines.len() == 0 {
        seq![]
    } else {
        match parse_header_line_spec(lines[0]) {
            Err(_) => seq![],
            Ok(field) => seq![field] + parsed_fields(lines.drop_first()),
        }
    }
}

/// The error of the first line that does not parse.
pub open spec fn first_error(lines: Seq<Seq<char>>) -> Option<HeaderError>
    decreases lines.len(),
{
    if lines.len() == 0 {
        None
    } else {
        match parse_header_line_spec(lines[0]) {
            Err(e) => Some(e),
            Ok(_) => first_error(lines.drop_first()),
        }
    }
}

/// The store after the given fields arrive in order, each under its
/// lower-cased name.
pub open spec fn fold_in_all(fields: Seq<Field>, more: Seq<Field>) -> Seq<Field>
    decreases more.len(),
{
    if more.len() == 0 {
        fields
    } else {
        fold_in_all(fold_in(fields, lowercase(more[0].0), more[0].1), more.drop_first())
    }
}

/// The lines of a header block: its CRLF-separated pieces up to the first
/// empty one.
pub open spec fn block_lines(block: Seq<char>) -> Seq<Seq<char>> {
    until_empty(split(block, seq!['\r', '\n']))
}

/// Storing under `key` leaves one field under `key`, whose value ends with
/// what was stored; no other name is touched, and the order of the names
/// stays as it was, with a new name at the end.
pub proof fn lemma_fold_in(fields: Seq<Field>, key: Seq<char>, value: Seq<char>)
    ensures
        lookup(fold_in(fields, key, value), key) == Some(
            match lookup(fields, key) {
                Some(old) => old + seq![','] + value,
                None => value,
            },
        ),
        forall|other: Seq<char>|
            other != key ==> lookup(fold_in(fields, key, value), other) == lookup(fields, other),
        names(fold_in(fields, key, value)) == if lookup(fields, key) is Some {
            names(fields)
        } else {
            names(fields).push(key)
        },
        names(fields).no_duplicates() ==> names(fold_in(fields, key, value)).no_duplicates(),
{
    let after = fold_in(fields, key, value);
    let i = position(names(fields), key);
    super::text::lemma_position_from(names(fields), key, 0);
    if 0 <= i < fields.len() {
        assert(names(after) =~= names(fields));
    } else {
        assert(names(after) =~= names(fields).push(key));
        super::text::lemma_position_is(names(after), key, 0, fields.len() as int);
    }
    assert forall|other: Seq<char>| other != key implies lookup(after, other) == lookup(
        fields,
        other,
    ) by {
        let j = position(names(fields), other);
        super::text::lemma_position_from(names(fields), other, 0);
        super::text::lemma_position_is(names(after), other, 0, if j < fields.len() {
            j
        } else {
            after.len() as int
        });
    }
}

/// Two values stored under one name are kept as one value: the first, a
/// comma, the second.
pub proof fn lemma_repeated_name_folds(
    fields: Seq<Field>,
    key: Seq<char>,
    first: Seq<char>,
    second: Seq<char>,
)
    ensures
        lookup(fold_in(fold_in(fields, key, first), key, second), key) == Some(
            match lookup(fields, key) {
                Some(old) => old + seq![','] + first + seq![','] + second,
                None => first + seq![','] + second,
            },
        ),
        names(fold_in(fold_in(fields, key, first), key, second)) == names(
            fold_in(fields, key, first),
        ),
{
    lemma_fold_in(fields, key, first);
    lemma_fold_in(fold_in(fields, key, first), key, second);
}

/// Two names with the same lower-case form are one name to the store: what
/// is stored under one is found under the other.
pub proof fn lemma_lookup_ignores_case(
    fields: Seq<Field>,
    stored: Seq<char>,
    asked: Seq<char>,
    value: Seq<char>,
)
    requires
        lowercase(stored) == lowercase(asked),
    ensures
        lookup(fold_in(fields, lowercase(stored), value), lowercase(asked)) is Some,
        lookup(fields, lowercase(stored)) is None ==> lookup(
            fold_in(fields, lowercase(stored), value),
            lowercase(asked),
        ) == Some(value),
{
    lemma_fold_in(fields, lowercase(stored), value);
}

/// Stored fields as the proofs see them.
pub open spec fn fields_view(entries: Seq<(String, String)>) -> Seq<Field> {
    entries.map_values(|e: (String, String)| (e.0@, e.1@))
}

/// Header fields keyed by lower-cased name, in the order in which the names
/// first arrived.
#[derive(Debug)]
pub struct Headers {
    entries: Vec<(String, String)>,
}

impl View for Headers {
    type V = Seq<Field>;

    closed spec fn view(&self) -> Seq<Field> {
        fields_view(self.entries@)
    }
}

/// True when `c` may stand in a header name.
pub fn is_token_character(c: char) -> (r: bool)
    ensures
        r == is_token_char(c),
{
    let u: u32 = c as u32;
    (0x30 <= u && u <= 0x39) || (0x41 <= u && u <= 0x5A) || (0x61 <= u && u <= 0x7A) || c == '!'
        || c == '#' || c == '$' || c == '%' || c == '&' || c == '\'' || c == '*' || c == '+' || c
        == '-' || c == '.' || c == '^' || c == '_' || c == '`' || c == '|' || c == '~'
}

/// True when `c` may stand in a header value.
pub fn is_value_character(c: char) -> (r: bool)
    ensures
        r == is_value_char(c),
{
    let u: u32 = c as u32;
    c == ' ' || c == '\t' || (0x21 <= u && u <= 0x7E) || u > 0x7F
}

fn span_is_token(cs: &Vec<char>, from: usize, to: usize) -> (r: bool)
    requires
        from <= to <= cs.len(),
    ensures
        r == valid_token(cs@.subrange(from as int, to as int)),
{
    let ghost s = cs@.subrange(from as int, to as int);
    if from == to {
        return false;
    }
    let mut i: usize = from;
    while i < to
        invariant
            from <= i <= to <= cs.len(),
            s == cs@.subrange(from as int, to as int),
            forall|j: int| 0 <= j < i - from ==> is_token_char(#[trigger] s[j]),
        decreases to - i,
    {
        if !is_token_character(cs[i]) {
            assert(!is_token_char(s[i - from]));
            return false;
        }
        i = i + 1;
    }
    true
}

fn span_is_value(cs: &Vec<char>, from: usize, to: usize) -> (r: bool)
    requires
        from <= to <= cs.len(),
    ensures
        r == valid_header_value(cs@.subrange(from as int, to as int)),
{
    let ghost s = cs@.subrange(from as int, to as int);
    let mut i: usize = from;
    while i < to
        invariant
            from <= i <= to <= cs.len(),
            s == cs@.subrange(from as int, to as int),
            forall|j: int| 0 <= j < i - from ==> is_value_char(#[trigger] s[j]),
        decreases to - i,
    {
        if !is_value_character(cs[i]) {
            assert(!is_value_char(s[i - from]));
            return false;
        }
        i = i + 1;
    }
    true
}

/// Parses the line `cs[from..to]` of the text `text`, whose characters are
/// `cs`.
fn parse_span(text: &str, cs: &Vec<char>, from: usize, to: usize) -> (r: Result<
    (String, String),
    HeaderError,
>)
    requires
        cs@ == text@,
        from <= to <= cs.len(),
    ensures
        match r {
            Ok(f) => parse_header_line_spec(cs@.subrange(from as int, to as int)) == Ok::<
                Field,
                HeaderError,
            >((f.0@, f.1@)),
            Err(e) => parse_header_line_spec(cs@.subrange(from as int, to as int)) == Err::<
                Field,
                HeaderError,
            >(e),
        },
{
    let ghost line = cs@.subrange(from as int, to as int);
    let colon = position_in(cs, from, to, ':');
    if colon >= to {
        return Err(HeaderError::MissingColon);
    }
    assert(line.take(colon - from) == cs@.subrange(from as int, colon as int));
    assert(line.skip(colon - from + 1) == cs@.subrange(colon + 1, to as int));
    let (n0, n1) = trim_bounds(cs, from, colon);
    let (v0, v1) = trim_bounds(cs, colon + 1, to);
    if n0 == n1 {
        return Err(HeaderError::EmptyHeaderName);
    }
    if v0 == v1 {
        return Err(HeaderError::EmptyHeaderValue);
    }
    if !span_is_token(cs, n0, n1) {
        return Err(HeaderError::InvalidHeaderName);
    }
    if !span_is_value(cs, v0, v1) {
        return Err(HeaderError::InvalidHeaderValue);
    }
    Ok((substring(text, n0, n1), substring(text, v0, v1)))
}

/// Parses the lines `spans[from..]` of `text` up to the first empty one.
/// Returns the fields of the lines before the first that does not parse,
/// and the error of that line, if there is one.
pub fn parse_fields(text: &str, cs: &Vec<char>, spans: &Vec<(usize, usize)>, from: usize) -> (r: (
    Vec<(String, String)>,
    Option<HeaderError>,
))
    requires
        cs@ == text@,
        spans_within(spans@, cs.len() as int),
        from <= spans.len(),
    ensures
        fields_view(r.0@) == parsed_fields(until_empty(spans_of(cs@, spans@).skip(from as int))),
        r.1 == first_error(until_empty(spans_of(cs@, spans@).skip(from as int))),
{
    let ghost all = spans_of(cs@, spans@);
    let ghost lines = until_empty(all.skip(from as int));
    let mut fields: Vec<(String, String)> = Vec::new();
    let mut k: usize = from;
    assert(fields_view(fields@) =~= Seq::<Field>::empty());
    assert(Seq::<Field>::empty() + parsed_fields(lines) =~= parsed_fields(lines));
    while k < spans.len()
        invariant
            from <= k <= spans.len(),
            cs@ == text@,
            all == spans_of(cs@, spans@),
            lines == until_empty(all.skip(from as int)),
            spans_within(spans@, cs.len() as int),
            parsed_fields(lines) == fields_view(fields@) + parsed_fields(
                until_empty(all.skip(k as int)),
            ),
            first_error(lines) == first_error(until_empty(all.skip(k as int))),
        decreases spans.len() - k,
    {
        let (a, b) = spans[k];
        let ghost line = cs@.subrange(a as int, b as int);
        let ghost done = fields_view(fields@);
        assert(all.skip(k as int)[0] == line);
        assert(all.skip(k as int).drop_first() == all.skip(k + 1));
        if a == b {
            assert(until_empty(all.skip(k as int)) =~= Seq::<Seq<char>>::empty());
            assert(done + Seq::<Field>::empty() =~= done);
            return (fields, None);
        }
        let ghost rest = until_empty(all.skip(k + 1));
        assert(until_empty(all.skip(k as int)) == seq![line] + rest);
        assert((seq![line] + rest).drop_first() == rest);
        match parse_span(text, cs, a, b) {
            Err(e) => {
                assert(done + Seq::<Field>::empty() =~= done);
                return (fields, Some(e));
            },
            Ok(field) => {
                let ghost f: Field = (field.0@, field.1@);
                fields.push(field);
                assert(fields_view(fields@) =~= done.push(f));
                assert(done + (seq![f] + parsed_fields(rest)) =~= done.push(f) + parsed_fields(
                    rest,
                ));
            },
        }
        k = k + 1;
    }
    assert(all.skip(k as int).len() == 0);
    assert(fields_view(fields@) + Seq::<Field>::empty() =~= fields_view(fields@));
    (fields, None)
}

impl Headers {
    #[verifier::type_invariant]
    spec fn distinct_names(&self) -> bool {
        names(fields_view(self.entries@)).no_duplicates()
    }

    /// An empty store.
    pub fn new() -> (r: Headers)
        ensures
            r@ == Seq::<Field>::empty(),
    {
        let r = Headers { entries: Vec::new() };
        assert(fields_view(r.entries@) =~= Seq::<Field>::empty());
        r
    }

    fn index_of(&self, key: &String) -> (i: usize)
        ensures
            i as int == position(names(self@), key@),
            i <= self.entries.len(),
            self.entries@.len() == self@.len(),
            i < self.entries.len() ==> self.entries[i as int].0@ == key@,
            forall|j: int| 0 <= j < self.entries.len() ==> (#[trigger] self@[j]) == (
                self.entries[j].0@,
                self.entries[j].1@,
            ),
    {
        let ghost keys = names(self@);
        let n = self.entries.len();
        let mut i: usize = 0;
        while i < n && self.entries[i].0 != *key
            invariant
                i <= n == self.entries.len(),
                keys == names(fields_view(self.entries@)),
                forall|j: int| 0 <= j < i ==> keys[j] != key@,
            decreases n - i,
        {
            i = i + 1;
        }
        proof {
            super::text::lemma_position_is(keys, key@, 0, i as int);
        }
        i
    }

    /// Stores `value` under the lower-cased `name`. A name that is already
    /// there keeps its place, and its value grows by a comma and `value`.
    pub fn insert(&mut self, name: String, value: String)
        ensures
            final(self)@ == fold_in(old(self)@, lowercase(name@), value@),
    {
        let key = to_lowercase(name.as_str());
        let i = self.index_of(&key);
        proof {
            use_type_invariant(&*self);
            reveal_strlit(",");
        }
        let ghost before = self@;
        proof {
            super::text::lemma_position_from(names(before), key@, 0);
        }
        assert(names(before).no_duplicates());
        let mut entries: Vec<(String, String)> = Vec::new();
        assert(names(fields_view(entries@)) =~= Seq::<Seq<char>>::empty());
        std::mem::swap(&mut self.entries, &mut entries);
        if i < entries.len() {
            let ghost stored = entries@;
            assert(fields_view(stored) == before);
            entries[i].1.append(",");
            entries[i].1.append(value.as_str());
            assert(entries@.len() == stored.len());
            assert(entries[i as int].0 == stored[i as int].0);
            assert(entries[i as int].1@ =~= stored[i as int].1@ + seq![','] + value@);
            assert(forall|j: int| 0 <= j < stored.len() && j != i ==> entries[j] == stored[j]);
            assert(fields_view(entries@) =~= before.update(
                i as int,
                (key@, before[i as int].1 + seq![','] + value@),
            ));
            assert(names(fields_view(entries@)) =~= names(before));
        } else {
            entries.push((key, value));
            assert(fields_view(entries@) =~= before.push((key@, value@)));
            assert(names(fields_view(entries@)) =~= names(before).push(key@));
        }
        self.entries = entries;
    }

    /// The value stored under `name`, compared without regard to case.
    pub fn get(&self, name: &str) -> (r: Option<&str>)
        ensures
            match r {
                Some(v) => lookup(self@, lowercase(name@)) == Some(v@),
                None => lookup(self@, lowercase(name@)) is None,
            },
    {
        let key = to_lowercase(name);
        let i = self.index_of(&key);
        if i < self.entries.len() {
            Some(self.entries[i].1.as_str())
        } else {
            None
        }
    }

    /// True when a value is stored under `name`.
    pub fn contains(&self, name: &str) -> (r: bool)
        ensures
            r == lookup(self@, lowercase(name@)) is Some,
    {
        let key = to_lowercase(name);
        let i = self.index_of(&key);
        i < self.entries.len()
    }

    /// The number of names; no name is stored twice.
    pub fn len(&self) -> (r: usize)
        ensures
            r == self@.len(),
            names(self@).no_duplicates(),
    {
        proof {
            use_type_invariant(self);
        }
        self.entries.len()
    }

    /// True when nothing is stored.
    pub fn is_empty(&self) -> (r: bool)
        ensures
            r == (self@.len() == 0),
    {
        self.entries.len() == 0
    }

    /// The fields in the order in which their names first arrived.
    pub fn iter(&self) -> (r: Vec<(String, String)>)
        ensures
            fields_view(r@) == self@,
    {
        let mut out: Vec<(String, String)> = Vec::new();
        let n = self.entries.len();
        let mut i: usize = 0;
        while i < n
            invariant
                i <= n == self.entries.len(),
                out.len() == i,
                forall|j: int| 0 <= j < i ==> out[j].0@ == self.entries[j].0@ && out[j].1@ == self.entries[j].1@,
            decreases n - i,
        {
            out.push((self.entries[i].0.clone(), self.entries[i].1.clone()));
            i = i + 1;
        }
        assert(fields_view(out@) =~= fields_view(self.entries@));
        out
    }

    /// True when `s` is a header name.
    pub fn is_valid_token(s: &str) -> (r: bool)
        ensures
            r == valid_token(s@),
    {
        let cs = chars_of(s);
        assert(cs@.subrange(0, cs.len() as int) == s@);
        span_is_token(&cs, 0, cs.len())
    }

    /// True when `s` may stand as a header value.
    pub fn is_valid_header_value(s: &str) -> (r: bool)
        ensures
            r == valid_header_value(s@),
    {
        let cs = chars_of(s);
        assert(cs@.subrange(0, cs.len() as int) == s@);
        span_is_value(&cs, 0, cs.len())
    }

    /// Parses one header line, given without its line terminator.
    pub fn parse_header_line(line: &str) -> (r: Result<(String, String), HeaderError>)
        ensures
            match r {
                Ok(f) => parse_header_line_spec(line@) == Ok::<Field, HeaderError>((f.0@, f.1@)),
                Err(e) => parse_header_line_spec(line@) == Err::<Field, HeaderError>(e),
            },
    {
        let cs = chars_of(line);
        assert(cs@.subrange(0, cs.len() as int) == line@);
        parse_span(line, &cs, 0, cs.len())
    }

    /// Stores the given fields in order.
    pub fn insert_all(&mut self, fields: &Vec<(String, String)>)
        ensures
            final(self)@ == fold_in_all(old(self)@, fields_view(fields@)),
    {
        let ghost all = fields_view(fields@);
        let mut k: usize = 0;
        assert(all.skip(0) == all);
        while k < fields.len()
            invariant
                k <= fields.len(),
                all == fields_view(fields@),
                fold_in_all(old(self)@, all) == fold_in_all(self@, all.skip(k as int)),
            decreases fields.len() - k,
        {
            assert(all.skip(k as int).drop_first() == all.skip(k + 1));
            assert(all.skip(k as int)[0] == (fields[k as int].0@, fields[k as int].1@));
            self.insert(fields[k].0.clone(), fields[k].1.clone());
            k = k + 1;
        }
    }

    /// Parses a block of CRLF-separated header lines up to its first empty
    /// line and stores each field. Stops at the first line that does not
    /// parse; the fields before it stay stored.
    pub fn parse_headers(&mut self, lines: &str) -> (r: Result<(), HeaderError>)
        ensures
            final(self)@ == fold_in_all(old(self)@, parsed_fields(block_lines(lines@))),
            match first_error(block_lines(lines@)) {
                Some(e) => r == Err::<(), HeaderError>(e),
                None => r == Ok::<(), HeaderError>(()),
            },
    {
        let cs = chars_of(lines);
        let mut crlf: Vec<char> = Vec::new();
        crlf.push('\r');
        crlf.push('\n');
        assert(crlf@ =~= seq!['\r', '\n']);
        let spans = split_spans(&cs, &crlf);
        assert(spans_of(cs@, spans@).skip(0) == spans_of(cs@, spans@));
        let (fields, error) = parse_fields(lines, &cs, &spans, 0);
        self.insert_all(&fields);
        match error {
            Some(e) => Err(e),
            None => Ok(()),
        }
    }
}

impl Clone for Headers {
    fn clone(&self) -> (r: Headers)
        ensures
            r@ == self@,
    {
        proof {
            use_type_invariant(self);
        }
        Headers { entries: self.iter() }
    }
}

impl Default for Headers {
    fn default() -> (r: Headers)
        ensures
            r@ == Seq::<Field>::empty(),
    {
        Headers::new()
    }
}

} // verus!
