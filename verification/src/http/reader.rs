//! Reading a request from a connection, one step at a time.
//!
//! The reader never touches the connection. It says what it needs next, a
//! line or an exact number of bytes, and is fed what the connection gave.
//! Nothing is asked for beyond the end of the body.

use vstd::prelude::*;
use vstd::utf8::{decode_utf8, valid_utf8};
use super::body::{body_of_length, Body, BodyView};
use super::chunked::{
    decode_chunks, is_line_end, lemma_line_end, line_end, line_is_end, read_size_line, size_line,
    SizeLine,
};
use super::error::{ParseError, ParseErrorView};
use super::framing::Framing;
use super::request::{
    body_of, head_of, request_with, with_body_of, Request, RequestHead, RequestHeadView, RequestView,
};
use super::text::str_from_utf8;

verus! {

/// What the reader needs from the connection.
#[derive(Debug, Clone, Copy, PartialEq, Eq, Structural)]
pub enum Need {
    /// The bytes up to and with the next line feed; all that is left when
    /// the input ends before one; nothing at the end of the input.
    Line,
    /// Exactly this many bytes; fewer only when the input ends.
    Bytes(usize),
}

/// Where the reader stands in the message.
#[derive(Debug)]
pub enum RequestReader {
    /// In the header section; `lines` holds the lines read so far.
    Head { lines: Vec<u8> },
    /// Before the body of a message framed by a length.
    Fixed { head: RequestHead, length: usize },
    /// Before a chunk-size line.
    ChunkSize { head: RequestHead, body: Vec<u8> },
    /// Before the data of a chunk of `size` bytes.
    ChunkData { head: RequestHead, body: Vec<u8>, size: usize },
    /// Before the line terminator that closes a chunk.
    ChunkEnd { head: RequestHead, body: Vec<u8> },
    /// After the chunk of length zero, in the trailer lines.
    Trailers { head: RequestHead, body: Vec<u8> },
}

/// `RequestReader` as the proofs see it.
pub enum RequestReaderView {
    Head { lines: Seq<u8> },
    Fixed { head: RequestHeadView, length: usize },
    ChunkSize { head: RequestHeadView, body: Seq<u8> },
    ChunkData { head: RequestHeadView, body: Seq<u8>, size: usize },
    ChunkEnd { head: RequestHeadView, body: Seq<u8> },
    Trailers { head: RequestHeadView, body: Seq<u8> },
}

impl View for RequestReader {
    type V = RequestReaderView;

    open spec fn view(&self) -> RequestReaderView {
        match self {
            RequestReader::Head { lines } => RequestReaderView::Head { lines: lines@ },
            RequestReader::Fixed { head, length } => RequestReaderView::Fixed {
                head: head@,
                length: *length,
            },
            RequestReader::ChunkSize { head, body } => RequestReaderView::ChunkSize {
                head: head@,
                body: body@,
            },
            RequestReader::ChunkData { head, body, size } => RequestReaderView::ChunkData {
                head: head@,
                body: body@,
                size: *size,
            },
            RequestReader::ChunkEnd { head, body } => RequestReaderView::ChunkEnd {
                head: head@,
                body: body@,
            },
            RequestReader::Trailers { head, body } => RequestReaderView::Trailers {
                head: head@,
                body: body@,
            },
        }
    }
}

/// What comes of feeding the reader: it goes on, or the message is over.
#[derive(Debug)]
pub enum Progress {
    More(RequestReader),
    Done(Result<Request, ParseError>),
}

/// `Progress` as the proofs see it.
pub enum ProgressView {
    More(RequestReaderView),
    Done(Result<RequestView, ParseErrorView>),
}

impl View for Progress {
    type V = ProgressView;

    open spec fn view(&self) -> ProgressView {
        match self {
            Progress::More(reader) => ProgressView::More(reader@),
            Progress::Done(Ok(request)) => ProgressView::Done(Ok(request@)),
            Progress::Done(Err(e)) => ProgressView::Done(Err(e@)),
        }
    }
}

/// The body made of the data of all chunks: `Empty` when there is none.
pub open spec fn chunked_body(data: Seq<u8>) -> BodyView {
    if data.len() == 0 {
        BodyView::Empty
    } else {
        BodyView::Content(data)
    }
}

/// What the reader needs in each state.
pub open spec fn need_of(reader: RequestReaderView) -> Need {
    match reader {
        RequestReaderView::Head { .. } => Need::Line,
        RequestReaderView::Fixed { length, .. } => Need::Bytes(length),
        RequestReaderView::ChunkSize { .. } => Need::Line,
        RequestReaderView::ChunkData { size, .. } => Need::Bytes(size),
        RequestReaderView::ChunkEnd { .. } => Need::Line,
        RequestReaderView::Trailers { .. } => Need::Line,
    }
}

/// Where the reader goes once the header section `lines` is complete: the
/// message is over when the section is refused or calls for no body, else
/// the body is read as its framing says.
pub open spec fn after_head(lines: Seq<u8>) -> ProgressView {
    if !valid_utf8(lines) {
        ProgressView::Done(Err(ParseErrorView::InvalidEncoding))
    } else {
        match head_of(decode_utf8(lines)) {
            Err(e) => ProgressView::Done(Err(e)),
            Ok(head) => match head.framing {
                Framing::NoBody => ProgressView::Done(Ok(request_with(head, BodyView::Empty))),
                Framing::Length(length) => ProgressView::More(
                    RequestReaderView::Fixed { head, length },
                ),
                Framing::Chunked => ProgressView::More(
                    RequestReaderView::ChunkSize { head, body: Seq::empty() },
                ),
            },
        }
    }
}

/// The step that the reader takes when it is fed `input`, which is what the
/// connection gave for what the reader needed.
pub open spec fn step(reader: RequestReaderView, input: Seq<u8>) -> ProgressView {
    match reader {
        RequestReaderView::Head { lines } => {
            if input.len() == 0 || is_line_end(input) {
                after_head(lines)
            } else {
                ProgressView::More(RequestReaderView::Head { lines: lines + input })
            }
        },
        RequestReaderView::Fixed { head, length } => match body_of_length(input, length) {
            Ok(body) => ProgressView::Done(Ok(request_with(head, body))),
            Err(e) => ProgressView::Done(Err(ParseErrorView::Body(e))),
        },
        RequestReaderView::ChunkSize { head, body } => {
            if input.len() == 0 {
                ProgressView::Done(Err(ParseErrorView::InvalidChunkFormat))
            } else {
                match size_line(input) {
                    SizeLine::Malformed => ProgressView::Done(
                        Err(ParseErrorView::InvalidChunkFormat),
                    ),
                    SizeLine::Blank => ProgressView::More(
                        RequestReaderView::ChunkSize { head, body },
                    ),
                    SizeLine::Size(size) => if size == 0 {
                        ProgressView::More(RequestReaderView::Trailers { head, body })
                    } else {
                        ProgressView::More(RequestReaderView::ChunkData { head, body, size })
                    },
                }
            }
        },
        RequestReaderView::ChunkData { head, body, size } => {
            if input.len() == size {
                ProgressView::More(RequestReaderView::ChunkEnd { head, body: body + input })
            } else {
                ProgressView::Done(Err(ParseErrorView::InvalidChunkFormat))
            }
        },
        RequestReaderView::ChunkEnd { head, body } => {
            if is_line_end(input) {
                ProgressView::More(RequestReaderView::ChunkSize { head, body })
            } else {
                ProgressView::Done(Err(ParseErrorView::InvalidChunkFormat))
            }
        },
        RequestReaderView::Trailers { head, body } => {
            if input.len() == 0 || is_line_end(input) {
                ProgressView::Done(Ok(request_with(head, chunked_body(body))))
            } else {
                ProgressView::More(RequestReaderView::Trailers { head, body })
            }
        },
    }
}

/// What a connection that holds `buf`, read up to index `i`, gives when it
/// is asked for `need`.
pub open spec fn supply(buf: Seq<u8>, i: int, need: Need) -> Seq<u8> {
    match need {
        Need::Line => buf.subrange(i, line_end(buf, i)),
        Need::Bytes(n) => buf.subrange(
            i,
            if i + n <= buf.len() {
                i + n
            } else {
                buf.len() as int
            },
        ),
    }
}

/// How many steps a reader can take at most without consuming input.
pub open spec fn idle_steps(reader: RequestReaderView) -> nat {
    match reader {
        RequestReaderView::Head { .. } => 2,
        RequestReaderView::ChunkData { .. } => 1,
        _ => 0,
    }
}

/// The outcome of reading, step by step, from a connection that holds
/// `buf` and has been read up to index `i`.
pub open spec fn read_all(reader: RequestReaderView, buf: Seq<u8>, i: int) -> Result<
    RequestView,
    ParseErrorView,
>
    recommends
        0 <= i <= buf.len(),
    decreases buf.len() - i, idle_steps(reader),
{
    if 0 <= i <= buf.len() {
        let input = supply(buf, i, need_of(reader));
        proof {
            lemma_line_end(buf, i);
        }
        match step(reader, input) {
            ProgressView::Done(outcome) => outcome,
            ProgressView::More(next) => read_all(next, buf, i + input.len()),
        }
    } else {
        Err(ParseErrorView::IncompleteRequest)
    }
}

/// Once the chunk of length zero has come, the reading ends well whatever
/// the trailer lines hold.
pub proof fn lemma_trailers_are_dropped(
    head: RequestHeadView,
    body: Seq<u8>,
    buf: Seq<u8>,
    i: int,
)
    requires
        0 <= i <= buf.len(),
    ensures
        read_all(RequestReaderView::Trailers { head, body }, buf, i) == Ok::<
            RequestView,
            ParseErrorView,
        >(request_with(head, chunked_body(body))),
    decreases buf.len() - i,
{
    lemma_line_end(buf, i);
    if i < buf.len() {
        lemma_trailers_are_dropped(head, body, buf, line_end(buf, i));
    }
}

/// Read step by step, a chunked body is the body that its chunks carry:
/// the reader and the decoder of whole buffers agree.
pub proof fn lemma_reader_decodes_chunks(
    head: RequestHeadView,
    body: Seq<u8>,
    buf: Seq<u8>,
    i: int,
)
    requires
        0 <= i <= buf.len(),
    ensures
        read_all(RequestReaderView::ChunkSize { head, body }, buf, i) == match decode_chunks(
            buf,
            i,
        ) {
            Some(rest) => Ok::<RequestView, ParseErrorView>(
                request_with(head, chunked_body(body + rest)),
            ),
            None => Err::<RequestView, ParseErrorView>(ParseErrorView::InvalidChunkFormat),
        },
    decreases buf.len() - i,
{
    lemma_line_end(buf, i);
    let start = RequestReaderView::ChunkSize { head, body };
    let failed = Err::<RequestView, ParseErrorView>(ParseErrorView::InvalidChunkFormat);
    if i < buf.len() {
        let e = line_end(buf, i);
        let line = buf.subrange(i, e);
        assert(supply(buf, i, need_of(start)) == line);
        assert(line.len() == e - i);
        match size_line(line) {
            SizeLine::Malformed => {
                assert(read_all(start, buf, i) == failed);
            },
            SizeLine::Blank => {
                lemma_reader_decodes_chunks(head, body, buf, e);
                assert(read_all(start, buf, i) == read_all(start, buf, e));
            },
            SizeLine::Size(size) => {
                if size == 0 {
                    lemma_trailers_are_dropped(head, body, buf, e);
                    assert(body + Seq::<u8>::empty() =~= body);
                    assert(read_all(start, buf, i) == read_all(
                        RequestReaderView::Trailers { head, body },
                        buf,
                        e,
                    ));
                } else {
                    let filled = RequestReaderView::ChunkData { head, body, size };
                    assert(step(start, line) == ProgressView::More(filled));
                    assert(read_all(start, buf, i) == read_all(filled, buf, e));
                    let data = supply(buf, e, need_of(filled));
                    if e + size <= buf.len() {
                        let data_end = e + size;
                        let closing = RequestReaderView::ChunkEnd { head, body: body + data };
                        lemma_line_end(buf, data_end);
                        let t = line_end(buf, data_end);
                        let end = buf.subrange(data_end, t);
                        assert(data == buf.subrange(e, data_end));
                        assert(step(filled, data) == ProgressView::More(closing));
                        assert(read_all(filled, buf, e) == read_all(closing, buf, data_end));
                        assert(supply(buf, data_end, need_of(closing)) == end);
                        if is_line_end(end) {
                            let next = RequestReaderView::ChunkSize { head, body: body + data };
                            assert(step(closing, end) == ProgressView::More(next));
                            assert(end.len() == t - data_end);
                            assert(read_all(closing, buf, data_end) == read_all(next, buf, t));
                            lemma_reader_decodes_chunks(head, body + data, buf, t);
                            if decode_chunks(buf, t) is Some {
                                let rest = decode_chunks(buf, t)->0;
                                assert((body + data) + rest =~= body + (data + rest));
                            }
                        } else {
                            assert(read_all(closing, buf, data_end) == failed);
                        }
                    } else {
                        assert(data.len() < size);
                        assert(read_all(filled, buf, e) == failed);
                    }
                }
            },
        }
    } else {
        assert(supply(buf, i, need_of(start)).len() == 0);
        assert(read_all(start, buf, i) == failed);
    }
}

/// Read step by step from a connection that holds the bytes after the
/// header section, the body is the one that the framing cuts from those
/// bytes when they are at hand as a whole.
pub proof fn lemma_reader_reads_the_framed_body(head: RequestHeadView, wire: Seq<u8>)
    ensures
        head.framing matches Framing::Length(length) ==> read_all(
            RequestReaderView::Fixed { head, length },
            wire,
            0,
        ) == with_body_of(head, wire),
        head.framing == Framing::Chunked ==> read_all(
            RequestReaderView::ChunkSize { head, body: Seq::empty() },
            wire,
            0,
        ) == with_body_of(head, wire),
{
    match head.framing {
        Framing::Length(length) => {
            let input = supply(wire, 0, Need::Bytes(length));
            if wire.len() >= length {
                assert(input.take(length as int) =~= wire.take(length as int));
            } else {
                assert(input =~= wire);
            }
        },
        Framing::Chunked => {
            lemma_reader_decodes_chunks(head, Seq::empty(), wire, 0);
            if decode_chunks(wire, 0) is Some {
                assert(Seq::<u8>::empty() + decode_chunks(wire, 0)->0 =~= decode_chunks(wire, 0)->0);
            }
        },
        Framing::NoBody => {},
    }
}

/// A header section that is refused ends the reading at once: no byte of
/// a body is asked for.
pub proof fn lemma_refused_head_ends_reading(lines: Seq<u8>, input: Seq<u8>)
    requires
        input.len() == 0 || is_line_end(input),
        !valid_utf8(lines) || head_of(decode_utf8(lines)) is Err,
    ensures
        step(RequestReaderView::Head { lines }, input) matches ProgressView::Done(Err(_)),
{
}

/// Data that falls short of a chunk's length ends the message in an error.
pub proof fn lemma_short_chunk_fails(head: RequestHeadView, body: Seq<u8>, size: usize, input: Seq<u8>)
    requires
        input.len() < size,
    ensures
        step(RequestReaderView::ChunkData { head, body, size }, input) == ProgressView::Done(
            Err(ParseErrorView::InvalidChunkFormat),
        ),
{
}

/// Chunk data that is not followed by a line terminator ends the message
/// in an error.
pub proof fn lemma_unclosed_chunk_fails(head: RequestHeadView, body: Seq<u8>, input: Seq<u8>)
    requires
        !is_line_end(input),
    ensures
        step(RequestReaderView::ChunkEnd { head, body }, input) == ProgressView::Done(
            Err(ParseErrorView::InvalidChunkFormat),
        ),
{
}

fn extend(buf: &mut Vec<u8>, more: &[u8])
    ensures
        final(buf)@ == old(buf)@ + more@,
{
    let mut k: usize = 0;
    assert(more@.take(0) =~= Seq::<u8>::empty());
    assert(buf@ + more@.take(0) =~= buf@);
    while k < more.len()
        invariant
            k <= more@.len(),
            buf@ == old(buf)@ + more@.take(k as int),
        decreases more.len() - k,
    {
        buf.push(more[k]);
        assert(buf@ =~= old(buf)@ + more@.take(k + 1));
        k = k + 1;
    }
    assert(more@.take(k as int) == more@);
}

fn finish_head(lines: &Vec<u8>) -> (r: Progress)
    ensures
        r@ == after_head(lines@),
{
    let section = match str_from_utf8(lines.as_slice()) {
        Ok(s) => s,
        Err(e) => {
            return Progress::Done(Err(ParseError::InvalidEncoding(e)));
        },
    };
    let head = match RequestHead::parse(section) {
        Ok(h) => h,
        Err(e) => {
            return Progress::Done(Err(e));
        },
    };
    match head.framing {
        Framing::NoBody => Progress::Done(Ok(head.with_body(Body::Empty))),
        Framing::Length(length) => Progress::More(RequestReader::Fixed { head, length }),
        Framing::Chunked => Progress::More(RequestReader::ChunkSize { head, body: Vec::new() }),
    }
}

impl RequestReader {
    /// The reader at the start of a message.
    pub fn new() -> (r: RequestReader)
        ensures
            r@ == (RequestReaderView::Head { lines: Seq::empty() }),
    {
        RequestReader::Head { lines: Vec::new() }
    }

    /// What the connection must give next.
    pub fn need(&self) -> (r: Need)
        ensures
            r == need_of(self@),
    {
        match self {
            RequestReader::Head { .. } => Need::Line,
            RequestReader::Fixed { length, .. } => Need::Bytes(*length),
            RequestReader::ChunkSize { .. } => Need::Line,
            RequestReader::ChunkData { size, .. } => Need::Bytes(*size),
            RequestReader::ChunkEnd { .. } => Need::Line,
            RequestReader::Trailers { .. } => Need::Line,
        }
    }

    /// Takes what the connection gave and says how the reading goes on.
    pub fn feed(self, input: &[u8]) -> (r: Progress)
        ensures
            r@ == step(self@, input@),
    {
        match self {
            RequestReader::Head { lines } => {
                if input.len() == 0 || line_is_end(input) {
                    finish_head(&lines)
                } else {
                    let mut lines = lines;
                    extend(&mut lines, input);
                    Progress::More(RequestReader::Head { lines })
                }
            },
            RequestReader::Fixed { head, length } => {
                match Body::from_content_length(input, length) {
                    Ok(body) => Progress::Done(Ok(head.with_body(body))),
                    Err(e) => Progress::Done(Err(ParseError::Body(e))),
                }
            },
            RequestReader::ChunkSize { head, body } => {
                if input.len() == 0 {
                    return Progress::Done(Err(ParseError::InvalidChunkFormat));
                }
                match read_size_line(input) {
                    SizeLine::Malformed => Progress::Done(Err(ParseError::InvalidChunkFormat)),
                    SizeLine::Blank => Progress::More(RequestReader::ChunkSize { head, body }),
                    SizeLine::Size(size) => if size == 0 {
                        Progress::More(RequestReader::Trailers { head, body })
                    } else {
                        Progress::More(RequestReader::ChunkData { head, body, size })
                    },
                }
            },
            RequestReader::ChunkData { head, body, size } => {
                if input.len() == size {
                    let mut body = body;
                    extend(&mut body, input);
                    Progress::More(RequestReader::ChunkEnd { head, body })
                } else {
                    Progress::Done(Err(ParseError::InvalidChunkFormat))
                }
            },
            RequestReader::ChunkEnd { head, body } => {
                if line_is_end(input) {
                    Progress::More(RequestReader::ChunkSize { head, body })
                } else {
                    Progress::Done(Err(ParseError::InvalidChunkFormat))
                }
            },
            RequestReader::Trailers { head, body } => {
                if input.len() == 0 || line_is_end(input) {
                    let body = if body.len() == 0 {
                        Body::Empty
                    } else {
                        Body::Content(body)
                    };
                    Progress::Done(Ok(head.with_body(body)))
                } else {
                    Progress::More(RequestReader::Trailers { head, body })
                }
            },
        }
    }
}

} // verus!
