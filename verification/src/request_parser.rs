//! Reading one request from a stream of bytes: the header block ends at the
//! first blank line, its first line names method, target and version, the
//! lines after it are header fields, and `Content-Length` says how many
//! bytes of body follow.

use vstd::prelude::*;
use vstd::utf8::{decode_utf8, valid_utf8};
use crate::http_header::{Fields, HttpHeader, lookup, store};
use crate::http_request::{HttpMethod, HttpRequest, HttpVersion, RequestView};
use crate::numeral::{parse_u32, read_u32};
use crate::text::{
    chars_of, decode, find, find_in, lemma_find_from, lowercase_of, split, split_on, string_of,
    trim, trimmed,
};

verus! {

/// Why a stream did not yield a request.
#[derive(PartialEq, Eq, Clone, Copy, Debug, Structural)]
pub enum ParseFailure {
    /// The stream ended after some bytes but before the blank line that
    /// ends the header block.
    IncompleteHeader,
    /// The request line is not three words separated by single spaces.
    MalformedRequestLine,
    /// The header block is not UTF-8.
    InvalidUtf8,
    /// The value of `Content-Length` is not a decimal number of 32 bits.
    InvalidContentLength,
    /// The stream ended before the announced body was complete.
    IncompleteBody,
}

/// What the request line and the header fields say.
pub struct HeadView {
    pub http_version: HttpVersion,
    pub method: HttpMethod,
    pub url: Seq<char>,
    pub header: Fields,
    pub content_length: nat,
}

/// Whether the bytes end with an empty line: CR LF CR LF.
pub open spec fn ends_with_blank_line(bytes: Seq<u8>) -> bool {
    let n = bytes.len() as int;
    &&& n >= 4
    &&& bytes[n - 4] == 13
    &&& bytes[n - 3] == 10
    &&& bytes[n - 2] == 13
    &&& bytes[n - 1] == 10
}

/// The length of the header block: the shortest start of the bytes that
/// ends with an empty line, if there is one.
pub open spec fn header_end(bytes: Seq<u8>) -> Option<int>
    decreases bytes.len(),
{
    if bytes.len() == 0 {
        None
    } else {
        match header_end(bytes.drop_last()) {
            Some(n) => Some(n),
            None => if ends_with_blank_line(bytes) {
                Some(bytes.len() as int)
            } else {
                None
            },
        }
    }
}

/// The line break of the protocol.
pub open spec fn crlf() -> Seq<char> {
    seq!['\r', '\n']
}

/// The header fields after one more line: a line with a colon sets the
/// name before the first colon to the value after it, both without the
/// white space around them; a line without a colon changes nothing.
pub open spec fn apply_line(fields: Fields, line: Seq<char>) -> Fields {
    match find(line, seq![':']) {
        None => fields,
        Some(i) => store(fields, lowercase_of(trim(line.take(i))), trim(line.skip(i + 1))),
    }
}

/// The header fields that the lines set, taken in order.
pub open spec fn fields_from_lines(lines: Seq<Seq<char>>) -> Fields
    decreases lines.len(),
{
    if lines.len() == 0 {
        Seq::empty()
    } else {
        apply_line(fields_from_lines(lines.drop_last()), lines.last())
    }
}

/// The body length that the fields announce: zero without a value under
/// `Content-Length`, else the number that the value writes, if it is one.
pub open spec fn declared_length(fields: Fields) -> Option<u32> {
    let value = lookup(fields, lowercase_of("content-length"@));
    if value.len() == 0 {
        Some(0)
    } else {
        parse_u32(value)
    }
}

/// The words of the request line: the first line, split at each space.
pub open spec fn request_line_words(text: Seq<char>) -> Seq<Seq<char>> {
    split(split(text, crlf())[0], seq![' '])
}

/// What a header block says, once it is decoded to text.
pub open spec fn parse_head_text(text: Seq<char>) -> Result<HeadView, ParseFailure> {
    let lines = split(text, crlf());
    let words = request_line_words(text);
    let fields = fields_from_lines(lines.skip(1));
    if words.len() != 3 {
        Err(ParseFailure::MalformedRequestLine)
    } else {
        match declared_length(fields) {
            None => Err(ParseFailure::InvalidContentLength),
            Some(n) => Ok(
                HeadView {
                    http_version: HttpVersion::parse(words[2]),
                    method: HttpMethod::parse(words[0]),
                    url: words[1],
                    header: fields,
                    content_length: n as nat,
                },
            ),
        }
    }
}

/// What the bytes of a header block say.
pub open spec fn parse_head(bytes: Seq<u8>) -> Result<HeadView, ParseFailure> {
    if !valid_utf8(bytes) {
        Err(ParseFailure::InvalidUtf8)
    } else {
        parse_head_text(decode_utf8(bytes))
    }
}

/// The request that a head and a body make.
pub open spec fn request_of(head: HeadView, body: Seq<u8>) -> RequestView {
    RequestView {
        http_version: head.http_version,
        method: head.method,
        url: head.url,
        header: head.header,
        body,
    }
}

/// How far the bytes read so far have brought a request.
pub enum Progress {
    /// More bytes are needed.
    NeedMore,
    /// The request is complete.
    Done(RequestView),
    /// The bytes are no request.
    Failed(ParseFailure),
}

/// How far the given bytes bring a request. Bytes after a complete request
/// or after a failure change nothing.
pub open spec fn progress(bytes: Seq<u8>) -> Progress {
    match header_end(bytes) {
        None => Progress::NeedMore,
        Some(n) => match parse_head(bytes.take(n)) {
            Err(e) => Progress::Failed(e),
            Ok(head) => if bytes.len() >= n + head.content_length {
                Progress::Done(request_of(head, bytes.subrange(n, n + head.content_length)))
            } else {
                Progress::NeedMore
            },
        },
    }
}

/// How many of the bytes a reader takes that reads one byte at a time and
/// stops as soon as the request is complete or has failed.
pub open spec fn consumed_of(bytes: Seq<u8>) -> int {
    match header_end(bytes) {
        None => bytes.len() as int,
        Some(n) => match parse_head(bytes.take(n)) {
            Err(_) => n,
            Ok(head) => if bytes.len() >= n + head.content_length {
                n + head.content_length as int
            } else {
                bytes.len() as int
            },
        },
    }
}

/// What reading yields when the stream holds exactly these bytes and then
/// ends: a request, nothing where the peer sent nothing, or a failure.
pub open spec fn outcome(bytes: Seq<u8>) -> Result<Option<RequestView>, ParseFailure> {
    match progress(bytes) {
        Progress::Done(request) => Ok(Some(request)),
        Progress::Failed(e) => Err(e),
        Progress::NeedMore => if bytes.len() == 0 {
            Ok(None)
        } else if header_end(bytes) is None {
            Err(ParseFailure::IncompleteHeader)
        } else {
            Err(ParseFailure::IncompleteBody)
        },
    }
}

/// Whether a result of parsing is the one that the model gives.
pub open spec fn agrees(
    result: Result<Option<HttpRequest>, ParseFailure>,
    model: Result<Option<RequestView>, ParseFailure>,
) -> bool {
    match (result, model) {
        (Ok(Some(request)), Ok(Some(view))) => request@ == view,
        (Ok(None), Ok(None)) => true,
        (Err(e), Err(f)) => e == f,
        _ => false,
    }
}

fn set_field(header: &mut HttpHeader, line: &[char])
    ensures
        final(header)@ == apply_line(old(header)@, line@),
{
    let colon: [char; 1] = [':'];
    proof {
        lemma_find_from(line@, colon@, 0);
    }
    assert(colon@ =~= seq![':']);
    match find_in(line, colon.as_slice(), 0) {
        None => {},
        Some(i) => {
            let end = line.len();
            let name = string_of(trimmed(vstd::slice::slice_subrange(line, 0, i)));
            let value = string_of(trimmed(vstd::slice::slice_subrange(line, i + 1, end)));
            header.set(name.as_str(), value.as_str());
        },
    }
}

fn read_head(bytes: &[u8]) -> (r: Result<(HttpRequest, u32), ParseFailure>)
    ensures
        match r {
            Ok((request, length)) => parse_head(bytes@) matches Ok(head) && request@ == request_of(
                head,
                Seq::empty(),
            ) && length == head.content_length,
            Err(e) => parse_head(bytes@) == Err::<HeadView, ParseFailure>(e),
        },
{
    let text = match decode(vstd::slice::slice_to_vec(bytes)) {
        None => {
            return Err(ParseFailure::InvalidUtf8);
        },
        Some(text) => text,
    };
    let chars = chars_of(text.as_str());
    let line_break: [char; 2] = ['\r', '\n'];
    let space: [char; 1] = [' '];
    assert(space@ =~= seq![' ']);
    let lines = split_on(chars.as_slice(), line_break.as_slice());
    let ghost all = split(chars@, crlf());
    let words = split_on(lines[0], space.as_slice());
    if words.len() != 3 {
        return Err(ParseFailure::MalformedRequestLine);
    }
    let method = HttpMethod::from_str(string_of(words[0]).as_str());
    let url = string_of(words[1]);
    let http_version = HttpVersion::from_str(string_of(words[2]).as_str());
    let mut header = HttpHeader::new();
    let mut i: usize = 1;
    while i < lines.len()
        invariant
            1 <= i <= lines.len(),
            all == crate::text::pieces(lines@),
            header@ == fields_from_lines(all.skip(1).take(i - 1)),
        decreases lines.len() - i,
    {
        set_field(&mut header, lines[i]);
        assert(all.skip(1).take(i as int).drop_last() =~= all.skip(1).take(i - 1));
        i += 1;
    }
    assert(all.skip(1).take(lines.len() - 1) =~= all.skip(1));
    let declared = header.get("content-length");
    let length: u32 = if declared.is_empty() {
        0
    } else {
        let digits = chars_of(declared);
        match read_u32(digits.as_slice()) {
            None => {
                return Err(ParseFailure::InvalidContentLength);
            },
            Some(n) => n,
        }
    };
    Ok((HttpRequest { http_version, method, url, header, body: Vec::new() }, length))
}

/// A header block found in some bytes is at least four bytes long, lies
/// within them, and is the header block of every start of the bytes that
/// holds it.
pub proof fn lemma_header_end_bounds(bytes: Seq<u8>)
    ensures
        header_end(bytes) matches Some(n) ==> 4 <= n <= bytes.len() && ends_with_blank_line(
            bytes.take(n),
        ) && header_end(bytes.take(n)) == Some(n),
    decreases bytes.len(),
{
    if bytes.len() > 0 {
        lemma_header_end_bounds(bytes.drop_last());
        match header_end(bytes.drop_last()) {
            Some(n) => {
                assert(bytes.drop_last().take(n) == bytes.take(n));
            },
            None => {
                assert(bytes.take(bytes.len() as int) == bytes);
            },
        }
    }
}

/// The header block ends at the first empty line: no shorter start of the
/// bytes ends with one.
pub proof fn lemma_header_end_is_first(bytes: Seq<u8>, m: int)
    requires
        0 <= m <= bytes.len(),
        ends_with_blank_line(bytes.take(m)),
    ensures
        header_end(bytes) matches Some(n) && n <= m,
    decreases bytes.len(),
{
    if m == bytes.len() {
        lemma_header_end_bounds(bytes.drop_last());
    } else {
        lemma_header_end_is_first(bytes.drop_last(), m);
    }
}

/// Bytes that follow a header block do not move its end.
pub proof fn lemma_header_end_stable(head: Seq<u8>, rest: Seq<u8>)
    requires
        header_end(head) is Some,
    ensures
        header_end(head + rest) == header_end(head),
    decreases rest.len(),
{
    if rest.len() == 0 {
        assert(head + rest == head);
    } else {
        lemma_header_end_stable(head, rest.drop_last());
        assert((head + rest).drop_last() == head + rest.drop_last());
    }
}

/// Where the bytes start with a whole header block, the block alone says
/// what the bytes yield: the failure of the block, or a request whose body
/// is the announced number of bytes after the block, once they are there.
pub proof fn lemma_progress_after_head(head: Seq<u8>, rest: Seq<u8>)
    requires
        header_end(head) == Some(head.len() as int),
    ensures
        header_end(head + rest) == Some(head.len() as int),
        progress(head + rest) == match parse_head(head) {
            Err(e) => Progress::Failed(e),
            Ok(h) => if rest.len() >= h.content_length {
                Progress::Done(request_of(h, rest.take(h.content_length as int)))
            } else {
                Progress::NeedMore
            },
        },
        consumed_of(head + rest) == match parse_head(head) {
            Err(e) => head.len() as int,
            Ok(h) => if rest.len() >= h.content_length {
                (head.len() + h.content_length) as int
            } else {
                (head.len() + rest.len()) as int
            },
        },
{
    lemma_header_end_stable(head, rest);
    let n = head.len() as int;
    assert((head + rest).take(n) == head);
    match parse_head(head) {
        Err(e) => {},
        Ok(h) => {
            if rest.len() >= h.content_length {
                assert((head + rest).subrange(n, n + h.content_length) == rest.take(
                    h.content_length as int,
                ));
            }
        },
    }
}

/// A request whose header block announces `n` bytes of body and which is
/// followed by exactly `n` bytes is read whole, and its body is those
/// bytes.
pub proof fn lemma_body_is_read_exactly(head: Seq<u8>, body: Seq<u8>)
    requires
        header_end(head) == Some(head.len() as int),
        parse_head(head) matches Ok(h) && h.content_length == body.len(),
    ensures
        outcome(head + body) matches Ok(Some(request)) && request.body == body,
        consumed_of(head + body) == head.len() + body.len(),
{
    lemma_progress_after_head(head, body);
}

/// Whatever follows a whole request on the stream, the request is the same,
/// and the reader stops at its end: the next request starts with the next
/// byte.
pub proof fn lemma_next_request_starts_after_body(head: Seq<u8>, body: Seq<u8>, next: Seq<u8>)
    requires
        header_end(head) == Some(head.len() as int),
        parse_head(head) matches Ok(h) && h.content_length == body.len(),
    ensures
        outcome(head + body + next) == outcome(head + body),
        consumed_of(head + body + next) == head.len() + body.len(),
{
    lemma_progress_after_head(head, body);
    lemma_progress_after_head(head, body + next);
    assert(head + body + next == head + (body + next));
    assert((body + next).take(body.len() as int) == body);
    assert(body.take(body.len() as int) == body);
}

/// A header block whose request line is not three words fails as a
/// malformed request line, whatever follows it, and the reader stops at
/// the end of the block: no byte of a body is read.
pub proof fn lemma_bad_request_line_reads_no_body(head: Seq<u8>, rest: Seq<u8>)
    requires
        header_end(head) == Some(head.len() as int),
        valid_utf8(head),
        request_line_words(decode_utf8(head)).len() != 3,
    ensures
        outcome(head + rest) == Err::<Option<RequestView>, ParseFailure>(
            ParseFailure::MalformedRequestLine,
        ),
        consumed_of(head + rest) == head.len(),
{
    lemma_progress_after_head(head, rest);
}

/// A stream that ends before it held a single byte yields no request and
/// no failure.
pub proof fn lemma_empty_stream_yields_nothing()
    ensures
        outcome(Seq::<u8>::empty()) == Ok::<Option<RequestView>, ParseFailure>(None),
        consumed_of(Seq::<u8>::empty()) == 0,
{
}

/// Reads one request, one byte at a time.
pub struct RequestParser {
    head: Vec<u8>,
    request: Option<HttpRequest>,
    expected: u32,
    failure: Option<ParseFailure>,
}

fn blank_line_at_end(bytes: &Vec<u8>) -> (r: bool)
    ensures
        r == ends_with_blank_line(bytes@),
{
    let n = bytes.len();
    n >= 4 && bytes[n - 4] == 13 && bytes[n - 3] == 10 && bytes[n - 2] == 13 && bytes[n - 1] == 10
}

impl RequestParser {
    #[verifier::type_invariant]
    spec fn well_formed(&self) -> bool {
        match header_end(self.head@) {
            None => self.request is None && self.failure is None,
            Some(n) => n == self.head@.len() && match parse_head(self.head@) {
                Err(e) => self.failure == Some(e) && self.request is None,
                Ok(head) => {
                    &&& self.failure is None
                    &&& self.request matches Some(request)
                    &&& request@ == request_of(head, request.body@)
                    &&& self.expected == head.content_length
                    &&& request.body@.len() <= self.expected
                },
            },
        }
    }

    spec fn body_so_far(&self) -> Seq<u8> {
        match self.request {
            Some(request) => request.body@,
            None => Seq::empty(),
        }
    }

    /// The bytes that the parser has taken so far.
    pub closed spec fn consumed(&self) -> Seq<u8> {
        self.head@ + self.body_so_far()
    }

    /// A parser that has read nothing.
    pub fn new() -> (parser: RequestParser)
        ensures
            parser.consumed() == Seq::<u8>::empty(),
    {
        RequestParser { head: Vec::new(), request: None, expected: 0, failure: None }
    }

    /// Whether the parser still needs bytes.
    pub fn needs_more(&self) -> (more: bool)
        ensures
            more == (progress(self.consumed()) is NeedMore),
    {
        proof {
            use_type_invariant(self);
            if header_end(self.head@) is Some {
                let body = self.body_so_far();
                lemma_progress_after_head(self.head@, body);
            }
        }
        match &self.request {
            Some(request) => request.body.len() < self.expected as usize,
            None => self.failure.is_none(),
        }
    }

    /// Takes the next byte of the stream. A parser that needs no more
    /// bytes leaves the byte alone. Returns whether more bytes are needed.
    pub fn feed(&mut self, byte: u8) -> (more: bool)
        ensures
            final(self).consumed() == if progress(old(self).consumed()) is NeedMore {
                old(self).consumed().push(byte)
            } else {
                old(self).consumed()
            },
            more == (progress(final(self).consumed()) is NeedMore),
    {
        if !self.needs_more() {
            return false;
        }
        proof {
            use_type_invariant(&*self);
        }
        let mut current = RequestParser::new();
        core::mem::swap(self, &mut current);
        let RequestParser { mut head, request, expected, failure } = current;
        match request {
            Some(mut request) => {
                let ghost body = request.body@;
                proof {
                    lemma_progress_after_head(head@, body);
                    lemma_progress_after_head(head@, body.push(byte));
                }
                request.body.push(byte);
                let more = request.body.len() < expected as usize;
                *self = RequestParser { head, request: Some(request), expected, failure };
                more
            },
            None => {
                let ghost before = head@;
                proof {
                    if header_end(before) is Some {
                        lemma_progress_after_head(before, Seq::empty());
                    }
                }
                head.push(byte);
                assert(head@.drop_last() == before);
                if blank_line_at_end(&head) {
                    proof {
                        lemma_progress_after_head(head@, Seq::empty());
                    }
                    match read_head(head.as_slice()) {
                        Ok((request, length)) => {
                            *self = RequestParser {
                                head,
                                request: Some(request),
                                expected: length,
                                failure: None,
                            };
                            length > 0
                        },
                        Err(e) => {
                            *self = RequestParser {
                                head,
                                request: None,
                                expected: 0,
                                failure: Some(e),
                            };
                            false
                        },
                    }
                } else {
                    *self = RequestParser { head, request: None, expected: 0, failure: None };
                    true
                }
            },
        }
    }

    /// Ends the reading: the stream is at its end, or the parser needs no
    /// more bytes. Gives the request, or nothing where not one byte came,
    /// or the reason why the bytes are no request.
    pub fn finish(self) -> (r: Result<Option<HttpRequest>, ParseFailure>)
        ensures
            agrees(r, outcome(self.consumed())),
    {
        proof {
            use_type_invariant(&self);
            if header_end(self.head@) is Some {
                let body = self.body_so_far();
                lemma_progress_after_head(self.head@, body);
                assert(body.take(body.len() as int) == body);
            }
        }
        let RequestParser { head, request, expected, failure } = self;
        match request {
            Some(request) => {
                if request.body.len() < expected as usize {
                    Err(ParseFailure::IncompleteBody)
                } else {
                    Ok(Some(request))
                }
            },
            None => match failure {
                Some(e) => Err(e),
                None => if head.len() == 0 {
                    Ok(None)
                } else {
                    Err(ParseFailure::IncompleteHeader)
                },
            },
        }
    }
}

/// A reader that stops at the first start of the bytes that is a whole
/// request or a failure has then read `consumed_of` bytes, and what it
/// has is what all the bytes yield.
pub proof fn lemma_stops_at_first_answer(bytes: Seq<u8>, i: int)
    requires
        0 <= i <= bytes.len(),
        !(progress(bytes.take(i)) is NeedMore),
        i > 0 ==> progress(bytes.take(i - 1)) is NeedMore,
    ensures
        progress(bytes) == progress(bytes.take(i)),
        outcome(bytes) == outcome(bytes.take(i)),
        consumed_of(bytes) == i,
{
    let start = bytes.take(i);
    lemma_header_end_bounds(start);
    let n = header_end(start)->0;
    let head = start.take(n);
    assert(start == head + bytes.subrange(n, i));
    assert(bytes == head + bytes.skip(n));
    lemma_progress_after_head(head, bytes.subrange(n, i));
    lemma_progress_after_head(head, bytes.skip(n));
    match parse_head(head) {
        Err(e) => {
            if n < i {
                assert(bytes.take(i - 1) == head + bytes.subrange(n, i - 1));
                lemma_progress_after_head(head, bytes.subrange(n, i - 1));
            }
        },
        Ok(h) => {
            let len = h.content_length as int;
            assert(bytes.subrange(n, i).take(len) == bytes.skip(n).take(len));
            if n + len < i {
                assert(bytes.take(i - 1) == head + bytes.subrange(n, i - 1));
                lemma_progress_after_head(head, bytes.subrange(n, i - 1));
            }
        },
    }
}

/// A start of the bytes that is shorter than what the reader takes is
/// neither a whole request nor a failure.
pub proof fn lemma_unanswered_before(bytes: Seq<u8>, k: int)
    requires
        0 <= k < consumed_of(bytes),
    ensures
        k < bytes.len(),
        progress(bytes.take(k)) is NeedMore,
{
    let start = bytes.take(k);
    lemma_header_end_bounds(bytes);
    lemma_header_end_bounds(start);
    if header_end(start) is Some {
        let m = header_end(start)->0;
        assert(bytes == start + bytes.skip(k));
        lemma_header_end_stable(start, bytes.skip(k));
        let head = bytes.take(m);
        assert(start.take(m) == head);
        lemma_progress_after_head(head, bytes.subrange(m, k));
        lemma_progress_after_head(head, bytes.skip(m));
    }
}

/// Reads one request from the start of `input`, as a reader does that
/// takes one byte at a time: it stops as soon as the request is whole or
/// has failed, and treats the end of `input` as the end of the stream.
/// Returns what was read and the number of bytes taken.
pub fn parse_request(input: &[u8]) -> (r: (Result<Option<HttpRequest>, ParseFailure>, usize))
    ensures
        agrees(r.0, outcome(input@)),
        r.1 == consumed_of(input@),
{
    let mut parser = RequestParser::new();
    let mut i: usize = 0;
    let mut more = parser.needs_more();
    while more && i < input.len()
        invariant
            i <= input.len(),
            parser.consumed() == input@.take(i as int),
            more == (progress(parser.consumed()) is NeedMore),
            i > 0 ==> progress(input@.take(i - 1)) is NeedMore,
        decreases input.len() - i,
    {
        more = parser.feed(input[i]);
        i += 1;
    }
    proof {
        if more {
            assert(input@.take(i as int) == input@);
        } else {
            lemma_stops_at_first_answer(input@, i as int);
        }
    }
    (parser.finish(), i)
}

} // verus!
