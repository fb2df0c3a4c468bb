//! The response writer. A response is built in one of two ways: `send`
//! writes a body of known length in one piece, `write` writes it chunk by
//! chunk and `end` closes it. The header block goes out once, with the
//! first of these calls, and cannot be changed afterwards. The writer
//! produces bytes; putting them on a socket is the caller's part.

use vstd::prelude::*;
use vstd::utf8::encode_utf8;
use crate::chunked::{
    chunk, chunks, dechunk, flatten, last_chunk, lemma_chunked_round_trip, line_end,
};
use crate::http_header::{Fields, HttpHeader, distinct_keys, erase, fields_of, lookup, store};
use crate::http_request::{HttpRequest, HttpVersion, asks_keep_alive};
use crate::numeral::{decimal, decimal_string, hex_string};
use crate::text::{chars_of, lowercase_of, str_eq, string_of};
use crate::to_bytes::ToBytes;

verus! {

/// Why a call on a response failed.
#[derive(PartialEq, Eq, Clone, Copy, Debug, Structural)]
pub enum ResponseError {
    /// `send` was called after the header block had gone out.
    HeaderAlreadySent,
    /// The response was already complete.
    Finished,
    /// The path names no regular file.
    NotFound,
}

/// How far a response has come.
#[derive(PartialEq, Eq, Clone, Copy, Debug, Structural)]
pub enum Phase {
    /// Nothing has gone out; status and headers can still change.
    Unsent,
    /// The header block has gone out and a chunked body is under way.
    Chunked,
    /// The response is complete.
    Finished,
}

/// The media type that `mime_guess` gives for a path.
pub uninterp spec fn guessed_mime(path: Seq<char>) -> Seq<char>;

/// Calls `mime_guess::from_path`, takes the first guess with
/// `MimeGuess::first_or_octet_stream`, which is `application/octet-stream`
/// where there is none, and returns its `Mime::essence_str`, the type and
/// subtype without parameters. The guess looks up the extension in the
/// path's text in a table and touches no file. The contract does not spell
/// the table out: it claims, without proof, only that the result depends
/// on the path's text alone, and gives it the name `guessed_mime`.
#[verifier::external_body]
fn guess_mime(path: &str) -> (mime: String)
    ensures
        mime@ == guessed_mime(path@),
{
    mime_guess::from_path(path).first_or_octet_stream().essence_str().to_owned()
}

/// The reason phrase that belongs to a status code.
pub open spec fn reason_phrase(code: u16) -> Seq<char> {
    if code == 200 {
        "OK"@
    } else if code == 301 {
        "Moved Permanently"@
    } else if code == 302 {
        "Found"@
    } else if code == 304 {
        "Not Modified"@
    } else if code == 400 {
        "Bad Request"@
    } else if code == 401 {
        "Unauthorized"@
    } else if code == 403 {
        "Forbidden"@
    } else if code == 404 {
        "Not Found"@
    } else if code == 500 {
        "Internal Server Error"@
    } else if code == 502 {
        "Bad Gateway"@
    } else if code == 503 {
        "Service Unavailable"@
    } else if code == 505 {
        "HTTP Version Not Supported"@
    } else {
        "unknown"@
    }
}

/// The status line: version, code and reason, separated by single spaces.
pub open spec fn status_line(code: u16, reason: Seq<char>) -> Seq<u8> {
    encode_utf8(HttpVersion::V1_1.text()) + seq![32u8] + encode_utf8(decimal(code as nat))
        + seq![32u8] + encode_utf8(reason) + line_end()
}

/// One header line: name, colon, space, value. A field with an empty name
/// or an empty value is left out.
pub open spec fn field_line(name: Seq<char>, value: Seq<char>) -> Seq<u8> {
    if name.len() == 0 || value.len() == 0 {
        Seq::empty()
    } else {
        encode_utf8(name) + seq![58u8, 32u8] + encode_utf8(value) + line_end()
    }
}

/// The header lines of the fields, in their order.
pub open spec fn field_lines(fields: Fields) -> Seq<u8>
    decreases fields.len(),
{
    if fields.len() == 0 {
        Seq::empty()
    } else {
        field_lines(fields.drop_last()) + field_line(fields.last().0, fields.last().1)
    }
}

/// The header block: status line, header lines, and an empty line.
pub open spec fn head_bytes(code: u16, reason: Seq<char>, fields: Fields) -> Seq<u8> {
    status_line(code, reason) + field_lines(fields) + line_end()
}

/// The part of a path after its last slash.
pub open spec fn file_name(path: Seq<char>) -> Seq<char>
    decreases path.len(),
{
    if path.len() == 0 || path.last() == '/' {
        Seq::empty()
    } else {
        file_name(path.drop_last()).push(path.last())
    }
}

/// The file name is the end of the path, it holds no slash, and it starts
/// at the start of the path or behind a slash.
pub proof fn lemma_file_name(path: Seq<char>)
    ensures
        file_name(path).len() <= path.len(),
        file_name(path) == path.skip(path.len() - file_name(path).len()),
        forall|i: int| 0 <= i < file_name(path).len() ==> #[trigger] file_name(path)[i] != '/',
        file_name(path).len() < path.len() ==> path[path.len() - file_name(path).len() - 1]
            == '/',
    decreases path.len(),
{
    if path.len() > 0 && path.last() != '/' {
        lemma_file_name(path.drop_last());
    }
}

/// A response as mathematics: status, header fields, phase, and the bytes
/// that have been produced and not yet taken.
pub struct ResponseView {
    pub code: u16,
    pub reason: Seq<char>,
    pub header: Fields,
    pub phase: Phase,
    pub output: Seq<u8>,
}

impl ResponseView {
    /// The response after its status code is set; the reason follows the
    /// code. Once the header block is out, nothing changes.
    pub open spec fn with_status(self, code: u16) -> ResponseView {
        if self.phase is Unsent {
            ResponseView { code, reason: reason_phrase(code), ..self }
        } else {
            self
        }
    }

    /// The response after its reason phrase is set.
    pub open spec fn with_reason(self, reason: Seq<char>) -> ResponseView {
        if self.phase is Unsent {
            ResponseView { reason, ..self }
        } else {
            self
        }
    }

    /// The response after a header is set.
    pub open spec fn with_header(self, name: Seq<char>, value: Seq<char>) -> ResponseView {
        if self.phase is Unsent {
            ResponseView { header: store(self.header, lowercase_of(name), value), ..self }
        } else {
            self
        }
    }

    /// The response after a header is removed.
    pub open spec fn without_header(self, name: Seq<char>) -> ResponseView {
        if self.phase is Unsent {
            ResponseView { header: erase(self.header, lowercase_of(name)), ..self }
        } else {
            self
        }
    }

    /// The response after its header block has gone out.
    pub open spec fn committed(self, phase: Phase) -> ResponseView {
        ResponseView {
            phase,
            output: self.output + head_bytes(self.code, self.reason, self.header),
            ..self
        }
    }

    /// The response after more bytes have gone out.
    pub open spec fn emitting(self, bytes: Seq<u8>) -> ResponseView {
        ResponseView { output: self.output + bytes, ..self }
    }

    /// The response after `write`: the first call marks the body as
    /// chunked and sends the header block; every call sends one chunk. A
    /// finished response stays as it is.
    pub open spec fn written(self, data: Seq<u8>) -> ResponseView {
        match self.phase {
            Phase::Unsent => self.with_header("transfer-encoding"@, "chunked"@).committed(
                Phase::Chunked,
            ).emitting(chunk(data)),
            Phase::Chunked => self.emitting(chunk(data)),
            Phase::Finished => self,
        }
    }

    /// The response after `send`: the length is announced, the header
    /// block and the data go out, and the response is complete. A response
    /// whose header block is out stays as it is.
    pub open spec fn sent(self, data: Seq<u8>) -> ResponseView {
        match self.phase {
            Phase::Unsent => self.with_header(
                "content-length"@,
                decimal(data.len()),
            ).committed(Phase::Finished).emitting(data),
            _ => self,
        }
    }

    /// The response after `end`: the header block goes out if it has not,
    /// a chunked body gets its last chunk, and the response is complete.
    pub open spec fn ended(self) -> ResponseView {
        match self.phase {
            Phase::Unsent => self.committed(Phase::Finished),
            Phase::Chunked => ResponseView { phase: Phase::Finished, ..self.emitting(last_chunk()) },
            Phase::Finished => self,
        }
    }

    /// What `write` answers: it fails on a response that is complete.
    pub open spec fn write_result(self) -> Result<(), ResponseError> {
        if self.phase is Finished {
            Err(ResponseError::Finished)
        } else {
            Ok(())
        }
    }

    /// What `send` answers: it fails once the header block is out.
    pub open spec fn send_result(self) -> Result<(), ResponseError> {
        if self.phase is Unsent {
            Ok(())
        } else {
            Err(ResponseError::HeaderAlreadySent)
        }
    }

    /// What `end` answers: it fails on a response that is complete.
    pub open spec fn end_result(self) -> Result<(), ResponseError> {
        if self.phase is Finished {
            Err(ResponseError::Finished)
        } else {
            Ok(())
        }
    }

    /// The response after a run of calls of `write`, one for each part.
    pub open spec fn written_all(self, parts: Seq<Seq<u8>>) -> ResponseView
        decreases parts.len(),
    {
        if parts.len() == 0 {
            self
        } else {
            self.written_all(parts.drop_last()).written(parts.last())
        }
    }

    /// Whether the connection is to be closed once the response is
    /// complete: the `Connection` header says `close`.
    pub open spec fn closes(self) -> bool {
        self.phase is Finished && lookup(self.header, lowercase_of("connection"@)) == "close"@
    }
}

/// The status of a response: code and reason phrase.
struct HttpResponseStatus {
    code: u16,
    reason: String,
}

/// A response under construction.
pub struct HttpResponse {
    status: HttpResponseStatus,
    header: HttpHeader,
    phase: Phase,
    output: Vec<u8>,
}

impl View for HttpResponse {
    type V = ResponseView;

    closed spec fn view(&self) -> ResponseView {
        ResponseView {
            code: self.status.code,
            reason: self.status.reason@,
            header: self.header@,
            phase: self.phase,
            output: self.output@,
        }
    }
}

/// The header fields that a new response to a request has: the
/// connection is kept open where the request asked for it, else closed.
pub open spec fn default_fields(request: Fields) -> Fields {
    store(
        Seq::empty(),
        lowercase_of("connection"@),
        if asks_keep_alive(request) {
            "keep-alive"@
        } else {
            "close"@
        },
    )
}

/// A new response to a request with these header fields: status 200, the
/// default headers, nothing sent.
pub open spec fn fresh(request: Fields) -> ResponseView {
    ResponseView {
        code: 200,
        reason: reason_phrase(200),
        header: default_fields(request),
        phase: Phase::Unsent,
        output: Seq::empty(),
    }
}

/// A response to the request: status 200, the default headers, nothing
/// sent.
pub fn new(request: &HttpRequest) -> (response: HttpResponse)
    ensures
        response@ == fresh(request.header@),
{
    let mut header = HttpHeader::new();
    HttpResponse::add_default_headers(&request.header, &mut header);
    HttpResponse {
        status: HttpResponseStatus { code: 200, reason: reason_of(200).to_owned() },
        header,
        phase: Phase::Unsent,
        output: Vec::new(),
    }
}

fn reason_of(code: u16) -> (reason: &'static str)
    ensures
        reason@ == reason_phrase(code),
{
    if code == 200 {
        "OK"
    } else if code == 301 {
        "Moved Permanently"
    } else if code == 302 {
        "Found"
    } else if code == 304 {
        "Not Modified"
    } else if code == 400 {
        "Bad Request"
    } else if code == 401 {
        "Unauthorized"
    } else if code == 403 {
        "Forbidden"
    } else if code == 404 {
        "Not Found"
    } else if code == 500 {
        "Internal Server Error"
    } else if code == 502 {
        "Bad Gateway"
    } else if code == 503 {
        "Service Unavailable"
    } else if code == 505 {
        "HTTP Version Not Supported"
    } else {
        "unknown"
    }
}

fn put(out: &mut Vec<u8>, bytes: &[u8])
    ensures
        final(out)@ == old(out)@ + bytes@,
{
    out.extend_from_slice(bytes);
}

fn put_text(out: &mut Vec<u8>, text: &str)
    ensures
        final(out)@ == old(out)@ + encode_utf8(text@),
{
    put(out, text.as_bytes());
}

fn put_line_end(out: &mut Vec<u8>)
    ensures
        final(out)@ == old(out)@ + line_end(),
{
    out.push(13);
    out.push(10);
}

/// The part of a path after its last slash.
pub fn base_name(path: &str) -> (name: String)
    ensures
        name@ == file_name(path@),
{
    let chars = chars_of(path);
    let mut start: usize = chars.len();
    assert(chars@.take(chars.len() as int) == chars@);
    while start > 0 && chars[start - 1] != '/'
        invariant
            start <= chars.len(),
            file_name(chars@) == file_name(chars@.take(start as int)) + chars@.subrange(
                start as int,
                chars.len() as int,
            ),
        decreases start,
    {
        let ghost front = chars@.take(start as int);
        assert(front.drop_last() == chars@.take(start - 1));
        start -= 1;
    }
    let n = chars.len();
    string_of(vstd::slice::slice_subrange(chars.as_slice(), start, n))
}

impl HttpResponse {
    fn add_default_headers(req_header: &HttpHeader, res_header: &mut HttpHeader)
        requires
            old(res_header)@.len() == 0,
        ensures
            final(res_header)@ == default_fields(req_header@),
    {
        let value = crate::text::to_lowercase(req_header.get("connection"));
        if str_eq(value.as_str(), "keep-alive") {
            res_header.set("connection", "keep-alive");
        } else {
            res_header.set("connection", "close");
        }
    }

    fn send_header(&mut self)
        ensures
            final(self)@ == old(self)@.emitting(
                head_bytes(old(self)@.code, old(self)@.reason, old(self)@.header),
            ),
    {
        let ghost start = self.output@;
        put_text(&mut self.output, HttpVersion::V1_1.to_str());
        self.output.push(32);
        put_text(&mut self.output, decimal_string(self.status.code as usize).as_str());
        self.output.push(32);
        put_text(&mut self.output, self.status.reason.as_str());
        put_line_end(&mut self.output);
        let ghost lines = start + status_line(self.status.code, self.status.reason@);
        let entries = self.header.to_map();
        let mut i: usize = 0;
        while i < entries.len()
            invariant
                i <= entries.len(),
                self.status == old(self).status,
                self.header == old(self).header,
                self.phase == old(self).phase,
                start == old(self).output@,
                lines == start + status_line(self.status.code, self.status.reason@),
                fields_of(entries@) == self.header@,
                self.output@ == lines + field_lines(fields_of(entries@).take(i as int)),
            decreases entries.len() - i,
        {
            let ghost fields = fields_of(entries@);
            let name = entries[i].0.as_str();
            let value = entries[i].1.as_str();
            assert(fields.take(i + 1).drop_last() =~= fields.take(i as int));
            if !name.is_empty() && !value.is_empty() {
                put_text(&mut self.output, name);
                self.output.push(58);
                self.output.push(32);
                put_text(&mut self.output, value);
                put_line_end(&mut self.output);
            }
            i += 1;
        }
        assert(fields_of(entries@).take(entries.len() as int) =~= fields_of(entries@));
        put_line_end(&mut self.output);
        assert(self.output@ =~= start + head_bytes(
            self.status.code,
            self.status.reason@,
            self.header@,
        ));
    }
}

impl HttpResponse {
    /// Sets the status code; the reason phrase follows the code. Has no
    /// effect once the header block is out.
    pub fn status(&mut self, status: u16) -> (this: &mut Self)
        ensures
            this@ == old(self)@.with_status(status),
            *final(self) == *final(this),
    {
        if let Phase::Unsent = self.phase {
            self.status.code = status;
            self.status.reason = reason_of(status).to_owned();
        }
        self
    }

    /// Sets the reason phrase. Has no effect once the header block is out.
    pub fn status_message(&mut self, message: &str) -> (this: &mut Self)
        ensures
            this@ == old(self)@.with_reason(message@),
            *final(self) == *final(this),
    {
        if let Phase::Unsent = self.phase {
            self.status.reason = message.to_owned();
        }
        self
    }

    /// Sets a header. Has no effect once the header block is out.
    pub fn set_header(&mut self, name: &str, value: &str)
        ensures
            final(self)@ == old(self)@.with_header(name@, value@),
    {
        if let Phase::Unsent = self.phase {
            self.header.set(name, value);
        }
    }

    /// Removes a header. Has no effect once the header block is out.
    pub fn remove_header(&mut self, name: &str)
        ensures
            final(self)@ == old(self)@.without_header(name@),
    {
        if let Phase::Unsent = self.phase {
            self.header.remove(name);
        }
    }

    /// Sets the `Content-Type` header.
    pub fn content_type(&mut self, value: &str) -> (this: &mut Self)
        ensures
            this@ == old(self)@.with_header("content-type"@, value@),
            *final(self) == *final(this),
    {
        self.set_header("content-type", value);
        self
    }

    /// The header table of the response.
    pub fn header(&self) -> (header: &HttpHeader)
        ensures
            header@ == self@.header,
    {
        &self.header
    }

    /// The status code of the response.
    pub fn status_code(&self) -> (code: u16)
        ensures
            code == self@.code,
    {
        self.status.code
    }

    /// The reason phrase of the response.
    pub fn reason(&self) -> (reason: &str)
        ensures
            reason@ == self@.reason,
    {
        self.status.reason.as_str()
    }

    /// How far the response has come.
    pub fn phase(&self) -> (phase: Phase)
        ensures
            phase == self@.phase,
    {
        self.phase
    }

    /// Writes one chunk of a chunked body. The first call sets
    /// `Transfer-Encoding: chunked` and sends the header block. Fails, and
    /// changes nothing, on a response that is complete.
    pub fn write<T: ToBytes>(&mut self, data: T) -> (r: Result<(), ResponseError>)
        ensures
            final(self)@ == old(self)@.written(data.bytes()),
            r == old(self)@.write_result(),
    {
        match self.phase {
            Phase::Finished => {
                return Err(ResponseError::Finished);
            },
            Phase::Unsent => {
                self.header.set("transfer-encoding", "chunked");
                self.send_header();
                self.phase = Phase::Chunked;
            },
            Phase::Chunked => {},
        }
        let bytes = data.to_bytes();
        if bytes.len() > 0 {
            let ghost before = self.output@;
            put_text(&mut self.output, hex_string(bytes.len()).as_str());
            put_line_end(&mut self.output);
            put(&mut self.output, bytes);
            put_line_end(&mut self.output);
            assert(self.output@ =~= before + chunk(bytes@));
        }
        Ok(())
    }

    /// Completes the response. Sends the header block if it is not out
    /// yet, and the last chunk if the body is chunked. Fails, and changes
    /// nothing, on a response that is complete.
    pub fn end(&mut self) -> (r: Result<(), ResponseError>)
        ensures
            final(self)@ == old(self)@.ended(),
            r == old(self)@.end_result(),
    {
        match self.phase {
            Phase::Finished => {
                return Err(ResponseError::Finished);
            },
            Phase::Unsent => {
                self.send_header();
            },
            Phase::Chunked => {
                let ghost before = self.output@;
                self.output.push(48);
                put_line_end(&mut self.output);
                put_line_end(&mut self.output);
                assert(self.output@ =~= before + last_chunk());
            },
        }
        self.phase = Phase::Finished;
        Ok(())
    }

    /// Sends a body of known length and completes the response: sets
    /// `Content-Length`, sends the header block and the data. Fails, and
    /// changes nothing, once the header block is out.
    pub fn send<T: ToBytes>(&mut self, data: T) -> (r: Result<(), ResponseError>)
        ensures
            final(self)@ == old(self)@.sent(data.bytes()),
            r == old(self)@.send_result(),
    {
        let bytes = data.to_bytes();
        match self.phase {
            Phase::Unsent => {
                self.header.set("content-length", decimal_string(bytes.len()).as_str());
                self.send_header();
                put(&mut self.output, bytes);
                self.phase = Phase::Finished;
                Ok(())
            },
            _ => Err(ResponseError::HeaderAlreadySent),
        }
    }

    /// Sends a JSON text as the body, with the content type
    /// `application/json`.
    pub fn json(&mut self, text: &str) -> (r: Result<(), ResponseError>)
        ensures
            final(self)@ == old(self)@.with_header("content-type"@, "application/json"@).sent(
                encode_utf8(text@),
            ),
            r == old(self)@.send_result(),
    {
        self.content_type("application/json");
        self.send(text)
    }

    /// Answers with a redirection to `location`: status 302, the
    /// `Location` header, and no body.
    pub fn redirect(&mut self, location: &str) -> (r: Result<(), ResponseError>)
        ensures
            final(self)@ == old(self)@.with_status(302).with_header(
                "location"@,
                location@,
            ).ended(),
            r == old(self)@.end_result(),
    {
        self.status(302);
        self.set_header("location", location);
        self.end()
    }

    /// Sends the content of a file as the body, with the given content
    /// type. `content` is what the file holds, or nothing where the path
    /// names no regular file; then the content type is set, nothing is
    /// sent, and the call fails with `NotFound`.
    pub fn send_as(&mut self, content_type: &str, content: Option<&[u8]>) -> (r: Result<
        (),
        ResponseError,
    >)
        ensures
            final(self)@ == match content {
                Some(data) => old(self)@.with_header("content-type"@, content_type@).sent(data@),
                None => old(self)@.with_header("content-type"@, content_type@),
            },
            r == if content is None {
                Err::<(), ResponseError>(ResponseError::NotFound)
            } else {
                old(self)@.send_result()
            },
    {
        self.content_type(content_type);
        match content {
            Some(data) => self.send(data),
            None => Err(ResponseError::NotFound),
        }
    }

    /// Sends a file as the body. The content type is guessed from the
    /// path; `content` is what the file holds, or nothing where the path
    /// names no regular file, and then the call fails with `NotFound`.
    pub fn send_file(&mut self, path: &str, content: Option<&[u8]>) -> (r: Result<
        (),
        ResponseError,
    >)
        ensures
            final(self)@ == match content {
                Some(data) => old(self)@.with_header("content-type"@, guessed_mime(path@)).sent(
                    data@,
                ),
                None => old(self)@.with_header("content-type"@, guessed_mime(path@)),
            },
            r == if content is None {
                Err::<(), ResponseError>(ResponseError::NotFound)
            } else {
                old(self)@.send_result()
            },
    {
        let mime = guess_mime(path);
        self.send_as(mime.as_str(), content)
    }

    /// Sends a file as an attachment: as `send_file`, with a
    /// `Content-Disposition` header that names the file. Where the path
    /// names no regular file the call fails with `NotFound` and changes
    /// nothing.
    pub fn download(&mut self, path: &str, content: Option<&[u8]>) -> (r: Result<
        (),
        ResponseError,
    >)
        ensures
            final(self)@ == match content {
                Some(data) => old(self)@.with_header(
                    "content-disposition"@,
                    "attachment; filename="@ + file_name(path@),
                ).with_header("content-type"@, guessed_mime(path@)).sent(data@),
                None => old(self)@,
            },
            r == if content is None {
                Err::<(), ResponseError>(ResponseError::NotFound)
            } else {
                old(self)@.send_result()
            },
    {
        if content.is_none() {
            return Err(ResponseError::NotFound);
        }
        let mut disposition = "attachment; filename=".to_owned();
        disposition.append(base_name(path).as_str());
        self.set_header("content-disposition", disposition.as_str());
        self.send_file(path, content)
    }

    /// Hands over the bytes produced since the last call, for the caller
    /// to put on the wire.
    pub fn take_output(&mut self) -> (bytes: Vec<u8>)
        ensures
            bytes@ == old(self)@.output,
            final(self)@ == (ResponseView { output: Seq::empty(), ..old(self)@ }),
    {
        let mut bytes: Vec<u8> = Vec::new();
        core::mem::swap(&mut self.output, &mut bytes);
        bytes
    }

    /// Whether the connection is to be closed now: the response is
    /// complete and its `Connection` header says `close`.
    pub fn should_close(&self) -> (close: bool)
        ensures
            close == self@.closes(),
    {
        match self.phase {
            Phase::Finished => str_eq(self.header.get("connection"), "close"),
            _ => false,
        }
    }
}

/// The header fields of a response whose body is chunked.
pub open spec fn chunked_fields(fields: Fields) -> Fields {
    store(fields, lowercase_of("transfer-encoding"@), "chunked"@)
}

/// The header fields of a response whose body has a known length.
pub open spec fn sized_fields(fields: Fields, length: nat) -> Fields {
    store(fields, lowercase_of("content-length"@), decimal(length))
}

/// After one or more calls of `write` on a new response the header block
/// is out once, with `Transfer-Encoding: chunked`, followed by the chunks
/// in order, and the body is still open.
pub proof fn lemma_written_all(v: ResponseView, parts: Seq<Seq<u8>>)
    requires
        v.phase is Unsent,
        parts.len() > 0,
    ensures
        v.written_all(parts) == (ResponseView {
            header: chunked_fields(v.header),
            phase: Phase::Chunked,
            output: v.output + head_bytes(v.code, v.reason, chunked_fields(v.header)) + chunks(
                parts,
            ),
            ..v
        }),
    decreases parts.len(),
{
    let head = head_bytes(v.code, v.reason, chunked_fields(v.header));
    if parts.len() == 1 {
        assert(v.written_all(parts.drop_last()) == v);
        assert(chunks(parts.drop_last()) =~= Seq::<u8>::empty());
        assert(v.output + head + chunk(parts.last()) =~= v.output + head + chunks(parts));
    } else {
        lemma_written_all(v, parts.drop_last());
        assert(v.output + head + chunks(parts.drop_last()) + chunk(parts.last()) =~= v.output
            + head + chunks(parts));
    }
}

/// A body written in parts and then ended is, after the header block, the
/// chunks of the parts in order and the chunk of length zero; a receiver
/// reads the parts back from it, one after the other.
pub proof fn lemma_chunked_stream(v: ResponseView, parts: Seq<Seq<u8>>)
    requires
        v.phase is Unsent,
        parts.len() > 0,
    ensures
        v.written_all(parts).end_result() is Ok,
        v.written_all(parts).ended().phase is Finished,
        v.written_all(parts).ended().output == v.output + head_bytes(
            v.code,
            v.reason,
            chunked_fields(v.header),
        ) + (chunks(parts) + last_chunk()),
        dechunk(chunks(parts) + last_chunk()) == Some(flatten(parts)),
{
    lemma_written_all(v, parts);
    lemma_chunked_round_trip(parts);
}

/// `send` on a new response announces the length of the data, sends the
/// header block and the data, and completes the response; after it, `send`,
/// `write` and `end` fail and change nothing.
pub proof fn lemma_send_is_final(v: ResponseView, data: Seq<u8>, more: Seq<u8>)
    requires
        v.phase is Unsent,
        distinct_keys(v.header),
    ensures
        v.send_result() is Ok,
        v.sent(data).phase is Finished,
        v.sent(data).header == sized_fields(v.header, data.len()),
        lookup(v.sent(data).header, lowercase_of("content-length"@)) == decimal(data.len()),
        v.sent(data).output == v.output + head_bytes(
            v.code,
            v.reason,
            sized_fields(v.header, data.len()),
        ) + data,
        v.sent(data).send_result() == Err::<(), ResponseError>(ResponseError::HeaderAlreadySent),
        v.sent(data).sent(more) == v.sent(data),
        v.sent(data).written(more) == v.sent(data),
        v.sent(data).ended() == v.sent(data),
{
    crate::http_header::lemma_store(v.header, lowercase_of("content-length"@), decimal(data.len()));
}

/// The length that `send` announces is the length that a reader of the
/// header fields finds.
pub proof fn lemma_announced_length_reads_back(fields: Fields, length: nat)
    requires
        distinct_keys(fields),
        length <= u32::MAX,
    ensures
        crate::request_parser::declared_length(sized_fields(fields, length)) == Some(length as u32),
{
    crate::http_header::lemma_store(fields, lowercase_of("content-length"@), decimal(length));
    crate::numeral::lemma_decimal_digits(length);
    crate::numeral::lemma_decimal_reads_back(length);
}

/// Once `write` has been called, `send` fails and changes nothing, every
/// further `write` adds its chunk and nothing else, and `end` adds the
/// chunk of length zero.
pub proof fn lemma_write_excludes_send(v: ResponseView, first: Seq<u8>, data: Seq<u8>)
    requires
        !(v.phase is Finished),
    ensures
        v.written(first).phase is Chunked,
        v.written(first).send_result() == Err::<(), ResponseError>(
            ResponseError::HeaderAlreadySent,
        ),
        v.written(first).sent(data) == v.written(first),
        v.written(first).written(data).output == v.written(first).output + chunk(data),
        v.written(first).ended().output == v.written(first).output + last_chunk(),
        v.written(first).ended().phase is Finished,
{
}

/// Once the header block is out, status and headers no longer change.
pub proof fn lemma_head_is_fixed_once_sent(
    v: ResponseView,
    code: u16,
    name: Seq<char>,
    value: Seq<char>,
)
    requires
        !(v.phase is Unsent),
    ensures
        v.with_status(code) == v,
        v.with_reason(value) == v,
        v.with_header(name, value) == v,
        v.without_header(name) == v,
{
}

/// A response that is ended with the headers it was made with closes the
/// connection exactly when the request did not ask to keep it open.
pub proof fn lemma_connection_follows_request(request: Fields)
    ensures
        fresh(request).ended().closes() == !asks_keep_alive(request),
{
    reveal_strlit("keep-alive");
    reveal_strlit("close");
    crate::http_header::lemma_store(
        Seq::empty(),
        lowercase_of("connection"@),
        if asks_keep_alive(request) {
            "keep-alive"@
        } else {
            "close"@
        },
    );
}

} // verus!
