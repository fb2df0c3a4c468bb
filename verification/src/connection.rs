//! One connection: requests are read one after the other, each is
//! answered, and the connection is kept for the next request where the
//! client asked for it. The connection decides what is to be done next;
//! reading, calling handlers, looking for files and writing is the part of
//! its caller, who does one action at a time and reports back.

use vstd::prelude::*;
use crate::http_request::{HttpRequest, RequestView, asks_keep_alive};
use crate::http_response::{HttpResponse, ResponseView, fresh};
use crate::http_server::{
    EndpointView, HttpServer, StaticPathView, find_endpoint, find_static, respond_not_found,
};
use crate::request_parser::{
    ParseFailure, Progress, RequestParser, consumed_of, header_end, lemma_header_end_bounds,
    lemma_progress_after_head, lemma_unanswered_before, outcome, parse_head, progress,
};

verus! {

/// What the caller of a connection is to do next.
pub enum Action {
    /// Read one byte and report it with `byte`, or report with
    /// `end_of_stream` that there is none.
    Read,
    /// Call the handler of the endpoint at this position with the request
    /// and this response, then report the response with `handled`.
    Invoke { endpoint: usize, response: HttpResponse },
    /// Find out whether this file exists and report it with `probed`.
    Probe { path: String },
    /// Give this file and this response to the handler of static files,
    /// then report the response with `handled`.
    Serve { path: String, response: HttpResponse },
    /// Put these bytes on the wire, close the connection for writing if
    /// `close` says so, then report with `flushed`.
    Flush { bytes: Vec<u8>, close: bool },
    /// Leave the connection.
    Stop,
}

/// An action as mathematics.
pub enum ActionView {
    Read,
    Invoke { endpoint: int, response: ResponseView },
    Probe { path: Seq<char> },
    Serve { path: Seq<char>, response: ResponseView },
    Flush { bytes: Seq<u8>, close: bool },
    Stop,
}

impl View for Action {
    type V = ActionView;

    open spec fn view(&self) -> ActionView {
        match self {
            Action::Read => ActionView::Read,
            Action::Invoke { endpoint, response } => ActionView::Invoke {
                endpoint: *endpoint as int,
                response: response@,
            },
            Action::Probe { path } => ActionView::Probe { path: path@ },
            Action::Serve { path, response } => ActionView::Serve {
                path: path@,
                response: response@,
            },
            Action::Flush { bytes, close } => ActionView::Flush { bytes: bytes@, close: *close },
            Action::Stop => ActionView::Stop,
        }
    }
}

/// A connection as mathematics: what it is waiting for.
pub enum ConnectionView {
    /// For the next byte of a request; `consumed` is what was read of it.
    Reading { consumed: Seq<u8> },
    /// For the answer whether the file exists that the static path at
    /// `index` names.
    Probing { request: RequestView, index: int, path: Seq<char> },
    /// For the handler to return.
    Handling { request: RequestView },
    /// For the response to be on the wire.
    Flushing { request: RequestView },
    /// For nothing: the connection is over, with the failure that ended
    /// it, if one did.
    Closed { failure: Option<ParseFailure> },
}

/// The answer to a request that nothing matches.
pub open spec fn not_found(request: RequestView) -> ResponseView {
    fresh(request.header).with_status(404).ended()
}

/// What follows when the static paths from `from` on are searched for a
/// request: the first file that one of them names is probed; where none
/// names a file, the answer is 404.
pub open spec fn static_step(paths: Seq<StaticPathView>, request: RequestView, from: int) -> (
    ConnectionView,
    ActionView,
) {
    match find_static(paths, request.url, from) {
        Some((index, path)) => (
            ConnectionView::Probing { request, index, path },
            ActionView::Probe { path },
        ),
        None => (
            ConnectionView::Flushing { request },
            ActionView::Flush {
                bytes: not_found(request).output,
                close: not_found(request).closes(),
            },
        ),
    }
}

/// What follows a complete request: the handler of the first endpoint
/// that matches is called with a new response; where none matches, the
/// static paths are searched.
pub open spec fn route_step<H>(
    endpoints: Seq<EndpointView<H>>,
    paths: Seq<StaticPathView>,
    request: RequestView,
) -> (ConnectionView, ActionView) {
    match find_endpoint(endpoints, request.method, request.url, 0) {
        Some(endpoint) => (
            ConnectionView::Handling { request },
            ActionView::Invoke { endpoint, response: fresh(request.header) },
        ),
        None => static_step(paths, request, 0),
    }
}

/// What follows a report that does not fit what the connection is waiting
/// for: the connection is over.
pub open spec fn misfit(state: ConnectionView) -> (ConnectionView, ActionView) {
    match state {
        ConnectionView::Closed { failure } => (state, ActionView::Stop),
        _ => (ConnectionView::Closed { failure: None }, ActionView::Stop),
    }
}

/// What follows one more byte: more reading while the request is
/// incomplete, the end of the connection where it has failed, and its
/// routing once it is complete.
pub open spec fn after_byte<H>(
    state: ConnectionView,
    byte: u8,
    endpoints: Seq<EndpointView<H>>,
    paths: Seq<StaticPathView>,
) -> (ConnectionView, ActionView) {
    match state {
        ConnectionView::Reading { consumed } => match progress(consumed.push(byte)) {
            Progress::NeedMore => (
                ConnectionView::Reading { consumed: consumed.push(byte) },
                ActionView::Read,
            ),
            Progress::Failed(e) => (
                ConnectionView::Closed { failure: Some(e) },
                ActionView::Stop,
            ),
            Progress::Done(request) => route_step(endpoints, paths, request),
        },
        _ => misfit(state),
    }
}

/// What follows the end of the stream: the end of the connection, in
/// silence where no byte of a request was read, else as a failure.
pub open spec fn after_end_of_stream(state: ConnectionView) -> (ConnectionView, ActionView) {
    match state {
        ConnectionView::Reading { consumed } => (
            ConnectionView::Closed {
                failure: match outcome(consumed) {
                    Err(e) => Some(e),
                    Ok(_) => None,
                },
            },
            ActionView::Stop,
        ),
        _ => misfit(state),
    }
}

/// What follows the answer about a file: a file that exists is served with
/// a new response; for one that does not, the search goes on behind the
/// static path that named it.
pub open spec fn after_probe(state: ConnectionView, exists: bool, paths: Seq<StaticPathView>) -> (
    ConnectionView,
    ActionView,
) {
    match state {
        ConnectionView::Probing { request, index, path } => if exists {
            (
                ConnectionView::Handling { request },
                ActionView::Serve { path, response: fresh(request.header) },
            )
        } else {
            static_step(paths, request, index + 1)
        },
        _ => misfit(state),
    }
}

/// What follows the return of a handler: what the response holds goes on
/// the wire, and the connection is closed for writing where the response
/// says so.
pub open spec fn after_handled(state: ConnectionView, response: ResponseView) -> (
    ConnectionView,
    ActionView,
) {
    match state {
        ConnectionView::Handling { request } => (
            ConnectionView::Flushing { request },
            ActionView::Flush { bytes: response.output, close: response.closes() },
        ),
        _ => misfit(state),
    }
}

/// What follows the writing of a response: the next request is read where
/// the request asked to keep the connection, else the connection is over.
pub open spec fn after_flushed(state: ConnectionView) -> (ConnectionView, ActionView) {
    match state {
        ConnectionView::Flushing { request } => if asks_keep_alive(request.header) {
            (ConnectionView::Reading { consumed: Seq::empty() }, ActionView::Read)
        } else {
            (ConnectionView::Closed { failure: None }, ActionView::Stop)
        },
        _ => misfit(state),
    }
}

#[derive(PartialEq, Eq, Clone, Copy, Structural)]
enum Stage {
    Reading,
    Probing,
    Handling,
    Flushing,
    Closed,
}

/// The state of one connection.
pub struct Connection {
    stage: Stage,
    parser: RequestParser,
    request: Option<HttpRequest>,
    index: usize,
    path: String,
    failure: Option<ParseFailure>,
}

impl View for Connection {
    type V = ConnectionView;

    closed spec fn view(&self) -> ConnectionView {
        match self.stage {
            Stage::Reading => ConnectionView::Reading { consumed: self.parser.consumed() },
            Stage::Probing => ConnectionView::Probing {
                request: self.request->0@,
                index: self.index as int,
                path: self.path@,
            },
            Stage::Handling => ConnectionView::Handling { request: self.request->0@ },
            Stage::Flushing => ConnectionView::Flushing { request: self.request->0@ },
            Stage::Closed => ConnectionView::Closed { failure: self.failure },
        }
    }
}

fn waiting(stage: Stage, request: HttpRequest, index: usize, path: String) -> (c: Connection)
    requires
        stage is Probing || stage is Handling || stage is Flushing,
    ensures
        c.stage == stage,
        c.request == Some(request),
        c.index == index,
        c.path == path,
{
    Connection {
        stage,
        parser: RequestParser::new(),
        request: Some(request),
        index,
        path,
        failure: None,
    }
}

fn closed(failure: Option<ParseFailure>) -> (c: Connection)
    ensures
        c@ == (ConnectionView::Closed { failure }),
{
    Connection {
        stage: Stage::Closed,
        parser: RequestParser::new(),
        request: None,
        index: 0,
        path: String::new(),
        failure,
    }
}

fn searched<H, S>(request: HttpRequest, server: &HttpServer<H, S>, from: usize) -> (r: (
    Connection,
    Action,
))
    ensures
        (r.0@, r.1@) == static_step(server.static_paths(), request@, from as int),
{
    match server.get_static_file(request.url.as_str(), from) {
        Some((index, path)) => {
            let probe = Action::Probe { path: path.clone() };
            (waiting(Stage::Probing, request, index, path), probe)
        },
        None => {
            let mut response = respond_not_found(&request);
            let close = response.should_close();
            let bytes = response.take_output();
            (waiting(Stage::Flushing, request, 0, String::new()), Action::Flush { bytes, close })
        },
    }
}

fn routed<H, S>(request: HttpRequest, server: &HttpServer<H, S>) -> (r: (Connection, Action))
    ensures
        (r.0@, r.1@) == route_step(server.endpoints(), server.static_paths(), request@),
{
    match server.find_handler(request.url.as_str(), request.method) {
        Some(endpoint) => {
            let response = crate::http_response::new(&request);
            (
                waiting(Stage::Handling, request, 0, String::new()),
                Action::Invoke { endpoint, response },
            )
        },
        None => searched(request, server, 0),
    }
}

impl Connection {
    #[verifier::type_invariant]
    spec fn well_formed(&self) -> bool {
        match self.stage {
            Stage::Reading => {
                &&& progress(self.parser.consumed()) is NeedMore
                &&& self.request is None
                &&& self.failure is None
            },
            Stage::Closed => self.request is None,
            _ => self.request is Some && self.failure is None,
        }
    }

    /// A connection on which nothing has been read. Its first action is to
    /// read.
    pub fn new() -> (connection: Connection)
        ensures
            connection@ == (ConnectionView::Reading { consumed: Seq::empty() }),
    {
        Connection {
            stage: Stage::Reading,
            parser: RequestParser::new(),
            request: None,
            index: 0,
            path: String::new(),
            failure: None,
        }
    }

    fn take(&mut self) -> (current: Connection)
        ensures
            current == *old(self),
            final(self)@ == (ConnectionView::Reading { consumed: Seq::empty() }),
    {
        let mut current = Connection::new();
        core::mem::swap(self, &mut current);
        current
    }

    /// The request that is being answered, if one is.
    pub fn request(&self) -> (request: Option<&HttpRequest>)
        ensures
            match self@ {
                ConnectionView::Probing { request: view, .. } => request matches Some(r) && r@
                    == view,
                ConnectionView::Handling { request: view } => request matches Some(r) && r@ == view,
                ConnectionView::Flushing { request: view } => request matches Some(r) && r@ == view,
                _ => request is None,
            },
    {
        proof {
            use_type_invariant(self);
        }
        self.request.as_ref()
    }

    /// The failure that ended the connection, if one did.
    pub fn failure(&self) -> (failure: Option<ParseFailure>)
        ensures
            failure == match self@ {
                ConnectionView::Closed { failure } => failure,
                _ => None,
            },
    {
        proof {
            use_type_invariant(self);
        }
        self.failure
    }

    /// Whether the connection is over.
    pub fn is_closed(&self) -> (over: bool)
        ensures
            over == (self@ is Closed),
    {
        match self.stage {
            Stage::Closed => true,
            _ => false,
        }
    }

    fn misfit(&mut self) -> (action: Action)
        ensures
            (final(self)@, action@) == misfit(old(self)@),
    {
        proof {
            use_type_invariant(&*self);
        }
        match self.stage {
            Stage::Closed => {},
            _ => {
                *self = closed(None);
            },
        }
        Action::Stop
    }

    /// Reports the next byte of the stream.
    pub fn byte<H, S>(&mut self, byte: u8, server: &HttpServer<H, S>) -> (action: Action)
        ensures
            (final(self)@, action@) == after_byte(
                old(self)@,
                byte,
                server.endpoints(),
                server.static_paths(),
            ),
    {
        proof {
            use_type_invariant(&*self);
        }
        match self.stage {
            Stage::Reading => {},
            _ => {
                return self.misfit();
            },
        }
        let Connection { stage, mut parser, request, index, path, failure } = self.take();
        let more = parser.feed(byte);
        if more {
            *self = Connection { stage, parser, request, index, path, failure };
            return Action::Read;
        }
        match parser.finish() {
            Ok(Some(request)) => {
                let (next, action) = routed(request, server);
                *self = next;
                action
            },
            Ok(None) => {
                *self = closed(None);
                Action::Stop
            },
            Err(e) => {
                *self = closed(Some(e));
                Action::Stop
            },
        }
    }

    /// Reports that the stream has ended.
    pub fn end_of_stream(&mut self) -> (action: Action)
        ensures
            (final(self)@, action@) == after_end_of_stream(old(self)@),
    {
        proof {
            use_type_invariant(&*self);
        }
        match self.stage {
            Stage::Reading => {},
            _ => {
                return self.misfit();
            },
        }
        let current = self.take();
        let failure = match current.parser.finish() {
            Err(e) => Some(e),
            Ok(_) => None,
        };
        *self = closed(failure);
        Action::Stop
    }

    /// Reports whether the file exists that was to be probed.
    pub fn probed<H, S>(&mut self, exists: bool, server: &HttpServer<H, S>) -> (action: Action)
        ensures
            (final(self)@, action@) == after_probe(old(self)@, exists, server.static_paths()),
    {
        proof {
            use_type_invariant(&*self);
        }
        match self.stage {
            Stage::Probing => {},
            _ => {
                return self.misfit();
            },
        }
        let current = self.take();
        let index = current.index;
        let path = current.path;
        match current.request {
            Some(request) => {
                if exists {
                    let response = crate::http_response::new(&request);
                    *self = waiting(Stage::Handling, request, 0, String::new());
                    Action::Serve { path, response }
                } else {
                    let from = if index < server.static_path_count() {
                        index + 1
                    } else {
                        index
                    };
                    let (next, action) = searched(request, server, from);
                    *self = next;
                    action
                }
            },
            None => Action::Stop,
        }
    }

    /// Reports that the handler has returned, with the response as the
    /// handler left it.
    pub fn handled(&mut self, response: HttpResponse) -> (action: Action)
        ensures
            (final(self)@, action@) == after_handled(old(self)@, response@),
    {
        proof {
            use_type_invariant(&*self);
        }
        match self.stage {
            Stage::Handling => {},
            _ => {
                return self.misfit();
            },
        }
        let current = self.take();
        match current.request {
            Some(request) => {
                let mut response = response;
                let close = response.should_close();
                let bytes = response.take_output();
                *self = waiting(Stage::Flushing, request, 0, String::new());
                Action::Flush { bytes, close }
            },
            None => Action::Stop,
        }
    }

    /// Reports that the response is on the wire.
    pub fn flushed(&mut self) -> (action: Action)
        ensures
            (final(self)@, action@) == after_flushed(old(self)@),
    {
        proof {
            use_type_invariant(&*self);
        }
        match self.stage {
            Stage::Flushing => {},
            _ => {
                return self.misfit();
            },
        }
        let current = self.take();
        match current.request {
            Some(request) => {
                if request.keep_alive() {
                    Action::Read
                } else {
                    *self = closed(None);
                    Action::Stop
                }
            },
            None => Action::Stop,
        }
    }
}

/// What follows when the bytes are reported one by one, for as long as the
/// connection asks to read.
pub open spec fn after_bytes<H>(
    state: ConnectionView,
    bytes: Seq<u8>,
    endpoints: Seq<EndpointView<H>>,
    paths: Seq<StaticPathView>,
) -> (ConnectionView, ActionView)
    decreases bytes.len(),
{
    if bytes.len() == 0 {
        (state, ActionView::Read)
    } else {
        let before = after_bytes(state, bytes.drop_last(), endpoints, paths);
        if before.1 is Read {
            after_byte(before.0, bytes.last(), endpoints, paths)
        } else {
            before
        }
    }
}

/// While the bytes of a stream are neither a whole request nor a failure,
/// a new connection goes on reading.
pub proof fn lemma_reads_on<H>(
    bytes: Seq<u8>,
    k: int,
    endpoints: Seq<EndpointView<H>>,
    paths: Seq<StaticPathView>,
)
    requires
        0 <= k < consumed_of(bytes) || (k == consumed_of(bytes) && progress(bytes) is NeedMore),
    ensures
        k <= bytes.len(),
        after_bytes(
            ConnectionView::Reading { consumed: Seq::empty() },
            bytes.take(k),
            endpoints,
            paths,
        ) == (ConnectionView::Reading { consumed: bytes.take(k) }, ActionView::Read),
    decreases k,
{
    lemma_header_end_bounds(bytes);
    if k < consumed_of(bytes) {
        lemma_unanswered_before(bytes, k);
    } else {
        assert(bytes.take(k) == bytes);
    }
    if k > 0 {
        lemma_reads_on(bytes, k - 1, endpoints, paths);
        assert(bytes.take(k).drop_last() == bytes.take(k - 1));
        assert(bytes.take(k - 1).push(bytes.take(k).last()) == bytes.take(k));
    } else {
        assert(bytes.take(0) =~= Seq::<u8>::empty());
    }
}

/// A new connection that is given the bytes of a stream one by one reads
/// exactly as far as one request goes. A whole request is then routed; a
/// failed one ends the connection, and nothing is answered.
pub proof fn lemma_reads_one_request<H>(
    bytes: Seq<u8>,
    endpoints: Seq<EndpointView<H>>,
    paths: Seq<StaticPathView>,
)
    requires
        !(progress(bytes) is NeedMore),
    ensures
        0 < consumed_of(bytes) <= bytes.len(),
        after_bytes(
            ConnectionView::Reading { consumed: Seq::empty() },
            bytes.take(consumed_of(bytes)),
            endpoints,
            paths,
        ) == match progress(bytes) {
            Progress::Done(request) => route_step(endpoints, paths, request),
            Progress::Failed(e) => (
                ConnectionView::Closed { failure: Some(e) },
                ActionView::Stop,
            ),
            Progress::NeedMore => (
                ConnectionView::Reading { consumed: bytes },
                ActionView::Read,
            ),
        },
{
    let n = consumed_of(bytes);
    lemma_header_end_bounds(bytes);
    let m = header_end(bytes)->0;
    let head = bytes.take(m);
    assert(bytes == head + bytes.skip(m));
    lemma_progress_after_head(head, bytes.skip(m));
    assert(bytes.take(n) == head + bytes.subrange(m, n));
    lemma_progress_after_head(head, bytes.subrange(m, n));
    match parse_head(head) {
        Ok(h) => {
            assert(bytes.subrange(m, n).take(h.content_length as int) == bytes.skip(m).take(
                h.content_length as int,
            ));
        },
        Err(_) => {},
    }
    lemma_reads_on(bytes, n - 1, endpoints, paths);
    assert(bytes.take(n).drop_last() == bytes.take(n - 1));
    assert(bytes.take(n - 1).push(bytes.take(n).last()) == bytes.take(n));
}

/// A stream that ends before it held a single byte ends the connection in
/// silence: no failure, no answer.
pub proof fn lemma_silent_end()
    ensures
        after_end_of_stream(ConnectionView::Reading { consumed: Seq::empty() }) == (
            ConnectionView::Closed { failure: None },
            ActionView::Stop,
        ),
{
}

/// A request that no endpoint and no static path matches is answered with
/// 404: the bytes to be written are the header block of the answer.
pub proof fn lemma_unmatched_is_answered_404<H>(
    endpoints: Seq<EndpointView<H>>,
    paths: Seq<StaticPathView>,
    request: RequestView,
)
    requires
        find_endpoint(endpoints, request.method, request.url, 0) is None,
        find_static(paths, request.url, 0) is None,
    ensures
        route_step(endpoints, paths, request) == (
            ConnectionView::Flushing { request },
            ActionView::Flush {
                bytes: crate::http_response::head_bytes(
                    404,
                    crate::http_response::reason_phrase(404),
                    crate::http_response::default_fields(request.header),
                ),
                close: !asks_keep_alive(request.header),
            },
        ),
{
    crate::http_response::lemma_connection_follows_request(request.header);
}

/// One exchange: once the handler has returned, what the response holds is
/// written, and then the connection reads the next request exactly where
/// the request asked to keep the connection; else it is over.
pub proof fn lemma_connection_is_kept_on_request(request: RequestView, response: ResponseView)
    ensures
        after_handled(ConnectionView::Handling { request }, response) == (
            ConnectionView::Flushing { request },
            ActionView::Flush { bytes: response.output, close: response.closes() },
        ),
        after_flushed(ConnectionView::Flushing { request }) == if asks_keep_alive(
            request.header,
        ) {
            (ConnectionView::Reading { consumed: Seq::<u8>::empty() }, ActionView::Read)
        } else {
            (ConnectionView::Closed { failure: None }, ActionView::Stop)
        },
{
}

} // verus!
