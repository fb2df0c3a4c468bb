//! The routing table: endpoints that match a method and a path exactly,
//! and static paths that map a prefix of the path to a directory. An
//! endpoint wins over a static path; among each kind the one registered
//! first wins.

use vstd::prelude::*;
use crate::http_request::{HttpMethod, HttpRequest};
use crate::http_response::{HttpResponse, fresh};
use crate::text::{chars_of, matches_at, split, split_on, string_of};

verus! {

/// An endpoint as mathematics.
pub struct EndpointView<H> {
    pub url: Seq<char>,
    pub method: HttpMethod,
    pub callback: H,
}

/// A static path as mathematics: a prefix that ends with a slash, and the
/// directory that stands for it.
pub struct StaticPathView {
    pub prefix: Seq<char>,
    pub path: Seq<char>,
}

/// The first endpoint at or after `from` with this method and exactly this
/// path.
pub open spec fn find_endpoint<H>(
    endpoints: Seq<EndpointView<H>>,
    method: HttpMethod,
    url: Seq<char>,
    from: int,
) -> Option<int>
    decreases endpoints.len() - from,
{
    if from < 0 || from >= endpoints.len() {
        None
    } else if endpoints[from].method == method && endpoints[from].url == url {
        Some(from)
    } else {
        find_endpoint(endpoints, method, url, from + 1)
    }
}

/// A prefix as it is registered: with a slash at its end.
pub open spec fn normalized_prefix(prefix: Seq<char>) -> Seq<char> {
    if prefix.len() > 0 && prefix.last() == '/' {
        prefix
    } else {
        prefix.push('/')
    }
}

/// Whether `s` starts with `prefix`.
pub open spec fn starts_with(s: Seq<char>, prefix: Seq<char>) -> bool {
    prefix.len() <= s.len() && s.take(prefix.len() as int) == prefix
}

/// The segments of a path: its pieces between slashes.
pub open spec fn segments(path: Seq<char>) -> Seq<Seq<char>> {
    split(path, seq!['/'])
}

/// Whether a path stays below the directory it is joined to: it does not
/// start at the root, and none of its segments steps to a parent.
pub open spec fn confined(rest: Seq<char>) -> bool {
    &&& !(rest.len() > 0 && rest[0] == '/')
    &&& forall|i: int| 0 <= i < segments(rest).len() ==> #[trigger] segments(rest)[i] != seq!['.', '.']
}

/// A directory and a path below it, joined by one slash.
pub open spec fn join_path(root: Seq<char>, rest: Seq<char>) -> Seq<char> {
    if root.len() == 0 || root.last() == '/' {
        root + rest
    } else {
        root + seq!['/'] + rest
    }
}

/// The file that a static path gives for a request path: the path must
/// start with the prefix, and what follows the prefix must stay below the
/// directory.
pub open spec fn static_target(entry: StaticPathView, url: Seq<char>) -> Option<Seq<char>> {
    let rest = url.skip(entry.prefix.len() as int);
    if starts_with(url, entry.prefix) && confined(rest) {
        Some(join_path(entry.path, rest))
    } else {
        None
    }
}

/// The first static path at or after `from` that gives a file for the
/// request path, with that file.
pub open spec fn find_static(paths: Seq<StaticPathView>, url: Seq<char>, from: int) -> Option<
    (int, Seq<char>),
>
    decreases paths.len() - from,
{
    if from < 0 || from >= paths.len() {
        None
    } else {
        match static_target(paths[from], url) {
            Some(target) => Some((from, target)),
            None => find_static(paths, url, from + 1),
        }
    }
}

/// The first static path at or after `from` that gives a file which
/// exists, with that file. `is_there` says of each file whether it exists.
pub open spec fn find_existing(
    paths: Seq<StaticPathView>,
    url: Seq<char>,
    from: int,
    is_there: spec_fn(Seq<char>) -> bool,
) -> Option<(int, Seq<char>)>
    decreases paths.len() - from,
{
    if from < 0 || from >= paths.len() {
        None
    } else {
        match static_target(paths[from], url) {
            Some(target) => if is_there(target) {
                Some((from, target))
            } else {
                find_existing(paths, url, from + 1, is_there)
            },
            None => find_existing(paths, url, from + 1, is_there),
        }
    }
}

/// What a request resolves to, as mathematics.
pub enum RouteView<H> {
    Handler(H),
    StaticFile { index: int, path: Seq<char> },
    NotFound,
}

/// What the static paths at or after `from` give for a request path: the
/// first file that one of them names, else nothing.
pub open spec fn static_route<H>(paths: Seq<StaticPathView>, url: Seq<char>, from: int) -> RouteView<
    H,
> {
    match find_static(paths, url, from) {
        Some((index, path)) => RouteView::StaticFile { index, path },
        None => RouteView::NotFound,
    }
}

/// What a request resolves to: the handler of the first endpoint with its
/// method and exactly its path; where there is none, what the static paths
/// give.
pub open spec fn route_of<H>(
    endpoints: Seq<EndpointView<H>>,
    paths: Seq<StaticPathView>,
    method: HttpMethod,
    url: Seq<char>,
) -> RouteView<H> {
    match find_endpoint(endpoints, method, url, 0) {
        Some(i) => RouteView::Handler(endpoints[i].callback),
        None => static_route(paths, url, 0),
    }
}

/// How far a segment moves a walk down from a directory: one step up for
/// `..`, none for an empty segment or `.`, one step down for a name.
pub open spec fn climb(segment: Seq<char>) -> int {
    if segment == seq!['.', '.'] {
        -1
    } else if segment.len() == 0 || segment == seq!['.'] {
        0
    } else {
        1
    }
}

/// How far below its start a walk along the segments ends.
pub open spec fn depth(walk: Seq<Seq<char>>) -> int
    decreases walk.len(),
{
    if walk.len() == 0 {
        0
    } else {
        depth(walk.drop_last()) + climb(walk.last())
    }
}

/// Whether a walk along the path never stands above its start.
pub open spec fn stays_below(rest: Seq<char>) -> bool {
    forall|k: int| 0 <= k <= segments(rest).len() ==> depth(#[trigger] segments(rest).take(k)) >= 0
}

/// What a request resolves to.
pub enum Route<'a, H> {
    /// The handler of the endpoint that matches.
    Handler(&'a H),
    /// A file named by a static path. `index` is the position of the
    /// static path; where the file does not exist, the search goes on
    /// behind it.
    StaticFile { index: usize, path: String },
    /// Nothing matches: the answer is 404.
    NotFound,
}

impl<'a, H> View for Route<'a, H> {
    type V = RouteView<H>;

    open spec fn view(&self) -> RouteView<H> {
        match self {
            Route::Handler(h) => RouteView::Handler(**h),
            Route::StaticFile { index, path } => RouteView::StaticFile {
                index: *index as int,
                path: path@,
            },
            Route::NotFound => RouteView::NotFound,
        }
    }
}

/// An endpoint: a method, an exact path, and the handler for both.
struct HttpEndpoint<H> {
    url: String,
    method: HttpMethod,
    callback: H,
}

/// A static path: requests whose path starts with `prefix` are served
/// from the directory `path`.
struct HttpStaticPath {
    prefix: String,
    path: String,
}

/// The routing table of a server. `H` is the type of the handlers of
/// endpoints, `S` that of the handler of static files.
pub struct HttpServer<H, S> {
    endpoints: Vec<HttpEndpoint<H>>,
    static_paths: Vec<HttpStaticPath>,
    static_handler: Option<S>,
}

fn has_prefix(s: &[char], prefix: &[char]) -> (r: bool)
    ensures
        r == starts_with(s@, prefix@),
{
    if prefix.len() > s.len() {
        return false;
    }
    let r = matches_at(s, prefix, 0);
    r
}

fn is_confined(rest: &[char]) -> (r: bool)
    ensures
        r == confined(rest@),
{
    if rest.len() > 0 && rest[0] == '/' {
        return false;
    }
    let slash: [char; 1] = ['/'];
    let parent: [char; 2] = ['.', '.'];
    assert(slash@ =~= seq!['/']);
    let parts = split_on(rest, slash.as_slice());
    let mut i: usize = 0;
    while i < parts.len()
        invariant
            i <= parts.len(),
            parent@ == seq!['.', '.'],
            crate::text::pieces(parts@) == segments(rest@),
            forall|j: int| 0 <= j < i ==> #[trigger] segments(rest@)[j] != seq!['.', '.'],
        decreases parts.len() - i,
    {
        let part = parts[i];
        assert(part@ == segments(rest@)[i as int]);
        if part.len() == 2 && matches_at(part, parent.as_slice(), 0) {
            assert(part@.subrange(0, 2) == part@);
            return false;
        }
        assert(part@ != seq!['.', '.']) by {
            if part@.len() == 2 {
                assert(part@.subrange(0, 2) == part@);
            }
        }
        i += 1;
    }
    true
}

fn joined(root: &str, rest: &[char]) -> (r: String)
    ensures
        r@ == join_path(root@, rest@),
{
    let mut out = chars_of(root);
    let n = out.len();
    if n > 0 && out[n - 1] != '/' {
        out.push('/');
    }
    let mut i: usize = 0;
    let ghost base = out@;
    while i < rest.len()
        invariant
            i <= rest.len(),
            out@ == base + rest@.take(i as int),
        decreases rest.len() - i,
    {
        out.push(rest[i]);
        i += 1;
    }
    string_of(out.as_slice())
}

impl<H, S> HttpServer<H, S> {
    /// The endpoints, in the order of their registration.
    pub closed spec fn endpoints(&self) -> Seq<EndpointView<H>> {
        Seq::new(
            self.endpoints@.len(),
            |i: int|
                EndpointView {
                    url: self.endpoints@[i].url@,
                    method: self.endpoints@[i].method,
                    callback: self.endpoints@[i].callback,
                },
        )
    }

    /// The static paths, in the order of their registration.
    pub closed spec fn static_paths(&self) -> Seq<StaticPathView> {
        Seq::new(
            self.static_paths@.len(),
            |i: int|
                StaticPathView {
                    prefix: self.static_paths@[i].prefix@,
                    path: self.static_paths@[i].path@,
                },
        )
    }

    /// The handler of static files, where one was set.
    pub closed spec fn static_handler(&self) -> Option<S> {
        self.static_handler
    }

    /// A table without routes.
    pub fn new() -> (server: HttpServer<H, S>)
        ensures
            server.endpoints().len() == 0,
            server.static_paths().len() == 0,
            server.static_handler() is None,
    {
        HttpServer { endpoints: Vec::new(), static_paths: Vec::new(), static_handler: None }
    }

    /// Registers a static path: request paths that start with `prefix`
    /// are served from the directory `path`. The prefix gets a slash at
    /// its end if it has none.
    pub fn static_path(&mut self, prefix: &str, path: &str)
        ensures
            final(self).static_paths() == old(self).static_paths().push(
                StaticPathView { prefix: normalized_prefix(prefix@), path: path@ },
            ),
            final(self).endpoints() == old(self).endpoints(),
            final(self).static_handler() == old(self).static_handler(),
    {
        let mut chars = chars_of(prefix);
        let n = chars.len();
        if n == 0 || chars[n - 1] != '/' {
            chars.push('/');
        }
        self.static_paths.push(
            HttpStaticPath { prefix: string_of(chars.as_slice()), path: path.to_owned() },
        );
    }

    /// Sets the handler of static files, in place of the default that
    /// sends the file.
    pub fn static_serve(&mut self, cb: S)
        ensures
            final(self).static_handler() == Some(cb),
            final(self).endpoints() == old(self).endpoints(),
            final(self).static_paths() == old(self).static_paths(),
    {
        self.static_handler = Some(cb);
    }

    fn add(&mut self, url: &str, method: HttpMethod, cb: H)
        ensures
            final(self).endpoints() == old(self).endpoints().push(
                EndpointView { url: url@, method, callback: cb },
            ),
            final(self).static_paths() == old(self).static_paths(),
            final(self).static_handler() == old(self).static_handler(),
    {
        self.endpoints.push(HttpEndpoint { url: url.to_owned(), method, callback: cb });
    }

    /// Registers a handler for GET requests to exactly this path.
    pub fn get(&mut self, url: &str, callback: H)
        ensures
            final(self).endpoints() == old(self).endpoints().push(
                EndpointView { url: url@, method: HttpMethod::GET, callback },
            ),
            final(self).static_paths() == old(self).static_paths(),
            final(self).static_handler() == old(self).static_handler(),
    {
        self.add(url, HttpMethod::GET, callback);
    }

    /// Registers a handler for POST requests to exactly this path.
    pub fn post(&mut self, url: &str, callback: H)
        ensures
            final(self).endpoints() == old(self).endpoints().push(
                EndpointView { url: url@, method: HttpMethod::POST, callback },
            ),
            final(self).static_paths() == old(self).static_paths(),
            final(self).static_handler() == old(self).static_handler(),
    {
        self.add(url, HttpMethod::POST, callback);
    }

    /// Registers a handler for PUT requests to exactly this path.
    pub fn put(&mut self, url: &str, callback: H)
        ensures
            final(self).endpoints() == old(self).endpoints().push(
                EndpointView { url: url@, method: HttpMethod::PUT, callback },
            ),
            final(self).static_paths() == old(self).static_paths(),
            final(self).static_handler() == old(self).static_handler(),
    {
        self.add(url, HttpMethod::PUT, callback);
    }

    /// Registers a handler for DELETE requests to exactly this path.
    pub fn delete(&mut self, url: &str, callback: H)
        ensures
            final(self).endpoints() == old(self).endpoints().push(
                EndpointView { url: url@, method: HttpMethod::DELETE, callback },
            ),
            final(self).static_paths() == old(self).static_paths(),
            final(self).static_handler() == old(self).static_handler(),
    {
        self.add(url, HttpMethod::DELETE, callback);
    }

    /// The handler of static files, where one was set.
    pub fn custom_static_handler(&self) -> (handler: Option<&S>)
        ensures
            match handler {
                Some(h) => self.static_handler() == Some(*h),
                None => self.static_handler() is None,
            },
    {
        self.static_handler.as_ref()
    }

    /// How many static paths are registered.
    pub fn static_path_count(&self) -> (count: usize)
        ensures
            count == self.static_paths().len(),
    {
        self.static_paths.len()
    }

    /// The position of the first endpoint registered for this method and
    /// exactly this path.
    pub fn find_handler(&self, url: &str, method: HttpMethod) -> (found: Option<usize>)
        ensures
            match find_endpoint(self.endpoints(), method, url@, 0) {
                Some(i) => found matches Some(k) && k == i && i < self.endpoints().len(),
                None => found is None,
            },
    {
        let mut i: usize = 0;
        while i < self.endpoints.len()
            invariant
                i <= self.endpoints.len(),
                self.endpoints().len() == self.endpoints.len(),
                find_endpoint(self.endpoints(), method, url@, 0) == find_endpoint(
                    self.endpoints(),
                    method,
                    url@,
                    i as int,
                ),
            decreases self.endpoints.len() - i,
        {
            let endpoint = &self.endpoints[i];
            if method == endpoint.method && crate::text::str_eq(url, endpoint.url.as_str()) {
                return Some(i);
            }
            i += 1;
        }
        None
    }

    /// The handler of the endpoint at this position.
    pub fn handler(&self, index: usize) -> (handler: Option<&H>)
        ensures
            match handler {
                Some(h) => index < self.endpoints().len() && *h == self.endpoints()[index as int].callback,
                None => index >= self.endpoints().len(),
            },
    {
        if index < self.endpoints.len() {
            Some(&self.endpoints[index].callback)
        } else {
            None
        }
    }

    /// The handler of the first endpoint registered for this method and
    /// exactly this path.
    pub fn get_request_handler(&self, url: &str, method: HttpMethod) -> (handler: Option<&H>)
        ensures
            match find_endpoint(self.endpoints(), method, url@, 0) {
                Some(i) => handler matches Some(h) && *h == self.endpoints()[i].callback,
                None => handler is None,
            },
    {
        match self.find_handler(url, method) {
            Some(i) => self.handler(i),
            None => None,
        }
    }

    /// The first static path at or after position `from` that gives a
    /// file for this request path, and the file. Whether the file exists
    /// is for the caller to find out; where it does not, the search goes
    /// on at the next position.
    pub fn get_static_file(&self, url: &str, from: usize) -> (found: Option<(usize, String)>)
        ensures
            match find_static(self.static_paths(), url@, from as int) {
                Some((i, target)) => found matches Some((index, path)) && index == i && path@
                    == target,
                None => found is None,
            },
    {
        let chars = chars_of(url);
        let mut i: usize = from;
        while i < self.static_paths.len()
            invariant
                from <= i,
                chars@ == url@,
                find_static(self.static_paths(), url@, from as int) == find_static(
                    self.static_paths(),
                    url@,
                    i as int,
                ),
            decreases self.static_paths.len() - i,
        {
            let entry = &self.static_paths[i];
            let prefix = chars_of(entry.prefix.as_str());
            if has_prefix(chars.as_slice(), prefix.as_slice()) {
                let n = chars.len();
                let rest = vstd::slice::slice_subrange(chars.as_slice(), prefix.len(), n);
                if is_confined(rest) {
                    return Some((i, joined(entry.path.as_str(), rest)));
                }
            }
            i += 1;
        }
        None
    }

    /// What a request for `url` with `method` resolves to: the handler of
    /// the first endpoint that matches, else the first file that a static
    /// path names, else nothing.
    pub fn resolve(&self, method: HttpMethod, url: &str) -> (route: Route<'_, H>)
        ensures
            route@ == route_of(self.endpoints(), self.static_paths(), method, url@),
    {
        match self.get_request_handler(url, method) {
            Some(h) => Route::Handler(h),
            None => self.resolve_after(url, 0),
        }
    }

    /// What a request resolves to when no endpoint matches and the static
    /// paths before position `from` gave no file that exists.
    pub fn resolve_after(&self, url: &str, from: usize) -> (route: Route<'_, H>)
        ensures
            route@ == static_route::<H>(self.static_paths(), url@, from as int),
    {
        match self.get_static_file(url, from) {
            Some((index, path)) => Route::StaticFile { index, path },
            None => Route::NotFound,
        }
    }
}

/// The answer to a request that nothing matches: status 404, no body.
pub fn respond_not_found(request: &HttpRequest) -> (response: HttpResponse)
    ensures
        response@ == fresh(request.header@).with_status(404).ended(),
{
    let mut response = crate::http_response::new(request);
    response.status(404);
    let _ = response.end();
    response
}

/// `find_endpoint` gives the first endpoint at or after `from` with the
/// method and the path, and nothing exactly when there is none.
pub proof fn lemma_find_endpoint<H>(
    endpoints: Seq<EndpointView<H>>,
    method: HttpMethod,
    url: Seq<char>,
    from: int,
)
    requires
        0 <= from,
    ensures
        match find_endpoint(endpoints, method, url, from) {
            Some(i) => {
                &&& from <= i < endpoints.len()
                &&& endpoints[i].method == method
                &&& endpoints[i].url == url
                &&& forall|j: int|
                    from <= j < i ==> !((#[trigger] endpoints[j]).method == method
                        && endpoints[j].url == url)
            },
            None => forall|j: int|
                from <= j < endpoints.len() ==> !((#[trigger] endpoints[j]).method == method
                    && endpoints[j].url == url),
        },
    decreases endpoints.len() - from,
{
    if from < endpoints.len() && !(endpoints[from].method == method && endpoints[from].url
        == url) {
        lemma_find_endpoint(endpoints, method, url, from + 1);
    }
}

/// `find_static` gives the first static path at or after `from` that names
/// a file for the request path, and nothing exactly when none does.
pub proof fn lemma_find_static(paths: Seq<StaticPathView>, url: Seq<char>, from: int)
    requires
        0 <= from,
    ensures
        match find_static(paths, url, from) {
            Some((i, target)) => {
                &&& from <= i < paths.len()
                &&& static_target(paths[i], url) == Some(target)
                &&& forall|j: int| from <= j < i ==> static_target(#[trigger] paths[j], url) is None
            },
            None => forall|j: int|
                from <= j < paths.len() ==> static_target(#[trigger] paths[j], url) is None,
        },
    decreases paths.len() - from,
{
    if from < paths.len() && static_target(paths[from], url) is None {
        lemma_find_static(paths, url, from + 1);
    }
}

/// The search for a file that exists goes by the files that the static
/// paths name, one after the other: where the file that the search from
/// `from` names exists, it is the answer; where it does not, the answer is
/// that of the search behind it; where no file is named, there is none.
pub proof fn lemma_search_skips_missing_files(
    paths: Seq<StaticPathView>,
    url: Seq<char>,
    from: int,
    is_there: spec_fn(Seq<char>) -> bool,
)
    requires
        0 <= from,
    ensures
        find_existing(paths, url, from, is_there) == match find_static(paths, url, from) {
            Some((i, target)) => if is_there(target) {
                Some((i, target))
            } else {
                find_existing(paths, url, i + 1, is_there)
            },
            None => None,
        },
    decreases paths.len() - from,
{
    if from < paths.len() && static_target(paths[from], url) is None {
        lemma_search_skips_missing_files(paths, url, from + 1, is_there);
    }
}

/// An endpoint registered for a method and a path takes the request,
/// whatever the static paths are: a static path whose prefix matches too
/// does not get it.
pub proof fn lemma_endpoint_takes_priority<H>(
    endpoints: Seq<EndpointView<H>>,
    paths: Seq<StaticPathView>,
    method: HttpMethod,
    url: Seq<char>,
    i: int,
)
    requires
        0 <= i < endpoints.len(),
        endpoints[i].method == method,
        endpoints[i].url == url,
    ensures
        route_of(endpoints, paths, method, url) is Handler,
        find_endpoint(endpoints, method, url, 0) matches Some(first) && first <= i && route_of(
            endpoints,
            paths,
            method,
            url,
        ) == RouteView::Handler(endpoints[first].callback),
{
    lemma_find_endpoint(endpoints, method, url, 0);
}

/// A walk without a step to a parent never stands above its start.
pub proof fn lemma_depth_without_parent(walk: Seq<Seq<char>>)
    requires
        forall|i: int| 0 <= i < walk.len() ==> #[trigger] walk[i] != seq!['.', '.'],
    ensures
        depth(walk) >= 0,
    decreases walk.len(),
{
    if walk.len() > 0 {
        lemma_depth_without_parent(walk.drop_last());
    }
}

/// The file that a static path gives lies in its directory: it is the
/// directory joined with what follows the prefix, and a walk along that
/// part does not start at the root and never stands above the directory.
pub proof fn lemma_static_file_stays_below_root(entry: StaticPathView, url: Seq<char>)
    requires
        static_target(entry, url) is Some,
    ensures
        static_target(entry, url) == Some(
            join_path(entry.path, url.skip(entry.prefix.len() as int)),
        ),
        starts_with(static_target(entry, url)->0, entry.path),
        !starts_with(url.skip(entry.prefix.len() as int), seq!['/']),
        stays_below(url.skip(entry.prefix.len() as int)),
{
    let rest = url.skip(entry.prefix.len() as int);
    let target = join_path(entry.path, rest);
    assert(target.take(entry.path.len() as int) == entry.path);
    if rest.len() > 0 {
        assert(rest.take(1)[0] == rest[0]);
    }
    let walk = segments(rest);
    assert forall|k: int| 0 <= k <= walk.len() implies depth(#[trigger] walk.take(k)) >= 0 by {
        lemma_depth_without_parent(walk.take(k));
    }
}

/// A path with a segment `..` gets no file from any static path.
pub proof fn lemma_parent_segment_is_refused(entry: StaticPathView, url: Seq<char>, i: int)
    requires
        0 <= i < segments(url.skip(entry.prefix.len() as int)).len(),
        segments(url.skip(entry.prefix.len() as int))[i] == seq!['.', '.'],
    ensures
        static_target(entry, url) is None,
{
}

} // verus!
