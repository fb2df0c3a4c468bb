//! A parsed request: protocol version, method, target, header table and
//! body.

use vstd::prelude::*;
use crate::http_header::{Fields, HttpHeader, lookup};
use crate::text::{lowercase_of, str_eq, to_lowercase};

verus! {

/// The protocol version named in a request line.
#[derive(PartialEq, Eq, Clone, Copy, Debug, Structural)]
pub enum HttpVersion {
    V1_1,
    V2,
    UNKNOWN,
}

impl HttpVersion {
    /// The version that a request line's last word names.
    pub open spec fn parse(word: Seq<char>) -> HttpVersion {
        if word == "HTTP/1.1"@ {
            HttpVersion::V1_1
        } else if word == "HTTP/2"@ {
            HttpVersion::V2
        } else {
            HttpVersion::UNKNOWN
        }
    }

    /// The word that a status line starts with. Only HTTP/1.1 is ever
    /// written; every other version has the empty text.
    pub open spec fn text(self) -> Seq<char> {
        match self {
            HttpVersion::V1_1 => "HTTP/1.1"@,
            _ => ""@,
        }
    }

    /// Reads a version from the last word of a request line.
    pub fn from_str(version: &str) -> (v: HttpVersion)
        ensures
            v == HttpVersion::parse(version@),
    {
        if str_eq(version, "HTTP/1.1") {
            HttpVersion::V1_1
        } else if str_eq(version, "HTTP/2") {
            HttpVersion::V2
        } else {
            HttpVersion::UNKNOWN
        }
    }

    /// The word that a status line starts with.
    pub fn to_str(self) -> (s: &'static str)
        ensures
            s@ == self.text(),
    {
        match self {
            HttpVersion::V1_1 => "HTTP/1.1",
            _ => "",
        }
    }
}

/// The method named in a request line.
#[derive(PartialEq, Eq, Clone, Copy, Debug, Structural)]
pub enum HttpMethod {
    GET,
    POST,
    PUT,
    DELETE,
    UNKNOWN,
}

impl HttpMethod {
    /// The method that a request line's first word names.
    pub open spec fn parse(word: Seq<char>) -> HttpMethod {
        if word == "GET"@ {
            HttpMethod::GET
        } else if word == "POST"@ {
            HttpMethod::POST
        } else if word == "PUT"@ {
            HttpMethod::PUT
        } else if word == "DELETE"@ {
            HttpMethod::DELETE
        } else {
            HttpMethod::UNKNOWN
        }
    }

    /// The word that names the method; an unknown method has the empty
    /// text.
    pub open spec fn text(self) -> Seq<char> {
        match self {
            HttpMethod::GET => "GET"@,
            HttpMethod::POST => "POST"@,
            HttpMethod::PUT => "PUT"@,
            HttpMethod::DELETE => "DELETE"@,
            HttpMethod::UNKNOWN => ""@,
        }
    }

    /// Reads a method from the first word of a request line.
    pub fn from_str(method: &str) -> (m: HttpMethod)
        ensures
            m == HttpMethod::parse(method@),
    {
        if str_eq(method, "GET") {
            HttpMethod::GET
        } else if str_eq(method, "POST") {
            HttpMethod::POST
        } else if str_eq(method, "PUT") {
            HttpMethod::PUT
        } else if str_eq(method, "DELETE") {
            HttpMethod::DELETE
        } else {
            HttpMethod::UNKNOWN
        }
    }

    /// The word that names the method.
    pub fn to_str(self) -> (s: &'static str)
        ensures
            s@ == self.text(),
    {
        match self {
            HttpMethod::GET => "GET",
            HttpMethod::POST => "POST",
            HttpMethod::PUT => "PUT",
            HttpMethod::DELETE => "DELETE",
            HttpMethod::UNKNOWN => "",
        }
    }

    /// Writing a method and reading it back gives the same method.
    pub proof fn lemma_text_round_trip(self)
        ensures
            HttpMethod::parse(self.text()) == self,
    {
        reveal_strlit("GET");
        reveal_strlit("POST");
        reveal_strlit("PUT");
        reveal_strlit("DELETE");
        reveal_strlit("");
        assert("GET"@.len() == 3 && "POST"@.len() == 4 && "PUT"@.len() == 3);
        assert("DELETE"@.len() == 6 && ""@.len() == 0);
        assert("GET"@[0] == 'G' && "PUT"@[0] == 'P');
    }
}

/// A request as mathematics.
pub struct RequestView {
    pub http_version: HttpVersion,
    pub method: HttpMethod,
    pub url: Seq<char>,
    pub header: Fields,
    pub body: Seq<u8>,
}

/// One request, as the parser read it.
pub struct HttpRequest {
    pub http_version: HttpVersion,
    pub method: HttpMethod,
    pub url: String,
    pub header: HttpHeader,
    pub body: Vec<u8>,
}

impl View for HttpRequest {
    type V = RequestView;

    open spec fn view(&self) -> RequestView {
        RequestView {
            http_version: self.http_version,
            method: self.method,
            url: self.url@,
            header: self.header@,
            body: self.body@,
        }
    }
}

/// Whether these header fields ask to keep the connection open: the value
/// of `Connection`, in any case of letters, is `keep-alive`.
pub open spec fn asks_keep_alive(header: Fields) -> bool {
    lowercase_of(lookup(header, lowercase_of("connection"@))) == "keep-alive"@
}

impl HttpRequest {
    /// Whether the client asked to keep the connection open after this
    /// exchange. Without a `Connection` header the connection closes.
    pub fn keep_alive(&self) -> (keep: bool)
        ensures
            keep == asks_keep_alive(self.header@),
    {
        let value = to_lowercase(self.header.get("connection"));
        str_eq(value.as_str(), "keep-alive")
    }
}

} // verus!
