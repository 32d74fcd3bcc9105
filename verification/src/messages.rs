//! Data model of the request/response traffic between the front-end and a
//! worker: HTTP methods, URIs, parsed requests, and the two response
//! messages of the gateway contract.

use vstd::prelude::*;
use vstd::string::StrSliceExecFns;

verus! {

/// The request methods the front-end accepts. Any other method is
/// rejected before dispatch.
#[derive(Clone, Copy, Debug, PartialEq, Eq, Structural)]
pub enum HttpMethod {
    POST,
    GET,
    PATCH,
    OPTIONS,
    DELETE,
    HEAD,
    PUT,
}

/// The upper-case ASCII fold of one character; characters outside
/// `'a'..='z'` are unchanged.
pub open spec fn upper_char(c: char) -> char {
    if 'a' <= c && c <= 'z' {
        (((c as u32) - 32) as u32) as char
    } else {
        c
    }
}

/// The upper-case ASCII fold of a character sequence.
pub open spec fn upper_chars(s: Seq<char>) -> Seq<char> {
    s.map_values(|c: char| upper_char(c))
}

/// Upper-case ASCII fold of one character.
fn upper_ascii_char(c: char) -> (r: char)
    ensures
        r == upper_char(c),
{
    if 'a' <= c && c <= 'z' {
        proof {
            vstd::utf8::char_is_scalar(c);
            vstd::utf8::char_u32_cast(c, c as u32);
        }
        (((c as u32) - 32) as u8) as char
    } else {
        c
    }
}

/// True iff the upper-case ASCII fold of `value` equals `lit`.
fn matches_upper(value: &str, lit: &str) -> (r: bool)
    ensures
        r == (upper_chars(value@) == lit@),
{
    let n = value.unicode_len();
    if n != lit.unicode_len() {
        proof {
            assert(upper_chars(value@).len() == value@.len());
        }
        return false;
    }
    let mut i: usize = 0;
    while i < n
        invariant
            0 <= i <= n,
            n == value@.len(),
            n == lit@.len(),
            forall|j: int| 0 <= j < i ==> upper_char(value@[j]) == lit@[j],
        decreases n - i,
    {
        let c = upper_ascii_char(value.get_char(i));
        if c != lit.get_char(i) {
            proof {
                assert(upper_chars(value@)[i as int] != lit@[i as int]);
            }
            return false;
        }
        i += 1;
    }
    proof {
        assert(upper_chars(value@) =~= lit@);
    }
    true
}

impl HttpMethod {
    /// The method's canonical upper-case name.
    pub open spec fn spec_name(self) -> Seq<char> {
        match self {
            HttpMethod::POST => "POST"@,
            HttpMethod::GET => "GET"@,
            HttpMethod::PATCH => "PATCH"@,
            HttpMethod::OPTIONS => "OPTIONS"@,
            HttpMethod::DELETE => "DELETE"@,
            HttpMethod::HEAD => "HEAD"@,
            HttpMethod::PUT => "PUT"@,
        }
    }

    /// The method's canonical upper-case name, as used in the gateway
    /// scope's `method` field.
    pub fn name(&self) -> (r: &'static str)
        ensures
            r@ == self.spec_name(),
    {
        match self {
            HttpMethod::POST => "POST",
            HttpMethod::GET => "GET",
            HttpMethod::PATCH => "PATCH",
            HttpMethod::OPTIONS => "OPTIONS",
            HttpMethod::DELETE => "DELETE",
            HttpMethod::HEAD => "HEAD",
            HttpMethod::PUT => "PUT",
        }
    }

    /// Parses a method string case-insensitively. Returns `Ok` exactly when
    /// the upper-case fold of `value` is one of the enumerated methods;
    /// otherwise hands the rejected string back unchanged.
    pub fn try_from(value: String) -> (r: Result<HttpMethod, String>)
        ensures
            match r {
                Ok(m) => upper_chars(value@) == m.spec_name(),
                Err(e) => e@ == value@ && (forall|m: HttpMethod|
                    upper_chars(value@) != m.spec_name()),
            },
    {
        if matches_upper(value.as_str(), "POST") {
            Ok(HttpMethod::POST)
        } else if matches_upper(value.as_str(), "GET") {
            Ok(HttpMethod::GET)
        } else if matches_upper(value.as_str(), "PATCH") {
            Ok(HttpMethod::PATCH)
        } else if matches_upper(value.as_str(), "OPTIONS") {
            Ok(HttpMethod::OPTIONS)
        } else if matches_upper(value.as_str(), "DELETE") {
            Ok(HttpMethod::DELETE)
        } else if matches_upper(value.as_str(), "HEAD") {
            Ok(HttpMethod::HEAD)
        } else if matches_upper(value.as_str(), "PUT") {
            Ok(HttpMethod::PUT)
        } else {
            Err(value)
        }
    }
}

/// Mathematical image of a `Uri`.
#[verifier::ext_equal]
pub struct UriView {
    pub scheme: Option<Seq<char>>,
    pub path: Seq<char>,
    pub query_string: Option<Seq<char>>,
}

/// The components of a request target: optional scheme, path, and
/// optional query string.
#[derive(Debug)]
pub struct Uri {
    scheme: Option<String>,
    path: String,
    query_string: Option<String>,
}

/// The view of an optional string.
pub open spec fn view_opt_string(o: Option<String>) -> Option<Seq<char>> {
    match o {
        Some(s) => Some(s@),
        None => None,
    }
}

impl View for Uri {
    type V = UriView;

    closed spec fn view(&self) -> UriView {
        UriView {
            scheme: view_opt_string(self.scheme),
            path: self.path@,
            query_string: view_opt_string(self.query_string),
        }
    }
}

impl Uri {
    pub fn new(scheme: Option<String>, path: String, query_string: Option<String>) -> (r: Uri)
        ensures
            r@.scheme == view_opt_string(scheme),
            r@.path == path@,
            r@.query_string == view_opt_string(query_string),
    {
        Uri { scheme, path, query_string }
    }

    pub fn scheme(&self) -> (r: Option<&str>)
        ensures
            match r {
                Some(s) => self@.scheme == Some(s@),
                None => self@.scheme is None,
            },
    {
        match &self.scheme {
            Some(s) => Some(s.as_str()),
            None => None,
        }
    }

    pub fn path(&self) -> (r: &str)
        ensures
            r@ == self@.path,
    {
        self.path.as_str()
    }

    pub fn query_string(&self) -> (r: Option<&str>)
        ensures
            match r {
                Some(s) => self@.query_string == Some(s@),
                None => self@.query_string is None,
            },
    {
        match &self.query_string {
            Some(s) => Some(s.as_str()),
            None => None,
        }
    }
}

/// Mathematical image of an `HttpResponseStart`: header names and values
/// as raw byte sequences, in emission order.
#[verifier::ext_equal]
pub struct StartView {
    pub response_type: Seq<char>,
    pub status: u16,
    pub headers: Seq<(Seq<u8>, Seq<u8>)>,
    pub trailers: bool,
}

/// First message of a response stream: status and headers, exactly as the
/// application emitted them. Header bytes are neither normalized nor
/// reordered.
#[derive(Debug)]
pub struct HttpResponseStart {
    pub response_type: String,
    pub status: u16,
    pub headers: Vec<(Vec<u8>, Vec<u8>)>,
    pub trailers: bool,
}

/// The view of a byte-pair list: each side as a byte sequence.
pub open spec fn view_byte_pairs(h: Seq<(Vec<u8>, Vec<u8>)>) -> Seq<(Seq<u8>, Seq<u8>)> {
    h.map_values(|p: (Vec<u8>, Vec<u8>)| (p.0@, p.1@))
}

impl View for HttpResponseStart {
    type V = StartView;

    open spec fn view(&self) -> StartView {
        StartView {
            response_type: self.response_type@,
            status: self.status,
            headers: view_byte_pairs(self.headers@),
            trailers: self.trailers,
        }
    }
}

impl HttpResponseStart {
    pub fn new(response_type: &str, status: u16) -> (r: HttpResponseStart)
        ensures
            r@.response_type == response_type@,
            r@.status == status,
            r@.headers == Seq::<(Seq<u8>, Seq<u8>)>::empty(),
            r@.trailers == false,
    {
        let r = HttpResponseStart {
            response_type: response_type.to_owned(),
            status,
            headers: Vec::new(),
            trailers: false,
        };
        proof {
            assert(r@.headers =~= Seq::<(Seq<u8>, Seq<u8>)>::empty());
        }
        r
    }

    /// Appends one header pair; every earlier pair keeps its place.
    pub fn add_header(&mut self, name: &[u8], value: &[u8])
        ensures
            final(self)@.headers == old(self)@.headers.push((name@, value@)),
            final(self)@.response_type == old(self)@.response_type,
            final(self)@.status == old(self)@.status,
            final(self)@.trailers == old(self)@.trailers,
    {
        let pair = (vstd::slice::slice_to_vec(name), vstd::slice::slice_to_vec(value));
        self.headers.push(pair);
        proof {
            assert(view_byte_pairs(self.headers@) =~= view_byte_pairs(
                old(self).headers@,
            ).push((name@, value@)));
        }
    }

    pub fn set_trailers(&mut self, trailers: bool)
        ensures
            final(self)@.trailers == trailers,
            final(self)@.response_type == old(self)@.response_type,
            final(self)@.status == old(self)@.status,
            final(self)@.headers == old(self)@.headers,
    {
        self.trailers = trailers;
    }
}

/// Terminating response payload message.
#[derive(Debug)]
pub struct HttpResponseBody {
    pub body: Vec<u8>,
}

impl View for HttpResponseBody {
    type V = Seq<u8>;

    open spec fn view(&self) -> Seq<u8> {
        self.body@
    }
}

impl HttpResponseBody {
    pub fn new(body: Vec<u8>) -> (r: HttpResponseBody)
        ensures
            r@ == body@,
    {
        HttpResponseBody { body }
    }

    pub fn body(&self) -> (r: &[u8])
        ensures
            r@ == self@,
    {
        self.body.as_slice()
    }
}

/// Mathematical image of a response message.
#[verifier::ext_equal]
pub enum MsgView {
    Start(StartView),
    Body(Seq<u8>),
}

/// A response-direction message on the IPC channel: the tagged sum of the
/// two gateway response events.
#[derive(Debug)]
pub enum ASGIMessages {
    HttpResponseStart(HttpResponseStart),
    HttpResponseBody(HttpResponseBody),
}

impl View for ASGIMessages {
    type V = MsgView;

    open spec fn view(&self) -> MsgView {
        match self {
            ASGIMessages::HttpResponseStart(s) => MsgView::Start(s@),
            ASGIMessages::HttpResponseBody(b) => MsgView::Body(b@),
        }
    }
}

/// Mathematical image of a `ParsedRequest`.
#[verifier::ext_equal]
pub struct ReqView {
    pub headers: Seq<(Seq<char>, Seq<char>)>,
    pub method: HttpMethod,
    pub body: Seq<u8>,
    pub uri: UriView,
}

/// One fully-buffered HTTP request, as handed from the front-end to a
/// worker. Headers keep their arrival order.
#[derive(Debug)]
pub struct ParsedRequest {
    pub headers: Vec<(String, String)>,
    pub method: HttpMethod,
    pub body: Vec<u8>,
    pub uri: Uri,
}

/// The view of a header list: each name and value as a character sequence.
pub open spec fn view_str_pairs(h: Seq<(String, String)>) -> Seq<(Seq<char>, Seq<char>)> {
    h.map_values(|p: (String, String)| (p.0@, p.1@))
}

impl View for ParsedRequest {
    type V = ReqView;

    open spec fn view(&self) -> ReqView {
        ReqView {
            headers: view_str_pairs(self.headers@),
            method: self.method,
            body: self.body@,
            uri: self.uri@,
        }
    }
}

impl ParsedRequest {
    pub fn new(headers: Vec<(String, String)>, method: HttpMethod, body: Vec<u8>, uri: Uri) -> (r:
        ParsedRequest)
        ensures
            r@.headers == view_str_pairs(headers@),
            r@.method == method,
            r@.body == body@,
            r@.uri == uri@,
    {
        ParsedRequest { headers, method, body, uri }
    }
}

} // verus!
