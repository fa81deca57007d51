//! HTTP/1.1 request parsing, WebSocket handshake validation, the accept-key
//! derivation, and the upgrade response text.
use vstd::prelude::*;

use vstd::string::StringSliceAdditionalSpecFns;

verus! {

/// What can go wrong between the first request byte and an open session.
#[derive(Clone, Copy, Debug, PartialEq, Eq, Structural)]
pub enum ServerError {
    /// A malformed request line or header line.
    HttpRequestParse,
    /// A request that is not a well-formed WebSocket upgrade.
    HandshakeValidation,
    /// A method outside the known set.
    InvalidHttpMethod,
    /// The underlying stream failed; the I/O error itself stays with the caller.
    IO,
}

/// The bytes of the literal `HTTP/1.1`.
pub open spec fn http11_bytes() -> Seq<u8> {
    seq![
        'H' as u8,
        'T' as u8,
        'T' as u8,
        'P' as u8,
        '/' as u8,
        '1' as u8,
        '.' as u8,
        '1' as u8,
    ]
}

/// The bytes of the header name `Connection`.
pub open spec fn connection_name_bytes() -> Seq<u8> {
    seq![
        'C' as u8,
        'o' as u8,
        'n' as u8,
        'n' as u8,
        'e' as u8,
        'c' as u8,
        't' as u8,
        'i' as u8,
        'o' as u8,
        'n' as u8,
    ]
}

/// The bytes of the header name (and value fragment) `Upgrade`.
pub open spec fn upgrade_name_bytes() -> Seq<u8> {
    seq!['U' as u8, 'p' as u8, 'g' as u8, 'r' as u8, 'a' as u8, 'd' as u8, 'e' as u8]
}

/// The bytes of the header value `websocket`.
pub open spec fn websocket_value_bytes() -> Seq<u8> {
    seq![
        'w' as u8,
        'e' as u8,
        'b' as u8,
        's' as u8,
        'o' as u8,
        'c' as u8,
        'k' as u8,
        'e' as u8,
        't' as u8,
    ]
}

/// The bytes of the header name `Sec-WebSocket-Version`.
pub open spec fn version_name_bytes() -> Seq<u8> {
    seq![
        'S' as u8,
        'e' as u8,
        'c' as u8,
        '-' as u8,
        'W' as u8,
        'e' as u8,
        'b' as u8,
        'S' as u8,
        'o' as u8,
        'c' as u8,
        'k' as u8,
        'e' as u8,
        't' as u8,
        '-' as u8,
        'V' as u8,
        'e' as u8,
        'r' as u8,
        's' as u8,
        'i' as u8,
        'o' as u8,
        'n' as u8,
    ]
}

/// The bytes of the header name `Sec-WebSocket-Key`.
pub open spec fn key_name_bytes() -> Seq<u8> {
    seq![
        'S' as u8,
        'e' as u8,
        'c' as u8,
        '-' as u8,
        'W' as u8,
        'e' as u8,
        'b' as u8,
        'S' as u8,
        'o' as u8,
        'c' as u8,
        'k' as u8,
        'e' as u8,
        't' as u8,
        '-' as u8,
        'K' as u8,
        'e' as u8,
        'y' as u8,
    ]
}

fn token_http11() -> (t: &'static [u8])
    ensures
        t@ == http11_bytes(),
{
    let s = "HTTP/1.1";
    proof {
        reveal_strlit("HTTP/1.1");
        assert(vstd::string::is_ascii(s));
        vstd::string::is_ascii_spec_bytes(s);
        assert(s.spec_bytes() =~= http11_bytes());
    }
    s.as_bytes()
}

fn token_connection() -> (t: &'static [u8])
    ensures
        t@ == connection_name_bytes(),
{
    let s = "Connection";
    proof {
        reveal_strlit("Connection");
        assert(vstd::string::is_ascii(s));
        vstd::string::is_ascii_spec_bytes(s);
        assert(s.spec_bytes() =~= connection_name_bytes());
    }
    s.as_bytes()
}

fn token_upgrade() -> (t: &'static [u8])
    ensures
        t@ == upgrade_name_bytes(),
{
    let s = "Upgrade";
    proof {
        reveal_strlit("Upgrade");
        assert(vstd::string::is_ascii(s));
        vstd::string::is_ascii_spec_bytes(s);
        assert(s.spec_bytes() =~= upgrade_name_bytes());
    }
    s.as_bytes()
}

fn token_websocket() -> (t: &'static [u8])
    ensures
        t@ == websocket_value_bytes(),
{
    let s = "websocket";
    proof {
        reveal_strlit("websocket");
        assert(vstd::string::is_ascii(s));
        vstd::string::is_ascii_spec_bytes(s);
        assert(s.spec_bytes() =~= websocket_value_bytes());
    }
    s.as_bytes()
}

fn token_version() -> (t: &'static [u8])
    ensures
        t@ == version_name_bytes(),
{
    let s = "Sec-WebSocket-Version";
    proof {
        reveal_strlit("Sec-WebSocket-Version");
        assert(vstd::string::is_ascii(s));
        vstd::string::is_ascii_spec_bytes(s);
        assert(s.spec_bytes() =~= version_name_bytes());
    }
    s.as_bytes()
}

fn token_key() -> (t: &'static [u8])
    ensures
        t@ == key_name_bytes(),
{
    let s = "Sec-WebSocket-Key";
    proof {
        reveal_strlit("Sec-WebSocket-Key");
        assert(vstd::string::is_ascii(s));
        vstd::string::is_ascii_spec_bytes(s);
        assert(s.spec_bytes() =~= key_name_bytes());
    }
    s.as_bytes()
}

/// Whether two byte slices hold the same bytes.
pub fn bytes_eq(a: &[u8], b: &[u8]) -> (r: bool)
    ensures
        r == (a@ == b@),
{
    if a.len() != b.len() {
        return false;
    }
    let n = a.len();
    let mut i: usize = 0;
    while i < n
        invariant
            i <= n,
            n == a@.len(),
            a@.len() == b@.len(),
            forall|q: int| 0 <= q < i ==> a@[q] == b@[q],
        decreases n - i,
    {
        if a[i] != b[i] {
            return false;
        }
        i = i + 1;
    }
    proof {
        assert(a@ =~= b@);
    }
    true
}

/// Copies a byte vector.
pub fn clone_bytes(v: &Vec<u8>) -> (r: Vec<u8>)
    ensures
        r@ == v@,
{
    let n = v.len();
    let mut r: Vec<u8> = Vec::new();
    let mut i: usize = 0;
    while i < n
        invariant
            i <= n,
            n == v@.len(),
            r@ == v@.take(i as int),
        decreases n - i,
    {
        r.push(v[i]);
        proof {
            assert(v@.take(i + 1) =~= v@.take(i as int).push(v@[i as int]));
        }
        i = i + 1;
    }
    proof {
        assert(v@.take(n as int) =~= v@);
    }
    r
}

fn match_at(hay: &[u8], needle: &[u8], k: usize) -> (r: bool)
    requires
        k + needle@.len() <= hay@.len(),
    ensures
        r == (hay@.subrange(k as int, k as int + needle@.len() as int) == needle@),
{
    let n = hay.len();
    let m = needle.len();
    let mut t: usize = 0;
    while t < m
        invariant
            t <= m,
            m == needle@.len(),
            n == hay@.len(),
            k + m <= n,
            forall|q: int| 0 <= q < t ==> hay@[k + q] == needle@[q],
        decreases m - t,
    {
        if hay[k + t] != needle[t] {
            proof {
                assert(hay@.subrange(k as int, k as int + m as int)[t as int] != needle@[t as int]);
            }
            return false;
        }
        t = t + 1;
    }
    proof {
        assert(hay@.subrange(k as int, k as int + m as int) =~= needle@);
    }
    true
}

/// Whether the needle occurs as a contiguous run inside the haystack.
pub open spec fn spec_contains_seq(hay: Seq<u8>, needle: Seq<u8>) -> bool {
    exists|k: int|
        0 <= k && k + needle.len() <= hay.len() && #[trigger] hay.subrange(k, k + needle.len())
            == needle
}

/// Searches the haystack for the needle as a contiguous run of bytes.
pub fn contains_seq(hay: &[u8], needle: &[u8]) -> (r: bool)
    ensures
        r == spec_contains_seq(hay@, needle@),
{
    let n = hay.len();
    let m = needle.len();
    if m > n {
        return false;
    }
    if m == 0 {
        proof {
            assert(hay@.subrange(0, 0 + needle@.len() as int) =~= needle@);
        }
        return true;
    }
    let mut k: usize = 0;
    while k <= n - m
        invariant
            0 < m <= n,
            n == hay@.len(),
            m == needle@.len(),
            k <= n - m + 1,
            forall|j: int| 0 <= j < k ==> #[trigger] hay@.subrange(j, j + m as int) != needle@,
        decreases n - k,
    {
        if match_at(hay, needle, k) {
            return true;
        }
        k = k + 1;
    }
    false
}

/// The request methods this library knows.
#[derive(Clone, Copy, Debug, PartialEq, Eq, Structural)]
pub enum HttpMethod {
    GET,
    POST,
    PUT,
    DELETE,
    CONNECT,
    OPTIONS,
    TRACE,
    PATCH,
    HEAD,
}

/// The bytes of a method's token on the request line.
pub open spec fn method_bytes(method: HttpMethod) -> Seq<u8> {
    match method {
        HttpMethod::GET => seq!['G' as u8, 'E' as u8, 'T' as u8],
        HttpMethod::POST => seq!['P' as u8, 'O' as u8, 'S' as u8, 'T' as u8],
        HttpMethod::PUT => seq!['P' as u8, 'U' as u8, 'T' as u8],
        HttpMethod::DELETE => seq!['D' as u8, 'E' as u8, 'L' as u8, 'E' as u8, 'T' as u8, 'E' as u8],
        HttpMethod::CONNECT => seq![
            'C' as u8,
            'O' as u8,
            'N' as u8,
            'N' as u8,
            'E' as u8,
            'C' as u8,
            'T' as u8,
        ],
        HttpMethod::OPTIONS => seq![
            'O' as u8,
            'P' as u8,
            'T' as u8,
            'I' as u8,
            'O' as u8,
            'N' as u8,
            'S' as u8,
        ],
        HttpMethod::TRACE => seq!['T' as u8, 'R' as u8, 'A' as u8, 'C' as u8, 'E' as u8],
        HttpMethod::PATCH => seq!['P' as u8, 'A' as u8, 'T' as u8, 'C' as u8, 'H' as u8],
        HttpMethod::HEAD => seq!['H' as u8, 'E' as u8, 'A' as u8, 'D' as u8],
    }
}

/// The method a request-line token stands for; an unknown token is an error.
pub open spec fn spec_parse_method(token: Seq<u8>) -> Result<HttpMethod, ServerError> {
    if token == method_bytes(HttpMethod::GET) {
        Ok(HttpMethod::GET)
    } else if token == method_bytes(HttpMethod::POST) {
        Ok(HttpMethod::POST)
    } else if token == method_bytes(HttpMethod::PUT) {
        Ok(HttpMethod::PUT)
    } else if token == method_bytes(HttpMethod::DELETE) {
        Ok(HttpMethod::DELETE)
    } else if token == method_bytes(HttpMethod::CONNECT) {
        Ok(HttpMethod::CONNECT)
    } else if token == method_bytes(HttpMethod::OPTIONS) {
        Ok(HttpMethod::OPTIONS)
    } else if token == method_bytes(HttpMethod::TRACE) {
        Ok(HttpMethod::TRACE)
    } else if token == method_bytes(HttpMethod::PATCH) {
        Ok(HttpMethod::PATCH)
    } else if token == method_bytes(HttpMethod::HEAD) {
        Ok(HttpMethod::HEAD)
    } else {
        Err(ServerError::InvalidHttpMethod)
    }
}

impl HttpMethod {
    /// Parses a request-line method token.
    pub fn from_bytes(token: &[u8]) -> (r: Result<HttpMethod, ServerError>)
        ensures
            r == spec_parse_method(token@),
    {
        if bytes_eq(token, token_method_get()) {
            Ok(HttpMethod::GET)
        } else if bytes_eq(token, token_method_post()) {
            Ok(HttpMethod::POST)
        } else if bytes_eq(token, token_method_put()) {
            Ok(HttpMethod::PUT)
        } else if bytes_eq(token, token_method_delete()) {
            Ok(HttpMethod::DELETE)
        } else if bytes_eq(token, token_method_connect()) {
            Ok(HttpMethod::CONNECT)
        } else if bytes_eq(token, token_method_options()) {
            Ok(HttpMethod::OPTIONS)
        } else if bytes_eq(token, token_method_trace()) {
            Ok(HttpMethod::TRACE)
        } else if bytes_eq(token, token_method_patch()) {
            Ok(HttpMethod::PATCH)
        } else if bytes_eq(token, token_method_head()) {
            Ok(HttpMethod::HEAD)
        } else {
            Err(ServerError::InvalidHttpMethod)
        }
    }
}

fn token_method_get() -> (t: &'static [u8])
    ensures
        t@ == method_bytes(HttpMethod::GET),
{
    let s = "GET";
    proof {
        reveal_strlit("GET");
        assert(vstd::string::is_ascii(s));
        vstd::string::is_ascii_spec_bytes(s);
        assert(s.spec_bytes() =~= method_bytes(HttpMethod::GET));
    }
    s.as_bytes()
}

fn token_method_post() -> (t: &'static [u8])
    ensures
        t@ == method_bytes(HttpMethod::POST),
{
    let s = "POST";
    proof {
        reveal_strlit("POST");
        assert(vstd::string::is_ascii(s));
        vstd::string::is_ascii_spec_bytes(s);
        assert(s.spec_bytes() =~= method_bytes(HttpMethod::POST));
    }
    s.as_bytes()
}

fn token_method_put() -> (t: &'static [u8])
    ensures
        t@ == method_bytes(HttpMethod::PUT),
{
    let s = "PUT";
    proof {
        reveal_strlit("PUT");
        assert(vstd::string::is_ascii(s));
        vstd::string::is_ascii_spec_bytes(s);
        assert(s.spec_bytes() =~= method_bytes(HttpMethod::PUT));
    }
    s.as_bytes()
}

fn token_method_delete() -> (t: &'static [u8])
    ensures
        t@ == method_bytes(HttpMethod::DELETE),
{
    let s = "DELETE";
    proof {
        reveal_strlit("DELETE");
        assert(vstd::string::is_ascii(s));
        vstd::string::is_ascii_spec_bytes(s);
        assert(s.spec_bytes() =~= method_bytes(HttpMethod::DELETE));
    }
    s.as_bytes()
}

fn token_method_connect() -> (t: &'static [u8])
    ensures
        t@ == method_bytes(HttpMethod::CONNECT),
{
    let s = "CONNECT";
    proof {
        reveal_strlit("CONNECT");
        assert(vstd::string::is_ascii(s));
        vstd::string::is_ascii_spec_bytes(s);
        assert(s.spec_bytes() =~= method_bytes(HttpMethod::CONNECT));
    }
    s.as_bytes()
}

fn token_method_options() -> (t: &'static [u8])
    ensures
        t@ == method_bytes(HttpMethod::OPTIONS),
{
    let s = "OPTIONS";
    proof {
        reveal_strlit("OPTIONS");
        assert(vstd::string::is_ascii(s));
        vstd::string::is_ascii_spec_bytes(s);
        assert(s.spec_bytes() =~= method_bytes(HttpMethod::OPTIONS));
    }
    s.as_bytes()
}

fn token_method_trace() -> (t: &'static [u8])
    ensures
        t@ == method_bytes(HttpMethod::TRACE),
{
    let s = "TRACE";
    proof {
        reveal_strlit("TRACE");
        assert(vstd::string::is_ascii(s));
        vstd::string::is_ascii_spec_bytes(s);
        assert(s.spec_bytes() =~= method_bytes(HttpMethod::TRACE));
    }
    s.as_bytes()
}

fn token_method_patch() -> (t: &'static [u8])
    ensures
        t@ == method_bytes(HttpMethod::PATCH),
{
    let s = "PATCH";
    proof {
        reveal_strlit("PATCH");
        assert(vstd::string::is_ascii(s));
        vstd::string::is_ascii_spec_bytes(s);
        assert(s.spec_bytes() =~= method_bytes(HttpMethod::PATCH));
    }
    s.as_bytes()
}

fn token_method_head() -> (t: &'static [u8])
    ensures
        t@ == method_bytes(HttpMethod::HEAD),
{
    let s = "HEAD";
    proof {
        reveal_strlit("HEAD");
        assert(vstd::string::is_ascii(s));
        vstd::string::is_ascii_spec_bytes(s);
        assert(s.spec_bytes() =~= method_bytes(HttpMethod::HEAD));
    }
    s.as_bytes()
}

/// The ghost mirror of a parsed request.
#[verifier::ext_equal]
pub struct RequestModel {
    pub method: HttpMethod,
    pub uri: Seq<u8>,
    pub http_version: Seq<u8>,
    pub headers: Seq<(Seq<u8>, Seq<u8>)>,
}

/// A parsed HTTP/1.1 request: the request line and the header lines up to
/// the empty line. Header text is kept as raw bytes.
pub struct HttpRequest {
    pub method: HttpMethod,
    pub uri: Vec<u8>,
    pub http_version: Vec<u8>,
    pub headers: Vec<(Vec<u8>, Vec<u8>)>,
}

/// The byte sequences held by a sequence of header pairs.
pub open spec fn headers_view(headers: Seq<(Vec<u8>, Vec<u8>)>) -> Seq<(Seq<u8>, Seq<u8>)> {
    headers.map_values(|p: (Vec<u8>, Vec<u8>)| (p.0@, p.1@))
}

/// The byte sequences held by a sequence of lines.
pub open spec fn lines_view(lines: Seq<Vec<u8>>) -> Seq<Seq<u8>> {
    lines.map_values(|l: Vec<u8>| l@)
}

impl View for HttpRequest {
    type V = RequestModel;

    open spec fn view(&self) -> RequestModel {
        RequestModel {
            method: self.method,
            uri: self.uri@,
            http_version: self.http_version@,
            headers: headers_view(self.headers@),
        }
    }
}

/// The first position at or after `from` holding the given byte.
pub open spec fn spec_find_byte(line: Seq<u8>, b: u8, from: int) -> Option<int>
    decreases line.len() - from,
{
    if from < 0 || from >= line.len() {
        None
    } else if line[from] == b {
        Some(from)
    } else {
        spec_find_byte(line, b, from + 1)
    }
}

fn find_byte(line: &Vec<u8>, b: u8, from: usize) -> (r: Option<usize>)
    ensures
        match r {
            Some(k) => spec_find_byte(line@, b, from as int) == Some(k as int) && from <= k
                < line@.len(),
            None => spec_find_byte(line@, b, from as int) is None,
        },
{
    let n = line.len();
    let mut i = from;
    while i < n
        invariant
            from <= i,
            n == line@.len(),
            spec_find_byte(line@, b, from as int) == spec_find_byte(line@, b, i as int),
        decreases n - i,
    {
        if line[i] == b {
            return Some(i);
        }
        i = i + 1;
    }
    None
}

/// The first position at or after `from` where `": "` splits the line.
pub open spec fn spec_find_colon_space(line: Seq<u8>, from: int) -> Option<int>
    decreases line.len() - from,
{
    if from < 0 || from + 2 > line.len() {
        None
    } else if line[from] == ':' as u8 && line[from + 1] == ' ' as u8 {
        Some(from)
    } else {
        spec_find_colon_space(line, from + 1)
    }
}

fn find_colon_space(line: &Vec<u8>) -> (r: Option<usize>)
    ensures
        match r {
            Some(k) => spec_find_colon_space(line@, 0) == Some(k as int) && k + 2 <= line@.len(),
            None => spec_find_colon_space(line@, 0) is None,
        },
{
    let n = line.len();
    if n < 2 {
        return None;
    }
    let mut i: usize = 0;
    while i <= n - 2
        invariant
            2 <= n,
            n == line@.len(),
            i <= n,
            spec_find_colon_space(line@, 0) == spec_find_colon_space(line@, i as int),
        decreases n - i,
    {
        if line[i] == ':' as u8 && line[i + 1] == ' ' as u8 {
            return Some(i);
        }
        i = i + 1;
    }
    None
}

fn copy_range(line: &Vec<u8>, start: usize, end: usize) -> (r: Vec<u8>)
    requires
        start <= end <= line@.len(),
    ensures
        r@ == line@.subrange(start as int, end as int),
{
    let mut r: Vec<u8> = Vec::new();
    let mut i = start;
    while i < end
        invariant
            start <= i <= end <= line@.len(),
            r@ == line@.subrange(start as int, i as int),
        decreases end - i,
    {
        r.push(line[i]);
        proof {
            assert(line@.subrange(start as int, i + 1) =~= line@.subrange(
                start as int,
                i as int,
            ).push(line@[i as int]));
        }
        i = i + 1;
    }
    r
}

/// The method, target and version tokens of a request line: the three
/// fields cut at single spaces, anything after the version ignored. A
/// missing token is a parse error; an unknown method is its own error.
pub open spec fn spec_parse_request_line(line: Seq<u8>) -> Result<
    (HttpMethod, Seq<u8>, Seq<u8>),
    ServerError,
> {
    let method_end = match spec_find_byte(line, ' ' as u8, 0) {
        Some(k) => k,
        None => line.len() as int,
    };
    match spec_parse_method(line.subrange(0, method_end)) {
        Err(e) => Err(e),
        Ok(method) => {
            if method_end >= line.len() {
                Err(ServerError::HttpRequestParse)
            } else {
                let uri_start = method_end + 1;
                let uri_end = match spec_find_byte(line, ' ' as u8, uri_start) {
                    Some(k) => k,
                    None => line.len() as int,
                };
                if uri_end >= line.len() {
                    Err(ServerError::HttpRequestParse)
                } else {
                    let v_start = uri_end + 1;
                    let v_end = match spec_find_byte(line, ' ' as u8, v_start) {
                        Some(k) => k,
                        None => line.len() as int,
                    };
                    Ok(
                        (
                            method,
                            line.subrange(uri_start, uri_end),
                            line.subrange(v_start, v_end),
                        ),
                    )
                }
            }
        },
    }
}

fn parse_request_line(line: &Vec<u8>) -> (r: Result<(HttpMethod, Vec<u8>, Vec<u8>), ServerError>)
    ensures
        match spec_parse_request_line(line@) {
            Ok(t) => r matches Ok(e) && e.0 == t.0 && e.1@ == t.1 && e.2@ == t.2,
            Err(er) => r matches Err(e2) && e2 == er,
        },
{
    let n = line.len();
    let method_end = match find_byte(line, ' ' as u8, 0) {
        Some(k) => k,
        None => n,
    };
    let method_token = copy_range(line, 0, method_end);
    let method = match HttpMethod::from_bytes(method_token.as_slice()) {
        Ok(m) => m,
        Err(e) => {
            return Err(e);
        },
    };
    if method_end >= n {
        return Err(ServerError::HttpRequestParse);
    }
    let uri_start = method_end + 1;
    let uri_end = match find_byte(line, ' ' as u8, uri_start) {
        Some(k) => k,
        None => n,
    };
    if uri_end >= n {
        return Err(ServerError::HttpRequestParse);
    }
    let uri = copy_range(line, uri_start, uri_end);
    let v_start = uri_end + 1;
    let v_end = match find_byte(line, ' ' as u8, v_start) {
        Some(k) => k,
        None => n,
    };
    let version = copy_range(line, v_start, v_end);
    Ok((method, uri, version))
}

/// A header line cut at the first `": "`: the name before it, the value
/// after it. A line without the separator is a parse error.
pub open spec fn spec_parse_header_line(line: Seq<u8>) -> Result<(Seq<u8>, Seq<u8>), ServerError> {
    match spec_find_colon_space(line, 0) {
        None => Err(ServerError::HttpRequestParse),
        Some(k) => Ok((line.subrange(0, k), line.subrange(k + 2, line.len() as int))),
    }
}

fn parse_header_line(line: &Vec<u8>) -> (r: Result<(Vec<u8>, Vec<u8>), ServerError>)
    ensures
        match spec_parse_header_line(line@) {
            Ok(t) => r matches Ok(e) && e.0@ == t.0 && e.1@ == t.1,
            Err(er) => r matches Err(e2) && e2 == er,
        },
{
    match find_colon_space(line) {
        None => Err(ServerError::HttpRequestParse),
        Some(k) => {
            let len = line.len();
            let name = copy_range(line, 0, k);
            let value = copy_range(line, k + 2, len);
            Ok((name, value))
        },
    }
}

/// The first non-empty line at or after `from`.
pub open spec fn spec_first_nonempty(lines: Seq<Seq<u8>>, from: int) -> Option<int>
    decreases lines.len() - from,
{
    if from < 0 || from >= lines.len() {
        None
    } else if lines[from].len() > 0 {
        Some(from)
    } else {
        spec_first_nonempty(lines, from + 1)
    }
}

/// The header pairs read line by line until the empty line, in order of
/// arrival. Running out of lines before the empty terminator is a parse
/// error.
pub open spec fn spec_parse_headers(
    lines: Seq<Seq<u8>>,
    from: int,
    acc: Seq<(Seq<u8>, Seq<u8>)>,
) -> Result<Seq<(Seq<u8>, Seq<u8>)>, ServerError>
    decreases lines.len() - from,
{
    if from < 0 || from >= lines.len() {
        Err(ServerError::HttpRequestParse)
    } else if lines[from].len() == 0 {
        Ok(acc)
    } else {
        match spec_parse_header_line(lines[from]) {
            Err(e) => Err(e),
            Ok(kv) => spec_parse_headers(lines, from + 1, acc.push(kv)),
        }
    }
}

/// A whole request head: the first non-empty line as the request line,
/// then header lines until the empty line that ends the head.
pub open spec fn spec_parse_request(lines: Seq<Seq<u8>>) -> Result<RequestModel, ServerError> {
    match spec_first_nonempty(lines, 0) {
        None => Err(ServerError::HttpRequestParse),
        Some(s) => match spec_parse_request_line(lines[s]) {
            Err(e) => Err(e),
            Ok(t) => match spec_parse_headers(lines, s + 1, Seq::empty()) {
                Err(e) => Err(e),
                Ok(headers) => Ok(
                    RequestModel { method: t.0, uri: t.1, http_version: t.2, headers },
                ),
            },
        },
    }
}

impl HttpRequest {
    /// Parses a request head handed over as its lines, each without the
    /// line terminator: the first non-empty line is the request line, and
    /// headers follow until an empty line. Duplicate headers keep every
    /// entry; lookup takes the last.
    pub fn build(lines: &Vec<Vec<u8>>) -> (r: Result<HttpRequest, ServerError>)
        ensures
            match spec_parse_request(lines_view(lines@)) {
                Ok(model) => r matches Ok(req) && req@ == model,
                Err(e) => r matches Err(e2) && e2 == e,
            },
    {
        let ghost lv = lines_view(lines@);
        let n = lines.len();
        let mut s: usize = 0;
        while s < n && lines[s].len() == 0
            invariant
                s <= n,
                n == lines@.len(),
                lv == lines_view(lines@),
                spec_first_nonempty(lv, 0) == spec_first_nonempty(lv, s as int),
            decreases n - s,
        {
            s = s + 1;
        }
        if s >= n {
            return Err(ServerError::HttpRequestParse);
        }
        proof {
            assert(lv[s as int] == lines@[s as int]@);
            assert(spec_first_nonempty(lv, 0) == Some(s as int));
        }
        let (method, uri, http_version) = match parse_request_line(&lines[s]) {
            Ok(t) => t,
            Err(e) => {
                return Err(e);
            },
        };
        let ghost request_line = spec_parse_request_line(lv[s as int])->Ok_0;
        let mut headers: Vec<(Vec<u8>, Vec<u8>)> = Vec::new();
        let mut i = s + 1;
        proof {
            assert(headers_view(headers@) =~= Seq::<(Seq<u8>, Seq<u8>)>::empty());
        }
        while i < n
            invariant
                s + 1 <= i <= n,
                s < n,
                n == lines@.len(),
                lv == lines_view(lines@),
                spec_first_nonempty(lv, 0) == Some(s as int),
                spec_parse_request_line(lv[s as int]) == Ok::<
                    (HttpMethod, Seq<u8>, Seq<u8>),
                    ServerError,
                >(request_line),
                method == request_line.0,
                uri@ == request_line.1,
                http_version@ == request_line.2,
                spec_parse_headers(lv, s + 1 as int, Seq::empty()) == spec_parse_headers(
                    lv,
                    i as int,
                    headers_view(headers@),
                ),
            decreases n - i,
        {
            proof {
                assert(lv[i as int] == lines@[i as int]@);
            }
            if lines[i].len() == 0 {
                proof {
                    assert(spec_parse_headers(lv, i as int, headers_view(headers@)) == Ok::<
                        Seq<(Seq<u8>, Seq<u8>)>,
                        ServerError,
                    >(headers_view(headers@)));
                }
                let request = HttpRequest { method, uri, http_version, headers };
                proof {
                    assert(request@ =~= spec_parse_request(lv)->Ok_0);
                }
                return Ok(request);
            }
            let kv = match parse_header_line(&lines[i]) {
                Ok(kv) => kv,
                Err(e) => {
                    proof {
                        assert(spec_parse_headers(lv, i as int, headers_view(headers@)) == Err::<
                            Seq<(Seq<u8>, Seq<u8>)>,
                            ServerError,
                        >(e));
                    }
                    return Err(e);
                },
            };
            let ghost before = headers_view(headers@);
            let ghost kv_view = (kv.0@, kv.1@);
            proof {
                assert(spec_parse_header_line(lv[i as int]) == Ok::<
                    (Seq<u8>, Seq<u8>),
                    ServerError,
                >(kv_view));
            }
            headers.push(kv);
            proof {
                assert(headers_view(headers@) =~= before.push(kv_view));
                assert(spec_parse_headers(lv, i as int, before) == spec_parse_headers(
                    lv,
                    i + 1,
                    before.push(kv_view),
                ));
            }
            i = i + 1;
        }
        Err(ServerError::HttpRequestParse)
    }

    /// The value of the named header: of several with the same name, the
    /// last one written.
    pub fn header<'a>(&'a self, name: &[u8]) -> (r: Option<&'a Vec<u8>>)
        ensures
            match r {
                Some(v) => spec_header_lookup(self@.headers, name@) == Some(v@),
                None => spec_header_lookup(self@.headers, name@) is None,
            },
    {
        let n = self.headers.len();
        let mut i = n;
        proof {
            assert(self@.headers.take(n as int) =~= self@.headers);
        }
        while i > 0
            invariant
                i <= n,
                n == self.headers@.len(),
                spec_header_lookup(self@.headers, name@) == spec_header_lookup(
                    self@.headers.take(i as int),
                    name@,
                ),
            decreases i,
        {
            i = i - 1;
            let entry = &self.headers[i];
            proof {
                let prefix = self@.headers.take(i + 1);
                assert(prefix.last() == self@.headers[i as int]);
                assert(prefix.drop_last() =~= self@.headers.take(i as int));
            }
            if bytes_eq(entry.0.as_slice(), name) {
                return Some(&entry.1);
            }
        }
        proof {
            assert(self@.headers.take(0) =~= Seq::<(Seq<u8>, Seq<u8>)>::empty());
        }
        None
    }
}

/// A value found in a sequence of header pairs: searched from the end, so
/// the last writer wins.
pub open spec fn spec_header_lookup(headers: Seq<(Seq<u8>, Seq<u8>)>, name: Seq<u8>) -> Option<
    Seq<u8>,
>
    decreases headers.len(),
{
    if headers.len() == 0 {
        None
    } else if headers.last().0 == name {
        Some(headers.last().1)
    } else {
        spec_header_lookup(headers.drop_last(), name)
    }
}

/// A validated upgrade request: the client's `Sec-WebSocket-Key` nonce.
pub struct WebSocketHandshakeRequest {
    pub sec_websocket_key: Vec<u8>,
}

/// A well-formed WebSocket upgrade: a GET with version `HTTP/1.1`, a
/// `Connection` header containing `Upgrade`, an `Upgrade` header equal to
/// `websocket`, and the two `Sec-WebSocket-*` headers present.
pub open spec fn spec_valid_handshake(r: RequestModel) -> bool {
    &&& r.method == HttpMethod::GET
    &&& r.http_version == http11_bytes()
    &&& match spec_header_lookup(r.headers, connection_name_bytes()) {
        Some(v) => spec_contains_seq(v, upgrade_name_bytes()),
        None => false,
    }
    &&& spec_header_lookup(r.headers, upgrade_name_bytes()) == Some(websocket_value_bytes())
    &&& spec_header_lookup(r.headers, version_name_bytes()) is Some
    &&& spec_header_lookup(r.headers, key_name_bytes()) is Some
}

/// Checks that a parsed request is a well-formed WebSocket upgrade and
/// hands back the client's nonce; anything else fails with
/// `HandshakeValidation`.
pub fn validate_handshake(handshake_request: &HttpRequest) -> (r: Result<
    WebSocketHandshakeRequest,
    ServerError,
>)
    ensures
        r is Ok <==> spec_valid_handshake(handshake_request@),
        r matches Ok(h) ==> spec_header_lookup(handshake_request@.headers, key_name_bytes())
            == Some(h.sec_websocket_key@),
        r matches Err(e) ==> e == ServerError::HandshakeValidation,
{
    match handshake_request.method {
        HttpMethod::GET => {},
        _ => {
            return Err(ServerError::HandshakeValidation);
        },
    }
    if !bytes_eq(handshake_request.http_version.as_slice(), token_http11()) {
        return Err(ServerError::HandshakeValidation);
    }
    match handshake_request.header(token_connection()) {
        Some(value) => {
            if !contains_seq(value.as_slice(), token_upgrade()) {
                return Err(ServerError::HandshakeValidation);
            }
        },
        None => {
            return Err(ServerError::HandshakeValidation);
        },
    }
    match handshake_request.header(token_upgrade()) {
        Some(value) => {
            if !bytes_eq(value.as_slice(), token_websocket()) {
                return Err(ServerError::HandshakeValidation);
            }
        },
        None => {
            return Err(ServerError::HandshakeValidation);
        },
    }
    match handshake_request.header(token_version()) {
        Some(_) => {},
        None => {
            return Err(ServerError::HandshakeValidation);
        },
    }
    match handshake_request.header(token_key()) {
        Some(key) => Ok(WebSocketHandshakeRequest { sec_websocket_key: clone_bytes(key) }),
        None => Err(ServerError::HandshakeValidation),
    }
}

/// The decimal digits of a number.
pub open spec fn spec_dec_digits(n: int) -> Seq<char>
    recommends
        n >= 0,
    decreases n,
{
    if n < 10 {
        seq![((48 + n) as u8) as char]
    } else {
        spec_dec_digits(n / 10).push(((48 + n % 10) as u8) as char)
    }
}

fn write_decimal(n: u16, out: &mut String)
    ensures
        final(out)@ == old(out)@ + spec_dec_digits(n as int),
    decreases n,
{
    let ghost start = out@;
    if n >= 10 {
        write_decimal(n / 10, out);
    }
    let digit_byte: u8 = 48 + (n % 10) as u8;
    out.push(digit_byte as char);
    proof {
        if n < 10 {
            assert(start + spec_dec_digits(n as int) =~= start.push(digit_byte as char));
        } else {
            assert(start + spec_dec_digits(n as int) =~= (start + spec_dec_digits(
                n as int / 10,
            )).push(digit_byte as char));
        }
    }
}

/// The view of the header pairs of a response.
pub open spec fn string_headers_view(headers: Seq<(String, String)>) -> Seq<(Seq<char>, Seq<char>)> {
    headers.map_values(|p: (String, String)| (p.0@, p.1@))
}

/// The header lines of a response: each one `\r\n`, the name, `": "` and
/// the value, in the order given.
pub open spec fn spec_headers_text(headers: Seq<(Seq<char>, Seq<char>)>) -> Seq<char>
    decreases headers.len(),
{
    if headers.len() == 0 {
        Seq::empty()
    } else {
        spec_headers_text(headers.drop_last()) + "\r\n"@ + headers.last().0 + ": "@
            + headers.last().1
    }
}

/// The text of an HTTP/1.1 response head: the status line, the header
/// lines, and the blank line that ends the head.
pub open spec fn spec_http_response(
    code: u16,
    desc: Seq<char>,
    headers: Seq<(Seq<char>, Seq<char>)>,
) -> Seq<char> {
    "HTTP/1.1 "@ + spec_dec_digits(code as int) + " "@ + desc + spec_headers_text(headers)
        + "\r\n\r\n"@
}

/// Builds the text of an HTTP/1.1 response head from a status code, its
/// description, and header pairs written in the order given.
pub fn build_http_response(code: u16, desc: &str, headers: &Vec<(String, String)>) -> (response:
    String)
    ensures
        response@ == spec_http_response(code, desc@, string_headers_view(headers@)),
{
    let ghost hv = string_headers_view(headers@);
    let mut response = String::new();
    response.append("HTTP/1.1 ");
    write_decimal(code, &mut response);
    response.append(" ");
    response.append(desc);
    let ghost status = "HTTP/1.1 "@ + spec_dec_digits(code as int) + " "@ + desc@;
    proof {
        assert(response@ =~= status + spec_headers_text(hv.take(0)));
    }
    let n = headers.len();
    let mut i: usize = 0;
    while i < n
        invariant
            i <= n,
            n == headers@.len(),
            hv == string_headers_view(headers@),
            response@ == status + spec_headers_text(hv.take(i as int)),
        decreases n - i,
    {
        let entry = &headers[i];
        response.append("\r\n");
        response.append(entry.0.as_str());
        response.append(": ");
        response.append(entry.1.as_str());
        proof {
            assert(hv.take(i + 1).drop_last() =~= hv.take(i as int));
            assert(hv.take(i + 1).last() == hv[i as int]);
            assert(hv[i as int] == (headers@[i as int].0@, headers@[i as int].1@));
            assert(response@ =~= status + spec_headers_text(hv.take(i + 1)));
        }
        i = i + 1;
    }
    response.append("\r\n\r\n");
    proof {
        assert(hv.take(n as int) =~= hv);
        assert(response@ =~= spec_http_response(code, desc@, hv));
    }
    response
}

/// The bytes of the fixed GUID appended to the client nonce before hashing.
pub open spec fn magic_guid_bytes() -> Seq<u8> {
    vstd::utf8::encode_utf8("258EAFA5-E914-47DA-95CA-C5AB0DC85B11"@)
}

/// The `Sec-WebSocket-Accept` value owed for a client nonce: base64 of the
/// SHA-1 digest of the nonce followed by the fixed GUID.
pub open spec fn spec_accept_key(key_bytes: Seq<u8>) -> Seq<char> {
    crate::base64::spec_encode(crate::sha1::digest(key_bytes + magic_guid_bytes()))
}

/// Derives the `Sec-WebSocket-Accept` value for a client nonce.
pub fn calculate_websocket_key(client_key: &str) -> (encoded: String)
    requires
        (client_key.spec_bytes().len() + 36) * 8 <= u64::MAX,
    ensures
        encoded@ == spec_accept_key(client_key.spec_bytes()),
{
    let key_bytes = client_key.as_bytes();
    let guid = "258EAFA5-E914-47DA-95CA-C5AB0DC85B11";
    let guid_bytes = guid.as_bytes();
    proof {
        reveal_strlit("258EAFA5-E914-47DA-95CA-C5AB0DC85B11");
        assert(vstd::string::is_ascii(guid));
        vstd::string::is_ascii_spec_bytes(guid);
        assert(guid_bytes@.len() == 36);
    }
    let mut to_hash: Vec<u8> = Vec::new();
    let kn = key_bytes.len();
    let mut i: usize = 0;
    while i < kn
        invariant
            i <= kn,
            kn == key_bytes@.len(),
            to_hash@ == key_bytes@.take(i as int),
        decreases kn - i,
    {
        to_hash.push(key_bytes[i]);
        proof {
            assert(key_bytes@.take(i + 1) =~= key_bytes@.take(i as int).push(
                key_bytes@[i as int],
            ));
        }
        i = i + 1;
    }
    proof {
        assert(key_bytes@.take(kn as int) =~= key_bytes@);
    }
    let gn = guid_bytes.len();
    let mut j: usize = 0;
    while j < gn
        invariant
            j <= gn,
            gn == guid_bytes@.len(),
            to_hash@ == key_bytes@ + guid_bytes@.take(j as int),
        decreases gn - j,
    {
        to_hash.push(guid_bytes[j]);
        proof {
            assert(key_bytes@ + guid_bytes@.take(j + 1) =~= (key_bytes@ + guid_bytes@.take(
                j as int,
            )).push(guid_bytes@[j as int]));
        }
        j = j + 1;
    }
    proof {
        assert(guid_bytes@.take(gn as int) =~= guid_bytes@);
        assert(to_hash@ == key_bytes@ + guid_bytes@);
    }
    let hash = crate::sha1::calculate_sha1(to_hash.as_slice());
    crate::base64::encode(hash)
}

/// The accept key's shape: base64 of a SHA-1 digest is 28 characters, each
/// of them from the base64 alphabet or `=`.
pub proof fn lemma_accept_key_shape(x: Seq<u8>)
    ensures
        crate::base64::spec_encode(crate::sha1::digest(x)).len() == 28,
        forall|j: int|
            0 <= j < 28 ==> crate::base64::is_base64_symbol(
                #[trigger] crate::base64::spec_encode(crate::sha1::digest(x))[j],
            ),
{
    crate::sha1::lemma_digest_len(x);
    crate::base64::lemma_encode_len(crate::sha1::digest(x));
    crate::base64::lemma_encode_symbols(crate::sha1::digest(x));
}

} // verus!
