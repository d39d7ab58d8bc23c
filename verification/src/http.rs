//! A small HTTP server core: request parsing, routing and response text.
//!
//! The request line is split on whitespace into method, path and version;
//! header lines follow until the first empty line, each `name: value` pair
//! keeping the raw name and the trimmed value.  Routing maps a fixed set of
//! paths to fixed pages.

use vstd::prelude::*;

use crate::config::{is_space, trim_front, trim_spec};
use crate::strutil::{str_eq, str_to_chars, u32_to_string};

verus! {

/// A server address: where `start` would bind.
pub struct HttpServer {
    pub host: String,
    pub port: u16,
}

/// The request methods the parser accepts.
#[derive(Clone, Copy, Debug, PartialEq, Eq, Structural)]
pub enum HttpMethod {
    GET,
    POST,
    PUT,
    DELETE,
}

/// The statuses a response can carry.
#[derive(Clone, Copy, Debug, PartialEq, Eq, Structural)]
pub enum HttpStatus {
    OK,
    NotFound,
    InternalServerError,
}

impl HttpStatus {
    /// The numeric code of this status.
    pub open spec fn spec_code(&self) -> u16 {
        match self {
            HttpStatus::OK => 200,
            HttpStatus::NotFound => 404,
            HttpStatus::InternalServerError => 500,
        }
    }

    /// The reason phrase of this status.
    pub open spec fn spec_reason(&self) -> Seq<char> {
        match self {
            HttpStatus::OK => "OK"@,
            HttpStatus::NotFound => "Not Found"@,
            HttpStatus::InternalServerError => "Internal Server Error"@,
        }
    }

    /// The numeric code of this status.
    pub fn code(&self) -> (r: u16)
        ensures
            r == self.spec_code(),
    {
        match self {
            HttpStatus::OK => 200,
            HttpStatus::NotFound => 404,
            HttpStatus::InternalServerError => 500,
        }
    }
}

/// A response to be rendered: status, headers in render order, body.
pub struct HttpResponse {
    pub status_code: HttpStatus,
    pub headers: Vec<(String, String)>,
    pub body: String,
}

/// Mathematical model of a parsed request.
pub ghost struct RequestModel {
    pub method: HttpMethod,
    pub headers: Seq<(Seq<char>, Seq<char>)>,
    pub path: Seq<char>,
}

/// A parsed request.
pub struct HttpRequest {
    pub method: HttpMethod,
    pub headers: Vec<(String, String)>,
    pub path: String,
}

impl View for HttpRequest {
    type V = RequestModel;

    open spec fn view(&self) -> RequestModel {
        RequestModel {
            method: self.method,
            headers: self.headers@.map_values(|p: (String, String)| (p.0@, p.1@)),
            path: self.path@,
        }
    }
}

// ---------------------------------------------------------------------------
// Splitting the request text
// ---------------------------------------------------------------------------

/// The index of the first `\r\n`, or the length if there is none.
pub open spec fn find_crlf(s: Seq<char>) -> int
    decreases s.len(),
{
    if s.len() == 0 {
        0
    } else if s.len() >= 2 && s[0] == '\r' && s[1] == '\n' {
        0
    } else {
        1 + find_crlf(s.drop_first())
    }
}

/// The text split on `\r\n`; always at least one piece.
pub open spec fn split_crlf(s: Seq<char>) -> Seq<Seq<char>>
    decreases s.len(),
{
    let i = find_crlf(s);
    if 0 <= i && i + 2 <= s.len() {
        seq![s.take(i)] + split_crlf(s.skip(i + 2))
    } else {
        seq![s]
    }
}

/// The index of the first whitespace character, or the length.
pub open spec fn find_space(s: Seq<char>) -> int
    decreases s.len(),
{
    if s.len() == 0 {
        0
    } else if is_space(s[0]) {
        0
    } else {
        1 + find_space(s.drop_first())
    }
}

/// The whitespace-separated words of a text.
pub open spec fn words(s: Seq<char>) -> Seq<Seq<char>>
    decreases s.len(),
{
    let t = trim_front(s);
    if t.len() == 0 {
        Seq::empty()
    } else {
        let k = find_space(t);
        if 0 < k <= t.len() && t.len() <= s.len() {
            seq![t.take(k)] + words(t.skip(k))
        } else {
            seq![t]
        }
    }
}

/// The index of the first colon, or the length.
pub open spec fn find_colon(s: Seq<char>) -> int
    decreases s.len(),
{
    if s.len() == 0 {
        0
    } else if s[0] == ':' {
        0
    } else {
        1 + find_colon(s.drop_first())
    }
}

/// A header stored into the list, replacing the value of an existing name.
pub open spec fn header_upsert(
    hs: Seq<(Seq<char>, Seq<char>)>,
    name: Seq<char>,
    value: Seq<char>,
) -> Seq<(Seq<char>, Seq<char>)> {
    let i = header_index(hs, name);
    if i < hs.len() {
        hs.update(i, (name, value))
    } else {
        hs.push((name, value))
    }
}

/// The index of the first header of this name, or the count.
pub open spec fn header_index(hs: Seq<(Seq<char>, Seq<char>)>, name: Seq<char>) -> int
    decreases hs.len(),
{
    if hs.len() == 0 {
        0
    } else if hs[0].0 == name {
        0
    } else {
        1 + header_index(hs.drop_first(), name)
    }
}

/// The headers read from the pieces after the request line, stopping at the
/// first empty piece; pieces without a colon are skipped.
pub open spec fn parse_headers(
    pieces: Seq<Seq<char>>,
    i: int,
    acc: Seq<(Seq<char>, Seq<char>)>,
) -> Seq<(Seq<char>, Seq<char>)>
    decreases pieces.len() - i,
{
    if i < 0 || i >= pieces.len() {
        acc
    } else {
        let line = pieces[i];
        if line.len() == 0 {
            acc
        } else {
            let c = find_colon(line);
            if c < line.len() {
                parse_headers(
                    pieces,
                    i + 1,
                    header_upsert(acc, line.take(c), trim_spec(line.skip(c + 1))),
                )
            } else {
                parse_headers(pieces, i + 1, acc)
            }
        }
    }
}

/// The method named by a word, if it is one the parser accepts.
pub open spec fn method_of(w: Seq<char>) -> Option<HttpMethod> {
    if w == "GET"@ {
        Some(HttpMethod::GET)
    } else if w == "POST"@ {
        Some(HttpMethod::POST)
    } else if w == "PUT"@ {
        Some(HttpMethod::PUT)
    } else if w == "DELETE"@ {
        Some(HttpMethod::DELETE)
    } else {
        None
    }
}

/// What parsing a request text yields.
pub open spec fn parse_request_spec(s: Seq<char>) -> Result<RequestModel, Seq<char>> {
    let pieces = split_crlf(s);
    let parts = words(pieces[0]);
    if parts.len() < 3 {
        Err("Invalid HTTP request line"@)
    } else {
        match method_of(parts[0]) {
            None => Err("Unsupported HTTP method"@),
            Some(m) => Ok(
                RequestModel {
                    method: m,
                    headers: parse_headers(pieces, 1, Seq::empty()),
                    path: parts[1],
                },
            ),
        }
    }
}

proof fn lemma_find_crlf_at(s: Seq<char>, i: int)
    requires
        0 <= i <= s.len(),
        forall|j: int| 0 <= j < i ==> !((#[trigger] s[j]) == '\r' && j + 1 < s.len() && s[j + 1] == '\n'),
        i == s.len() || (i + 1 < s.len() && s[i] == '\r' && s[i + 1] == '\n'),
    ensures
        i < s.len() ==> find_crlf(s) == i,
        i == s.len() ==> find_crlf(s) >= s.len() - 1,
    decreases i,
{
    if i == 0 {
        if s.len() == 0 {
        } else if s.len() == 1 {
            assert(find_crlf(s) == 1 + find_crlf(s.drop_first()));
        }
    } else {
        assert(!(s[0] == '\r' && 0 + 1 < s.len() && s[1] == '\n'));
        lemma_find_crlf_at(s.drop_first(), i - 1);
    }
}

proof fn lemma_find_space_at(s: Seq<char>, i: int)
    requires
        0 <= i <= s.len(),
        forall|j: int| 0 <= j < i ==> !is_space(#[trigger] s[j]),
        i == s.len() || is_space(s[i]),
    ensures
        find_space(s) == i,
    decreases i,
{
    if i == 0 {
    } else {
        lemma_find_space_at(s.drop_first(), i - 1);
    }
}

proof fn lemma_find_colon_at(s: Seq<char>, i: int)
    requires
        0 <= i <= s.len(),
        forall|j: int| 0 <= j < i ==> s[j] != ':',
        i == s.len() || s[i] == ':',
    ensures
        find_colon(s) == i,
    decreases i,
{
    if i == 0 {
    } else {
        lemma_find_colon_at(s.drop_first(), i - 1);
    }
}

/// Collects the `\r\n`-separated pieces of a text.
fn split_crlf_exec(src: &str, v: &Vec<char>) -> (r: Vec<String>)
    requires
        v@ == src@,
    ensures
        r@.map_values(|l: String| l@) == split_crlf(src@),
        r@.len() >= 1,
{
    let mut out: Vec<String> = Vec::new();
    let n = v.len();
    let mut pos: usize = 0;
    proof {
        assert(v@.skip(0) =~= v@);
        assert(out@.map_values(|l: String| l@) =~= Seq::<Seq<char>>::empty());
        assert(Seq::<Seq<char>>::empty() + split_crlf(v@) =~= split_crlf(v@));
    }
    loop
        invariant
            pos <= n,
            n == v@.len(),
            v@ == src@,
            split_crlf(v@) == out@.map_values(|l: String| l@) + split_crlf(v@.skip(pos as int)),
        decreases n - pos,
    {
        let ghost done = out@.map_values(|l: String| l@);
        let mut k = pos;
        while k < n && !(v[k] == '\r' && k + 1 < n && v[k + 1] == '\n')
            invariant
                pos <= k <= n,
                n == v@.len(),
                forall|j: int|
                    pos <= j < k ==> !((#[trigger] v@[j]) == '\r' && j + 1 < v@.len() && v@[j + 1]
                        == '\n'),
            decreases n - k,
        {
            k = k + 1;
        }
        proof {
            let suffix = v@.skip(pos as int);
            assert(forall|j: int|
                0 <= j < k - pos ==> suffix[j] == v@[j + pos] && !(#[trigger] suffix[j] == '\r' && j
                    + 1 < suffix.len() && suffix[j + 1] == '\n'));
            if k < n {
                assert(suffix[k - pos] == v@[k as int]);
                assert(suffix[k - pos + 1] == v@[k + 1]);
            }
            lemma_find_crlf_at(suffix, k - pos);
        }
        if k >= n {
            let piece = String::from_str(src.substring_char(pos, n));
            out.push(piece);
            proof {
                let suffix = v@.skip(pos as int);
                assert(suffix =~= v@.subrange(pos as int, n as int));
                assert(find_crlf(suffix) + 2 > suffix.len());
                assert(split_crlf(suffix) == seq![suffix]);
                assert(out@.map_values(|l: String| l@) =~= done.push(suffix));
                assert(done + split_crlf(v@.skip(pos as int)) =~= done.push(suffix));
            }
            return out;
        }
        let piece = String::from_str(src.substring_char(pos, k));
        out.push(piece);
        proof {
            let suffix = v@.skip(pos as int);
            let i = k - pos;
            assert(find_crlf(suffix) == i && i + 2 <= suffix.len());
            assert(suffix.take(i) =~= v@.subrange(pos as int, k as int));
            assert(suffix.skip(i + 2) =~= v@.skip(k + 2));
            assert(split_crlf(suffix) == seq![suffix.take(i)] + split_crlf(suffix.skip(i + 2)));
            assert(out@.map_values(|l: String| l@) =~= done.push(v@.subrange(pos as int, k as int)));
            assert(done + split_crlf(v@.skip(pos as int)) =~= out@.map_values(|l: String| l@)
                + split_crlf(v@.skip(k + 2)));
        }
        pos = k + 2;
    }
}

/// Collects the whitespace-separated words of a text.
pub fn words_exec(src: &str, v: &Vec<char>) -> (r: Vec<String>)
    requires
        v@ == src@,
    ensures
        r@.map_values(|w: String| w@) == words(src@),
{
    let mut out: Vec<String> = Vec::new();
    let n = v.len();
    let mut pos: usize = 0;
    proof {
        assert(v@.skip(0) =~= v@);
        assert(out@.map_values(|w: String| w@) =~= Seq::<Seq<char>>::empty());
        assert(Seq::<Seq<char>>::empty() + words(v@) =~= words(v@));
    }
    loop
        invariant
            pos <= n,
            n == v@.len(),
            v@ == src@,
            words(v@) == out@.map_values(|w: String| w@) + words(v@.skip(pos as int)),
        decreases n - pos,
    {
        let ghost done = out@.map_values(|w: String| w@);
        // skip whitespace
        let mut a = pos;
        while a < n && is_space_at(v, a)
            invariant
                pos <= a <= n,
                n == v@.len(),
                forall|j: int| pos <= j < a ==> is_space(#[trigger] v@[j]),
            decreases n - a,
        {
            a = a + 1;
        }
        proof {
            let suffix = v@.skip(pos as int);
            assert(forall|j: int|
                0 <= j < a - pos ==> suffix[j] == v@[j + pos] && is_space(#[trigger] suffix[j]));
            if a < n {
                assert(suffix[a - pos] == v@[a as int]);
            }
            crate::config::lemma_trim_front_at(suffix, a - pos);
            assert(suffix.skip(a - pos) =~= v@.skip(a as int));
        }
        if a == n {
            proof {
                assert(trim_front(v@.skip(pos as int)).len() == 0);
                assert(done + words(v@.skip(pos as int)) =~= done);
            }
            return out;
        }
        // take the word
        let mut b = a;
        while b < n && !is_space_at(v, b)
            invariant
                a <= b <= n,
                n == v@.len(),
                forall|j: int| a <= j < b ==> !is_space(#[trigger] v@[j]),
            decreases n - b,
        {
            b = b + 1;
        }
        proof {
            let t = v@.skip(a as int);
            assert(forall|j: int|
                0 <= j < b - a ==> t[j] == v@[j + a] && !is_space(#[trigger] t[j]));
            if b < n {
                assert(t[b - a] == v@[b as int]);
            }
            lemma_find_space_at(t, b - a);
        }
        let word = String::from_str(src.substring_char(a, b));
        out.push(word);
        proof {
            let suffix = v@.skip(pos as int);
            let t = v@.skip(a as int);
            let k = b - a;
            assert(trim_front(suffix) =~= t);
            assert(t.len() > 0 && !is_space(t[0]));
            assert(find_space(t) == k && 0 < k <= t.len());
            assert(t.take(k) =~= v@.subrange(a as int, b as int));
            assert(t.skip(k) =~= v@.skip(b as int));
            assert(words(suffix) == seq![t.take(k)] + words(t.skip(k)));
            assert(out@.map_values(|w: String| w@) =~= done.push(v@.subrange(a as int, b as int)));
            assert(done + words(v@.skip(pos as int)) =~= out@.map_values(|w: String| w@) + words(
                v@.skip(b as int),
            ));
        }
        pos = b;
    }
}

/// Whether the character at `j` is whitespace.
fn is_space_at(v: &Vec<char>, j: usize) -> (r: bool)
    requires
        j < v@.len(),
    ensures
        r == is_space(v@[j as int]),
{
    let c = v[j];
    c == ' ' || c == '\t' || c == '\r' || c == '\n' || c == '\u{000B}' || c == '\u{000C}'
}

/// Stores a header, replacing the value under an existing name.
fn header_upsert_exec(headers: &mut Vec<(String, String)>, name: String, value: String)
    ensures
        final (headers)@.map_values(|p: (String, String)| (p.0@, p.1@)) == header_upsert(
            old(headers)@.map_values(|p: (String, String)| (p.0@, p.1@)),
            name@,
            value@,
        ),
{
    let ghost before = headers@.map_values(|p: (String, String)| (p.0@, p.1@));
    let ghost nm = name@;
    let ghost vl = value@;
    let n = headers.len();
    let mut i: usize = 0;
    while i < n
        invariant
            i <= n,
            n == headers@.len(),
            before == headers@.map_values(|p: (String, String)| (p.0@, p.1@)),
            before == old(headers)@.map_values(|p: (String, String)| (p.0@, p.1@)),
            nm == name@,
            vl == value@,
            forall|j: int| 0 <= j < i ==> (#[trigger] before[j]).0 != nm,
        decreases n - i,
    {
        if str_eq(headers[i].0.as_str(), name.as_str()) {
            proof {
                assert(before[i as int].0 == nm);
                lemma_header_index_at(before, nm, i as int);
            }
            headers.remove(i);
            headers.insert(i, (name, value));
            proof {
                assert(headers@.map_values(|p: (String, String)| (p.0@, p.1@)) =~= before.update(
                    i as int,
                    (nm, vl),
                ));
            }
            return ;
        }
        i = i + 1;
    }
    proof {
        lemma_header_index_none(before, nm);
    }
    headers.push((name, value));
    proof {
        assert(headers@.map_values(|p: (String, String)| (p.0@, p.1@)) =~= before.push((nm, vl)));
    }
}

proof fn lemma_header_index_at(hs: Seq<(Seq<char>, Seq<char>)>, name: Seq<char>, i: int)
    requires
        0 <= i < hs.len(),
        hs[i].0 == name,
        forall|j: int| 0 <= j < i ==> (#[trigger] hs[j]).0 != name,
    ensures
        header_index(hs, name) == i,
    decreases i,
{
    if i == 0 {
    } else {
        lemma_header_index_at(hs.drop_first(), name, i - 1);
    }
}

proof fn lemma_header_index_none(hs: Seq<(Seq<char>, Seq<char>)>, name: Seq<char>)
    requires
        forall|j: int| 0 <= j < hs.len() ==> (#[trigger] hs[j]).0 != name,
    ensures
        header_index(hs, name) == hs.len(),
    decreases hs.len(),
{
    if hs.len() > 0 {
        lemma_header_index_none(hs.drop_first(), name);
    }
}

impl HttpServer {
    /// A server for this address.
    pub fn new(host: String, port: u16) -> (r: Self)
        ensures
            r.host@ == host@,
            r.port == port,
    {
        HttpServer { host, port }
    }

    /// Reads a request text into its method, path and headers.
    pub fn parse_request(request: &str) -> (r: Result<HttpRequest, String>)
        ensures
            match r {
                Ok(req) => parse_request_spec(request@) == Ok::<_, Seq<char>>(req@),
                Err(m) => parse_request_spec(request@) == Err::<RequestModel, _>(m@),
            },
    {
        let v = str_to_chars(request);
        let pieces = split_crlf_exec(request, &v);
        let ghost pmodels = pieces@.map_values(|l: String| l@);
        let first = &pieces[0];
        let fv = str_to_chars(first.as_str());
        let parts = words_exec(first.as_str(), &fv);
        proof {
            assert(pmodels[0] == pieces@[0]@);
        }
        if parts.len() < 3 {
            return Err(String::from_str("Invalid HTTP request line"));
        }
        let m0 = &parts[0];
        let method = if str_eq(m0.as_str(), "GET") {
            HttpMethod::GET
        } else if str_eq(m0.as_str(), "POST") {
            HttpMethod::POST
        } else if str_eq(m0.as_str(), "PUT") {
            HttpMethod::PUT
        } else if str_eq(m0.as_str(), "DELETE") {
            HttpMethod::DELETE
        } else {
            proof {
                assert(parts@.map_values(|w: String| w@)[0] == parts@[0]@);
                assert(method_of(words(pmodels[0])[0]) is None);
            }
            return Err(String::from_str("Unsupported HTTP method"));
        };
        proof {
            assert(parts@.map_values(|w: String| w@)[0] == parts@[0]@);
            assert(method_of(words(pmodels[0])[0]) == Some(method));
        }
        let mut headers: Vec<(String, String)> = Vec::new();
        let n = pieces.len();
        let mut i: usize = 1;
        proof {
            assert(headers@.map_values(|p: (String, String)| (p.0@, p.1@))
                =~= Seq::<(Seq<char>, Seq<char>)>::empty());
        }
        while i < n
            invariant
                1 <= i <= n,
                n == pieces@.len(),
                pmodels == pieces@.map_values(|l: String| l@),
                parse_headers(pmodels, 1, Seq::empty()) == parse_headers(
                    pmodels,
                    i as int,
                    headers@.map_values(|p: (String, String)| (p.0@, p.1@)),
                ),
            ensures
                parse_headers(pmodels, 1, Seq::empty()) == headers@.map_values(
                    |p: (String, String)| (p.0@, p.1@),
                ),
            decreases n - i,
        {
            let ghost acc = headers@.map_values(|p: (String, String)| (p.0@, p.1@));
            let line = &pieces[i];
            let lv = str_to_chars(line.as_str());
            let llen = lv.len();
            proof {
                assert(pmodels[i as int] == pieces@[i as int]@);
            }
            if llen == 0 {
                proof {
                    assert(parse_headers(pmodels, i as int, acc) == acc);
                }
                break ;
            }
            let mut c: usize = 0;
            while c < llen && lv[c] != ':'
                invariant
                    c <= llen,
                    llen == lv@.len(),
                    forall|j: int| 0 <= j < c ==> lv@[j] != ':',
                decreases llen - c,
            {
                c = c + 1;
            }
            proof {
                lemma_find_colon_at(lv@, c as int);
            }
            if c < llen {
                let name = String::from_str(line.as_str().substring_char(0, c));
                let value_part = line.as_str().substring_char(c + 1, llen);
                let vv = str_to_chars(value_part);
                let value = crate::config::trim_exec(value_part, &vv);
                proof {
                    assert(name@ =~= pmodels[i as int].take(c as int));
                    assert(value_part@ =~= pmodels[i as int].skip(c + 1));
                }
                header_upsert_exec(&mut headers, name, value);
            }
            i = i + 1;
        }
        let path = String::from_str(parts[1].as_str());
        proof {
            assert(parts@.map_values(|w: String| w@)[1] == parts@[1]@);
        }
        let req = HttpRequest { method, headers, path };
        Ok(req)
    }

    /// The fixed page for the root path.
    pub fn handle_root(&self, _request: &HttpRequest) -> (r: String)
        ensures
            r@ == "HTTP/1.1 200 OK\r\nContent-Type: text/html\r\n\r\n<!DOCTYPE html><body><h1>Bonjour</h1><p>C'est tout.</p></body>"@,
    {
        String::from_str(
            "HTTP/1.1 200 OK\r\nContent-Type: text/html\r\n\r\n<!DOCTYPE html><body><h1>Bonjour</h1><p>C'est tout.</p></body>",
        )
    }

    /// The fixed page for an unknown path.
    pub fn handle_not_found(&self, _request: &HttpRequest) -> (r: String)
        ensures
            r@ == "HTTP/1.1 404 Not Found\r\nContent-Type: text/html\r\n\r\n<!DOCTYPE html><body><h1>404 Not Found</h1><p>The requested resource was not found.</p></body>"@,
    {
        String::from_str(
            "HTTP/1.1 404 Not Found\r\nContent-Type: text/html\r\n\r\n<!DOCTYPE html><body><h1>404 Not Found</h1><p>The requested resource was not found.</p></body>",
        )
    }

    /// The fixed page for the about path.
    pub fn handle_about(&self, _request: &HttpRequest) -> (r: String)
        ensures
            r@ == "HTTP/1.1 200 OK\r\nContent-Type: text/html\r\n\r\n<!DOCTYPE html><body><h1>\u{c0} propos de moi</h1></body>"@,
    {
        String::from_str(
            "HTTP/1.1 200 OK\r\nContent-Type: text/html\r\n\r\n<!DOCTYPE html><body><h1>\u{c0} propos de moi</h1></body>",
        )
    }

    /// The fixed page for the data path.
    pub fn handle_api_data(&self, _request: &HttpRequest) -> (r: String)
        ensures
            r@ == "HTTP/1.1 200 OK\r\nContent-Type: application/json\r\n\r\n{\"data\": \"Voici quelques donn\u{e9}es API.\"}"@,
    {
        String::from_str(
            "HTTP/1.1 200 OK\r\nContent-Type: application/json\r\n\r\n{\"data\": \"Voici quelques donn\u{e9}es API.\"}",
        )
    }

    /// The page for a request's path.
    pub open spec fn spec_route(&self, req: RequestModel) -> Seq<char> {
        if req.path == "/"@ {
            "HTTP/1.1 200 OK\r\nContent-Type: text/html\r\n\r\n<!DOCTYPE html><body><h1>Bonjour</h1><p>C'est tout.</p></body>"@
        } else if req.path == "/about"@ {
            "HTTP/1.1 200 OK\r\nContent-Type: text/html\r\n\r\n<!DOCTYPE html><body><h1>\u{c0} propos de moi</h1></body>"@
        } else if req.path == "/api/data"@ {
            "HTTP/1.1 200 OK\r\nContent-Type: application/json\r\n\r\n{\"data\": \"Voici quelques donn\u{e9}es API.\"}"@
        } else {
            "HTTP/1.1 404 Not Found\r\nContent-Type: text/html\r\n\r\n<!DOCTYPE html><body><h1>404 Not Found</h1><p>The requested resource was not found.</p></body>"@
        }
    }

    /// Picks the page for the request's path.
    pub fn route_request(&self, request: &HttpRequest) -> (r: String)
        ensures
            r@ == self.spec_route(request@),
    {
        if str_eq(request.path.as_str(), "/") {
            self.handle_root(request)
        } else if str_eq(request.path.as_str(), "/about") {
            self.handle_about(request)
        } else if str_eq(request.path.as_str(), "/api/data") {
            self.handle_api_data(request)
        } else {
            self.handle_not_found(request)
        }
    }
}

/// The headers rendered as `name: value` lines.
pub open spec fn spec_header_lines(hs: Seq<(Seq<char>, Seq<char>)>) -> Seq<char>
    decreases hs.len(),
{
    if hs.len() == 0 {
        Seq::empty()
    } else {
        hs[0].0 + ": "@ + hs[0].1 + "\r\n"@ + spec_header_lines(hs.drop_first())
    }
}

impl HttpResponse {
    /// What rendering this response yields: the status line, the header
    /// lines in order, a blank line, the body.
    pub open spec fn spec_generate(&self) -> Seq<char> {
        "HTTP/1.1 "@ + crate::strutil::dec_of(self.status_code.spec_code() as nat) + " "@
            + self.status_code.spec_reason() + "\r\n"@ + spec_header_lines(
            self.headers@.map_values(|p: (String, String)| (p.0@, p.1@)),
        ) + "\r\n"@ + self.body@
    }

    /// Renders the response text.
    pub fn generate(&self) -> (r: String)
        ensures
            r@ == self.spec_generate(),
    {
        let mut out = String::from_str("HTTP/1.1 ");
        let code = u32_to_string(self.status_code.code() as u32);
        out.append(code.as_str());
        out.append(" ");
        match self.status_code {
            HttpStatus::OK => out.append("OK"),
            HttpStatus::NotFound => out.append("Not Found"),
            HttpStatus::InternalServerError => out.append("Internal Server Error"),
        }
        out.append("\r\n");
        let ghost hmodels = self.headers@.map_values(|p: (String, String)| (p.0@, p.1@));
        let ghost head = out@;
        let n = self.headers.len();
        let mut i: usize = 0;
        proof {
            assert(hmodels.skip(0) =~= hmodels);
        }
        while i < n
            invariant
                i <= n,
                n == self.headers@.len(),
                hmodels == self.headers@.map_values(|p: (String, String)| (p.0@, p.1@)),
                head + spec_header_lines(hmodels) == out@ + spec_header_lines(
                    hmodels.skip(i as int),
                ),
            decreases n - i,
        {
            proof {
                assert(hmodels.skip(i as int)[0] == hmodels[i as int]);
                assert(hmodels.skip(i as int).drop_first() =~= hmodels.skip(i + 1));
                assert(hmodels[i as int] == (self.headers@[i as int].0@,
                self.headers@[i as int].1@));
            }
            out.append(self.headers[i].0.as_str());
            out.append(": ");
            out.append(self.headers[i].1.as_str());
            out.append("\r\n");
            i = i + 1;
        }
        proof {
            assert(spec_header_lines(hmodels.skip(n as int)) =~= Seq::<char>::empty());
            assert(out@ =~= head + spec_header_lines(hmodels));
        }
        out.append("\r\n");
        out.append(self.body.as_str());
        out
    }
}

} // verus!
