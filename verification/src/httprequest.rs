//! The request model and parser: raw request text in, a typed request out.
//!
//! Parsing never fails on unrecognized tokens: those degrade to
//! `Uninitialized` values. The one malformed shape — a request line with
//! fewer than three whitespace-separated tokens — is reported explicitly by
//! [`HttpRequest::parse`] and skipped by the total [`HttpRequest::from`].

use vstd::prelude::*;
use vstd::string::*;
use crate::headers::{insert_pair, keys_unique, lemma_insert_pair, Headers};
use crate::text::{
    contains_http, find_char, has_http, pos_of, skip_ws, skip_ws_str, split_into_lines,
    split_lines, str_eq, take_tok, take_tok_str, trim_str, trim_ws,
};

verus! {

/// The request method: the first token of the request line, matched exactly.
#[derive(Debug, PartialEq, Eq, Structural, Clone, Copy)]
pub enum Method {
    Get,
    Post,
    Uninitialized,
}

/// The protocol version: the third token of the request line, matched exactly.
#[derive(Debug, PartialEq, Eq, Structural, Clone, Copy)]
pub enum Version {
    V1_1,
    Uninitialized,
}

/// The target of a request: the second token of the request line, verbatim.
#[derive(Debug, PartialEq, Eq, Clone)]
pub enum Ressource {
    Path(String),
}

/// A request line that does not hold three whitespace-separated tokens.
#[derive(Debug, PartialEq, Eq, Structural, Clone, Copy)]
pub struct MalformedRequestLine;

/// The method a token denotes: an exact, case-sensitive match.
pub open spec fn method_of(t: Seq<char>) -> Method {
    if t == "GET"@ {
        Method::Get
    } else if t == "POST"@ {
        Method::Post
    } else {
        Method::Uninitialized
    }
}

/// The version a token denotes: an exact match.
pub open spec fn version_of(t: Seq<char>) -> Version {
    if t == "HTTP/1.1"@ {
        Version::V1_1
    } else {
        Version::Uninitialized
    }
}

/// The path a resource holds.
pub open spec fn path_of(r: Ressource) -> Seq<char> {
    match r {
        Ressource::Path(p) => p@,
    }
}

impl Method {
    /// The method named by a token; anything but `GET` or `POST` degrades to
    /// `Uninitialized`.
    pub fn from(s: &str) -> (m: Method)
        ensures
            m == method_of(s@),
    {
        if str_eq(s, "GET") {
            Method::Get
        } else if str_eq(s, "POST") {
            Method::Post
        } else {
            Method::Uninitialized
        }
    }
}

impl Version {
    /// The version named by a token; anything but `HTTP/1.1` degrades to
    /// `Uninitialized`.
    pub fn from(s: &str) -> (v: Version)
        ensures
            v == version_of(s@),
    {
        if str_eq(s, "HTTP/1.1") {
            Version::V1_1
        } else {
            Version::Uninitialized
        }
    }
}

/// The first whitespace-delimited token of the request line.
pub open spec fn tok1(line: Seq<char>) -> Seq<char> {
    take_tok(skip_ws(line))
}

/// What remains after the first token.
pub open spec fn rest1(line: Seq<char>) -> Seq<char> {
    skip_ws(line).skip(tok1(line).len() as int)
}

/// The second whitespace-delimited token of the request line.
pub open spec fn tok2(line: Seq<char>) -> Seq<char> {
    take_tok(skip_ws(rest1(line)))
}

/// What remains after the second token.
pub open spec fn rest2(line: Seq<char>) -> Seq<char> {
    skip_ws(rest1(line)).skip(tok2(line).len() as int)
}

/// The third whitespace-delimited token of the request line.
pub open spec fn tok3(line: Seq<char>) -> Seq<char> {
    take_tok(skip_ws(rest2(line)))
}

/// Whether the request line holds at least three tokens.
pub open spec fn req_line_ok(line: Seq<char>) -> bool {
    tok1(line).len() > 0 && tok2(line).len() > 0 && tok3(line).len() > 0
}

/// Splits a request line into method, version and resource. Extra tokens
/// beyond the third are ignored; fewer than three tokens are reported as a
/// malformed request line.
pub fn process_request_line(line: &str) -> (r: Result<
    (Method, Version, Ressource),
    MalformedRequestLine,
>)
    ensures
        r is Ok <==> req_line_ok(line@),
        r matches Ok(t) ==> t.0 == method_of(tok1(line@)) && t.1 == version_of(tok3(line@))
            && path_of(t.2) == tok2(line@),
{
    let s0 = skip_ws_str(line);
    let (t1, r1) = take_tok_str(s0);
    let s1 = skip_ws_str(r1);
    let (t2, r2) = take_tok_str(s1);
    let s2 = skip_ws_str(r2);
    let (t3, _r3) = take_tok_str(s2);
    if t1.is_empty() || t2.is_empty() || t3.is_empty() {
        Err(MalformedRequestLine)
    } else {
        Ok((Method::from(t1), Version::from(t3), Ressource::Path(String::from_str(t2))))
    }
}

/// Whether the line holds a colon, and so counts as a header line.
pub open spec fn has_colon(l: Seq<char>) -> bool {
    pos_of(l, ':') < l.len()
}

/// The header name: everything before the first colon, untrimmed.
pub open spec fn header_key(l: Seq<char>) -> Seq<char> {
    l.subrange(0, pos_of(l, ':') as int)
}

/// The header value: everything after the first colon, trimmed of
/// surrounding whitespace.
pub open spec fn header_val(l: Seq<char>) -> Seq<char> {
    trim_ws(l.subrange(pos_of(l, ':') as int + 1, l.len() as int))
}

/// Splits a header line at its first colon into name and trimmed value;
/// a line without a colon yields a pair of empty strings.
pub fn process_headers_line(line: &str) -> (r: (String, String))
    ensures
        has_colon(line@) ==> r.0@ == header_key(line@) && r.1@ == header_val(line@),
        !has_colon(line@) ==> r.0@ == Seq::<char>::empty() && r.1@ == Seq::<char>::empty(),
{
    match find_char(line, ':') {
        Some(i) => {
            let n = line.unicode_len();
            let key = line.substring_char(0, i);
            let value = trim_str(line.substring_char(i + 1, n));
            (String::from_str(key), String::from_str(value))
        },
        None => (String::new(), String::new()),
    }
}

/// The mathematical shape of a parsed request.
pub ghost struct ReqModel {
    pub method: Method,
    pub version: Version,
    pub resource: Seq<char>,
    pub headers: Seq<(Seq<char>, Seq<char>)>,
    pub body: Seq<char>,
}

/// The state before any line is read.
pub open spec fn init_model() -> ReqModel {
    ReqModel {
        method: Method::Uninitialized,
        version: Version::Uninitialized,
        resource: Seq::empty(),
        headers: Seq::empty(),
        body: Seq::empty(),
    }
}

/// How one line changes the parse state: a line holding `HTTP` is the request
/// line (one without three tokens is skipped); otherwise a line with a colon
/// is a header; an empty line has no effect; anything else overwrites the
/// body.
pub open spec fn step_line(m: ReqModel, l: Seq<char>) -> ReqModel {
    if has_http(l) {
        if req_line_ok(l) {
            ReqModel {
                method: method_of(tok1(l)),
                version: version_of(tok3(l)),
                resource: tok2(l),
                headers: m.headers,
                body: m.body,
            }
        } else {
            m
        }
    } else if has_colon(l) {
        ReqModel {
            method: m.method,
            version: m.version,
            resource: m.resource,
            headers: insert_pair(m.headers, header_key(l), header_val(l)),
            body: m.body,
        }
    } else if l.len() == 0 {
        m
    } else {
        ReqModel { method: m.method, version: m.version, resource: m.resource, headers: m.headers, body: l }
    }
}

/// The parse state after a sequence of lines, in input order.
pub open spec fn fold_lines(m: ReqModel, lines: Seq<Seq<char>>) -> ReqModel
    decreases lines.len(),
{
    if lines.len() == 0 {
        m
    } else {
        fold_lines(step_line(m, lines[0]), lines.drop_first())
    }
}

/// The request that the text denotes.
pub open spec fn parsed(s: Seq<char>) -> ReqModel {
    fold_lines(init_model(), split_lines(s))
}

/// Whether a line is recognized as the request line but lacks three tokens.
pub open spec fn line_malformed(l: Seq<char>) -> bool {
    has_http(l) && !req_line_ok(l)
}

/// Whether any line of the text is a malformed request line.
pub open spec fn any_malformed(s: Seq<char>) -> bool {
    exists|k: int|
        0 <= k < split_lines(s).len() && line_malformed(#[trigger] split_lines(s)[k])
}

proof fn lemma_fold_snoc(m: ReqModel, lines: Seq<Seq<char>>, l: Seq<char>)
    ensures
        fold_lines(m, lines.push(l)) == step_line(fold_lines(m, lines), l),
    decreases lines.len(),
{
    let p = lines.push(l);
    assert(p.len() > 0);
    assert(fold_lines(m, p) == fold_lines(step_line(m, p[0]), p.drop_first()));
    if lines.len() == 0 {
        assert(p[0] == l);
        assert(p.drop_first() =~= Seq::<Seq<char>>::empty());
        assert(fold_lines(step_line(m, l), p.drop_first()) == step_line(m, l));
        assert(fold_lines(m, lines) == m);
    } else {
        assert(p[0] == lines[0]);
        assert(p.drop_first() =~= lines.drop_first().push(l));
        assert(fold_lines(m, lines) == fold_lines(step_line(m, lines[0]), lines.drop_first()));
        lemma_fold_snoc(step_line(m, lines[0]), lines.drop_first(), l);
    }
}

/// A typed HTTP request: protocol version, method, target resource, header
/// mapping and single-line body.
#[derive(Debug)]
pub struct HttpRequest {
    pub version: Version,
    pub method: Method,
    pub ressource: Ressource,
    pub headers: Headers,
    pub msg_body: String,
}

impl HttpRequest {
    /// Whether the request carries exactly the fields of a parse state.
    pub open spec fn models(self, m: ReqModel) -> bool {
        &&& self.method == m.method
        &&& self.version == m.version
        &&& path_of(self.ressource) == m.resource
        &&& self.headers@ == m.headers
        &&& self.msg_body@ == m.body
    }

    /// Parses the full text of one request. Total: a malformed request line
    /// is skipped, and unrecognized tokens degrade to `Uninitialized`.
    pub fn from(s: String) -> (r: HttpRequest)
        ensures
            r.models(parsed(s@)),
            r.headers.wf(),
    {
        let (req, _) = parse_core(s.as_str());
        req
    }

    /// Parses the full text of one request, reporting a request line without
    /// three tokens instead of skipping it.
    pub fn parse(s: &str) -> (r: Result<HttpRequest, MalformedRequestLine>)
        ensures
            r is Ok <==> !any_malformed(s@),
            r matches Ok(req) ==> req.models(parsed(s@)) && req.headers.wf(),
    {
        let (req, malformed) = parse_core(s);
        if malformed {
            Err(MalformedRequestLine)
        } else {
            Ok(req)
        }
    }
}

/// Runs the line-by-line parse and reports whether a malformed request line
/// was seen.
fn parse_core(s: &str) -> (r: (HttpRequest, bool))
    ensures
        r.0.models(parsed(s@)),
        r.0.headers.wf(),
        r.1 == any_malformed(s@),
{
    let lines = split_into_lines(s);
    let n = lines.len();
    let mut method = Method::Uninitialized;
    let mut version = Version::Uninitialized;
    let mut ressource = Ressource::Path(String::new());
    let mut headers = Headers::new();
    let mut body = String::new();
    let mut malformed = false;
    proof {
        let lvs = split_lines(s@);
        assert(lvs.take(0) =~= Seq::<Seq<char>>::empty());
    }
    let mut i: usize = 0;
    while i < n
        invariant
            0 <= i <= n,
            lines.deep_view() == split_lines(s@),
            n == lines@.len(),
            keys_unique(headers@),
            ({
                let m = fold_lines(init_model(), split_lines(s@).take(i as int));
                method == m.method && version == m.version && path_of(ressource) == m.resource
                    && headers@ == m.headers && body@ == m.body
            }),
            malformed == exists|k: int|
                0 <= k < i && line_malformed(#[trigger] split_lines(s@)[k]),
        decreases n - i,
    {
        let ghost lvs = split_lines(s@);
        let ghost m_pre = fold_lines(init_model(), lvs.take(i as int));
        proof {
            assert(lines.deep_view()[i as int] == lines@[i as int]@);
            assert(lvs.take(i as int + 1) =~= lvs.take(i as int).push(lvs[i as int]));
            lemma_fold_snoc(init_model(), lvs.take(i as int), lvs[i as int]);
        }
        let line = &lines[i];
        if contains_http(line.as_str()) {
            match process_request_line(line.as_str()) {
                Ok((m, v, res)) => {
                    method = m;
                    version = v;
                    ressource = res;
                },
                Err(_) => {
                    malformed = true;
                },
            }
        } else if find_char(line.as_str(), ':').is_some() {
            let (key, value) = process_headers_line(line.as_str());
            proof {
                lemma_insert_pair(headers@, key@, value@);
            }
            headers.insert(key, value);
        } else if line.as_str().is_empty() {
        } else {
            body = line.clone();
        }
        i += 1;
    }
    proof {
        let lvs = split_lines(s@);
        assert(lvs.take(n as int) =~= lvs);
    }
    let req = HttpRequest { version, method, ressource, headers, msg_body: body };
    (req, malformed)
}

} // verus!
