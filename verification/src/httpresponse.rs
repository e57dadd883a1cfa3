//! The response model and serializer: status line fields, an optional header
//! mapping and an optional body, serialized to the exact wire-format text a
//! client expects, with a computed `Content-Length`.

use vstd::prelude::*;
use vstd::string::*;
use vstd::utf8::encode_utf8;
use crate::headers::Headers;
use crate::text::{dec_str, str_eq, usize_to_string};

verus! {

/// The status text an exact lookup assigns to a status code; every unmapped
/// code falls back to `Not Found`.
pub open spec fn status_text_of(code: Seq<char>) -> Seq<char> {
    if code == "200"@ {
        "OK"@
    } else if code == "400"@ {
        "Bad Request"@
    } else if code == "500"@ {
        "Internal Server Error"@
    } else {
        "Not Found"@
    }
}

/// The wire form of a header mapping: `name:value` lines in mapping order,
/// each closed by a carriage return and line feed.
pub open spec fn headers_wire(hs: Seq<(Seq<char>, Seq<char>)>) -> Seq<char>
    decreases hs.len(),
{
    if hs.len() == 0 {
        Seq::empty()
    } else {
        hs[0].0 + ":"@ + hs[0].1 + "\r\n"@ + headers_wire(hs.drop_first())
    }
}

#[verifier::external_type_specification]
#[verifier::external_body]
pub struct ExIoError(std::io::Error);

/// Relies on std::io::Write::write_all: one attempt to write the whole
/// buffer, reporting the first underlying error untouched.
#[verifier::external_body]
fn write_all_to<W: std::io::Write>(sink: &mut W, bytes: &[u8]) -> (r: Result<(), std::io::Error>) {
    sink.write_all(bytes)
}

/// A typed HTTP response: status line fields, an optional header mapping and
/// an optional single-string body.
#[derive(Debug, PartialEq, Clone)]
pub struct HttpResponse<'a> {
    version: &'a str,
    status_code: &'a str,
    status_text: &'a str,
    headers: Option<Headers>,
    body: Option<String>,
}

impl<'a> HttpResponse<'a> {
    /// The protocol version field.
    pub closed spec fn spec_version(self) -> Seq<char> {
        self.version@
    }

    /// The status code field.
    pub closed spec fn spec_status_code(self) -> Seq<char> {
        self.status_code@
    }

    /// The status text field.
    pub closed spec fn spec_status_text(self) -> Seq<char> {
        self.status_text@
    }

    /// The header mapping; absent headers read as the empty mapping.
    pub closed spec fn spec_headers(self) -> Seq<(Seq<char>, Seq<char>)> {
        match self.headers {
            Some(h) => h@,
            None => Seq::empty(),
        }
    }

    /// The body; an absent body reads as the empty string.
    pub closed spec fn spec_body(self) -> Seq<char> {
        match self.body {
            Some(b) => b@,
            None => Seq::empty(),
        }
    }

    /// The byte length of the body, as `Content-Length` reports it.
    pub open spec fn spec_body_len(self) -> nat {
        encode_utf8(self.spec_body()).len()
    }

    /// The exact serialized form: status line, headers, the computed
    /// `Content-Length`, a blank line, then the body.
    pub open spec fn wire(self) -> Seq<char> {
        self.spec_version() + " "@ + self.spec_status_code() + " "@ + self.spec_status_text()
            + "\r\n"@ + headers_wire(self.spec_headers()) + "Content-Length: "@ + dec_str(
            self.spec_body_len(),
        ) + "\r\n\r\n"@ + self.spec_body()
    }

    /// Builds a response: version `HTTP/1.1`, status text looked up from the
    /// status code, and a lone `Content-Type: text/html` header when no
    /// mapping is supplied.
    pub fn new(status_code: &'a str, headers: Option<Headers>, body: Option<String>) -> (r:
        HttpResponse<'a>)
        ensures
            r.spec_version() == "HTTP/1.1"@,
            r.spec_status_code() == status_code@,
            r.spec_status_text() == status_text_of(status_code@),
            headers matches Some(h) ==> r.spec_headers() == h@,
            headers is None ==> r.spec_headers() == seq![("Content-Type"@, "text/html"@)],
            body matches Some(b) ==> r.spec_body() == b@,
            body is None ==> r.spec_body() == Seq::<char>::empty(),
    {
        let status_text: &'a str = if str_eq(status_code, "200") {
            "OK"
        } else if str_eq(status_code, "400") {
            "Bad Request"
        } else if str_eq(status_code, "500") {
            "Internal Server Error"
        } else {
            "Not Found"
        };
        let hdrs: Headers = match headers {
            Some(h) => h,
            None => {
                let mut h = Headers::new();
                h.insert(String::from_str("Content-Type"), String::from_str("text/html"));
                proof {
                    assert(h@ =~= seq![("Content-Type"@, "text/html"@)]);
                }
                h
            },
        };
        HttpResponse { version: "HTTP/1.1", status_code, status_text, headers: Some(hdrs), body }
    }

    /// Serializes the response and writes the whole text to the sink in one
    /// call, surfacing any underlying write failure untouched.
    pub fn send<W: std::io::Write>(&self, write_stream: &mut W) -> (r: Result<
        (),
        std::io::Error,
    >) {
        let response_string = self.serialize();
        write_all_to(write_stream, response_string.as_str().as_bytes())
    }

    /// The protocol version field.
    pub fn version(&self) -> (v: &str)
        ensures
            v@ == self.spec_version(),
    {
        self.version
    }

    /// The status code field.
    pub fn status_code(&self) -> (c: &str)
        ensures
            c@ == self.spec_status_code(),
    {
        self.status_code
    }

    /// The status text field.
    pub fn status_text(&self) -> (t: &str)
        ensures
            t@ == self.spec_status_text(),
    {
        self.status_text
    }

    /// The serialized header block, one `name:value` line per header in
    /// mapping order.
    pub fn headers(&self) -> (s: String)
        ensures
            s@ == headers_wire(self.spec_headers()),
    {
        let mut out = String::new();
        match &self.headers {
            Some(h) => {
                let n = h.len();
                proof {
                    assert(h@.skip(0) =~= h@);
                    assert(out@ + headers_wire(h@) =~= headers_wire(h@));
                }
                let mut i: usize = 0;
                while i < n
                    invariant
                        0 <= i <= n,
                        n == h@.len(),
                        out@ + headers_wire(h@.skip(i as int)) == headers_wire(h@),
                    decreases n - i,
                {
                    let ghost before = out@;
                    out.append(h.key_at(i).as_str());
                    out.append(":");
                    out.append(h.value_at(i).as_str());
                    out.append("\r\n");
                    proof {
                        let suf = h@.skip(i as int);
                        assert(suf[0] == h@[i as int]);
                        assert(suf.drop_first() =~= h@.skip(i as int + 1));
                        assert(out@ + headers_wire(h@.skip(i as int + 1)) =~= before
                            + headers_wire(suf));
                    }
                    i += 1;
                }
                proof {
                    assert(headers_wire(h@.skip(n as int)) == Seq::<char>::empty());
                    assert(out@ + headers_wire(h@.skip(n as int)) =~= out@);
                }
                out
            },
            None => {
                proof {
                    assert(out@ =~= headers_wire(self.spec_headers()));
                }
                out
            },
        }
    }

    /// The body field; an absent body reads as the empty string.
    pub fn body(&self) -> (b: &str)
        ensures
            b@ == self.spec_body(),
    {
        match &self.body {
            Some(v) => v.as_str(),
            None => {
                let empty = "";
                proof {
                    reveal_strlit("");
                    assert(empty@ =~= Seq::<char>::empty());
                }
                empty
            },
        }
    }

    /// Serializes the response to its exact wire form.
    pub fn serialize(&self) -> (s: String)
        ensures
            s@ == self.wire(),
    {
        let mut out = String::new();
        out.append(self.version);
        out.append(" ");
        out.append(self.status_code);
        out.append(" ");
        out.append(self.status_text);
        out.append("\r\n");
        let hdrs = self.headers();
        out.append(hdrs.as_str());
        out.append("Content-Length: ");
        let blen: usize = if let Some(b) = &self.body {
            let bs = b.as_str();
            let bytes = bs.as_bytes();
            let l = bytes.len();
            proof {
                broadcast use vstd::slice::axiom_spec_len;

                assert(bytes@ == encode_utf8(b@));
                assert(self.spec_body() == b@);
            }
            l
        } else {
            proof {
                assert(encode_utf8(Seq::<char>::empty()) =~= Seq::<u8>::empty());
                assert(self.spec_body() == Seq::<char>::empty());
            }
            0
        };
        proof {
            assert(blen == self.spec_body_len());
        }
        let num = usize_to_string(blen);
        out.append(num.as_str());
        out.append("\r\n\r\n");
        if let Some(b) = &self.body {
            out.append(b.as_str());
        }
        proof {
            assert(out@ =~= self.wire());
        }
        out
    }
}

impl<'a> Default for HttpResponse<'a> {
    /// The default response: version `HTTP/1.1`, status `200 OK`, no headers
    /// and no body.
    fn default() -> (r: HttpResponse<'a>)
        ensures
            r.spec_version() == "HTTP/1.1"@,
            r.spec_status_code() == "200"@,
            r.spec_status_text() == "OK"@,
            r.spec_headers() == Seq::<(Seq<char>, Seq<char>)>::empty(),
            r.spec_body() == Seq::<char>::empty(),
    {
        HttpResponse {
            version: "HTTP/1.1",
            status_code: "200",
            status_text: "OK",
            headers: None,
            body: None,
        }
    }
}

/// Serialization is deterministic: any two results that `serialize` can
/// return for one response value agree character for character, and so byte
/// for byte.
pub proof fn lemma_serialize_deterministic(r: &HttpResponse, s1: String, s2: String)
    requires
        call_ensures(HttpResponse::serialize, (r,), s1),
        call_ensures(HttpResponse::serialize, (r,), s2),
    ensures
        s1@ == s2@,
        encode_utf8(s1@) == encode_utf8(s2@),
{
}

} // verus!
