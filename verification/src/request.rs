//! HTTP/1.1 request text: the request line, the `Host` header, the extra
//! headers, an optional `Content-Length`, the blank line and the body.

use vstd::prelude::*;
use vstd::utf8::encode_utf8;

use crate::headers::{entries_view, HeaderEntries, HeaderMap};
use crate::text::{decimal_digits, decimal_string};

verus! {

pub open spec fn crlf() -> Seq<char> {
    seq!['\r', '\n']
}

/// The text between the path and the host: ` HTTP/1.1\r\nHost: `.
pub open spec fn version_and_host_label() -> Seq<char> {
    seq![' ', 'H', 'T', 'T', 'P', '/', '1', '.', '1', '\r', '\n', 'H', 'o', 's', 't', ':', ' ']
}

pub open spec fn name_value_separator() -> Seq<char> {
    seq![':', ' ']
}

pub open spec fn content_length_label() -> Seq<char> {
    seq![
        'C',
        'o',
        'n',
        't',
        'e',
        'n',
        't',
        '-',
        'L',
        'e',
        'n',
        'g',
        't',
        'h',
        ':',
        ' ',
    ]
}

/// One `Name: Value\r\n` line per entry, in order.
pub open spec fn header_lines(e: HeaderEntries) -> Seq<char>
    decreases e.len(),
{
    if e.len() == 0 {
        Seq::empty()
    } else {
        header_lines(e.drop_last()) + e.last().0 + name_value_separator() + e.last().1 + crlf()
    }
}

/// The head of a request: request line, `Host`, the given headers, a
/// `Content-Length` line when a body length is given, and the blank line.
pub open spec fn request_head(
    method: Seq<char>,
    path: Seq<char>,
    host: Seq<char>,
    headers: HeaderEntries,
    content_length: Option<nat>,
) -> Seq<char> {
    method + seq![' '] + path + version_and_host_label() + host + crlf() + header_lines(headers)
        + match content_length {
        Some(n) => content_length_label() + decimal_digits(n) + crlf(),
        None => Seq::empty(),
    } + crlf()
}

/// The bytes of a request: its head in UTF-8, followed by the body if any.
pub open spec fn request_bytes(
    method: Seq<char>,
    path: Seq<char>,
    host: Seq<char>,
    headers: HeaderEntries,
    body: Option<Seq<u8>>,
) -> Seq<u8> {
    let head = request_head(
        method,
        path,
        host,
        headers,
        match body {
            Some(b) => Some(b.len()),
            None => None,
        },
    );
    encode_utf8(head) + match body {
        Some(b) => b,
        None => Seq::empty(),
    }
}

/// Writes the head of a request.
pub fn format_request_head(
    method: &str,
    path: &str,
    host: &str,
    headers: &[(String, String)],
    content_length: Option<usize>,
) -> (r: String)
    ensures
        r@ == request_head(
            method@,
            path@,
            host@,
            entries_view(headers@),
            match content_length {
                Some(n) => Some(n as nat),
                None => None,
            },
        ),
{
    proof {
        reveal_strlit(" ");
        reveal_strlit(" HTTP/1.1\r\nHost: ");
        reveal_strlit("\r\n");
        reveal_strlit(": ");
        reveal_strlit("Content-Length: ");
    }
    let mut req = String::from_str(method);
    req.append(" ");
    req.append(path);
    req.append(" HTTP/1.1\r\nHost: ");
    req.append(host);
    req.append("\r\n");
    let ghost start = req@;
    let mut i: usize = 0;
    while i < headers.len()
        invariant
            i <= headers.len(),
            req@ == start + header_lines(entries_view(headers@).take(i as int)),
        decreases headers.len() - i,
    {
        proof {
            reveal_strlit("\r\n");
            reveal_strlit(": ");
        }
        req.append(headers[i].0.as_str());
        req.append(": ");
        req.append(headers[i].1.as_str());
        req.append("\r\n");
        let ghost taken = entries_view(headers@).take(i + 1);
        assert(taken.drop_last() =~= entries_view(headers@).take(i as int));
        assert(taken.last() == (headers@[i as int].0@, headers@[i as int].1@));
        assert(req@ =~= start + header_lines(taken));
        i = i + 1;
    }
    assert(entries_view(headers@).take(headers.len() as int) =~= entries_view(headers@));
    match content_length {
        Some(n) => {
            req.append("Content-Length: ");
            let digits = decimal_string(n as u64);
            req.append(digits.as_str());
            req.append("\r\n");
        },
        None => {},
    }
    req.append("\r\n");
    assert(req@ =~= request_head(
        method@,
        path@,
        host@,
        entries_view(headers@),
        match content_length {
            Some(n) => Some(n as nat),
            None => None,
        },
    ));
    req
}

/// Builds the bytes of one HTTP/1.1 request.
pub struct RequestBuilder {
    pub method: String,
    pub path: String,
    pub host: String,
    pub headers: HeaderMap,
    pub body: Option<Vec<u8>>,
}

impl RequestBuilder {
    /// A request with no extra headers and no body.
    pub fn new(method: &str, path: &str, host: &str) -> (b: RequestBuilder)
        ensures
            b.method@ == method@,
            b.path@ == path@,
            b.host@ == host@,
            b.headers@ == Seq::<(Seq<char>, Seq<char>)>::empty(),
            b.body is None,
    {
        RequestBuilder {
            method: String::from_str(method),
            path: String::from_str(path),
            host: String::from_str(host),
            headers: HeaderMap::new(),
            body: None,
        }
    }

    /// Sets the header `name` to `value`.
    pub fn header(self, name: &str, value: &str) -> (b: RequestBuilder)
        ensures
            b.method == self.method,
            b.path == self.path,
            b.host == self.host,
            b.headers@ == crate::headers::entries_insert(self.headers@, name@, value@),
            b.body == self.body,
    {
        let mut b = self;
        b.headers.insert(String::from_str(name), String::from_str(value));
        b
    }

    /// Sets the body.
    pub fn body(self, body: Vec<u8>) -> (b: RequestBuilder)
        ensures
            b.method == self.method,
            b.path == self.path,
            b.host == self.host,
            b.headers@ == self.headers@,
            b.body == Some(body),
    {
        let mut b = self;
        b.body = Some(body);
        b
    }

    /// The bytes of the request.
    pub fn build(&self) -> (r: Vec<u8>)
        ensures
            r@ == request_bytes(
                self.method@,
                self.path@,
                self.host@,
                self.headers@,
                match self.body {
                    Some(b) => Some(b@),
                    None => None,
                },
            ),
    {
        let content_length = match &self.body {
            Some(b) => Some(b.len()),
            None => None,
        };
        let head = format_request_head(
            self.method.as_str(),
            self.path.as_str(),
            self.host.as_str(),
            self.headers.as_slice(),
            content_length,
        );
        let mut bytes = head.as_str().as_bytes_vec();
        match &self.body {
            Some(b) => {
                bytes.extend_from_slice(b.as_slice());
            },
            None => {},
        }
        bytes
    }
}

/// The UTF-8 encoding of two texts one after the other is the encoding of
/// the first followed by that of the second.
pub proof fn lemma_encode_utf8_concat(a: Seq<char>, b: Seq<char>)
    ensures
        encode_utf8(a + b) == encode_utf8(a) + encode_utf8(b),
    decreases a.len(),
{
    if a.len() == 0 {
        assert(a + b =~= b);
        assert(encode_utf8(a) + encode_utf8(b) =~= encode_utf8(b));
    } else {
        lemma_encode_utf8_concat(a.drop_first(), b);
        assert((a + b).drop_first() =~= a.drop_first() + b);
        assert((a + b)[0] == a[0]);
        assert(encode_utf8(a + b) =~= encode_utf8(a) + encode_utf8(b));
    }
}

} // verus!
