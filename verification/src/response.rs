//! Reading the head of an HTTP/1.x response: status, headers, whether the
//! connection stays open, and the announced body length.

use vstd::prelude::*;
use vstd::utf8::{decode_utf8, valid_utf8};

use crate::args::strings_view;
use crate::headers::{entries_view, HeaderEntries};
use crate::text::{ascii_lower_seq, chars_of, eq_ignore_ascii_case, parse_unsigned, parse_unsigned_range};

verus! {

/// The parts of a complete response head, as `httparse` found them.
pub struct ResponseHead {
    /// Length of the head, status line and blank line included.
    pub header_len: usize,
    /// The status code.
    pub code: Option<u16>,
    /// Header names, in order.
    pub names: Vec<String>,
    /// Header values, in order, as raw bytes.
    pub values: Vec<Vec<u8>>,
}

/// The byte views of a list of byte vectors.
pub open spec fn bytes_view(v: Seq<Vec<u8>>) -> Seq<Seq<u8>> {
    v.map_values(|b: Vec<u8>| b@)
}

/// What `httparse::Response::parse` finds in `buf` with room for 64
/// headers: for a complete head, its length, status code, header names and
/// header values; `None` for a partial head or a malformed one.
pub uninterp spec fn httparse_response(buf: Seq<u8>) -> Option<
    (usize, Option<u16>, Seq<Seq<char>>, Seq<Seq<u8>>),
>;

/// Calls `httparse::Response::parse` on `buf` with room for 64 headers and
/// copies out what it found; the result is named `httparse_response(buf)`.
/// Per the source, a complete head lies within `buf`, always has a status
/// code, and has at most 64 headers, each with a name and a value.
#[verifier::external_body]
fn parse_response_head(buf: &[u8]) -> (r: Option<ResponseHead>)
    ensures
        match r {
            Some(h) => httparse_response(buf@) == Some(
                (h.header_len, h.code, strings_view(h.names@), bytes_view(h.values@)),
            ),
            None => httparse_response(buf@) is None,
        },
        r matches Some(h) ==> h.header_len <= buf@.len() && h.code is Some && h.names@.len()
            == h.values@.len() && h.names@.len() <= 64,
{
    let mut headers = [httparse::EMPTY_HEADER; 64];
    let mut resp = httparse::Response::new(&mut headers);
    match resp.parse(buf) {
        Ok(httparse::Status::Complete(header_len)) => Some(ResponseHead {
            header_len,
            code: resp.code,
            names: resp.headers.iter().map(|h| h.name.to_string()).collect(),
            values: resp.headers.iter().map(|h| h.value.to_vec()).collect(),
        }),
        _ => None,
    }
}

/// Calls `std::str::from_utf8`: the text of `bytes` when they are valid
/// UTF-8, `None` otherwise.
#[verifier::external_body]
fn utf8_text(bytes: &[u8]) -> (r: Option<String>)
    ensures
        match r {
            Some(s) => valid_utf8(bytes@) && s@ == decode_utf8(bytes@),
            None => !valid_utf8(bytes@),
        },
{
    std::str::from_utf8(bytes).ok().map(|s| s.to_string())
}

/// A header value as text: its UTF-8 decoding, or empty when it is not
/// valid UTF-8.
pub open spec fn value_text(v: Seq<u8>) -> Seq<char> {
    if valid_utf8(v) {
        decode_utf8(v)
    } else {
        Seq::empty()
    }
}

pub open spec fn content_length_name() -> Seq<char> {
    seq!['c', 'o', 'n', 't', 'e', 'n', 't', '-', 'l', 'e', 'n', 'g', 't', 'h']
}

pub open spec fn connection_name() -> Seq<char> {
    seq!['c', 'o', 'n', 'n', 'e', 'c', 't', 'i', 'o', 'n']
}

pub open spec fn close_token() -> Seq<char> {
    seq!['c', 'l', 'o', 's', 'e']
}

/// The body length announced by the first `n` headers: the value of the
/// last `Content-Length` header among them (names compared without regard to
/// ASCII case), or `None` when there is none or its value is not a `usize`.
pub open spec fn content_length_of(names: Seq<Seq<char>>, values: Seq<Seq<u8>>, n: int) -> Option<
    usize,
>
    decreases n,
{
    if n <= 0 {
        None
    } else if ascii_lower_seq(names[n - 1]) == content_length_name() {
        match parse_unsigned(value_text(values[n - 1]), usize::MAX as nat) {
            Some(k) => Some(k as usize),
            None => None,
        }
    } else {
        content_length_of(names, values, n - 1)
    }
}

/// Whether one of the first `n` headers is `Connection: close` (both sides
/// compared without regard to ASCII case).
pub open spec fn asks_close(names: Seq<Seq<char>>, values: Seq<Seq<u8>>, n: int) -> bool {
    exists|i: int|
        0 <= i < n && ascii_lower_seq(#[trigger] names[i]) == connection_name() && ascii_lower_seq(
            value_text(values[i]),
        ) == close_token()
}

/// The headers as `(name, value text)` pairs.
pub open spec fn header_texts(names: Seq<Seq<char>>, values: Seq<Seq<u8>>) -> HeaderEntries {
    Seq::new(names.len(), |i: int| (names[i], value_text(values[i])))
}

/// What a response head says.
pub struct ParsedResponse {
    pub status: u16,
    pub headers: Vec<(String, String)>,
    pub keep_alive: bool,
    pub content_length: Option<usize>,
    pub header_len: usize,
}

/// Reads status, headers, keep-alive and body length out of the parts of a
/// response head: the status is the code (0 if missing), the connection
/// stays open unless a header says `Connection: close`, and the body length
/// is that of the last `Content-Length` header.
pub fn response_from_head(head: ResponseHead) -> (p: ParsedResponse)
    requires
        head.names@.len() == head.values@.len(),
    ensures
        p.status == match head.code {
            Some(c) => c,
            None => 0,
        },
        p.header_len == head.header_len,
        p.content_length == content_length_of(
            strings_view(head.names@),
            bytes_view(head.values@),
            head.names@.len() as int,
        ),
        p.keep_alive == !asks_close(
            strings_view(head.names@),
            bytes_view(head.values@),
            head.names@.len() as int,
        ),
        entries_view(p.headers@) == header_texts(strings_view(head.names@), bytes_view(head.values@)),
{
    let ghost names = strings_view(head.names@);
    let ghost values = bytes_view(head.values@);
    let cl = vec!['c', 'o', 'n', 't', 'e', 'n', 't', '-', 'l', 'e', 'n', 'g', 't', 'h'];
    let conn = vec!['c', 'o', 'n', 'n', 'e', 'c', 't', 'i', 'o', 'n'];
    let close = vec!['c', 'l', 'o', 's', 'e'];
    assert(cl@ =~= content_length_name());
    assert(conn@ =~= connection_name());
    assert(close@ =~= close_token());
    let mut content_length: Option<usize> = None;
    let mut keep_alive = true;
    let mut headers: Vec<(String, String)> = Vec::new();
    let mut i: usize = 0;
    while i < head.names.len()
        invariant
            head.names@.len() == head.values@.len(),
            names == strings_view(head.names@),
            values == bytes_view(head.values@),
            cl@ == content_length_name(),
            conn@ == connection_name(),
            close@ == close_token(),
            i <= head.names.len(),
            content_length == content_length_of(names, values, i as int),
            keep_alive == !asks_close(names, values, i as int),
            headers@.len() == i,
            entries_view(headers@) =~= header_texts(names, values).take(i as int),
        decreases head.names.len() - i,
    {
        let name = &head.names[i];
        let text = match utf8_text(head.values[i].as_slice()) {
            Some(t) => t,
            None => String::new(),
        };
        assert(names[i as int] == name@);
        assert(values[i as int] == head.values@[i as int]@);
        assert(text@ == value_text(values[i as int]));
        let name_chars = chars_of(name.as_str());
        let text_chars = chars_of(text.as_str());
        if eq_ignore_ascii_case(&name_chars, &cl) {
            let n = text_chars.len();
            assert(text_chars@.subrange(0, n as int) =~= text@);
            content_length = match parse_unsigned_range(&text_chars, 0, n, usize::MAX as u64) {
                Some(k) => Some(k as usize),
                None => None,
            };
        }
        let closes = eq_ignore_ascii_case(&name_chars, &conn) && eq_ignore_ascii_case(
            &text_chars,
            &close,
        );
        if closes {
            keep_alive = false;
        }
        assert(asks_close(names, values, i + 1) == (asks_close(names, values, i as int) || closes))
            by {
            if closes {
                assert(ascii_lower_seq(names[i as int]) == connection_name());
            }
            if asks_close(names, values, i + 1) && !closes {
                let j = choose|j: int|
                    0 <= j < i + 1 && ascii_lower_seq(#[trigger] names[j]) == connection_name()
                        && ascii_lower_seq(value_text(values[j])) == close_token();
                assert(j != i);
            }
        }
        let ghost before = headers@;
        let name_copy = name.clone();
        assert(header_texts(names, values)[i as int] == (name_copy@, text@));
        headers.push((name_copy, text));
        assert(entries_view(headers@) =~= header_texts(names, values).take(i + 1)) by {
            assert forall|j: int| 0 <= j < i + 1 implies #[trigger] entries_view(headers@)[j]
                == header_texts(names, values).take(i + 1)[j] by {
                if j < i {
                    assert(headers@[j] == before[j]);
                    assert(entries_view(before)[j] == header_texts(names, values).take(
                        i as int,
                    )[j]);
                }
            }
        }
        i = i + 1;
    }
    assert(header_texts(names, values).take(i as int) =~= header_texts(names, values));
    let status: u16 = match head.code {
        Some(c) => c,
        None => 0,
    };
    ParsedResponse { status, headers, keep_alive, content_length, header_len: head.header_len }
}

/// Parses a response head; `None` while the head is incomplete or when it is
/// malformed.
pub fn parse_response(buf: &[u8]) -> (r: Option<ParsedResponse>)
    ensures
        match httparse_response(buf@) {
            None => r is None,
            Some(h) => r matches Some(p) && p.status == match h.1 {
                Some(c) => c,
                None => 0,
            } && p.header_len == h.0 && p.header_len <= buf@.len() && p.content_length
                == content_length_of(h.2, h.3, h.2.len() as int) && p.keep_alive == !asks_close(
                h.2,
                h.3,
                h.2.len() as int,
            ) && entries_view(p.headers@) == header_texts(h.2, h.3),
        },
{
    match parse_response_head(buf) {
        Some(head) => Some(response_from_head(head)),
        None => None,
    }
}

} // verus!
