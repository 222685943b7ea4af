//! Command-line values: counts with SI suffixes, durations, the target URL
//! and `Name: Value` headers.

use std::time::Duration;
use vstd::prelude::*;

use crate::headers::{entries_insert, HeaderEntries, HeaderMap};
use crate::text::{
    chars_of, ends_with, find_char, first_index, last_index, parse_unsigned, parse_unsigned_range,
    range_ends_with, range_starts_with, rfind_char, starts_with, string_of_range, trim, trim_range,
};

verus! {

/// The options of one benchmark run, as given on the command line.
pub struct Args {
    /// Number of threads to use.
    pub threads: usize,
    /// Connections to keep open.
    pub connections: usize,
    /// Duration of the test (e.g. 30s, 1m, 2h).
    pub duration: String,
    /// Lua script to load.
    pub script: Option<String>,
    /// Headers to add to each request, each as `Name: Value`.
    pub headers: Vec<String>,
    /// Whether to print latency statistics.
    pub latency: bool,
    /// Socket and request timeout (e.g. 2s).
    pub timeout: String,
    /// Whether version details were asked for.
    pub version: Option<bool>,
    /// Target URL.
    pub url: String,
}

// ---------------------------------------------------------------------------
// Counts
// ---------------------------------------------------------------------------

/// The factor that the last character of a count stands for.
pub open spec fn count_multiplier(s: Seq<char>) -> nat {
    if s.len() == 0 {
        1
    } else if s.last() == 'k' || s.last() == 'K' {
        1_000
    } else if s.last() == 'M' {
        1_000_000
    } else if s.last() == 'G' {
        1_000_000_000
    } else {
        1
    }
}

/// The digits of a count, without its SI suffix.
pub open spec fn count_digits(s: Seq<char>) -> Seq<char> {
    if count_multiplier(s) == 1 {
        s
    } else {
        s.drop_last()
    }
}

/// The number a count denotes, if it is well formed.
pub open spec fn count_value(s: Seq<char>) -> Option<nat> {
    match parse_unsigned(count_digits(s), usize::MAX as nat) {
        Some(n) => Some(n * count_multiplier(s)),
        None => None,
    }
}

/// Whether the product of a count's digits and its suffix fits in `usize`.
pub open spec fn count_fits(s: Seq<char>) -> bool {
    match count_value(s) {
        Some(v) => v <= usize::MAX,
        None => true,
    }
}

/// Tells whether [`parse_count`] can be called on `s`: its product fits in
/// `usize`.
pub fn count_in_range(s: &str) -> (b: bool)
    ensures
        b == count_fits(s@),
{
    let v = chars_of(s);
    let n = v.len();
    let (end, mult): (usize, u64) = if n == 0 {
        (n, 1)
    } else if v[n - 1] == 'k' || v[n - 1] == 'K' {
        (n - 1, 1_000)
    } else if v[n - 1] == 'M' {
        (n - 1, 1_000_000)
    } else if v[n - 1] == 'G' {
        (n - 1, 1_000_000_000)
    } else {
        (n, 1)
    };
    assert(v@.subrange(0, end as int) =~= count_digits(s@));
    match parse_unsigned_range(&v, 0, end, usize::MAX as u64) {
        Some(k) => {
            let limit: u64 = usize::MAX as u64;
            k <= limit / mult && (k * mult) <= limit
        },
        None => true,
    }
}

/// Parses a count that may carry an SI suffix (`1k`, `1M`, `1G`).
pub fn parse_count(s: &str) -> (r: Result<usize, String>)
    requires
        count_fits(s@),
    ensures
        match r {
            Ok(n) => count_value(s@) == Some(n as nat),
            Err(e) => count_value(s@) is None && e@ == "invalid count: "@ + s@,
        },
{
    let v = chars_of(s);
    let n = v.len();
    let parsed = if n > 0 && (v[n - 1] == 'k' || v[n - 1] == 'K') {
        assert(v@.subrange(0, n - 1) =~= count_digits(s@));
        match parse_unsigned_range(&v, 0, n - 1, usize::MAX as u64) {
            Some(k) => Some((k as usize) * 1_000),
            None => None,
        }
    } else if n > 0 && v[n - 1] == 'M' {
        assert(v@.subrange(0, n - 1) =~= count_digits(s@));
        match parse_unsigned_range(&v, 0, n - 1, usize::MAX as u64) {
            Some(k) => Some((k as usize) * 1_000_000),
            None => None,
        }
    } else if n > 0 && v[n - 1] == 'G' {
        assert(v@.subrange(0, n - 1) =~= count_digits(s@));
        match parse_unsigned_range(&v, 0, n - 1, usize::MAX as u64) {
            Some(k) => Some((k as usize) * 1_000_000_000),
            None => None,
        }
    } else {
        assert(v@.subrange(0, n as int) =~= count_digits(s@));
        match parse_unsigned_range(&v, 0, n, usize::MAX as u64) {
            Some(k) => Some(k as usize),
            None => None,
        }
    };
    match parsed {
        Some(k) => Ok(k),
        None => {
            let mut e = String::from_str("invalid count: ");
            e.append(s);
            Err(e)
        },
    }
}

// ---------------------------------------------------------------------------
// Durations
// ---------------------------------------------------------------------------

/// What `Duration::from_secs` returns for `secs`.
pub uninterp spec fn duration_of_secs(secs: u64) -> Duration;

/// What `Duration::from_millis` returns for `millis`.
pub uninterp spec fn duration_of_millis(millis: u64) -> Duration;

/// Calls `Duration::from_secs`; the result is named `duration_of_secs(secs)`.
#[verifier::external_body]
fn duration_from_secs(secs: u64) -> (d: Duration)
    ensures
        d == duration_of_secs(secs),
{
    Duration::from_secs(secs)
}

/// Calls `Duration::from_millis`; the result is named
/// `duration_of_millis(millis)`.
#[verifier::external_body]
fn duration_from_millis(millis: u64) -> (d: Duration)
    ensures
        d == duration_of_millis(millis),
{
    Duration::from_millis(millis)
}

/// `s` read as a `u64`, or `fallback` where it is not one.
pub open spec fn u64_or(s: Seq<char>, fallback: nat) -> nat {
    match parse_unsigned(s, u64::MAX as nat) {
        Some(n) => n,
        None => fallback,
    }
}

pub open spec fn millis_suffix() -> Seq<char> {
    seq!['m', 's']
}

/// The unit a duration ends in: 0 for `ms`, 1 for `s`, 2 for `m`, 3 for `h`,
/// 4 for none of them.
pub open spec fn duration_unit(s: Seq<char>) -> nat {
    if ends_with(s, millis_suffix()) {
        0
    } else if s.len() > 0 && s.last() == 's' {
        1
    } else if s.len() > 0 && s.last() == 'm' {
        2
    } else if s.len() > 0 && s.last() == 'h' {
        3
    } else {
        4
    }
}

/// The number of seconds (or, for `ms`, milliseconds) a duration denotes,
/// with the fallbacks used where the number does not parse.
pub open spec fn duration_amount(s: Seq<char>) -> nat {
    let u = duration_unit(s);
    if u == 0 {
        u64_or(s.take(s.len() - 2), 10_000)
    } else if u == 1 {
        u64_or(s.drop_last(), 10)
    } else if u == 2 {
        u64_or(s.drop_last(), 1) * 60
    } else if u == 3 {
        u64_or(s.drop_last(), 1) * 3_600
    } else {
        u64_or(s, 10)
    }
}

/// Whether the amount of a duration fits in `u64`.
pub open spec fn duration_fits(s: Seq<char>) -> bool {
    duration_amount(s) <= u64::MAX
}

/// The duration that `s` denotes.
pub open spec fn duration_value(s: Seq<char>) -> Duration {
    if duration_unit(s) == 0 {
        duration_of_millis(duration_amount(s) as u64)
    } else {
        duration_of_secs(duration_amount(s) as u64)
    }
}

/// Tells whether [`parse_duration`] can be called on `s`: its amount fits in
/// `u64`.
pub fn duration_in_range(s: &str) -> (b: bool)
    ensures
        b == duration_fits(s@),
{
    let v = chars_of(s);
    let n = v.len();
    let ms = vec!['m', 's'];
    assert(ms@ =~= millis_suffix());
    assert(v@.subrange(0, n as int) =~= s@);
    if range_ends_with(&v, 0, n, &ms) || !(n > 0 && (v[n - 1] == 'm' || v[n - 1] == 'h')) {
        proof {
            lemma_u64_or_bound(s@);
        }
        return true;
    }
    assert(v@.subrange(0, n - 1) =~= s@.drop_last());
    let k: u64 = match parse_unsigned_range(&v, 0, n - 1, u64::MAX) {
        Some(k) => k,
        None => 1,
    };
    let limit: u64 = u64::MAX;
    if v[n - 1] == 'm' {
        k <= limit / 60
    } else {
        k <= limit / 3_600
    }
}

proof fn lemma_u64_or_bound(s: Seq<char>)
    ensures
        duration_unit(s) == 0 ==> u64_or(s.take(s.len() - 2), 10_000) <= u64::MAX,
        duration_unit(s) == 1 ==> u64_or(s.drop_last(), 10) <= u64::MAX,
        u64_or(s, 10) <= u64::MAX,
{
}

/// Parses a duration such as `500ms`, `30s`, `2m`, `1h` or a bare number of
/// seconds; a number that does not parse falls back to 10000 ms, 10 s, 1 m,
/// 1 h and 10 s respectively.
pub fn parse_duration(s: &str) -> (d: Duration)
    requires
        duration_fits(s@),
    ensures
        d == duration_value(s@),
{
    let v = chars_of(s);
    let n = v.len();
    let ms = vec!['m', 's'];
    assert(ms@ =~= millis_suffix());
    assert(v@.subrange(0, n as int) =~= s@);
    if range_ends_with(&v, 0, n, &ms) {
        assert(v@.subrange(0, n - 2) =~= s@.take(s@.len() - 2));
        let k: u64 = match parse_unsigned_range(&v, 0, n - 2, u64::MAX) {
            Some(k) => k,
            None => 10_000,
        };
        return duration_from_millis(k);
    }
    if n > 0 && (v[n - 1] == 's' || v[n - 1] == 'm' || v[n - 1] == 'h') {
        assert(v@.subrange(0, n - 1) =~= s@.drop_last());
        let last = v[n - 1];
        if last == 's' {
            let k: u64 = match parse_unsigned_range(&v, 0, n - 1, u64::MAX) {
                Some(k) => k,
                None => 10,
            };
            return duration_from_secs(k);
        }
        let k: u64 = match parse_unsigned_range(&v, 0, n - 1, u64::MAX) {
            Some(k) => k,
            None => 1,
        };
        if last == 'm' {
            return duration_from_secs(k * 60);
        }
        return duration_from_secs(k * 3_600);
    }
    assert(v@.subrange(0, n as int) =~= s@);
    let k: u64 = match parse_unsigned_range(&v, 0, n, u64::MAX) {
        Some(k) => k,
        None => 10,
    };
    duration_from_secs(k)
}

// ---------------------------------------------------------------------------
// URLs
// ---------------------------------------------------------------------------

pub open spec fn https_prefix() -> Seq<char> {
    seq!['h', 't', 't', 'p', 's', ':', '/', '/']
}

pub open spec fn http_prefix() -> Seq<char> {
    seq!['h', 't', 't', 'p', ':', '/', '/']
}

pub open spec fn https_scheme() -> Seq<char> {
    seq!['h', 't', 't', 'p', 's']
}

pub open spec fn http_scheme() -> Seq<char> {
    seq!['h', 't', 't', 'p']
}

/// How many leading characters of the URL name its scheme.
pub open spec fn url_scheme_len(s: Seq<char>) -> int {
    if starts_with(s, https_prefix()) {
        8
    } else if starts_with(s, http_prefix()) {
        7
    } else {
        0
    }
}

/// The scheme of a URL: `https` when it says so, `http` otherwise.
pub open spec fn url_scheme(s: Seq<char>) -> Seq<char> {
    if starts_with(s, https_prefix()) {
        https_scheme()
    } else {
        http_scheme()
    }
}

pub open spec fn url_default_port(s: Seq<char>) -> u16 {
    if starts_with(s, https_prefix()) {
        443
    } else {
        80
    }
}

/// The URL without its scheme.
pub open spec fn url_rest(s: Seq<char>) -> Seq<char> {
    s.skip(url_scheme_len(s))
}

/// The `host[:port]` part of a URL: what comes before the first `/`.
pub open spec fn url_host_port(s: Seq<char>) -> Seq<char> {
    let rest = url_rest(s);
    match first_index(rest, '/') {
        Some(i) => rest.take(i),
        None => rest,
    }
}

/// The path of a URL: from the first `/` on, or `/` when there is none.
pub open spec fn url_path(s: Seq<char>) -> Seq<char> {
    let rest = url_rest(s);
    match first_index(rest, '/') {
        Some(i) => rest.skip(i),
        None => seq!['/'],
    }
}

/// The host named by a `host[:port]` text: everything before its last `:`.
pub open spec fn host_of(hp: Seq<char>) -> Seq<char> {
    match last_index(hp, ':') {
        Some(c) => hp.take(c),
        None => hp,
    }
}

/// The port named by a `host[:port]` text: what follows its last `:` read
/// as a `u16`, or `default` where that is missing or not a `u16`.
pub open spec fn port_of(hp: Seq<char>, default: u16) -> u16 {
    match last_index(hp, ':') {
        Some(c) => match parse_unsigned(hp.skip(c + 1), u16::MAX as nat) {
            Some(p) => p as u16,
            None => default,
        },
        None => default,
    }
}

/// The host of a URL.
pub open spec fn url_host(s: Seq<char>) -> Seq<char> {
    host_of(url_host_port(s))
}

/// The port of a URL, or the scheme's default port.
pub open spec fn url_port(s: Seq<char>) -> u16 {
    port_of(url_host_port(s), url_default_port(s))
}

fn split_host_port(url: &str, v: &Vec<char>, lo: usize, hi: usize, default: u16) -> (r: (
    String,
    u16,
))
    requires
        v@ == url@,
        lo <= hi <= v.len(),
    ensures
        r.0@ == host_of(v@.subrange(lo as int, hi as int)),
        r.1 == port_of(v@.subrange(lo as int, hi as int), default),
{
    let ghost hp = v@.subrange(lo as int, hi as int);
    match rfind_char(v, lo, hi, ':') {
        Some(c) => {
            let host = string_of_range(url, v, lo, c);
            assert(v@.subrange(lo as int, c as int) =~= hp.take(c - lo));
            assert(v@.subrange(c + 1, hi as int) =~= hp.skip(c - lo + 1));
            let port: u16 = match parse_unsigned_range(v, c + 1, hi, u16::MAX as u64) {
                Some(p) => p as u16,
                None => default,
            };
            (host, port)
        },
        None => (string_of_range(url, v, lo, hi), default),
    }
}

fn split_path(url: &str, v: &Vec<char>, lo: usize) -> (r: (usize, String))
    requires
        v@ == url@,
        lo <= v.len(),
    ensures
        lo <= r.0 <= v.len(),
        v@.subrange(lo as int, r.0 as int) == match first_index(v@.skip(lo as int), '/') {
            Some(i) => v@.skip(lo as int).take(i),
            None => v@.skip(lo as int),
        },
        r.1@ == match first_index(v@.skip(lo as int), '/') {
            Some(i) => v@.skip(lo as int).skip(i),
            None => seq!['/'],
        },
{
    let n = v.len();
    assert(v@.subrange(lo as int, n as int) =~= v@.skip(lo as int));
    match find_char(v, lo, n, '/') {
        Some(i) => {
            assert(v@.subrange(lo as int, i as int) =~= v@.skip(lo as int).take(i - lo));
            assert(v@.subrange(i as int, n as int) =~= v@.skip(lo as int).skip(i - lo));
            (i, string_of_range(url, v, i, n))
        },
        None => {
            proof {
                reveal_strlit("/");
            }
            (n, String::from_str("/"))
        },
    }
}

/// Splits a URL into scheme, host, port and path.
pub fn parse_url(url: &str) -> (r: (String, String, u16, String))
    ensures
        r.0@ == url_scheme(url@),
        r.1@ == url_host(url@),
        r.2 == url_port(url@),
        r.3@ == url_path(url@),
{
    let v = chars_of(url);
    let n = v.len();
    let https = vec!['h', 't', 't', 'p', 's', ':', '/', '/'];
    let http = vec!['h', 't', 't', 'p', ':', '/', '/'];
    assert(https@ =~= https_prefix());
    assert(http@ =~= http_prefix());
    assert(v@.subrange(0, n as int) =~= url@);
    let is_https = range_starts_with(&v, 0, n, &https);
    let start: usize = if is_https {
        8
    } else if range_starts_with(&v, 0, n, &http) {
        7
    } else {
        0
    };
    assert(start == url_scheme_len(url@));
    let scheme = if is_https {
        proof {
            reveal_strlit("https");
        }
        String::from_str("https")
    } else {
        proof {
            reveal_strlit("http");
        }
        String::from_str("http")
    };
    let default_port: u16 = if is_https {
        443
    } else {
        80
    };
    let (hp_end, path) = split_path(url, &v, start);
    let (host, port) = split_host_port(url, &v, start, hp_end, default_port);
    (scheme, host, port, path)
}

// ---------------------------------------------------------------------------
// Headers
// ---------------------------------------------------------------------------

/// The character views of a list of strings.
pub open spec fn strings_view(raw: Seq<String>) -> Seq<Seq<char>> {
    raw.map_values(|s: String| s@)
}

/// A `Name: Value` header split at its first `:`, both sides trimmed; `None`
/// when there is no `:`.
pub open spec fn header_of(h: Seq<char>) -> Option<(Seq<char>, Seq<char>)> {
    match first_index(h, ':') {
        Some(i) => Some((trim(h.take(i)), trim(h.skip(i + 1)))),
        None => None,
    }
}

/// The map built from `raw` in order: every well-formed header sets its name,
/// a later header of the same name overriding an earlier one.
pub open spec fn headers_from(raw: Seq<Seq<char>>) -> HeaderEntries
    decreases raw.len(),
{
    if raw.len() == 0 {
        Seq::empty()
    } else {
        let e = headers_from(raw.drop_last());
        match header_of(raw.last()) {
            Some(p) => entries_insert(e, p.0, p.1),
            None => e,
        }
    }
}

/// Parses `Name: Value` headers into a map; headers without a `:` are
/// skipped.
pub fn parse_headers(raw: &[String]) -> (m: HeaderMap)
    ensures
        m@ == headers_from(strings_view(raw@)),
{
    let mut m = HeaderMap::new();
    let mut i: usize = 0;
    while i < raw.len()
        invariant
            i <= raw.len(),
            m@ == headers_from(strings_view(raw@).take(i as int)),
        decreases raw.len() - i,
    {
        let h: &str = raw[i].as_str();
        let v = chars_of(h);
        let n = v.len();
        let ghost taken = strings_view(raw@).take(i + 1);
        assert(taken.drop_last() =~= strings_view(raw@).take(i as int));
        assert(taken.last() == h@);
        match find_char(&v, 0, n, ':') {
            Some(c) => {
                assert(v@.subrange(0, n as int) =~= h@);
                assert(v@.subrange(0, c as int) =~= h@.take(c as int));
                assert(v@.subrange(c + 1, n as int) =~= h@.skip(c + 1));
                let (a, b) = trim_range(&v, 0, c);
                let (x, y) = trim_range(&v, c + 1, n);
                let name = string_of_range(h, &v, a, b);
                let value = string_of_range(h, &v, x, y);
                m.insert(name, value);
            },
            None => {
                assert(v@.subrange(0, n as int) =~= h@);
            },
        }
        i = i + 1;
    }
    assert(strings_view(raw@).take(raw.len() as int) =~= strings_view(raw@));
    m
}

/// The factor an SI suffix stands for.
pub open spec fn suffix_factor(c: char) -> nat {
    if c == 'k' || c == 'K' {
        1_000
    } else if c == 'M' {
        1_000_000
    } else {
        1_000_000_000
    }
}

proof fn lemma_unsigned_ends_in_digit(s: Seq<char>, max: nat)
    requires
        parse_unsigned(s, max) is Some,
    ensures
        s.len() > 0,
        crate::text::is_ascii_digit(s.last()),
{
    let d = crate::text::unsigned_digits(s);
    assert(crate::text::is_ascii_digit(d[d.len() - 1]));
    if s.len() > 0 && s[0] == '+' {
        assert(d[d.len() - 1] == s.last());
    }
}

/// A count with an SI suffix is the plain count times the suffix's factor
/// (`1k` is 1000, `2M` is 2000000, `1G` is 1000000000), and a plain count is
/// its number.
pub proof fn lemma_count_suffix(s: Seq<char>, n: nat, c: char)
    requires
        parse_unsigned(s, usize::MAX as nat) == Some(n),
        c == 'k' || c == 'K' || c == 'M' || c == 'G',
    ensures
        count_value(s) == Some(n),
        count_value(s.push(c)) == Some(n * suffix_factor(c)),
{
    lemma_unsigned_ends_in_digit(s, usize::MAX as nat);
    assert(s.push(c).drop_last() =~= s);
}

/// `Nm` lasts as long as `N*60` seconds, and `Nh` as long as `N*3600`
/// seconds.
pub proof fn lemma_minutes_and_hours(s: Seq<char>, n: nat)
    requires
        parse_unsigned(s, u64::MAX as nat) == Some(n),
    ensures
        n * 60 <= u64::MAX ==> duration_value(s.push('m')) == duration_value(
            crate::text::decimal_digits(n * 60).push('s'),
        ),
        n * 3_600 <= u64::MAX ==> duration_value(s.push('h')) == duration_value(
            crate::text::decimal_digits(n * 3_600).push('s'),
        ),
{
    assert(s.push('m').drop_last() =~= s);
    assert(s.push('h').drop_last() =~= s);
    assert(!ends_with(s.push('m'), millis_suffix())) by {
        let t = s.push('m');
        if ends_with(t, millis_suffix()) {
            assert(t.skip(t.len() - 2)[1] == 's');
        }
    }
    assert(!ends_with(s.push('h'), millis_suffix())) by {
        let t = s.push('h');
        if ends_with(t, millis_suffix()) {
            assert(t.skip(t.len() - 2)[1] == 's');
        }
    }
    if n * 60 <= u64::MAX {
        let d = crate::text::decimal_digits(n * 60);
        crate::text::lemma_parse_decimal(n * 60, u64::MAX as nat);
        crate::text::lemma_decimal_digits(n * 60);
        let t = d.push('s');
        assert(t.drop_last() =~= d);
        assert(!ends_with(t, millis_suffix())) by {
            if ends_with(t, millis_suffix()) {
                assert(t.skip(t.len() - 2)[0] == 'm');
                assert(t[t.len() - 2] == d[d.len() - 1]);
                assert(crate::text::is_ascii_digit(d[d.len() - 1]));
            }
        }
    }
    if n * 3_600 <= u64::MAX {
        let d = crate::text::decimal_digits(n * 3_600);
        crate::text::lemma_parse_decimal(n * 3_600, u64::MAX as nat);
        crate::text::lemma_decimal_digits(n * 3_600);
        let t = d.push('s');
        assert(t.drop_last() =~= d);
        assert(!ends_with(t, millis_suffix())) by {
            if ends_with(t, millis_suffix()) {
                assert(t.skip(t.len() - 2)[0] == 'm');
                assert(t[t.len() - 2] == d[d.len() - 1]);
                assert(crate::text::is_ascii_digit(d[d.len() - 1]));
            }
        }
    }
}

/// Whether `c` does not occur in `s`.
pub open spec fn lacks(s: Seq<char>, c: char) -> bool {
    forall|i: int| 0 <= i < s.len() ==> s[i] != c
}

proof fn lemma_first_index_after(a: Seq<char>, b: Seq<char>, c: char)
    requires
        lacks(a, c),
    ensures
        first_index(a + b, c) == match first_index(b, c) {
            Some(k) => Some(k + a.len()),
            None => None,
        },
    decreases a.len(),
{
    if a.len() > 0 {
        lemma_first_index_after(a.drop_first(), b, c);
        assert((a + b).drop_first() =~= a.drop_first() + b);
        assert((a + b)[0] == a[0]);
    } else {
        assert(a + b =~= b);
    }
}

proof fn lemma_last_index_before(a: Seq<char>, b: Seq<char>, c: char)
    requires
        lacks(b, c),
    ensures
        last_index(a + b, c) == last_index(a, c),
    decreases b.len(),
{
    if b.len() > 0 {
        lemma_last_index_before(a, b.drop_last(), c);
        assert((a + b).drop_last() =~= a + b.drop_last());
        assert((a + b).last() == b.last());
    } else {
        assert(a + b =~= a);
    }
}

proof fn lemma_digits_lack(d: Seq<char>)
    requires
        crate::text::all_digits(d),
    ensures
        lacks(d, ':'),
        lacks(d, '/'),
{
    assert forall|i: int| 0 <= i < d.len() implies d[i] != ':' && d[i] != '/' by {
        assert(crate::text::is_ascii_digit(d[i]));
    }
}

/// The text of a URL `scheme://host[:port]path`: `https://` when `secure`,
/// `http://` otherwise, and `:port` only when a port is given.
pub open spec fn url_text(secure: bool, host: Seq<char>, port: Option<u16>, path: Seq<char>) -> Seq<
    char,
> {
    (if secure {
        https_prefix()
    } else {
        http_prefix()
    }) + host + match port {
        Some(p) => seq![':'] + crate::text::decimal_digits(p as nat),
        None => Seq::empty(),
    } + path
}

/// The `host[:port]` text of a URL.
pub open spec fn host_port_text(host: Seq<char>, port: Option<u16>) -> Seq<char> {
    host + match port {
        Some(p) => seq![':'] + crate::text::decimal_digits(p as nat),
        None => Seq::empty(),
    }
}

/// A `host[:port]` text holds no `/` and reads back as its host and port.
proof fn lemma_host_port_parts(host: Seq<char>, port: Option<u16>, default: u16)
    requires
        lacks(host, ':'),
        lacks(host, '/'),
    ensures
        lacks(host_port_text(host, port), '/'),
        host_of(host_port_text(host, port)) == host,
        port_of(host_port_text(host, port), default) == match port {
            Some(p) => p,
            None => default,
        },
{
    let hp = host_port_text(host, port);
    match port {
        Some(p) => {
            let digits = crate::text::decimal_digits(p as nat);
            crate::text::lemma_decimal_digits(p as nat);
            crate::text::lemma_parse_decimal(p as nat, u16::MAX as nat);
            lemma_digits_lack(digits);
            assert(hp =~= host + seq![':'] + digits);
            assert forall|i: int| 0 <= i < hp.len() implies hp[i] != '/' by {
                if i < host.len() {
                    assert(hp[i] == host[i]);
                } else if i > host.len() {
                    assert(hp[i] == digits[i - host.len() - 1]);
                }
            }
            lemma_last_index_before(host + seq![':'], digits, ':');
            assert((host + seq![':']).last() == ':');
            assert(hp.take(host.len() as int) =~= host);
            assert(hp.skip(host.len() as int + 1) =~= digits);
        },
        None => {
            assert(hp =~= host);
            crate::text::lemma_last_index(hp, ':');
        },
    }
}

/// A URL written as `http://host[:port]path` or `https://host[:port]path`
/// reads back as its parts, the port defaulting to 80 or 443 and an empty
/// path reading as `/`, as long as the host holds no `:` or `/` and the
/// path, if any, starts with `/`. In particular a port is kept whether or
/// not a path follows it.
pub proof fn lemma_url_roundtrip(secure: bool, host: Seq<char>, port: Option<u16>, path: Seq<char>)
    requires
        lacks(host, ':'),
        lacks(host, '/'),
        path.len() > 0 ==> path[0] == '/',
    ensures
        ({
            let url = url_text(secure, host, port, path);
            &&& url_scheme(url) == (if secure {
                https_scheme()
            } else {
                http_scheme()
            })
            &&& url_host(url) == host
            &&& url_port(url) == match port {
                Some(p) => p,
                None => if secure {
                    443u16
                } else {
                    80u16
                },
            }
            &&& url_path(url) == (if path.len() > 0 {
                path
            } else {
                seq!['/']
            })
        }),
{
    let prefix = if secure {
        https_prefix()
    } else {
        http_prefix()
    };
    let hp = host_port_text(host, port);
    let rest = hp + path;
    let url = url_text(secure, host, port, path);
    assert(url =~= prefix + rest);
    if secure {
        assert(url.take(8) =~= https_prefix());
    } else {
        assert(!starts_with(url, https_prefix())) by {
            if starts_with(url, https_prefix()) {
                assert(url.take(8)[4] == https_prefix()[4]);
            }
        }
        assert(url.take(7) =~= http_prefix());
    }
    assert(url_rest(url) =~= rest);
    lemma_host_port_parts(host, port, url_default_port(url));
    if path.len() > 0 {
        lemma_first_index_after(hp, path, '/');
        assert(first_index(path, '/') == Some(0int));
        assert(rest.take(hp.len() as int) =~= hp);
        assert(rest.skip(hp.len() as int) =~= path);
    } else {
        assert(rest =~= hp);
        crate::text::lemma_first_index(hp, '/');
    }
}

/// The entries built from any list of headers never hold a name twice.
pub proof fn lemma_headers_from_distinct(raw: Seq<Seq<char>>)
    ensures
        crate::headers::distinct_keys(headers_from(raw)),
    decreases raw.len(),
{
    if raw.len() > 0 {
        lemma_headers_from_distinct(raw.drop_last());
        match header_of(raw.last()) {
            Some(p) => {
                crate::headers::lemma_insert_distinct(headers_from(raw.drop_last()), p.0, p.1);
            },
            None => {},
        }
    }
}

/// Of several headers with the same name, the last one given sets the
/// value; a header without `:` changes nothing.
pub proof fn lemma_later_header_wins(raw: Seq<Seq<char>>, h: Seq<char>)
    ensures
        header_of(h) matches Some(p) ==> crate::headers::entries_lookup(
            headers_from(raw.push(h)),
            p.0,
        ) == Some(p.1),
        header_of(h) is None ==> headers_from(raw.push(h)) == headers_from(raw),
{
    assert(raw.push(h).drop_last() =~= raw);
    lemma_headers_from_distinct(raw);
    match header_of(h) {
        Some(p) => {
            crate::headers::lemma_lookup_after_insert(headers_from(raw), p.0, p.1);
        },
        None => {},
    }
}

} // verus!
