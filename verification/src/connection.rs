//! One benchmark connection as a state machine. The caller performs the
//! I/O: it connects, writes requests, reads responses, runs the script
//! hooks and watches the deadline, and reports each outcome as an event; the
//! machine counts what happened and says what to do next.

use mlua::{Error, Lua};
use vstd::prelude::*;

use crate::config::BenchConfig;
use crate::headers::{
    copy_pairs, distinct_keys, entries_from_pairs, entries_insert, entries_view, HeaderEntries,
};
use crate::request::{request_bytes, RequestBuilder};
use crate::response::{
    asks_close, content_length_of, header_texts, httparse_response, parse_response,
};
use crate::scripting::{
    call_init, call_setup, lua_global_table, run_script, set_text_pairs, setup_wrk_table,
    table_get_bytes, table_get_table, table_get_text, table_set_bytes, table_set_text,
    table_text_pairs,
};
use crate::stats::{
    histogram_config, histogram_samples, latency_recorded, ErrorCounters, ThreadStats,
};

verus! {

/// What the connection is waiting for.
#[derive(Clone, Copy, Debug, PartialEq, Eq, Structural)]
pub enum ConnPhase {
    /// Not started yet.
    Idle,
    /// Waiting for a connection (and TLS handshake) to be set up.
    Connecting,
    /// Waiting for a request to be produced and written.
    Sending,
    /// Waiting for (more of) the response.
    Receiving,
    /// Waiting for the response hook and the delay to be done.
    Delivering,
    /// Finished.
    Stopped,
}

/// An outcome the caller reports. `expired` tells whether the deadline had
/// passed when the outcome was observed.
pub enum ConnEvent {
    /// The connection is about to start.
    Start { expired: bool },
    /// Connecting (and the TLS handshake, if any) succeeded.
    Connected { expired: bool },
    /// Connecting or the TLS handshake failed or timed out.
    ConnectFailed { expired: bool },
    /// The request hook failed, so no request could be produced.
    HookFailed { expired: bool },
    /// The request was written.
    Sent,
    /// Writing the request failed.
    WriteFailed { expired: bool },
    /// Writing the request timed out.
    WriteTimedOut { expired: bool },
    /// A read returned `data` (empty when the peer closed the connection),
    /// `elapsed_us` microseconds after the request was started.
    Received { data: Vec<u8>, elapsed_us: u64, expired: bool },
    /// Reading failed.
    ReadFailed { expired: bool },
    /// Reading timed out.
    ReadTimedOut { expired: bool },
    /// The response hook ran and the delay, if any, has passed.
    Delivered { expired: bool },
}

/// What the caller must do next.
pub enum ConnAction {
    /// Open a connection (with TLS for `https`).
    Connect,
    /// Produce a request (through the request hook) and write it.
    Send,
    /// Read from the connection.
    Receive,
    /// Hand the response to the response hook; then, if the connection is
    /// kept alive, ask the delay hook and wait that long.
    Deliver { status: u16, headers: Vec<(String, String)>, body: Vec<u8>, keep_alive: bool },
    /// Stop this connection.
    Stop,
}

/// The meaning of an action.
pub enum ActionView {
    Connect,
    Send,
    Receive,
    Deliver { status: u16, headers: HeaderEntries, body: Seq<u8>, keep_alive: bool },
    Stop,
}

impl View for ConnAction {
    type V = ActionView;

    open spec fn view(&self) -> ActionView {
        match self {
            ConnAction::Connect => ActionView::Connect,
            ConnAction::Send => ActionView::Send,
            ConnAction::Receive => ActionView::Receive,
            ConnAction::Deliver { status, headers, body, keep_alive } => ActionView::Deliver {
                status: *status,
                headers: entries_view(headers@),
                body: body@,
                keep_alive: *keep_alive,
            },
            ConnAction::Stop => ActionView::Stop,
        }
    }
}

/// The counted state of a connection.
pub struct ConnView {
    pub phase: ConnPhase,
    pub buf: Seq<u8>,
    pub keep_alive: bool,
    pub requests: u64,
    pub errors: ErrorCounters,
    pub bytes: u64,
}

/// A complete response in `buf`: status, headers, body, whether the
/// connection may be reused. `None` while the head is incomplete or
/// malformed, or while fewer body bytes than announced have arrived.
pub open spec fn complete_response(buf: Seq<u8>) -> Option<(u16, HeaderEntries, Seq<u8>, bool)> {
    match httparse_response(buf) {
        None => None,
        Some(h) => {
            let body_len = buf.len() - h.0;
            let announced = content_length_of(h.2, h.3, h.2.len() as int);
            if announced matches Some(len) && body_len < len {
                None
            } else {
                let kept = match announced {
                    Some(len) => if len < body_len {
                        len as int
                    } else {
                        body_len
                    },
                    None => body_len,
                };
                Some(
                    (
                        match h.1 {
                            Some(c) => c,
                            None => 0,
                        },
                        header_texts(h.2, h.3),
                        buf.subrange(h.0 as int, h.0 + kept),
                        !asks_close(h.2, h.3, h.2.len() as int),
                    ),
                )
            }
        },
    }
}

/// Reconnects, or stops once the deadline has passed.
pub open spec fn restart(v: ConnView, expired: bool) -> (ConnView, ActionView) {
    if expired {
        (ConnView { phase: ConnPhase::Stopped, ..v }, ActionView::Stop)
    } else {
        (ConnView { phase: ConnPhase::Connecting, ..v }, ActionView::Connect)
    }
}

/// One step of a connection: the state after `e` and what to do next. An
/// event that the phase does not wait for ends the connection.
pub open spec fn step_spec(v: ConnView, e: ConnEvent) -> (ConnView, ActionView) {
    match (v.phase, e) {
        (ConnPhase::Idle, ConnEvent::Start { expired }) => restart(v, expired),
        (ConnPhase::Connecting, ConnEvent::Connected { expired }) => if expired {
            (ConnView { phase: ConnPhase::Stopped, ..v }, ActionView::Stop)
        } else {
            (ConnView { phase: ConnPhase::Sending, ..v }, ActionView::Send)
        },
        (ConnPhase::Connecting, ConnEvent::ConnectFailed { expired }) => restart(
            ConnView {
                errors: ErrorCounters { connect: (v.errors.connect + 1) as u64, ..v.errors },
                ..v
            },
            expired,
        ),
        (ConnPhase::Sending, ConnEvent::HookFailed { expired }) => restart(v, expired),
        (ConnPhase::Sending, ConnEvent::Sent) => (
            ConnView { phase: ConnPhase::Receiving, buf: Seq::empty(), ..v },
            ActionView::Receive,
        ),
        (ConnPhase::Sending, ConnEvent::WriteFailed { expired }) => restart(
            ConnView { errors: ErrorCounters { write: (v.errors.write + 1) as u64, ..v.errors }, ..v },
            expired,
        ),
        (ConnPhase::Sending, ConnEvent::WriteTimedOut { expired }) => restart(
            ConnView {
                errors: ErrorCounters { timeout: (v.errors.timeout + 1) as u64, ..v.errors },
                ..v
            },
            expired,
        ),
        (ConnPhase::Receiving, ConnEvent::Received { data, elapsed_us, expired }) => {
            if data@.len() == 0 {
                restart(
                    ConnView {
                        errors: ErrorCounters { read: (v.errors.read + 1) as u64, ..v.errors },
                        ..v
                    },
                    expired,
                )
            } else {
                let buf = v.buf + data@;
                match complete_response(buf) {
                    None => (ConnView { buf, ..v }, ActionView::Receive),
                    Some(r) => (
                        ConnView {
                            phase: ConnPhase::Delivering,
                            buf,
                            keep_alive: r.3,
                            requests: (v.requests + 1) as u64,
                            errors: ErrorCounters {
                                status: if r.0 > 399 {
                                    (v.errors.status + 1) as u64
                                } else {
                                    v.errors.status
                                },
                                ..v.errors
                            },
                            bytes: (v.bytes + buf.len()) as u64,
                        },
                        ActionView::Deliver { status: r.0, headers: r.1, body: r.2, keep_alive: r.3 },
                    ),
                }
            }
        },
        (ConnPhase::Receiving, ConnEvent::ReadFailed { expired }) => restart(
            ConnView { errors: ErrorCounters { read: (v.errors.read + 1) as u64, ..v.errors }, ..v },
            expired,
        ),
        (ConnPhase::Receiving, ConnEvent::ReadTimedOut { expired }) => restart(
            ConnView {
                errors: ErrorCounters { timeout: (v.errors.timeout + 1) as u64, ..v.errors },
                ..v
            },
            expired,
        ),
        (ConnPhase::Delivering, ConnEvent::Delivered { expired }) => if expired {
            (ConnView { phase: ConnPhase::Stopped, ..v }, ActionView::Stop)
        } else if v.keep_alive {
            (ConnView { phase: ConnPhase::Sending, ..v }, ActionView::Send)
        } else {
            (ConnView { phase: ConnPhase::Connecting, ..v }, ActionView::Connect)
        },
        _ => (ConnView { phase: ConnPhase::Stopped, ..v }, ActionView::Stop),
    }
}

/// Whether the counters can take event `e` without overflowing `u64`.
pub open spec fn step_fits(v: ConnView, e: ConnEvent) -> bool {
    &&& v.errors.connect < u64::MAX
    &&& v.errors.read < u64::MAX
    &&& v.errors.write < u64::MAX
    &&& v.errors.timeout < u64::MAX
    &&& v.errors.status < u64::MAX
    &&& v.requests < u64::MAX
    &&& (e matches ConnEvent::Received { data, .. } ==> v.bytes + v.buf.len() + data@.len()
        <= u64::MAX)
}

/// A benchmark connection: its phase, the response read so far, whether the
/// server allows reuse, and what it measured.
pub struct Connection {
    pub phase: ConnPhase,
    pub buf: Vec<u8>,
    pub keep_alive: bool,
    pub stats: ThreadStats,
}

impl Connection {
    pub open spec fn counted(&self) -> ConnView {
        ConnView {
            phase: self.phase,
            buf: self.buf@,
            keep_alive: self.keep_alive,
            requests: self.stats.requests,
            errors: self.stats.errors,
            bytes: self.stats.bytes,
        }
    }

    /// A connection that has not started, with empty statistics.
    pub fn new() -> (c: Connection)
        ensures
            c.phase == ConnPhase::Idle,
            c.buf@ == Seq::<u8>::empty(),
            c.keep_alive,
            c.stats.requests == 0,
            c.stats.bytes == 0,
            c.stats.errors == crate::stats::zero_counters(),
            c.stats.duration_us == 0,
            histogram_samples(c.stats.latency) =~= vstd::multiset::Multiset::empty(),
            histogram_config(c.stats.latency) == crate::stats::latency_config(),
    {
        Connection { phase: ConnPhase::Idle, buf: Vec::new(), keep_alive: true, stats: ThreadStats::new() }
    }

    /// Tells whether [`Connection::step`] can take `e`: no counter would
    /// overflow.
    pub fn can_take(&self, e: &ConnEvent) -> (b: bool)
        ensures
            b == step_fits(self.counted(), *e),
    {
        let max: u64 = u64::MAX;
        let room = self.stats.errors.connect < max && self.stats.errors.read < max
            && self.stats.errors.write < max && self.stats.errors.timeout < max
            && self.stats.errors.status < max && self.stats.requests < max;
        match e {
            ConnEvent::Received { data, .. } => {
                room && (self.buf.len() as u64) <= max - self.stats.bytes && (data.len() as u64)
                    <= max - self.stats.bytes - (self.buf.len() as u64)
            },
            _ => room,
        }
    }

    fn restart(&mut self, expired: bool) -> (a: ConnAction)
        ensures
            (final(self).counted(), a@) == restart(old(self).counted(), expired),
            final(self).stats == old(self).stats,
    {
        if expired {
            self.phase = ConnPhase::Stopped;
            ConnAction::Stop
        } else {
            self.phase = ConnPhase::Connecting;
            ConnAction::Connect
        }
    }

    /// Takes the next data from a read; see [`step_spec`].
    fn receive(&mut self, data: Vec<u8>, elapsed_us: u64, expired: bool) -> (a: ConnAction)
        requires
            old(self).phase == ConnPhase::Receiving,
            step_fits(
                old(self).counted(),
                ConnEvent::Received { data, elapsed_us, expired },
            ),
        ensures
            (final(self).counted(), a@) == step_spec(
                old(self).counted(),
                ConnEvent::Received { data, elapsed_us, expired },
            ),
            final(self).stats.duration_us == old(self).stats.duration_us,
            a is Deliver ==> latency_recorded(old(self).stats.latency, final(self).stats.latency, elapsed_us),
            !(a is Deliver) ==> final(self).stats.latency == old(self).stats.latency,
            !histogram_config(old(self).stats.latency).3 ==> histogram_config(
                final(self).stats.latency,
            ) == histogram_config(old(self).stats.latency),
    {
        if data.len() == 0 {
            self.stats.errors.read = self.stats.errors.read + 1;
            return self.restart(expired);
        }
        let ghost new_buf = self.buf@ + data@;
        self.buf.extend_from_slice(data.as_slice());
        assert(self.buf@ =~= new_buf);
        match parse_response(self.buf.as_slice()) {
            None => ConnAction::Receive,
            Some(p) => {
                let body_len = self.buf.len() - p.header_len;
                let complete = match p.content_length {
                    Some(len) => body_len >= len,
                    None => true,
                };
                if !complete {
                    return ConnAction::Receive;
                }
                let kept: usize = match p.content_length {
                    Some(len) => if len < body_len {
                        len
                    } else {
                        body_len
                    },
                    None => body_len,
                };
                let mut body: Vec<u8> = Vec::new();
                let mut k: usize = p.header_len;
                while k < p.header_len + kept
                    invariant
                        p.header_len <= k <= p.header_len + kept <= self.buf.len(),
                        body@ =~= self.buf@.subrange(p.header_len as int, k as int),
                    decreases p.header_len + kept - k,
                {
                    body.push(self.buf[k]);
                    k = k + 1;
                }
                self.stats.record_latency(elapsed_us);
                let total = self.buf.len() as u64;
                self.stats.add_bytes(total);
                if p.status > 399 {
                    self.stats.errors.status = self.stats.errors.status + 1;
                }
                self.keep_alive = p.keep_alive;
                self.phase = ConnPhase::Delivering;
                ConnAction::Deliver {
                    status: p.status,
                    headers: p.headers,
                    body,
                    keep_alive: p.keep_alive,
                }
            },
        }
    }

    /// Takes the outcome `e` and says what to do next; see [`step_spec`].
    /// Latency is recorded, as in [`ThreadStats::record_latency`], exactly
    /// when a response is complete.
    pub fn step(&mut self, e: ConnEvent) -> (a: ConnAction)
        requires
            step_fits(old(self).counted(), e),
        ensures
            (final(self).counted(), a@) == step_spec(old(self).counted(), e),
            final(self).stats.duration_us == old(self).stats.duration_us,
            !(a is Deliver) ==> final(self).stats.latency == old(self).stats.latency,
            a is Deliver ==> (e matches ConnEvent::Received { elapsed_us, .. }
                && latency_recorded(old(self).stats.latency, final(self).stats.latency, elapsed_us)),
            !histogram_config(old(self).stats.latency).3 ==> histogram_config(
                final(self).stats.latency,
            ) == histogram_config(old(self).stats.latency),
    {
        match (self.phase, e) {
            (ConnPhase::Idle, ConnEvent::Start { expired }) => self.restart(expired),
            (ConnPhase::Connecting, ConnEvent::Connected { expired }) => {
                if expired {
                    self.phase = ConnPhase::Stopped;
                    ConnAction::Stop
                } else {
                    self.phase = ConnPhase::Sending;
                    ConnAction::Send
                }
            },
            (ConnPhase::Connecting, ConnEvent::ConnectFailed { expired }) => {
                self.stats.errors.connect = self.stats.errors.connect + 1;
                self.restart(expired)
            },
            (ConnPhase::Sending, ConnEvent::HookFailed { expired }) => self.restart(expired),
            (ConnPhase::Sending, ConnEvent::Sent) => {
                self.buf = Vec::new();
                self.phase = ConnPhase::Receiving;
                ConnAction::Receive
            },
            (ConnPhase::Sending, ConnEvent::WriteFailed { expired }) => {
                self.stats.errors.write = self.stats.errors.write + 1;
                self.restart(expired)
            },
            (ConnPhase::Sending, ConnEvent::WriteTimedOut { expired }) => {
                self.stats.errors.timeout = self.stats.errors.timeout + 1;
                self.restart(expired)
            },
            (ConnPhase::Receiving, ConnEvent::Received { data, elapsed_us, expired }) => {
                self.receive(data, elapsed_us, expired)
            },
            (ConnPhase::Receiving, ConnEvent::ReadFailed { expired }) => {
                self.stats.errors.read = self.stats.errors.read + 1;
                self.restart(expired)
            },
            (ConnPhase::Receiving, ConnEvent::ReadTimedOut { expired }) => {
                self.stats.errors.timeout = self.stats.errors.timeout + 1;
                self.restart(expired)
            },
            (ConnPhase::Delivering, ConnEvent::Delivered { expired }) => {
                if expired {
                    self.phase = ConnPhase::Stopped;
                    ConnAction::Stop
                } else if self.keep_alive {
                    self.phase = ConnPhase::Sending;
                    ConnAction::Send
                } else {
                    self.phase = ConnPhase::Connecting;
                    ConnAction::Connect
                }
            },
            _ => {
                self.phase = ConnPhase::Stopped;
                ConnAction::Stop
            },
        }
    }
}

/// The body a request carries when the script leaves `body` in `wrk.body`:
/// none when it is `nil` or empty.
pub open spec fn wrk_body(body: Option<Seq<u8>>) -> Option<Seq<u8>> {
    match body {
        Some(b) => if b.len() > 0 {
            Some(b)
        } else {
            None
        },
        None => None,
    }
}

/// Whether `req` is a request to `host` as `wrk.method`, `wrk.path`,
/// `wrk.headers` and `wrk.body` can describe it: some method, path, header
/// pairs (set in turn) and body.
pub open spec fn is_wrk_request(host: Seq<char>, req: Seq<u8>) -> bool {
    exists|method: Seq<char>, path: Seq<char>, pairs: HeaderEntries, body: Option<Seq<u8>>|
        req == #[trigger] request_bytes(
            method,
            path,
            host,
            entries_from_pairs(pairs),
            wrk_body(body),
        )
}

/// The request that the `wrk` table describes: `method`, `path`, `host`,
/// the header pairs set in turn, and the body unless it is missing or empty.
pub fn request_from_wrk(
    method: &str,
    path: &str,
    host: &str,
    headers: &[(String, String)],
    body: Option<Vec<u8>>,
) -> (r: Vec<u8>)
    ensures
        r@ == request_bytes(
            method@,
            path@,
            host@,
            entries_from_pairs(entries_view(headers@)),
            wrk_body(
                match body {
                    Some(b) => Some(b@),
                    None => None,
                },
            ),
        ),
{
    let mut builder = RequestBuilder::new(method, path, host);
    let ghost e = entries_view(headers@);
    let mut i: usize = 0;
    while i < headers.len()
        invariant
            i <= headers.len(),
            e == entries_view(headers@),
            builder.method@ == method@,
            builder.path@ == path@,
            builder.host@ == host@,
            builder.body is None,
            builder.headers@ == entries_from_pairs(e.take(i as int)),
        decreases headers.len() - i,
    {
        assert(e.take(i + 1).drop_last() =~= e.take(i as int));
        assert(e.take(i + 1).last() == (headers@[i as int].0@, headers@[i as int].1@));
        builder = builder.header(headers[i].0.as_str(), headers[i].1.as_str());
        i = i + 1;
    }
    assert(e.take(headers.len() as int) =~= e);
    match body {
        Some(b) => {
            if b.len() > 0 {
                builder = builder.body(b);
            }
        },
        None => {},
    }
    builder.build()
}

/// The request settings of `config` as they are put into the `wrk` table:
/// method, path, header pairs and the body, if any.
pub fn wrk_request_fields(config: &BenchConfig) -> (r: (
    String,
    String,
    Vec<(String, String)>,
    Option<Vec<u8>>,
))
    ensures
        r.0@ == config.method@,
        r.1@ == config.path@,
        entries_view(r.2@) == config.headers@,
        match r.3 {
            Some(b) => config.body matches Some(c) && b@ == c@,
            None => config.body is None,
        },
{
    let body = match &config.body {
        Some(b) => {
            let copy = b.clone();
            assert(copy@ =~= b@);
            Some(copy)
        },
        None => None,
    };
    (config.method.clone(), config.path.clone(), copy_pairs(config.headers.as_slice()), body)
}

/// Puts the request settings of `config`, as [`wrk_request_fields`] gives
/// them, into the `wrk` table: `method`, `path`, each header pair into
/// `wrk.headers` and, when there is one, `body`. On success it gives the
/// number of header pairs it put into `wrk.headers`, which is every header of
/// `config`.
pub fn fill_wrk_request(lua: &Lua, config: &BenchConfig) -> (r: Result<usize, Error>)
    ensures
        r matches Ok(n) ==> n == config.headers@.len(),
{
    let (method, path, pairs, body) = wrk_request_fields(config);
    let wrk = lua_global_table(lua, "wrk")?;
    table_set_text(&wrk, "method", method.as_str())?;
    table_set_text(&wrk, "path", path.as_str())?;
    let headers = table_get_table(&wrk, "headers")?;
    let n = set_text_pairs(&headers, pairs.as_slice())?;
    match &body {
        Some(b) => {
            table_set_bytes(lua, &wrk, "body", b.as_slice())?;
        },
        None => {},
    }
    Ok(n)
}

/// Reads `wrk.method`, `wrk.path`, `wrk.headers` and `wrk.body` and builds
/// the request they describe for `host`.
pub fn read_wrk_request(lua: &Lua, host: &str) -> (r: Result<Vec<u8>, Error>)
    ensures
        r matches Ok(req) ==> is_wrk_request(host@, req@),
{
    let wrk = lua_global_table(lua, "wrk")?;
    let method = table_get_text(&wrk, "method")?;
    let path = table_get_text(&wrk, "path")?;
    let headers = table_get_table(&wrk, "headers")?;
    let pairs = table_text_pairs(&headers)?;
    let body = table_get_bytes(&wrk, "body")?;
    let ghost b = match &body {
        Some(x) => Some(x@),
        None => None,
    };
    let req = request_from_wrk(method.as_str(), path.as_str(), host, pairs.as_slice(), body);
    assert(req@ == request_bytes(
        method@,
        path@,
        host@,
        entries_from_pairs(entries_view(pairs@)),
        wrk_body(b),
    ));
    Ok(req)
}

/// Readies the script state of a benchmark thread, stopping at the first
/// failure: sets up the `wrk` table for the target, puts the request
/// settings of `config` into it, runs the script source, if any, calls
/// `setup` with the thread's number and `init` with the script arguments,
/// and finally builds the request sent when the script defines no `request`
/// hook from what `wrk.method`, `wrk.path`, `wrk.headers` and `wrk.body`
/// then hold. Which of these steps fail, and what the script leaves in the
/// table, rest on the interpreter; the contract states the shape of the
/// request that comes out.
pub fn start_thread(lua: &Lua, config: &BenchConfig, thread_id: u32) -> (r: Result<Vec<u8>, Error>)
    ensures
        r matches Ok(req) ==> is_wrk_request(config.host@, req@),
{
    setup_wrk_table(lua, config.scheme.as_str(), config.host.as_str(), config.port)?;
    fill_wrk_request(lua, config)?;
    match &config.script_source {
        Some(source) => {
            run_script(lua, source.as_str())?;
        },
        None => {},
    }
    call_setup(lua, thread_id)?;
    call_init(lua, config.script_args.as_slice())?;
    read_wrk_request(lua, config.host.as_str())
}

/// What one thread of the benchmark produced.
pub struct ThreadResult {
    pub stats: ThreadStats,
}

/// Inserting the entries of a map without repeated names, in order, into an
/// empty map rebuilds it.
proof fn lemma_rebuild_entries(e: HeaderEntries, i: int)
    requires
        distinct_keys(e),
        0 <= i < e.len(),
    ensures
        entries_insert(e.take(i), e[i].0, e[i].1) == e.take(i + 1),
{
    crate::headers::lemma_key_position(e.take(i), e[i].0);
    match crate::headers::key_position(e.take(i), e[i].0) {
        Some(p) => {
            assert(e.take(i)[p].0 == e[p].0);
        },
        None => {
            assert(e.take(i).push((e[i].0, e[i].1)) =~= e.take(i + 1));
        },
    }
}

/// The request each connection sends when no request hook is defined: the
/// configured method, path, host, headers and body.
pub fn build_default_request(config: &BenchConfig) -> (r: Vec<u8>)
    ensures
        r@ == request_bytes(
            config.method@,
            config.path@,
            config.host@,
            config.headers@,
            match config.body {
                Some(b) => Some(b@),
                None => None,
            },
        ),
{
    let mut builder = RequestBuilder::new(
        config.method.as_str(),
        config.path.as_str(),
        config.host.as_str(),
    );
    let entries = config.headers.as_slice();
    let ghost e = config.headers@;
    let mut i: usize = 0;
    while i < entries.len()
        invariant
            i <= entries.len(),
            entries_view(entries@) == e,
            distinct_keys(e),
            builder.method@ == config.method@,
            builder.path@ == config.path@,
            builder.host@ == config.host@,
            builder.body is None,
            builder.headers@ == e.take(i as int),
        decreases entries.len() - i,
    {
        proof {
            lemma_rebuild_entries(e, i as int);
        }
        assert(e[i as int] == (entries@[i as int].0@, entries@[i as int].1@));
        builder = builder.header(entries[i].0.as_str(), entries[i].1.as_str());
        i = i + 1;
    }
    assert(e.take(entries.len() as int) =~= e);
    match &config.body {
        Some(body) => {
            let copy = body.clone();
            assert(copy@ =~= body@);
            builder = builder.body(copy);
        },
        None => {},
    }
    builder.build()
}

/// Whether `phase` waits for an event of the kind of `e`.
pub open spec fn waits_for(phase: ConnPhase, e: ConnEvent) -> bool {
    match (phase, e) {
        (ConnPhase::Idle, ConnEvent::Start { .. }) => true,
        (ConnPhase::Connecting, ConnEvent::Connected { .. }) => true,
        (ConnPhase::Connecting, ConnEvent::ConnectFailed { .. }) => true,
        (ConnPhase::Sending, ConnEvent::HookFailed { .. }) => true,
        (ConnPhase::Sending, ConnEvent::Sent) => true,
        (ConnPhase::Sending, ConnEvent::WriteFailed { .. }) => true,
        (ConnPhase::Sending, ConnEvent::WriteTimedOut { .. }) => true,
        (ConnPhase::Receiving, ConnEvent::Received { .. }) => true,
        (ConnPhase::Receiving, ConnEvent::ReadFailed { .. }) => true,
        (ConnPhase::Receiving, ConnEvent::ReadTimedOut { .. }) => true,
        (ConnPhase::Delivering, ConnEvent::Delivered { .. }) => true,
        _ => false,
    }
}

/// Whether `e` reports a failed connect, write or read, a timeout, or a
/// connection the peer closed before the response was complete.
pub open spec fn is_socket_failure(e: ConnEvent) -> bool {
    match e {
        ConnEvent::ConnectFailed { .. } => true,
        ConnEvent::WriteFailed { .. } => true,
        ConnEvent::WriteTimedOut { .. } => true,
        ConnEvent::ReadFailed { .. } => true,
        ConnEvent::ReadTimedOut { .. } => true,
        ConnEvent::Received { data, .. } => data@.len() == 0,
        _ => false,
    }
}

/// Whether `e` was observed after the deadline. A write that succeeded
/// carries no deadline.
pub open spec fn after_deadline(e: ConnEvent) -> bool {
    match e {
        ConnEvent::Start { expired } => expired,
        ConnEvent::Connected { expired } => expired,
        ConnEvent::ConnectFailed { expired } => expired,
        ConnEvent::HookFailed { expired } => expired,
        ConnEvent::Sent => false,
        ConnEvent::WriteFailed { expired } => expired,
        ConnEvent::WriteTimedOut { expired } => expired,
        ConnEvent::Received { expired, .. } => expired,
        ConnEvent::ReadFailed { expired } => expired,
        ConnEvent::ReadTimedOut { expired } => expired,
        ConnEvent::Delivered { expired } => expired,
    }
}

/// A stopped connection stays stopped: whatever is reported, nothing is
/// counted and the answer is to stop.
pub proof fn lemma_stopped_is_final(v: ConnView, e: ConnEvent)
    requires
        v.phase == ConnPhase::Stopped,
    ensures
        step_spec(v, e) == (v, ActionView::Stop),
{
    assert(ConnView { phase: ConnPhase::Stopped, ..v } == v);
}

/// Each complete response is counted exactly once: the request count goes up
/// by one when, and only when, the answer is to deliver a response; the
/// bytes grow by the whole response then, and by nothing otherwise; the
/// status errors grow by one exactly for a delivered status above 399.
pub proof fn lemma_response_accounting(v: ConnView, e: ConnEvent)
    requires
        step_fits(v, e),
    ensures
        ({
            let (w, a) = step_spec(v, e);
            &&& w.requests == v.requests + (if a is Deliver { 1int } else { 0int })
            &&& a is Deliver ==> w.bytes == v.bytes + w.buf.len()
            &&& !(a is Deliver) ==> w.bytes == v.bytes
            &&& w.errors.status == v.errors.status + (if a matches ActionView::Deliver {
                status,
                ..
            } && status > 399 {
                1int
            } else {
                0int
            })
        }),
{
}

/// A failure on the socket is counted once, under its own counter, when the
/// connection was waiting for that kind of event; nothing else changes the
/// count of socket errors.
pub proof fn lemma_socket_failures_counted(v: ConnView, e: ConnEvent)
    requires
        step_fits(v, e),
    ensures
        crate::stats::socket_errors(step_spec(v, e).0.errors) == crate::stats::socket_errors(
            v.errors,
        ) + (if waits_for(v.phase, e) && is_socket_failure(e) {
            1int
        } else {
            0int
        }),
{
}

/// Once the deadline has passed, the connection stops at the next event,
/// except that a read that brought data still completes the response being
/// read.
pub proof fn lemma_deadline_stops(v: ConnView, e: ConnEvent)
    requires
        after_deadline(e),
        !(e matches ConnEvent::Received { data, .. } && data@.len() > 0 && v.phase
            == ConnPhase::Receiving),
    ensures
        step_spec(v, e).0.phase == ConnPhase::Stopped,
        step_spec(v, e).1 == ActionView::Stop,
{
}

/// A complete response is delivered with the status it carries, its
/// headers, the announced body, and a keep-alive flag that is exactly the
/// absence of a `Connection: close` header, whatever the status; the
/// connection keeps that flag, so once the response is handled before the
/// deadline the next request goes over the same connection unless the
/// server asked to close it.
pub proof fn lemma_keep_alive_follows_connection_header(
    v: ConnView,
    e: ConnEvent,
    h: (usize, Option<u16>, Seq<Seq<char>>, Seq<Seq<u8>>),
)
    requires
        v.phase == ConnPhase::Receiving,
        e matches ConnEvent::Received { data, .. } && data@.len() > 0 && httparse_response(
            v.buf + data@,
        ) == Some(h) && (content_length_of(h.2, h.3, h.2.len() as int) matches Some(len) ==> (
        v.buf + data@).len() - h.0 >= len),
    ensures
        ({
            let buf = match e {
                ConnEvent::Received { data, .. } => v.buf + data@,
                _ => v.buf,
            };
            let keep = !asks_close(h.2, h.3, h.2.len() as int);
            let (w, a) = step_spec(v, e);
            &&& a matches ActionView::Deliver { status, headers, body, keep_alive } && status == (
            match h.1 {
                Some(c) => c,
                None => 0,
            }) && headers == header_texts(h.2, h.3) && keep_alive == keep && body
                == buf.subrange(
                h.0 as int,
                h.0 + match content_length_of(h.2, h.3, h.2.len() as int) {
                    Some(len) => if len < buf.len() - h.0 {
                        len as int
                    } else {
                        buf.len() - h.0
                    },
                    None => buf.len() - h.0,
                },
            )
            &&& w.keep_alive == keep
            &&& w.phase == ConnPhase::Delivering
            &&& step_spec(w, ConnEvent::Delivered { expired: false }).1 == (if keep {
                ActionView::Send
            } else {
                ActionView::Connect
            })
        }),
{
}

/// After a response is delivered before the deadline, the next request goes
/// over the same connection when the server allows it, and over a new one
/// otherwise.
pub proof fn lemma_keep_alive_reuse(v: ConnView)
    requires
        v.phase == ConnPhase::Delivering,
    ensures
        step_spec(v, ConnEvent::Delivered { expired: false }).1 == (if v.keep_alive {
            ActionView::Send
        } else {
            ActionView::Connect
        }),
{
}

} // verus!
