//! The Lua scripting interface: the global `wrk` table and the `setup`,
//! `init`, `request`, `response`, `delay` and `done` hooks that a script may
//! define. What a script does is up to the script; the contracts here state
//! what is handed to it and what is made of its answers.

use mlua::{Error, Function, Lua, Table};
use vstd::prelude::*;
use vstd::utf8::{decode_utf8, encode_utf8, valid_utf8};

use crate::headers::{copy_pairs, entries_view};
use crate::request::{format_request_head, request_head};
use crate::text::chars_of;

verus! {

#[verifier::external_type_specification]
#[verifier::external_body]
pub struct ExLua(Lua);

#[verifier::external_type_specification]
#[verifier::external_body]
pub struct ExTable(Table);

#[verifier::external_type_specification]
#[verifier::external_body]
pub struct ExFunction(Function);

#[verifier::external_type_specification]
#[verifier::external_body]
pub struct ExError(Error);

// ---------------------------------------------------------------------------
// Calls into mlua. What they return depends on the state of the Lua
// interpreter and on the script, so nothing is promised of it.
// ---------------------------------------------------------------------------

/// Looks up the global `name` with `Lua::globals` and `Table::get`; `Some`
/// when it holds a function.
#[verifier::external_body]
fn lua_global_function(lua: &Lua, name: &str) -> Option<Function> {
    lua.globals().get::<Function>(name).ok()
}

/// Calls `Lua::create_table`.
#[verifier::external_body]
fn lua_new_table(lua: &Lua) -> Result<Table, Error> {
    lua.create_table()
}

/// Calls `Table::set` with a string key and a string value.
#[verifier::external_body]
pub(crate) fn table_set_text(t: &Table, key: &str, value: &str) -> Result<(), Error> {
    t.set(key, value)
}

/// Calls `Table::set` with a string key and an integer value.
#[verifier::external_body]
fn table_set_integer(t: &Table, key: &str, value: u64) -> Result<(), Error> {
    t.set(key, value)
}

/// Calls `Table::set` with an integer key and a string value.
#[verifier::external_body]
fn table_set_indexed_text(t: &Table, index: usize, value: &str) -> Result<(), Error> {
    t.set(index, value)
}

/// Calls `Table::set` with a string key and a table value.
#[verifier::external_body]
fn table_set_table(t: &Table, key: &str, value: Table) -> Result<(), Error> {
    t.set(key, value)
}

/// Calls `Table::set` with a string key and a function value.
#[verifier::external_body]
fn table_set_function(t: &Table, key: &str, value: Function) -> Result<(), Error> {
    t.set(key, value)
}

/// Sets the global `name` to `t` with `Lua::globals` and `Table::set`.
#[verifier::external_body]
fn lua_set_global_table(lua: &Lua, name: &str, t: Table) -> Result<(), Error> {
    lua.globals().set(name, t)
}

/// Calls `Function::call` with one table argument and no result.
#[verifier::external_body]
fn call_with_table(f: &Function, t: Table) -> Result<(), Error> {
    f.call::<()>(t)
}

/// Calls `Function::call` with no argument, asking for a string.
#[verifier::external_body]
fn call_for_text(f: &Function) -> Result<String, Error> {
    f.call::<String>(())
}

/// Calls `Function::call` with no argument, asking for an integer.
#[verifier::external_body]
fn call_for_integer(f: &Function) -> Result<u64, Error> {
    f.call::<u64>(())
}

/// Calls `Function::call` with a status, a table and a string.
#[verifier::external_body]
fn call_with_response(f: &Function, status: u16, headers: Table, body: String) -> Result<(), Error> {
    f.call::<()>((status, headers, body))
}

/// Calls `Function::call` with three tables.
#[verifier::external_body]
fn call_with_three_tables(f: &Function, a: Table, b: Table, c: Table) -> Result<(), Error> {
    f.call::<()>((a, b, c))
}

/// Reads the global `name` as a table, with `Lua::globals` and `Table::get`.
#[verifier::external_body]
pub(crate) fn lua_global_table(lua: &Lua, name: &str) -> Result<Table, Error> {
    lua.globals().get::<Table>(name)
}

/// Calls `Table::get` with a string key, asking for a string.
#[verifier::external_body]
pub(crate) fn table_get_text(t: &Table, key: &str) -> Result<String, Error> {
    t.get::<String>(key)
}

/// Calls `Table::get` with a string key, asking for a table.
#[verifier::external_body]
pub(crate) fn table_get_table(t: &Table, key: &str) -> Result<Table, Error> {
    t.get::<Table>(key)
}

/// Calls `Table::get` with a string key, asking for a Lua string or `nil`,
/// and copies the bytes of the string.
#[verifier::external_body]
pub(crate) fn table_get_bytes(t: &Table, key: &str) -> Result<Option<Vec<u8>>, Error> {
    t.get::<Option<mlua::String>>(key).map(|v| v.map(|b| b.as_bytes().to_vec()))
}

/// Collects `Table::pairs` as string pairs, failing on the first pair that
/// is not a pair of strings.
#[verifier::external_body]
pub(crate) fn table_text_pairs(t: &Table) -> Result<Vec<(String, String)>, Error> {
    t.pairs::<String, String>().collect()
}

/// Sets `key` to a Lua string holding `value`, with `Lua::create_string`
/// and `Table::set`.
#[verifier::external_body]
pub(crate) fn table_set_bytes(lua: &Lua, t: &Table, key: &str, value: &[u8]) -> Result<(), Error> {
    t.set(key, lua.create_string(value)?)
}

/// Runs `source` as a Lua chunk with `Lua::load` and `Chunk::exec`.
#[verifier::external_body]
pub(crate) fn run_script(lua: &Lua, source: &str) -> Result<(), Error> {
    lua.load(source).exec()
}

/// Calls `Lua::create_function` with a function of
/// `(method, path, headers, body)` that collects the string pairs of the
/// headers table (failing on the first pair that is not a pair of strings)
/// and hands everything to [`format_request`].
#[verifier::external_body]
fn lua_format_function(lua: &Lua, host: String) -> Result<Function, Error> {
    lua.create_function(
        move |_, (method, path, headers, body): (String, String, Option<Table>, Option<String>)| {
            let pairs = match headers {
                Some(h) => h.pairs::<String, String>().collect::<Result<Vec<_>, Error>>()?,
                None => Vec::new(),
            };
            Ok(format_request(&method, &path, &host, &pairs, body.as_deref()))
        },
    )
}

/// What `String::from_utf8_lossy` makes of `bytes`.
pub uninterp spec fn utf8_lossy(bytes: Seq<u8>) -> Seq<char>;

/// Calls `String::from_utf8_lossy`; the result is named `utf8_lossy(bytes)`.
/// As its documentation says, valid UTF-8 comes out as the text it encodes.
#[verifier::external_body]
fn lossy_text(bytes: &[u8]) -> (s: String)
    ensures
        s@ == utf8_lossy(bytes@),
        valid_utf8(bytes@) ==> s@ == decode_utf8(bytes@),
{
    String::from_utf8_lossy(bytes).to_string()
}

// ---------------------------------------------------------------------------
// Decisions on what the hooks answered
// ---------------------------------------------------------------------------

/// The request to send: the text the `request` hook returned, as UTF-8
/// bytes, or `default_request` when there is no hook.
pub fn request_from_hook(hook: Option<Result<String, Error>>, default_request: &[u8]) -> (r: Result<
    Vec<u8>,
    Error,
>)
    ensures
        match hook {
            None => r matches Ok(v) && v@ == default_request@,
            Some(Ok(s)) => r matches Ok(v) && v@ == encode_utf8(s@),
            Some(Err(e)) => r == Err::<Vec<u8>, Error>(e),
        },
{
    match hook {
        None => {
            let mut v: Vec<u8> = Vec::new();
            v.extend_from_slice(default_request);
            Ok(v)
        },
        Some(Ok(s)) => Ok(s.as_str().as_bytes_vec()),
        Some(Err(e)) => Err(e),
    }
}

/// The delay before the next request: what the `delay` hook returned, or 0
/// when there is no hook.
pub fn delay_from_hook(hook: Option<Result<u64, Error>>) -> (r: Result<u64, Error>)
    ensures
        match hook {
            None => r == Ok::<u64, Error>(0),
            Some(x) => r == x,
        },
{
    match hook {
        None => Ok(0),
        Some(x) => x,
    }
}

/// The text `wrk.format` returns: the request head (with a
/// `Content-Length` of the body's UTF-8 length when there is a body) and the
/// body.
pub open spec fn formatted_request(
    method: Seq<char>,
    path: Seq<char>,
    host: Seq<char>,
    headers: Seq<(Seq<char>, Seq<char>)>,
    body: Option<Seq<char>>,
) -> Seq<char> {
    request_head(
        method,
        path,
        host,
        headers,
        match body {
            Some(b) => Some(encode_utf8(b).len()),
            None => None,
        },
    ) + match body {
        Some(b) => b,
        None => Seq::empty(),
    }
}

/// Formats a request as `wrk.format` does.
pub fn format_request(
    method: &str,
    path: &str,
    host: &str,
    headers: &[(String, String)],
    body: Option<&str>,
) -> (r: String)
    ensures
        r@ == formatted_request(
            method@,
            path@,
            host@,
            entries_view(headers@),
            match body {
                Some(b) => Some(b@),
                None => None,
            },
        ),
{
    let content_length = match body {
        Some(b) => Some(b.as_bytes().len()),
        None => None,
    };
    let mut req = format_request_head(method, path, host, headers, content_length);
    match body {
        Some(b) => {
            req.append(b);
        },
        None => {},
    }
    req
}

/// Sets each `(key, value)` of `pairs` as text in `t`, in order, stopping at
/// the first failure. On success it gives the number of pairs it set, which
/// is all of them.
pub fn set_text_pairs(t: &Table, pairs: &[(String, String)]) -> (r: Result<usize, Error>)
    ensures
        r matches Ok(n) ==> n == pairs@.len(),
{
    let mut set: usize = 0;
    let mut i: usize = 0;
    while i < pairs.len()
        invariant
            i <= pairs.len(),
            set == i,
        decreases pairs.len() - i,
    {
        table_set_text(t, pairs[i].0.as_str(), pairs[i].1.as_str())?;
        set = set + 1;
        i = i + 1;
    }
    Ok(set)
}

/// Sets each `(key, value)` of `pairs` as an integer in `t`, in order,
/// stopping at the first failure. On success it gives the number of pairs it
/// set, which is all of them.
pub fn set_integer_pairs(t: &Table, pairs: &[(String, u64)]) -> (r: Result<usize, Error>)
    ensures
        r matches Ok(n) ==> n == pairs@.len(),
{
    let mut set: usize = 0;
    let mut i: usize = 0;
    while i < pairs.len()
        invariant
            i <= pairs.len(),
            set == i,
        decreases pairs.len() - i,
    {
        table_set_integer(t, pairs[i].0.as_str(), pairs[i].1)?;
        set = set + 1;
        i = i + 1;
    }
    Ok(set)
}

// ---------------------------------------------------------------------------
// The hooks
// ---------------------------------------------------------------------------

/// The fields of the table handed to `setup`: `id`, the thread's number.
pub fn setup_fields(thread_id: u32) -> (r: Vec<(String, u64)>)
    ensures
        r@.len() == 1,
        r@[0].0@ == seq!['i', 'd'],
        r@[0].1 == thread_id as u64,
{
    proof {
        reveal_strlit("id");
    }
    let mut r: Vec<(String, u64)> = Vec::new();
    r.push((String::from_str("id"), thread_id as u64));
    r
}

/// Calls `setup(t)` if the script defines `setup`, `t` holding the fields
/// of [`setup_fields`].
pub fn call_setup(lua: &Lua, thread_id: u32) -> Result<(), Error> {
    match lua_global_function(lua, "setup") {
        Some(f) => {
            let t = lua_new_table(lua)?;
            let fields = setup_fields(thread_id);
            set_integer_pairs(&t, fields.as_slice())?;
            call_with_table(&f, t)
        },
        None => Ok(()),
    }
}

/// The entries of the table handed to `init`: the script arguments at
/// positions 1, 2, and so on.
pub fn init_fields(args: &[String]) -> (r: Vec<(usize, String)>)
    ensures
        r@.len() == args@.len(),
        forall|i: int| 0 <= i < r@.len() ==> #[trigger] r@[i].0 == i + 1 && r@[i].1@ == args@[i]@,
{
    let mut r: Vec<(usize, String)> = Vec::new();
    let mut i: usize = 0;
    while i < args.len()
        invariant
            i <= args.len(),
            r@.len() == i,
            forall|j: int| 0 <= j < i ==> #[trigger] r@[j].0 == j + 1 && r@[j].1@ == args@[j]@,
        decreases args.len() - i,
    {
        r.push((i + 1, args[i].clone()));
        i = i + 1;
    }
    r
}

/// Calls `init(t)` if the script defines `init`, `t` holding the entries of
/// [`init_fields`].
pub fn call_init(lua: &Lua, args: &[String]) -> Result<(), Error> {
    match lua_global_function(lua, "init") {
        Some(f) => {
            let t = lua_new_table(lua)?;
            let fields = init_fields(args);
            let mut i: usize = 0;
            while i < fields.len()
                invariant
                    i <= fields.len(),
                decreases fields.len() - i,
            {
                table_set_indexed_text(&t, fields[i].0, fields[i].1.as_str())?;
                i = i + 1;
            }
            call_with_table(&f, t)
        },
        None => Ok(()),
    }
}

/// The request to send: what the `request` hook returns if the script
/// defines one, `default_request` otherwise.
pub fn call_request(lua: &Lua, default_request: &[u8]) -> (r: Result<Vec<u8>, Error>)
    ensures
        r matches Ok(v) ==> v@ == default_request@ || exists|s: Seq<char>| v@ == encode_utf8(s),
{
    let hook = match lua_global_function(lua, "request") {
        Some(f) => Some(call_for_text(&f)),
        None => None,
    };
    request_from_hook(hook, default_request)
}

/// What the `response` hook is handed: the status, the header pairs, and
/// the body as text with invalid UTF-8 replaced.
pub fn response_arguments(status: u16, headers: &[(String, String)], body: &[u8]) -> (r: (
    u16,
    Vec<(String, String)>,
    String,
))
    ensures
        r.0 == status,
        entries_view(r.1@) == entries_view(headers@),
        r.2@ == utf8_lossy(body@),
        valid_utf8(body@) ==> r.2@ == decode_utf8(body@),
{
    (status, copy_pairs(headers), lossy_text(body))
}

/// Calls `response(status, headers, body)` if the script defines
/// `response`, with the values of [`response_arguments`], the header pairs
/// as a table.
pub fn call_response(lua: &Lua, status: u16, headers: &[(String, String)], body: &[u8]) -> Result<
    (),
    Error,
> {
    match lua_global_function(lua, "response") {
        Some(f) => {
            let (code, pairs, text) = response_arguments(status, headers, body);
            let h = lua_new_table(lua)?;
            set_text_pairs(&h, pairs.as_slice())?;
            call_with_response(&f, code, h, text)
        },
        None => Ok(()),
    }
}

/// The delay before the next request, in milliseconds: what the `delay`
/// hook returns if the script defines one, 0 otherwise.
pub fn call_delay(lua: &Lua) -> Result<u64, Error> {
    let hook = match lua_global_function(lua, "delay") {
        Some(f) => Some(call_for_integer(&f)),
        None => None,
    };
    delay_from_hook(hook)
}

/// The fields of the summary handed to `done`: `requests`, `duration` (in
/// microseconds) and `bytes`.
pub open spec fn done_fields_spec(requests: u64, duration_us: u64, bytes: u64) -> Seq<
    (Seq<char>, u64),
> {
    seq![
        (seq!['r', 'e', 'q', 'u', 'e', 's', 't', 's'], requests),
        (seq!['d', 'u', 'r', 'a', 't', 'i', 'o', 'n'], duration_us),
        (seq!['b', 'y', 't', 'e', 's'], bytes),
    ]
}

/// The fields of the summary handed to `done`, as `(key, value)` pairs.
pub fn done_fields(requests: u64, duration_us: u64, bytes: u64) -> (r: Vec<(String, u64)>)
    ensures
        r@.len() == 3,
        forall|i: int|
            0 <= i < 3 ==> (#[trigger] r@[i].0@, r@[i].1) == done_fields_spec(
                requests,
                duration_us,
                bytes,
            )[i],
{
    proof {
        reveal_strlit("requests");
        reveal_strlit("duration");
        reveal_strlit("bytes");
    }
    let mut r: Vec<(String, u64)> = Vec::new();
    r.push((String::from_str("requests"), requests));
    r.push((String::from_str("duration"), duration_us));
    r.push((String::from_str("bytes"), bytes));
    r
}

/// Calls `done(summary, latency, requests)` if the script defines `done`;
/// `summary` holds the fields of [`done_fields_spec`], the other two tables
/// are empty.
pub fn call_done(lua: &Lua, requests: u64, duration_us: u64, bytes: u64) -> Result<(), Error> {
    match lua_global_function(lua, "done") {
        Some(f) => {
            let summary = lua_new_table(lua)?;
            let fields = done_fields(requests, duration_us, bytes);
            set_integer_pairs(&summary, fields.as_slice())?;
            let latency = lua_new_table(lua)?;
            let per_request = lua_new_table(lua)?;
            call_with_three_tables(&f, summary, latency, per_request)
        },
        None => Ok(()),
    }
}

/// The text fields the `wrk` table starts with: `scheme` and `host` as
/// given, `method` `GET`, `path` `/` and an empty `body`.
pub open spec fn wrk_text_fields_spec(scheme: Seq<char>, host: Seq<char>) -> Seq<
    (Seq<char>, Seq<char>),
> {
    seq![
        (seq!['s', 'c', 'h', 'e', 'm', 'e'], scheme),
        (seq!['h', 'o', 's', 't'], host),
        (seq!['m', 'e', 't', 'h', 'o', 'd'], seq!['G', 'E', 'T']),
        (seq!['p', 'a', 't', 'h'], seq!['/']),
        (seq!['b', 'o', 'd', 'y'], Seq::<char>::empty()),
    ]
}

/// The text fields the `wrk` table starts with, as `(key, value)` pairs.
pub fn wrk_text_fields(scheme: &str, host: &str) -> (r: Vec<(String, String)>)
    ensures
        entries_view(r@) == wrk_text_fields_spec(scheme@, host@),
{
    proof {
        reveal_strlit("scheme");
        reveal_strlit("host");
        reveal_strlit("method");
        reveal_strlit("GET");
        reveal_strlit("path");
        reveal_strlit("/");
        reveal_strlit("body");
        reveal_strlit("");
    }
    let mut r: Vec<(String, String)> = Vec::new();
    r.push((String::from_str("scheme"), String::from_str(scheme)));
    r.push((String::from_str("host"), String::from_str(host)));
    r.push((String::from_str("method"), String::from_str("GET")));
    r.push((String::from_str("path"), String::from_str("/")));
    r.push((String::from_str("body"), String::from_str("")));
    assert(entries_view(r@)[0] == wrk_text_fields_spec(scheme@, host@)[0]);
    assert(entries_view(r@)[1] == wrk_text_fields_spec(scheme@, host@)[1]);
    assert(entries_view(r@)[2] == wrk_text_fields_spec(scheme@, host@)[2]);
    assert(entries_view(r@)[3] == wrk_text_fields_spec(scheme@, host@)[3]);
    assert(entries_view(r@)[4] == wrk_text_fields_spec(scheme@, host@)[4]);
    assert(entries_view(r@) =~= wrk_text_fields_spec(scheme@, host@));
    r
}

/// The integer fields the `wrk` table starts with: `port`.
pub fn wrk_integer_fields(port: u16) -> (r: Vec<(String, u64)>)
    ensures
        r@.len() == 1,
        r@[0].0@ == seq!['p', 'o', 'r', 't'],
        r@[0].1 == port as u64,
{
    proof {
        reveal_strlit("port");
    }
    let mut r: Vec<(String, u64)> = Vec::new();
    r.push((String::from_str("port"), port as u64));
    r
}

/// Sets up the global `wrk` table: the text fields of
/// [`wrk_text_fields_spec`], the integer fields of [`wrk_integer_fields`],
/// an empty `headers` table, and `format`, which writes a request to `host` as [`format_request`]
/// does. Stops at the first failure. Whether each step succeeds rests on the
/// interpreter, and what the table then holds is not stated in the contract:
/// Verus sees the interpreter only as an opaque handle.
pub fn setup_wrk_table(lua: &Lua, scheme: &str, host: &str, port: u16) -> Result<(), Error> {
    let wrk = lua_new_table(lua)?;
    let fields = wrk_text_fields(scheme, host);
    set_text_pairs(&wrk, fields.as_slice())?;
    let numbers = wrk_integer_fields(port);
    set_integer_pairs(&wrk, numbers.as_slice())?;
    let headers = lua_new_table(lua)?;
    table_set_table(&wrk, "headers", headers)?;
    let format = lua_format_function(lua, String::from_str(host))?;
    table_set_function(&wrk, "format", format)?;
    lua_set_global_table(lua, "wrk", wrk)
}

/// A request written by `wrk.format` has, once encoded, the same bytes as
/// the request built from the same method, path, host, headers and body,
/// the body taken as its UTF-8 encoding.
pub proof fn lemma_format_matches_builder(
    method: Seq<char>,
    path: Seq<char>,
    host: Seq<char>,
    headers: Seq<(Seq<char>, Seq<char>)>,
    body: Option<Seq<char>>,
)
    ensures
        encode_utf8(formatted_request(method, path, host, headers, body))
            == crate::request::request_bytes(
            method,
            path,
            host,
            headers,
            match body {
                Some(b) => Some(encode_utf8(b)),
                None => None,
            },
        ),
{
    let length = match body {
        Some(b) => Some(encode_utf8(b).len()),
        None => None,
    };
    let head = request_head(method, path, host, headers, length);
    match body {
        Some(b) => {
            crate::request::lemma_encode_utf8_concat(head, b);
        },
        None => {
            assert(head + Seq::<char>::empty() =~= head);
            assert(encode_utf8(head) + Seq::<u8>::empty() =~= encode_utf8(head));
        },
    }
}

} // verus!
