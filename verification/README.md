# wrk

An HTTP benchmarking tool in the style of `wrk`, whose core is verified with
Verus.

## Layout

- `src/` — the verified library:
  - `text.rs`: decimal numbers, Unicode whitespace trimming, character search,
    ASCII case folding;
  - `args.rs`: counts with SI suffixes, durations, URLs and `Name: Value`
    headers as given on the command line;
  - `headers.rs`: a header map that never holds a name twice and keeps
    insertion order;
  - `request.rs`: the bytes of an HTTP/1.1 request;
  - `response.rs`: reading a response head (through `httparse`);
  - `stats.rs`: counters, per-thread statistics and their aggregation (latency
    samples kept by `hdrhistogram`);
  - `scripting.rs`: the Lua hooks and the `wrk` table (through `mlua`);
  - `connection.rs`: one benchmark connection as a state machine, and the
    preparation of a benchmark thread;
  - `config.rs`: the settings of a run.
- `app/` — the program around it: command-line parsing, threads, the async
  runtime, sockets and TLS, and the floating-point report.
- `tests/` — tests of the library.

Every public function of the library that computes on plain values states
what it returns in its contract; the properties that span several calls
(reading back what was written, how a connection counts what it sees, how
counters merge) are stated and proved as lemmas next to the functions they
speak of. The functions that talk to the Lua interpreter state what they
compute before and after the interpreter is involved (the fields of the `wrk`
table, the request settings put into it, the values handed to `setup`,
`init`, `response` and `done`, the request a `wrk` table describes, what is
made of a hook's answer); what a script does with them rests on the
interpreter's state, which no contract here describes.
