# libagent

Keeps the Datadog Agent and Trace Agent running while the library is
loaded, and proxies HTTP requests and DogStatsD metrics to them over a Unix
domain socket or a Windows named pipe.

## Layout

- `src/` — the verified library (Verus). Every function carries a contract
  and is proved against it:
  - `http`, `stream`, `uds`, `pipe`: building requests, reading and parsing
    responses (status line, headers, `Content-Length`, chunked and
    read-to-end bodies) as state machines fed by the transport;
  - `config`, `logging`, `process`: the rules that turn environment values
    into settings, log lines, and child process specifications;
  - `monitor`, `manager`, `shutdown`: respawn backoff, idempotent start and
    stop, the readiness gate, and the termination escalation;
  - `ffi`, `metrics`: argument checks, callback choice and return codes of
    the C interface, counters and their summary;
  - `exchange`: the proof that a response, as a server writes it, is read
    back with the same status, headers and body;
  - `text`: the string and number helpers the rest is proved with.
- `app/` — the runtime around the library: environment reads, clocks,
  processes, sockets and pipes, threads and locks, the response-time
  averages (floating point), the exported C functions.
- `tests/` — tests of the library on concrete values.
