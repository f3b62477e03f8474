# v8-matrix

Runs sandboxed workloads, WASI Preview 2 components and JavaScript fetcher
modules, behind an HTTP server. What the runtime and the server decide is
verified with Verus; the program around it talks to the engines, the network and
the disk.

## Layout

- `src/` is the verified library.
  - `fetcher`, `script`, `scan`, `response`: a run of a fetcher module, from the
    first script to the response; `event_loop`, `bindings`, `fetch`, `json`: what the
    script asks for meanwhile.
  - `wasm`: a run of a component, what it may reach, and how its output is
    streamed.
  - `server`, `webtransport`, `cert`, `jwt`, `tenant`: the routes, sessions,
    certificates and tokens of the server.
  - `text`, `encoding`, `clock`: helpers.
- `tests/` runs the library on concrete values.
- `app/` is the program: `v8-matrix` serves HTTP on port 3000 and WebTransport on
  port 4433, `v8-matrix js <source>` evaluates a script, and
  `v8-matrix fetch <script> <url>` runs a fetcher module.

## How runs work

A run never performs anything itself. It is a state machine that says what is to
be done next (an action) and is told what came of it (an event). Each machine has
a spec function `steps` that says, for every state and event, which state and
action follow; the laws about whole runs are proved from it.

The scripts that set up `Request`, `Response`, `Headers`, `fetch`, the encoders and
the console are read from the directory that `V8_MATRIX_BOOTSTRAP` names
(`bootstrap` by default).
