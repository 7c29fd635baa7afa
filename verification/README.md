# carrick

Carrick indexes what the services of an organisation serve and call (HTTP
routes, GraphQL fields, Socket.IO events, topics), matches producers with
consumers across repositories, and reports where they do not fit.

- `src/` is the library, verified with Verus: everything that is decided or
  computed. Each public function states what it returns; the `law_` functions
  state what holds of several of them together.
- `app/` is ordinary Rust around it: files, processes, the network, the parser,
  and the serialized forms of the records. `app/engine.rs` performs the steps of
  a run; which step comes next, `src/engine.rs` decides.
- `tests/` runs the library with the outside crates linked.

The library relies on a few functions of outside crates and of the standard
library without proof: regular expressions, SHA-256, JSON documents and Unicode
case mapping. Each stands behind one small function whose comment says what is
taken for granted.
