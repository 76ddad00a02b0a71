# vertex_rejoin

A harness that reproduces a reconnection problem in a four-node Tashi Vertex
consensus session: four nodes start, node 1 is killed, and after ten seconds it
is started again with `joining=true`. The restarted node watches for `offline:`
transactions (state it missed) and `live:` transactions (sent after it came
back); the surviving nodes are checked for its `rejoin:node-1` greeting.

Layout:

- `src/` — the verified library (Verus):
  - `decimal` — reading and writing unsigned decimal numbers;
  - `text` — text comparison and search, plus two trusted calls into std
    (lenient UTF-8 decoding and `Debug` of a string list);
  - `cli` — a node's command line: reading it, and writing it for a node;
  - `node` — a running node's decisions (`NodeLoop`) and the lines it prints;
  - `harness` — addresses, schedules, restart plan and the final verdicts.
- `tests/` — tests of the library on concrete values.
- `app/` — the program: process spawning, the Tokio event loop and the
  `tashi-vertex` engine calls, driven by the library.
