# pixelflux

A collaborative pixel canvas (a shared 200×200 grid of `rrggbb` cells, painted
over HTTP and kept live over Server-Sent Events), and `pixelflux push`, a client
that paints an image onto it.

- `src/` is the library, verified with Verus: colour validation, the canvas
  bytes, the coalescing buffer of live updates and its JSON batches, the
  in-process server state (tokens and their rolling paint budget, viewers,
  settings, counters, admin sessions), the decisions taken on what Redis
  answers, the admin cookie, and the client's option parsing, colour
  parsing, compositing, canvas diff, token planning, pass decisions and its
  token cache (read and merged through serde_json).
  `src/laws.rs` and `stored_token_may_paint` in `src/state.rs` state the
  properties that relate several operations.
- `app/` is the program around it: the axum routes, Redis, the background
  tasks, environment variables, and the client's HTTP, image decoding and
  resizing, and its palette matching in floating point.
- `tests/` exercise the library on concrete values.
