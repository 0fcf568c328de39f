# iroh-h3-client

An HTTP/3 client for peers that are named by their iroh endpoint ids, verified
with Verus.

- `src/` is the library. It performs no I/O. Each function states in its contract
  what it returns, and the `law_` proof functions state what holds across calls:
  that events do not depend on how a body is split into frames, that one
  connection per peer is set up at a time, that redirects are bounded, that
  cookies go back to the peer that set them, and more.
- `tests/` runs the library with the real crates behind it.
- `app/` carries the library's decisions out over iroh endpoints, serves axum
  routers, and holds a small chat.

What is not proved is what the crates below the library do. The functions marked
`external_body` call them, and each says above its contract what is taken on
trust. The text of URIs, endpoint ids and cookies is read by `http`, `iroh` and
`cookie`; header fields are held by `http`, and the caches by `dashmap`.
