# chien

A small JSON web service, with its logic verified by Verus.

- `src/` is the verified library: access tokens and their URL-safe text
  (`token.rs`), the check that a request's `Accept-Charset` / `Accept`
  headers allow a UTF-8 JSON answer (`req.rs`), the refusals and the choice
  of handler by HTTP method (`res.rs`), the error that refusals carry
  (`error.rs`), and the database parameters of the TOML configuration
  (`config.rs`).
- `app/` is the Iron server around it: reading the configuration file,
  connecting to PostgreSQL, the middleware and handlers, and the
  conversions between Iron/hyper values and the library's.
- `tests/` runs the library on concrete values.
