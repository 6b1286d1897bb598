# fast42

A connector for the 42 API: rate limited, async, and able to fetch all the pages of an endpoint.

- `src/` is the library. It decides which requests are made, with which token, query string, headers
  and body, and what is made of the responses. Its functions have contracts that Verus proves, but for
  the few that call `secrecy`, `reqwest` or the standard library: what those return is taken on trust,
  and the comment above each says what is.
- `app/` is the client around it. It sends requests with `reqwest`, limits their rate with `tower`,
  and keeps tokens in a `retainer` cache.
- `tests/` runs the library on concrete values.

A call of the API is a small state machine (`src/call.rs`): the client performs the action that a call
asks for and hands back the event that came of it, until the call is done.
