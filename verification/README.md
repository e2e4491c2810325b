# runtime_info

A convenient interface to runtime information of a relay chain, verified with Verus.

The library in `src/` decides and computes, and never waits. A query is a function from what is
known so far to a step: a message to send to the runtime API, or the final answer. The same
function is called again with the reply.

- `types`, `error`, `request`: the chain's data as plain values, what can go wrong, what is asked.
- `lru`, `cache`: what a least-recently-used map holds, and the two maps of `schnellru`.
- `keystore`, `validator`: who we are among the validators of a session, and in which group.
- `signature`: the check of signed payloads.
- `info`: the cache of session indices and session info.
- `history`: what the cache holds after any number of calls.
- `queries`, `mode`: queries that need one reply.
- `laws`: what holds of the library as a whole.

`app/` sends the messages, waits for the replies and converts the chain's own types.
`tests/` runs the library with the real outside crates.
