# council_core

The core of a "council of experts" chat client: a panel of language models
answers a query in an opening round, reacts to each other over further rounds,
and closes; in coding mode the experts propose file edits that are applied to a
workspace, built, and repaired once if the build fails.

The decisions of that process are written in Verus and proved against their
specifications; the network, file-system and process work lives around them.

## Layout

- `src/` — the verified library.
  - `model.rs` — experts, councils, messages, errors.
  - `text.rs` — string helpers with exact specifications (search, trim, decimals).
  - `history.rs` — flattening a session log into an alternating user/assistant
    transcript.
  - `sse.rs` — byte-buffered line splitting of event streams, and the events
    each provider's stream lines carry.
  - `providers.rs` — endpoints, headers and request bodies of each provider,
    model-list queries, reading replies.
  - `listing.rs` — cleaning and sorting listed model names.
  - `council.rs` — the prompts of each discussion round and the discussion as a
    state machine.
  - `coding.rs` — reading `<write_file>` blocks, refusing paths that leave
    the workspace by their text (absolute paths, `..`), reporting overwrites,
    and the coding run as a state machine.
  - `mock.rs` — the offline mock provider.
  - `cancel.rs` — the stop flag shared with running flows.
  - `ffi.rs` — the records of the foreign-function bridge.
- `app/` — the host around the library: HTTP clients and the stream reading
  loop, JSON encoding of requests, the async runners of both flows, the
  on-disk symlink check, file writes and build commands.
- `tests/` — tests of the library on concrete values.
