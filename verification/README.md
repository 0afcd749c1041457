# cc_switch

The rules of a local proxy between a desktop client and several model providers, written in
Verus.

- `src/count_intercept.rs` recognises requests that only ask how many tokens they take, and
  answers them with an estimate. `model_input.rs` finds the text that a model would see,
  `tokens.rs` estimates its tokens.
- `src/unsupported.rs` remembers for five minutes which providers cannot count tokens.
- `src/session_binding.rs` keeps the table that binds sessions to providers;
  `binding_laws.rs` states what holds of it over many requests.
- `src/json.rs` is the JSON document that the rules read; `encode.rs` has `serde_json` write
  it and read it back. `message_id.rs` takes its random identifiers from `uuid`, `clock.rs` reads the clocks.
- `app/` is the ordinary Rust around that: SQLite, the environment, the log, HTTP types.
- `tests/` runs the library.
