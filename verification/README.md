# pane_output_stream

Streams one pane's raw terminal output to a client over a held connection, as
one JSON object per line.

- `src/` is the library. Its functions carry contracts that Verus proves.
  `session` is the state machine of one client's stream, `laws` states what
  holds of every run of it.
- `app/` performs the actions of a session: it writes to the connection, asks
  the app for subscriptions and awaits the pane's channel.
- `tests/` runs the library on concrete values, with real channels.

The library trusts what it says of `serde_json` (in `json`), `base64` (in
`encoding`) and tokio's broadcast channel (in `channel`).
