# grok_box

The guest side of grok-box — a sandboxed Linux computer for agents. It has two HTTP
daemons (`box-exec` for shell, files and computer use, and `box-host` for identity and
readiness) and an egress tunnel. The decisions are written in Verus and proved against
their contracts. The sockets, processes and the X display are driven by ordinary Rust.

## Layout

- `src/`: the verified library.
  - `common/`: the path jail, the bearer-token comparison, the error envelope,
    configuration and token policy, CORS origins, request ids and listen addresses.
  - `exec/`: command and environment planning for `/v1/exec` (secrets are never
    handed to a child), output caps, waiting with escalation, detached jobs, and
    the file API's encodings and answers (`exec/files.rs`).
  - `cua/`: computer use. This covers request validation, xdotool argument lists,
    key names and the keyboard map, ZPixmap-to-RGB and PNG, recipes (validation and
    the run state machine), window lists and recordings.
  - `egress/`: the `box-egress-v1` tunnel. This covers control and data frames,
    CONNECT parsing, the host allowlist, the destination policy, sessions with
    stream ids and generations, keepalive, and the proxy and admin replies.
  - `chrome.rs`, `net.rs`, `num.rs`, `text.rs`: Chromium status, addresses,
    numbers and the text helpers that the contracts are written over.
- `tests/`: tests of the library on concrete values.
- `app/`: the binary. It holds the HTTP servers (axum), process spawning, X11
  through x11rb, the WebSocket tunnel, environment reading, serde copies of the
  library's wire types, and `connect`, the command-line client of a running guest.

Laws that span several functions are public proof functions whose names start with
`law_`.
