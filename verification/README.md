# ma-irc

A runtime whose rooms can be bound to IRC channels. The library in `src/` holds
what the runtime decides, verified with Verus; `app/` is the process around it.

- `src/channel/` — rooms, `dig` specifications, IRC server URLs and bindings,
  nicks, IRC lines, and the registration and session of one IRC connection.
- `src/root/` — the root: its rooms and labels, entering, digging, linking and
  deleting, the commands of rooms and of the concourse, snapshots, manifests.
- `src/rpc_transport/` — requests, what is done about them, and the terms of
  replies and events.
- `src/bridge.rs` — what a room makes of its channel, and the channel of it.
- `src/status.rs`, `src/config.rs`, `src/acl.rs`, `src/kubo.rs`,
  `src/root_publish.rs`, `src/did_publish.rs` — the smaller decisions around them.
- `src/text.rs`, `src/collections.rs`, `src/order.rs`, `src/term.rs`,
  `src/yaml.rs`, `src/ids.rs`, `src/error.rs` — what the rest is built on.

Each type has a view, and each operation a specification over views:
`src/root/model.rs` says what every command makes of the root, and the `laws`
modules state what holds of the operations together.

Calls into other crates stand behind small functions whose contracts are
believed rather than proved; each says in its comment what it claims.
