# device_connect_edge

Edge SDK core for Device Connect, verified with Verus.

- `src/` is the verified library: subject names, JSON-RPC envelopes and
  their JSON shape, identifier validation, event payload defaults, the
  decisions a device runtime makes for commands and broadcasts, the peer
  table fed by presence announcements, and the Zenoh transport state and
  environment configuration. JSON values are modelled by `json::JsonValue`.
- `app/` holds the asynchronous runtime: the `Transport` and `DeviceDriver`
  traits, tokio tasks for presence and heartbeats, serde conversions, and the
  messages that carry floating-point timestamps.
- `tests/` exercises the library.
