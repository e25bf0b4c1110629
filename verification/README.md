# phira-mp

A room server for playing Phira together, as a verified library and a thin asynchronous server
around it.

- `src/` is the library. Its functions have contracts that Verus proves, but for the two wrappers
  named below and the implementations of `Debug`, `PartialEq`, `Eq` and `Hash` that are derived. It
  holds the wire format and its commands, the room as a state machine, the table of rooms and users,
  the conversion between the protocol and rooms, the registry of sessions, the counters, the
  configuration and how it is watched.
- `app/` runs the library with tokio: one task for each room, one for the sessions of users, files
  and the environment, and what is computed with floating-point numbers.
- `tests/` runs the library on values.

Mathematical models stand beside the code they describe. A room is a `RoomView` in
`src/room_v1/state.rs`, and each command is a function from rooms to rooms there; the code in
`src/room_v1.rs` is proved to do just that. What holds of rooms, routes, sessions, packets and
clients whatever happens stands in the `laws.rs` files, in `src/room_v1/games.rs` and
`src/convert/hosts.rs`, and beside the types it is about.

Two functions of the standard library are trusted to do what their documentation says:
`Arc::clone` (`src/model.rs`) and `String::from_utf8_lossy` (`src/binary/container.rs`).

Floating-point numbers are bit patterns in the library. By `==` they are compared as the numbers that
the patterns stand for; in contracts two of them are the same if their patterns are.
