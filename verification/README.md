# recomp-net-server

A lobby and signaling server for netplay: hosted rooms over WebSockets and
HTTP, automatic matchmaking, chat with a word filter and reports, a UDP relay
for inputs, Discord logins, and TURN credentials.

- `src/` is the library. It holds the rules: every function in it carries a
  contract that Verus proves, and the `law_..` proof functions state what holds
  of several operations together. Nothing in it waits, listens or reads a file.
- `app/` is the program around it: sockets, the database, files, the
  environment, and the loops that hand events to the library and carry out the
  effects that it returns.
- `tests/` runs the library on concrete values.

What the library believes of other crates without proof stands in
`src/outside.rs` (hashing, encodings, random bytes, UUIDs, the clock),
`src/auth.rs` (session tokens), `src/geo.rs` (the operator's country database),
`src/json.rs` (how a text is quoted),
`src/text.rs` (appending to and comparing strings) and `src/chat_filter.rs`
(characters by their number). Each such item says in its comment what it claims.

A message is handled by one call: `ws_lobby::dispatch::handle_text` takes the
server's state, the message and what chance and time gave, changes the state,
and returns the effects to carry out in their order.
