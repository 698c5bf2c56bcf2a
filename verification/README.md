# discord_recorder

A bot that records a Discord voice channel, with its logic verified by
[Verus](https://github.com/verus-lang/verus).

A recording starts when the first user comes into the channel and ends when the last one has
left; what goes on in another guild does not touch it. Every user gets an Ogg Opus file of their own,
`<output directory>/<date and time>/<user name>.opus`. Silence is filled in where a user was not
heard or had not joined yet, so that what was said at the same time stands at the same place in
all files.

## Layout

- `src/` is the verified library. `laws.rs` states what holds of recordings as a whole.
- `app/` is the program around it: arguments, files, the Opus encoder and the connection to
  Discord.
- `tests/` runs the library on concrete values, and reads back what it wrote.

## What is trusted

- `src/ogg_stream.rs` calls the `ogg` crate to mux packets into pages, in memory.
- `src/naming.rs` calls the `chrono` crate to format the time a session starts at.

Each of these calls stands in a wrapper whose contract is believed; the doc comment above it says
what is claimed.

## Building the program

The encoder needs libopus, and the connection needs `songbird` with its `driver` feature and a
WebSocket backend.
