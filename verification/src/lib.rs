//! The logic of a bot that records a Discord voice channel, one Ogg Opus file for each user.
//!
//! - [`presence`]: who is in the channel, and whether that starts or ends a session.
//! - [`session`]: a session, its users and the frame that each of them gets in a tick.
//! - [`track`]: the recording of one user, from encoded frames to the bytes of a file.
//! - [`opus_headers`]: the packets that open an Ogg Opus stream.
//! - [`ogg_stream`]: the stream itself, muxed by the `ogg` crate.
//! - [`naming`]: what directories and files are called.
//! - [`laws`]: what holds of recordings as a whole.
//!
//! Encoding, storage and the connection to Discord lie outside: what they yield comes in as an
//! argument, and what they are to do goes out as a result.

pub mod laws;
pub mod naming;
pub mod ogg_stream;
pub mod opus_headers;
pub mod presence;
pub mod session;
pub mod track;
