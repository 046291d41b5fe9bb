//! Verified core of a telnet-style session client.
//!
//! The library covers the algorithmic heart of an interactive session with a
//! text-oriented network device: decoding received bytes into text with an
//! encoding fallback ([`decode`]), stripping in-band option-negotiation
//! escapes and splitting the stream into line frames ([`codec`]), and the
//! wait state machine that accumulates output, turns pages and recognises a
//! shell prompt ([`engine`]). Connection plumbing (sockets, deadlines) stays
//! outside: callers feed the engine the frames and events they observe.

pub mod codec;
pub mod decode;
pub mod engine;
pub mod error;
pub mod pattern;
pub mod text;
