//! The decision-making core of a screen-casting daemon: what to encode, how to
//! talk to a Cast receiver, and how to keep a mirroring session healthy.
//!
//! Everything here works on plain values. Clocks, sockets, threads, the media
//! pipeline and the session bus belong to the program around this library,
//! which performs the actions decided here and reports back what happened.

pub mod bandwidth;
pub mod cast;
pub mod crypto;
pub mod encoder;
pub mod frames;
pub mod mirror;
pub mod pacer;
pub mod pipeline;
pub mod rtcp;
pub mod sender;
pub mod state;
pub mod stream;
pub mod text;
pub mod time;
pub mod volume;
