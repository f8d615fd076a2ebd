//! Query clients for game-server status protocols: a bounds-checked binary
//! cursor over response buffers, variable-length integer and length-prefixed
//! string codecs, a retry-on-timeout policy, and decoders for a
//! length-prefixed binary status protocol and a plain-text datagram protocol.

pub mod buffer;
pub mod codec;
pub mod error;
pub mod json;
pub mod minecraft;
pub mod quake;
pub mod retry;
pub mod settings;

pub use error::{GDError, GDResult};
