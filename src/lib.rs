//! Runtime layer of a translation proxy for a legacy login protocol: a
//! length-safe binary codec, the message types of the login handshake and
//! their wire formats, the identifier dispatch table, the per-connection
//! session that runs dispatch cycles over received bytes, and the proxy's
//! pipe configuration.

pub mod codec;
pub mod grunt;
pub mod session;
pub mod config;
pub mod dependency;
