//! Encrypted, framed, loop-free clipboard broadcast: the envelope codec, the
//! stream framer, the relay's fan-out rule and the endpoint's echo suppression.

pub mod framing;
pub mod crypto;
pub mod protocol;
pub mod message;
pub mod relay;
pub mod endpoint;
