//! A verified core for a TCP-option-injecting proxy: one's-complement
//! checksum arithmetic, an IPv4/TCP packet codec working on explicit byte
//! offsets, an option injector that prepends a fixed custom option, and the
//! per-connection forwarding state machine.

pub mod checksum;
pub mod codec;
pub mod errors;
pub mod options;
pub mod proxy;
