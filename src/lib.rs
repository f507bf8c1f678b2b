//! Pinned-public-key peer verification for mutual TLS: a peer is trusted only
//! when the single certificate it presents carries one of a fixed set of raw
//! public keys.

pub mod cert;
pub mod frame;
pub mod keypair;
pub mod whitelist;

pub use keypair::{get_pk65, raw_key65};
pub use whitelist::{RejectionKind, Whitelist, KEY_LEN};
