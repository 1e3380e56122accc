//! BLAKE2b (RFC 7693): a 1- to 64-byte digest of an arbitrary byte sequence,
//! with an optional key of up to 64 bytes for message authentication.
//!
//! The crate is organised bottom-up: `bytes` holds the little-endian
//! byte/word conversions, `engine` the compression function and its round
//! structure, `model` the block-level specification of the whole hash, and
//! `session` the incremental init/update/finalize interface together with
//! the one-shot `hash`.

pub mod bytes;
pub mod engine;
pub mod model;
pub mod session;

pub use model::blake2b;
pub use session::hash;
pub use session::new_session;
pub use session::HashError;
pub use session::Session;
