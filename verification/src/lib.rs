//! A slot-table registry: store a value behind a small integer handle,
//! fetch it repeatedly without giving up ownership, and release it either
//! explicitly or by consuming the key that owns it.
//!
//! The crate offers two table flavours built on the same allocator:
//! a caller-instantiated table with a caller-chosen handle width
//! ([`custom::Forgotten`]), and a word-sized-handle table intended to back a
//! per-thread registry, together with its owning and shared key types
//! ([`global`]).

pub mod custom;
pub mod global;
pub mod handle;
pub mod key;

pub use custom::Forgotten;
pub use custom::ForgottenRefCell;
pub use handle::Handle;

