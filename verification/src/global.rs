//! The word-handle slot table, its owning and shared keys, and the registry
//! operations exposed on them.

pub mod forgotten_impl;
pub mod key;
pub mod shared_key;

pub use forgotten_impl::forget;
pub use forgotten_impl::forget_and_get;
pub use forgotten_impl::forget_rc;
pub use forgotten_impl::free;
pub use forgotten_impl::get;
pub use forgotten_impl::take;
pub use forgotten_impl::try_free;
pub use forgotten_impl::try_free_with_usize;
pub use forgotten_impl::try_get;
pub use forgotten_impl::try_take;
pub use forgotten_impl::Forgotten;
pub use key::ForgottenKey;
pub use shared_key::SharedForgottenKey;
