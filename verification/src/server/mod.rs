//! The store server: its state, lookups of prints, and cart validation.
pub mod util;
pub mod fetch;
pub mod store;
pub mod handlers;
pub mod refresh;
pub mod checkout;
