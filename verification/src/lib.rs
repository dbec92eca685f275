//! Address-book engine for a remote-desktop client: access resolution, the
//! peer and tag relations of each address book, and the whole-book exchange
//! document, all over an in-memory relational state with proved invariants.
//!
//! The state is a [`store::Store`]; what it holds, as mathematics, is a
//! [`store::StoreView`], and every operation says in its contract which
//! state it leaves and what it answers. A request first goes through
//! [`access`], which resolves the address book it acts on and turns away a
//! caller who may not act on it. [`peers`], [`tags`], [`sync`] and
//! [`sharing`] hold the operations on an address book, [`users`] and
//! [`groups`] those of an administrator, and [`laws`] what holds of them
//! together. [`loading`] brings plain rows in and out of a store.

pub mod access;
pub mod auth;
pub mod config;
pub mod error;
pub mod frontend;
pub mod groups;
pub mod laws;
pub mod listing;
pub mod loading;
pub mod migrations;
pub mod models;
pub mod peers;
pub mod removal;
pub mod rows;
pub mod sharing;
pub mod store;
pub mod sync;
pub mod system;
pub mod tags;
pub mod text;
pub mod users;
