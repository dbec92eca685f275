//! The rows of the store and the shapes of requests and answers.

pub mod address_book;
pub mod device;
pub mod group;
pub mod peer;
pub mod tag;
pub mod user;
