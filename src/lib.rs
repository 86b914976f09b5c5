//! A small post board: generic persisted keyed tables, the user and post
//! stores built on them, and the chain that turns a session into a principal.

pub mod auth;
pub mod error;
pub mod post;
pub mod session;
pub mod table;
pub mod user;
