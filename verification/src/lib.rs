//! Verified core of a small media-watchlist service.
//!
//! Authenticated users keep a personal list of movies: they add items, list
//! them with sorting and pagination, filter by watched status, mark items
//! watched and delete them. This crate holds the two subsystems that carry
//! the design decisions — the catalog engine and the authentication and
//! session logic — each with machine-checked contracts. HTTP wiring, the
//! backing store's I/O and process bootstrap live outside the library and
//! talk to it through plain values.

pub mod auth;
pub mod bridge;
pub mod catalog;
pub mod error;
pub mod query;
pub mod sorting;
pub mod movie;
pub mod text;
