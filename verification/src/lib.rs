//! A minimal in-memory social-media store with a verified core.
//!
//! Users register under unique usernames, create text posts, react to posts
//! (like, dislike, or withdraw a reaction), and leave comments.  The store is
//! plain data guarded by no lock of its own: a caller supplies whatever
//! synchronization it needs.  A companion module renders the store as HTML.

pub mod html;
pub mod store;
