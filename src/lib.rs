//! Relays newly published posts of followed accounts into chat channels, and
//! keeps one remote follow per account in step with the channels subscribed to it.
//!
//! The library holds the decisions: which posts are new, where each one goes,
//! how the watermark moves, what a notification says, and when a remote follow
//! is created or revoked. The caller performs the network and storage effects.

pub mod follow;
pub mod identity;
pub mod listing;
pub mod order;
pub mod poll;
pub mod post;
pub mod render;
pub mod replies;
pub mod store;
pub mod text;
