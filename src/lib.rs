//! Resolution of reader-view render tokens for article links shared in a chat,
//! with a per-user pinned default per host and a browsing protocol whose
//! state travels inside the rendered reply.
pub mod text;
pub mod weburl;
pub mod codec;
pub mod hasher;
pub mod registry;
pub mod classify;
pub mod resolve;
pub mod browse;
pub mod command;
