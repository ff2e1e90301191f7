//! A small chat and storage server: request parsing, user and chat-room
//! bookkeeping, directory synchronisation and record tables.

pub mod clock;
pub mod commands;
pub mod text;
pub mod http;
pub mod json;
pub mod server;
pub mod relational;
pub mod server_api;
pub mod storage;
