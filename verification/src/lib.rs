//! A terminal chat client's logic, verified: the application state and its
//! transitions, the keys, the markdown chat files, the chat-completion
//! protocol, the retrieval index and what the screen shows.
pub mod text;
pub mod time;
pub mod types;
pub mod storage;
pub mod config;
pub mod api;
pub mod app;
pub mod keys;
pub mod ui;
pub mod rag;
pub mod laws;
