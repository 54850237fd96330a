//! Core of a PostgreSQL wire-protocol (version 3) client: a framed
//! binary-message codec, frontend-message encoders, the MD5 authentication
//! helper, and the session state machine that drives a connection from
//! startup through query execution.
//!
//! Transport I/O is left to the embedder: the library consumes and produces
//! plain byte buffers.

pub mod auth;
pub mod error;
pub mod message;
pub mod notice;
pub mod servermsg;
pub mod session;
pub mod wire;

