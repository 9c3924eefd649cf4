//! A client-side codec and session core for IRC.
//!
//! The crate does no I/O. Bytes read from a server are handed to
//! [`conn::Conn::receive`], and the lines that the session wants written are
//! collected from [`conn::Conn::take_outbox`].

pub mod conn;
pub mod text;
pub mod user;

pub use user::User;
