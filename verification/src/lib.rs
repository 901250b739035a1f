//! A client for a line-oriented, code-prefixed chat protocol spoken over a
//! plain TCP socket.
//!
//! The crate holds the parts of the client that decide something, each
//! with a contract that Verus proves:
//!
//! - [`handshake`]: the login exchange, as a machine that is fed the
//!   outcome of each read and says what to do next;
//! - [`framing`]: from the pieces that the socket delivers to whole lines;
//! - [`protocol`]: from a line to a typed event;
//! - [`session`]: from events to the roster, the roles, the channel and its
//!   topic, and to the messages to show;
//! - [`history`], [`display`], [`richtext`]: the messages on screen and what
//!   is shown with them;
//! - [`login`], [`connection`], [`prefs`]: the sign-in form, the life of a
//!   connection, and the one setting that is kept between sessions.
//!
//! Nothing in the crate reads a socket, a file or a clock; whoever uses it
//! does that and passes in what was read. [`seqs`] and [`text`] hold the
//! vocabulary in which the contracts are written.

pub mod connection;
pub mod display;
pub mod framing;
pub mod handshake;
pub mod history;
pub mod login;
pub mod prefs;
pub mod protocol;
pub mod richtext;
pub mod seqs;
pub mod session;
pub mod text;
