//! Verified wire-protocol core of a log-based streaming platform, together
//! with the decision logic of the command-line and cluster tooling around it.
//!
//! The protocol core turns typed messages into bytes and back:
//!
//! - [`codec`]: integers, strings and byte buffers on the wire;
//! - [`schema`]: structs described by the list of their fields, each with
//!   the versions in which it is on the wire;
//! - [`registry`]: which message families there are, and in which versions;
//! - [`frame`]: the envelope with length prefix and header;
//! - [`negotiate`]: the version that client and server agree on;
//! - [`sasl_handshake`]: the messages of the SASL handshake.
//!
//! The tooling decides and leaves the doing to its caller:
//!
//! - [`produce`]: which records to send from files or the terminal;
//! - [`uninstall`]: the steps of uninstalling a cluster.
//!
//! Every public function states what it returns over a mathematical model
//! of its arguments, and is proved to meet that statement and not to panic.
//! One call into the standard library is taken on trust: the conversion of
//! bytes to a string in [`codec`].

pub mod codec;
pub mod error;
pub mod frame;
pub mod negotiate;
pub mod produce;
pub mod registry;
pub mod sasl_handshake;
pub mod schema;
pub mod text;
pub mod uninstall;
