//! The core of a Gemini client.
//!
//! - [`gemtext`] turns the text of a page into tokens, line by line.
//! - [`response`] parses what a server answers: the header line with its
//!   status and meta field, then the body.
//! - [`address`] turns the text of a URL into the host, port and path of a
//!   request, and writes the request line.
//! - [`transaction`] is one transaction as a state machine: it decides what
//!   to do next, and leaves the doing, the sockets and the TLS session, to
//!   its driver.
//! - [`dummy_verifier`] holds the certificate policies.
//! - [`style`] says how a token is shown.
//! - [`settings`] knows the configuration file.
//! - [`text`] holds the scanning routines that the parsers share.
//!
//! Every function states what it computes over the mathematical value of its
//! arguments: a string as a sequence of characters, a token, a response or a
//! transaction as a value of plain sequences and numbers.

pub mod address;
pub mod dummy_verifier;
pub mod gemtext;
pub mod response;
pub mod settings;
pub mod style;
pub mod text;
pub mod transaction;
