//! A minimal SMTP-speaking mail-capture library.
//!
//! The heart of the crate is a pure session state machine
//! ([`smtp::StateMachine`]): it maps one line of protocol text plus the
//! current session phase to a new phase and a reply, accumulating the
//! envelope and body of a [`smtp::Mail`].  The [`session`] module drives
//! that machine over a whole sequence of input lines, deciding which
//! message (if any) is handed to persistence.  The [`laws`] module states
//! and proves the protocol-level guarantees of the machine.
//!
//! All I/O (sockets, the database, timestamps) lives outside this crate;
//! the library works on plain strings and is verified end to end.

pub mod laws;
pub mod session;
pub mod smtp;
