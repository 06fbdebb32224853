//! Relays mail from IMAP mailboxes to chat channels.
//!
//! The library holds the part that can be reasoned about: rebuilding a
//! message from the raw reply to a FETCH command, reading its headers and its
//! MIME structure, choosing and decoding the text to forward, deciding with
//! the configured filters whether a message is forwarded, and planning what
//! is sent where. Talking to the mail server and to the chat service is left
//! to the program around it.
//!
//! The way of a mail through the library:
//!
//! - [`imap_extention::literal`] puts the chunks of a reply together and
//!   takes the message out of it;
//! - [`imap_extention::mime`] reads the header and the parts of the message;
//! - [`imap_extention::decode`] undoes the transfer encoding of a body and
//!   reads it as text;
//! - [`imap_extention::fetch`] chooses the text to forward and makes the
//!   mail;
//! - [`config::filter`] judges the mail;
//! - [`router`] plans what is sent where, and [`slack`] writes it.

pub mod bytes;
pub mod config;
pub mod imap_extention;
pub mod router;
pub mod router_laws;
pub mod slack;
pub mod timestamp;
