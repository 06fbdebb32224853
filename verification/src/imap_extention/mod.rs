//! What the relay adds to a plain IMAP session.

pub mod command;
pub mod decode;
pub mod fetch;
pub mod fetch_laws;
pub mod literal;
pub mod literal_laws;
pub mod mime;
pub mod mime_laws;
pub mod path;
pub mod search;
