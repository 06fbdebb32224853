//! What the operator configures: where mail is read and where it goes, and
//! the filters that decide which mail is forwarded.

pub mod default;
pub mod filter;
pub mod filter_laws;
pub mod regex_set;
pub mod rules;
