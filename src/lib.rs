//! Parsing of IRC protocol lines (RFC 1459 with IRCv3 tags) into messages
//! that keep the line and the spans of its sections, without copying them.
//!
//! The grammar is stated as spec functions in `grammar`; `Message::try_from`
//! is proved to find exactly the sections, or the error, that it gives.

pub mod command;
pub mod error;
pub mod grammar;
pub mod lines;
pub mod message;
pub mod parser;
pub mod roundtrip;
pub mod span;
pub mod tag;
