//! Authentication, session handling and credit accounting for a chat relay
//! in front of a metered language-model service.
//!
//! The crate holds the rules of the relay as verified functions on plain
//! values: the token codec, the session table, the login and logout rules,
//! the session guard and the credit ledger. Transport, storage and the call
//! to the language model are left to the program that embeds the crate.
//! Beside them stand the helpers that write text, numbers and durations for
//! display.

pub mod authorisation;
pub mod communication;
pub mod filters;
pub mod identity;
pub mod server;
pub mod session;
pub mod text;
pub mod timestamp;
pub mod token;
pub mod utility;
