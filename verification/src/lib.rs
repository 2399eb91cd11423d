//! A text chat relay's coordination core: a single serialized registry owns
//! the table of connected clients and decides, event by event, which texts
//! go to which client's private outbound queue. Inbound chunks are
//! classified as broadcast payloads or commands and tokenized here as well.
//! The surrounding program only moves bytes between the transport, this
//! library, and the queues.

pub mod args;
pub mod laws;
pub mod parse;
pub mod registry;
