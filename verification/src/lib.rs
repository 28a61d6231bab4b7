//! Command handling for a chat bot: parsing a command out of an inbound
//! chat line, routing it to one of a few handlers — a random choice among
//! candidates, and saving and querying small per-identity profile records —
//! and producing at most one reply per event, against a flat keyed record
//! store.  The contracts pin each reply and each store change down exactly.

pub mod codec;
pub mod dispatch;
pub mod fold;
pub mod handlers;
pub mod parser;
pub mod store;
pub mod text;
