//! Chat message layout for a terminal Twitch client: splitting payloads into
//! highlighted and emote-carrying spans, wrapping them into rows, and the
//! selection logic of the channel list.

pub mod bindings;
pub mod following;
pub mod message;
pub mod proofs;
pub mod style;
pub mod text;
pub mod theme;
