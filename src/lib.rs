//! A chat client core: the line framer and parser of an IRC-style chat
//! protocol, the chat session around them, the reading of chat events from
//! messages, and a cache that resolves badges and emotes to image bytes.
pub mod client;
pub mod error;
pub mod framing;
pub mod image_loader;
pub mod message;
pub mod text_index;
pub mod twitch_message;
