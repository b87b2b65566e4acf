//! A starboard for Discord servers: the rules that decide what gets starred, the
//! store that remembers it, and the rendering of a starred message as a
//! components-v2 post.
pub mod text;
pub mod emoji;
pub mod storage;
pub mod components;
pub mod model;
pub mod starboard;
pub mod handler;
pub mod commands;
pub mod api;
pub mod avatar;
pub mod voice;
