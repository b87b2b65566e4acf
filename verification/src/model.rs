//! The parts of a Discord message that the starboard reads, as plain values.
use vstd::prelude::*;

verus! {

/// Message flag: the message is a voice note.
pub const IS_VOICE_MESSAGE: u64 = 1 << 13;

/// A message author.
pub struct User {
    pub id: u64,
    /// The unique user name.
    pub name: String,
    /// The display name the user chose, if any.
    pub global_name: Option<String>,
    /// The hash of the user's avatar image, if they set one.
    pub avatar: Option<String>,
    pub bot: bool,
}

/// A file attached to a message.
pub struct Attachment {
    pub id: u64,
    pub filename: String,
    /// Size in bytes.
    pub size: u32,
    pub url: String,
    /// The MIME type, when Discord knows it.
    pub content_type: Option<String>,
}

/// The image format of a sticker.
pub enum StickerFormat {
    Png,
    Apng,
    Lottie,
    Gif,
    Unknown(u8),
}

/// A sticker sent with a message.
pub struct Sticker {
    pub id: u64,
    pub format: StickerFormat,
}

/// A name/value field of a rich embed.
pub struct EmbedField {
    pub name: String,
    pub value: String,
}

/// An embed of a message: a link preview or a bot's rich embed.
pub struct Embed {
    /// The embed type, such as `rich`, `image` or `gifv`.
    pub kind: Option<String>,
    pub url: Option<String>,
    pub title: Option<String>,
    pub description: Option<String>,
    pub author_name: Option<String>,
    pub footer_text: Option<String>,
    pub thumbnail_url: Option<String>,
    pub image_url: Option<String>,
    pub fields: Vec<EmbedField>,
}

/// The forwarded copy of another message.
pub struct Snapshot {
    pub content: String,
    pub attachments: Vec<Attachment>,
    pub stickers: Vec<Sticker>,
}

/// A message as the starboard sees it.
pub struct Message {
    pub id: u64,
    pub channel_id: u64,
    pub guild_id: Option<u64>,
    pub author: User,
    pub content: String,
    /// When it was sent, in seconds since the Unix epoch.
    pub timestamp: i64,
    pub flags: Option<u64>,
    pub attachments: Vec<Attachment>,
    pub embeds: Vec<Embed>,
    pub stickers: Vec<Sticker>,
    /// Forwarded messages it carries; the first one is shown.
    pub snapshots: Vec<Snapshot>,
    /// The message this one replies to.
    pub referenced: Option<Box<Message>>,
}

} // verus!
