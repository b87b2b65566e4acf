use astrum::model::{Attachment, Embed, Message, Sticker, StickerFormat, User};
use astrum::starboard::{
    content_text, display_name, excerpt, is_voice, lone_media_url, media_plan, msg_link, prefix_is, reply_prefix,
    resolve, star_summary, sticker_urls, MAX_UPLOAD,
};

fn user(global: Option<&str>) -> User {
    User { id: 5, name: "nova".to_string(), global_name: global.map(|g| g.to_string()), avatar: None, bot: false }
}

fn message(content: &str) -> Message {
    Message {
        id: 2,
        channel_id: 3,
        guild_id: Some(4),
        author: user(None),
        content: content.to_string(),
        timestamp: 0,
        flags: None,
        attachments: vec![],
        embeds: vec![],
        stickers: vec![],
        snapshots: vec![],
        referenced: None,
    }
}

fn embed(url: Option<&str>) -> Embed {
    Embed {
        kind: None,
        url: url.map(|u| u.to_string()),
        title: None,
        description: None,
        author_name: None,
        footer_text: None,
        thumbnail_url: None,
        image_url: None,
        fields: vec![],
    }
}

fn attachment(name: &str, size: u32, content_type: Option<&str>) -> Attachment {
    Attachment {
        id: 1,
        filename: name.to_string(),
        size,
        url: format!("https://cdn/{}", name),
        content_type: content_type.map(|c| c.to_string()),
    }
}

#[test]
fn cuts_long_text_with_an_ellipsis() {
    assert_eq!(excerpt("", 5), None);
    assert_eq!(excerpt("hello", 5), Some("hello".to_string()));
    assert_eq!(excerpt("hello!", 5), Some("hello…".to_string()));
    assert_eq!(excerpt("ééééé", 2), Some("éé…".to_string()));
}

#[test]
fn names_and_links() {
    assert_eq!(display_name(&user(Some("Nova"))), "Nova");
    assert_eq!(display_name(&user(None)), "nova");
    assert_eq!(msg_link(&message("x")), "https://discord.com/channels/4/3/2");
    let mut dm = message("x");
    dm.guild_id = None;
    assert_eq!(msg_link(&dm), "https://discord.com/channels/0/3/2");
}

#[test]
fn recognises_voice_notes_by_their_flag() {
    let mut m = message("");
    assert!(!is_voice(&m));
    m.flags = Some(8192 | 4);
    assert!(is_voice(&m));
    m.flags = Some(4);
    assert!(!is_voice(&m));
}

#[test]
fn summarises_the_stars() {
    assert_eq!(star_summary(&[], 0), "");
    assert_eq!(star_summary(&[("⭐".to_string(), 5)], 5), "⭐ 5");
    assert_eq!(
        star_summary(&[("⭐".to_string(), 3), ("<:blob:1>".to_string(), 2)], 4),
        "⭐ 3 <:blob:1> 2 · **4**"
    );
}

#[test]
fn spots_a_lone_media_link() {
    let link = "https://example.com/cat.PNG?width=10#x";
    assert_eq!(lone_media_url(link), Some(link.to_string()));
    assert_eq!(lone_media_url("https://example.com/cat.webm"), Some("https://example.com/cat.webm".to_string()));
    // the path is what precedes the query, trailing blanks included
    assert_eq!(lone_media_url("https://example.com/cat.png  "), None);
    assert_eq!(lone_media_url("https://example.com/cat.png look"), None);
    assert_eq!(lone_media_url("http://example.com/cat.png"), None);
    assert_eq!(lone_media_url("https://example.com/cat.txt"), None);
    assert_eq!(lone_media_url("https://example.com/page?img=cat.png"), None);
}

#[test]
fn keeps_the_text_a_post_needs() {
    assert_eq!(content_text(&message("  hi there \n")), Some("hi there".to_string()));
    assert_eq!(content_text(&message("   ")), None);
    assert_eq!(content_text(&message("https://example.com/cat.gif")), None);
    let mut m = message(" https://example.com/page ");
    m.embeds = vec![embed(Some("https://example.com/page"))];
    assert_eq!(content_text(&m), None);
    m.embeds = vec![embed(Some("https://example.com/other"))];
    assert_eq!(content_text(&m), Some("https://example.com/page".to_string()));
    let long = "a".repeat(1501);
    assert_eq!(content_text(&message(&long)), Some(format!("{}…", "a".repeat(1500))));
}

#[test]
fn sticker_images_by_format() {
    let stickers = vec![
        Sticker { id: 1, format: StickerFormat::Png },
        Sticker { id: 2, format: StickerFormat::Lottie },
        Sticker { id: 3, format: StickerFormat::Gif },
        Sticker { id: 4, format: StickerFormat::Apng },
        Sticker { id: 5, format: StickerFormat::Unknown(9) },
    ];
    assert_eq!(
        sticker_urls(&stickers),
        vec![
            "https://cdn.discordapp.com/stickers/1.png".to_string(),
            "https://media.discordapp.net/stickers/3.gif".to_string(),
            "https://cdn.discordapp.com/stickers/4.png".to_string(),
        ]
    );
}

#[test]
fn quotes_the_replied_message_on_one_line() {
    assert_eq!(reply_prefix(&message("x"), None), None);
    let mut replied = message("first\nsecond");
    replied.author = user(Some("Ada"));
    let mut m = message("reply");
    m.referenced = Some(Box::new(replied));
    assert_eq!(
        reply_prefix(&m, Some("<:av5:9>")),
        Some("-# ↳  <:av5:9> [**Ada**](https://discord.com/channels/4/3/2)  first second".to_string())
    );
    let mut empty = message("");
    empty.attachments = vec![attachment("a.png", 1, Some("image/png"))];
    m.referenced = Some(Box::new(empty));
    assert_eq!(
        reply_prefix(&m, None),
        Some("-# ↳  [**nova**](https://discord.com/channels/4/3/2)  *[attachment]*".to_string())
    );
    m.referenced = Some(Box::new(message("")));
    assert_eq!(
        reply_prefix(&m, None),
        Some("-# ↳  [**nova**](https://discord.com/channels/4/3/2)  *[no content]*".to_string())
    );
}

#[test]
fn plans_uploads_across_a_forward() {
    let mut m = message("");
    m.attachments = vec![
        attachment("a.png", 1, Some("image/png")),
        attachment("b.zip", 1, None),
        attachment("big.mp4", (MAX_UPLOAD + 1) as u32, Some("video/mp4")),
    ];
    m.snapshots = vec![astrum::model::Snapshot {
        content: String::new(),
        attachments: vec![attachment("c.mp4", 1, Some("video/mp4"))],
        stickers: vec![],
    }];
    let (main, forwarded) = media_plan(&m);
    assert_eq!(main.gallery, vec![("https://cdn/a.png".to_string(), "0-a.png".to_string())]);
    assert_eq!(main.files, vec![("https://cdn/b.zip".to_string(), "1-b.zip".to_string())]);
    assert_eq!(main.links, vec![("big.mp4".to_string(), "https://cdn/big.mp4".to_string())]);
    assert_eq!(forwarded.gallery, vec![("https://cdn/c.mp4".to_string(), "3-c.mp4".to_string())]);
    assert!(forwarded.files.is_empty() && forwarded.links.is_empty());
}

#[test]
fn resolves_uploads_that_made_it() {
    let planned = vec![
        ("src0".to_string(), "0-a.png".to_string()),
        ("src1".to_string(), "1-b.png".to_string()),
    ];
    let media = vec![
        ("1-b.png".to_string(), "old".to_string()),
        ("1-b.png".to_string(), "new".to_string()),
    ];
    assert_eq!(resolve(&planned, &media), vec!["new".to_string()]);
    assert!(prefix_is("image/png", "image/"));
    assert!(!prefix_is("imag", "image/"));
}
