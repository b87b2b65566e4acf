use astrum::components::list_to_json;
use astrum::model::{Attachment, Embed, Message, User, IS_VOICE_MESSAGE};
use astrum::starboard::{build, content_text, media_plan, Avatars, MAX_UPLOAD};
use serde_json::Value;

// a starred message with an image, as the gateway sends it
fn fixture() -> Message {
    Message {
        id: 2,
        channel_id: 3,
        guild_id: Some(4),
        author: User {
            id: 5,
            name: "nova".to_string(),
            global_name: Some("Nova".to_string()),
            avatar: None,
            bot: false,
        },
        content: "look at this".to_string(),
        // 2024-01-01T00:00:00.000000+00:00
        timestamp: 1704067200,
        flags: None,
        attachments: vec![Attachment {
            id: 6,
            filename: "cat.png".to_string(),
            content_type: Some("image/png".to_string()),
            size: 1,
            url: "https://cdn.discordapp.com/attachments/3/6/cat.png".to_string(),
        }],
        embeds: vec![],
        stickers: vec![],
        snapshots: vec![],
        referenced: None,
    }
}

fn no_avatars() -> Avatars {
    Avatars { author: None, reply: None }
}

fn json(components: &Vec<astrum::components::Component>) -> Value {
    serde_json::from_str(&list_to_json(components)).expect("components render as JSON")
}

#[test]
fn builds_one_uncoloured_container_with_the_uploaded_image() {
    let message = fixture();
    let (main, _) = media_plan(&message);
    assert_eq!(
        main.gallery,
        vec![(
            "https://cdn.discordapp.com/attachments/3/6/cat.png".to_string(),
            "0-cat.png".to_string(),
        )]
    );

    let media = vec![("0-cat.png".to_string(), "attachment://0-cat.png".to_string())];
    let built = build(
        &message,
        "⭐ 3",
        &media,
        &Avatars { author: Some("<:av5:7>".into()), reply: None },
    );
    let components = json(&built);

    // the message is one uncoloured container, with the tally underneath it
    assert_eq!(built.len(), 2);
    let container = &components[0];
    assert_eq!(container["type"], 17);
    assert!(container["accent_color"].is_null(), "containers stay uncoloured");

    let items = container["components"].as_array().expect("container children");
    assert!(items.len() <= 10, "a container holds at most ten components");

    // author row: circular avatar emoji, name, then the time, all on one line
    assert_eq!(items[0]["content"], "<:av5:7> **Nova**  <t:1704067200:t>\nlook at this");
    assert_eq!(items[1]["items"][0]["media"]["url"], "attachment://0-cat.png");

    assert_eq!(components[1]["content"], "-# ⭐ 3 · [jump](https://discord.com/channels/4/3/2)");
}

#[test]
fn shows_a_voice_note_as_a_file_card_inside_the_container() {
    let mut message = fixture();
    message.content = String::new();
    message.flags = Some(IS_VOICE_MESSAGE);
    message.attachments[0].filename = "voice-message.ogg".to_string();
    message.attachments[0].content_type = Some("audio/ogg".to_string());

    let (main, _) = media_plan(&message);
    assert!(main.gallery.is_empty());
    assert_eq!(main.files[0].1, "0-voice-message.ogg");

    let media = vec![(
        "0-voice-message.ogg".to_string(),
        "attachment://0-voice-message.ogg".to_string(),
    )];
    let items = json(&build(&message, "⭐ 3", &media, &no_avatars()))[0]["components"].clone();

    assert_eq!(items[1]["type"], 13);
    assert_eq!(items[1]["file"]["url"], "attachment://0-voice-message.ogg");
}

#[test]
fn links_attachments_too_big_to_re_host() {
    let mut message = fixture();
    message.attachments[0].size = (MAX_UPLOAD + 1) as u32;

    let (main, _) = media_plan(&message);
    assert!(main.gallery.is_empty() && main.files.is_empty());

    let items = json(&build(&message, "⭐ 3", &[], &no_avatars()))[0]["components"].clone();
    assert_eq!(
        items[1]["content"],
        "-# 📎 [cat.png](https://cdn.discordapp.com/attachments/3/6/cat.png)"
    );
}

#[test]
fn puts_the_reply_context_on_one_line_above_the_container() {
    let mut message = fixture();
    message.referenced = Some(Box::new(fixture()));

    let avatars = Avatars { author: None, reply: Some("<:av5:7>".into()) };
    let components = json(&build(&message, "⭐ 3", &[], &avatars));
    assert_eq!(
        components[0]["content"],
        "-# ↳  <:av5:7> [**Nova**](https://discord.com/channels/4/3/2)  look at this"
    );
    assert_eq!(components[1]["type"], 17);
}

#[test]
fn drops_content_that_an_embed_already_renders() {
    let mut message = fixture();
    message.content = "https://tenor.com/view/cat-1".to_string();
    message.embeds = vec![Embed {
        kind: Some("gifv".to_string()),
        url: Some("https://tenor.com/view/cat-1".to_string()),
        title: None,
        description: None,
        author_name: None,
        footer_text: None,
        thumbnail_url: Some("https://media.tenor.com/cat.gif".to_string()),
        image_url: None,
        fields: vec![],
    }];

    assert!(content_text(&message).is_none());

    let built = build(&message, "⭐ 3", &[], &no_avatars());
    let components = json(&built);
    // the message container, the gif the embed stood for, then the tally
    assert_eq!(built.len(), 3);
    assert_eq!(
        components[1]["components"][0]["items"][0]["media"]["url"],
        "https://media.tenor.com/cat.gif"
    );
}
