use astrum::api::{bot_auth, edit_payload, media_for, message_id_of, message_url, messages_url, send_payload, Upload};
use astrum::avatar::{avatar_upload_body, avatar_url, emoji_id_of, emoji_upload_body, emoji_url, emojis_url, MAX_BYTES};
use astrum::components::separator;
use astrum::voice::{attachments_url, default_waveform, find_audio, upload_request_body, waveform_text};
use astrum::model::Attachment;

#[test]
fn a_post_lists_its_uploads_by_position() {
    let files = vec![
        Upload { name: "0-cat.png".to_string(), bytes: vec![1, 2] },
        Upload { name: "1-\"q\".gif".to_string(), bytes: vec![] },
    ];
    assert_eq!(
        send_payload(&vec![separator()], &files),
        "{\"flags\":32768,\"components\":[{\"type\":14,\"divider\":true,\"spacing\":1}],\"attachments\":[{\"id\":0,\"filename\":\"0-cat.png\"},{\"id\":1,\"filename\":\"1-\\\"q\\\".gif\"}]}"
    );
    assert_eq!(send_payload(&vec![], &[]), "{\"flags\":32768,\"components\":[],\"attachments\":[]}");
}

#[test]
fn an_edit_keeps_the_listed_attachments() {
    let keep = vec![(111u64, "a.png".to_string())];
    assert_eq!(
        edit_payload(&vec![], &keep),
        "{\"flags\":32768,\"components\":[],\"attachments\":[{\"id\":111,\"filename\":\"a.png\"}]}"
    );
}

#[test]
fn uploads_are_referred_to_by_name() {
    let names = vec!["0-cat.png".to_string(), "1-dog.gif".to_string()];
    assert_eq!(
        media_for(&names),
        vec![
            ("0-cat.png".to_string(), "attachment://0-cat.png".to_string()),
            ("1-dog.gif".to_string(), "attachment://1-dog.gif".to_string()),
        ]
    );
}

#[test]
fn builds_the_endpoints() {
    assert_eq!(messages_url(5), "https://discord.com/api/v10/channels/5/messages");
    assert_eq!(message_url(5, 6), "https://discord.com/api/v10/channels/5/messages/6");
    assert_eq!(bot_auth("tok"), "Bot tok");
    assert_eq!(emojis_url(9), "https://discord.com/api/v10/applications/9/emojis");
    assert_eq!(emoji_url(9, 10), "https://discord.com/api/v10/applications/9/emojis/10");
    assert_eq!(attachments_url(5), "https://discord.com/api/v10/channels/5/attachments");
    assert_eq!(avatar_url(42, "abc"), "https://cdn.discordapp.com/avatars/42/abc.png?size=128");
}

#[test]
fn uploads_an_avatar_as_base64() {
    assert_eq!(
        emoji_upload_body(42, "QQ=="),
        "{\"name\":\"av42\",\"image\":\"data:image/png;base64,QQ==\"}"
    );
    assert_eq!(
        avatar_upload_body(42, b"abc"),
        Some("{\"name\":\"av42\",\"image\":\"data:image/png;base64,YWJj\"}".to_string())
    );
    assert_eq!(
        avatar_upload_body(1, &[0xff, 0xfe]),
        Some("{\"name\":\"av1\",\"image\":\"data:image/png;base64,//4=\"}".to_string())
    );
    assert_eq!(avatar_upload_body(42, &vec![0u8; MAX_BYTES + 1]), None);
    assert!(avatar_upload_body(42, &vec![0u8; MAX_BYTES]).is_some());
}

#[test]
fn reads_posted_message_ids() {
    assert_eq!(message_id_of("1200000000000000001"), Some(1200000000000000001));
    assert_eq!(message_id_of("-1"), None);
    assert_eq!(message_id_of("1 "), None);
}

#[test]
fn reads_created_emoji_ids() {
    assert_eq!(emoji_id_of("1234"), Some(1234));
    assert_eq!(emoji_id_of("18446744073709551615"), Some(u64::MAX));
    assert_eq!(emoji_id_of("18446744073709551616"), None);
    assert_eq!(emoji_id_of(""), None);
    assert_eq!(emoji_id_of("12a"), None);
}

fn attachment(content_type: Option<&str>) -> Attachment {
    Attachment {
        id: 1,
        filename: "f".to_string(),
        size: 1,
        url: "u".to_string(),
        content_type: content_type.map(|c| c.to_string()),
    }
}

#[test]
fn finds_the_audio_of_a_voice_message() {
    let list = vec![attachment(None), attachment(Some("image/png")), attachment(Some("audio/ogg")), attachment(Some("audio/mpeg"))];
    assert_eq!(find_audio(&list), Some(2));
    assert_eq!(find_audio(&list[..2]), None);
    assert_eq!(find_audio(&[]), None);
}

#[test]
fn encodes_the_waveform() {
    assert_eq!(default_waveform(), vec![64u8; 64]);
    // 64 bytes of 0x40 are 22 groups of "QEBA" cut to 86 characters and padded
    let flat = waveform_text(None);
    assert_eq!(flat.len(), 88);
    assert!(flat.starts_with("QEBAQEBA"));
    assert!(flat.ends_with("QA=="));
    assert_eq!(waveform_text(Some(&[1, 2, 3])), "AQID");
    assert_eq!(waveform_text(Some(&[])), "");
}

#[test]
fn asks_for_an_upload_slot() {
    assert_eq!(
        upload_request_body(2048),
        "{\"files\":[{\"filename\":\"voice-message.ogg\",\"file_size\":2048,\"id\":\"1\"}]}"
    );
}
