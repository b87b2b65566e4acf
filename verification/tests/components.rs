use astrum::components::{
    action_row, button, container, gallery, interaction_payload, list_to_json, section, separator, text,
    thumbnail, Component, EPHEMERAL, IS_COMPONENTS_V2,
};
use astrum::components;
use astrum::emoji::ReactionType;

#[test]
fn escapes_text_for_json() {
    let c = text("say \"hi\"\\\n\u{1}".to_string());
    assert_eq!(c.to_json(), "{\"type\":10,\"content\":\"say \\\"hi\\\"\\\\\\u000a\\u0001\"}");
    let parsed: serde_json::Value = serde_json::from_str(&c.to_json()).unwrap();
    assert_eq!(parsed["content"], "say \"hi\"\\\n\u{1}");
}

#[test]
fn renders_every_kind_of_component() {
    assert_eq!(separator().to_json(), "{\"type\":14,\"divider\":true,\"spacing\":1}");
    assert_eq!(thumbnail("u".to_string()).to_json(), "{\"type\":11,\"media\":{\"url\":\"u\"}}");
    assert_eq!(components::file("f".to_string()).to_json(), "{\"type\":13,\"file\":{\"url\":\"f\"}}");
    assert_eq!(
        section(vec![text("a".to_string())], thumbnail("t".to_string())).to_json(),
        "{\"type\":9,\"components\":[{\"type\":10,\"content\":\"a\"}],\"accessory\":{\"type\":11,\"media\":{\"url\":\"t\"}}}"
    );
    assert_eq!(container(vec![]).to_json(), "{\"type\":17,\"components\":[]}");
    assert_eq!(
        action_row(vec![button("id", 1, Some("go"), None, false)]).to_json(),
        "{\"type\":1,\"components\":[{\"type\":2,\"style\":1,\"custom_id\":\"id\",\"disabled\":false,\"label\":\"go\"}]}"
    );
    assert_eq!(list_to_json(&vec![]), "[]");
    assert_eq!(list_to_json(&vec![separator(), separator()]), "[{\"type\":14,\"divider\":true,\"spacing\":1},{\"type\":14,\"divider\":true,\"spacing\":1}]");
}

#[test]
fn buttons_show_an_emoji_or_a_label() {
    let custom = ReactionType::Custom { animated: false, id: 5, name: None };
    assert_eq!(
        button("x", 4, Some("ignored"), Some(&custom), true).to_json(),
        "{\"type\":2,\"style\":4,\"custom_id\":\"x\",\"disabled\":true,\"emoji\":{\"animated\":false,\"id\":\"5\",\"name\":null}}"
    );
    let unicode = ReactionType::Unicode("⭐".to_string());
    assert_eq!(
        button("x", 4, None, Some(&unicode), false).to_json(),
        "{\"type\":2,\"style\":4,\"custom_id\":\"x\",\"disabled\":false,\"emoji\":{\"name\":\"⭐\"}}"
    );
    assert_eq!(
        button("x", 1, None, None, false).to_json(),
        "{\"type\":2,\"style\":1,\"custom_id\":\"x\",\"disabled\":false,\"label\":\"?\"}"
    );
}

#[test]
fn a_gallery_holds_at_most_ten_items() {
    let urls: Vec<String> = (0..12).map(|i| format!("https://x/{}.png", i)).collect();
    match gallery(&urls) {
        Component::Gallery { urls: kept } => assert_eq!(kept, urls[..10].to_vec()),
        _ => panic!("expected a gallery"),
    }
    assert_eq!(
        gallery(&urls[..2]).to_json(),
        "{\"type\":12,\"items\":[{\"media\":{\"url\":\"https://x/0.png\"}},{\"media\":{\"url\":\"https://x/1.png\"}}]}"
    );
}

#[test]
fn wraps_components_in_an_interaction_response() {
    assert_eq!(IS_COMPONENTS_V2, 32768);
    assert_eq!(EPHEMERAL, 64);
    let body = interaction_payload(4, IS_COMPONENTS_V2 | EPHEMERAL, &vec![separator()]);
    assert_eq!(
        body,
        "{\"type\":4,\"data\":{\"flags\":32832,\"components\":[{\"type\":14,\"divider\":true,\"spacing\":1}]}}"
    );
}
