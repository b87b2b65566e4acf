use std::collections::{HashMap, HashSet};

use astrum::commands::{config_panel, emoji_panel, panel, set_channel, set_stars};
use astrum::components::{list_to_json, Component};
use astrum::storage::{GuildConfig, Store};
use serde_json::Value;

fn rendered(components: &Vec<Component>) -> Value {
    serde_json::from_str(&list_to_json(components)).expect("components render as JSON")
}

fn strings(n: usize) -> Vec<String> {
    (0..n).map(|i| format!("<:e{}:{}>", i, i + 1)).collect()
}

#[test]
fn answers_in_a_plain_panel() {
    let v = rendered(&panel("hello".to_string()));
    assert_eq!(v.as_array().unwrap().len(), 1);
    assert_eq!(v[0]["type"], 17);
    assert_eq!(v[0]["components"][0]["type"], 10);
    assert_eq!(v[0]["components"][0]["content"], "hello");
}

#[test]
fn the_emoji_panel_lists_and_offers_every_emoji() {
    let emojis = vec!["⭐".to_string(), "<a:dance:456>".to_string()];
    let v = rendered(&emoji_panel(&emojis));
    let items = v[0]["components"].as_array().unwrap();
    assert_eq!(
        items[0]["content"],
        "**starboard emojis** (2/10)\n⭐ <a:dance:456>\n-# click an emoji to remove it. a message needs enough distinct people reacting with these to reach the starboard."
    );
    assert_eq!(items[1]["type"], 14);
    // one row of remove buttons, then the add button
    assert_eq!(items.len(), 4);
    let row = items[2]["components"].as_array().unwrap();
    assert_eq!(row.len(), 2);
    assert_eq!(row[0]["custom_id"], "sb:rm:⭐");
    assert_eq!(row[0]["style"], 4);
    assert_eq!(row[0]["disabled"], false);
    assert_eq!(row[0]["emoji"]["name"], "⭐");
    assert_eq!(row[1]["custom_id"], "sb:rm:<a:dance:456>");
    assert_eq!(row[1]["emoji"]["id"], "456");
    assert_eq!(row[1]["emoji"]["animated"], true);
    assert_eq!(row[1]["emoji"]["name"], "dance");
    let add = &items[3]["components"][0];
    assert_eq!(add["custom_id"], "sb:add");
    assert_eq!(add["style"], 1);
    assert_eq!(add["label"], "add emoji");
    assert_eq!(add["disabled"], false);
}

#[test]
fn the_last_emoji_cannot_be_removed() {
    let v = rendered(&emoji_panel(&["⭐".to_string()]));
    let items = v[0]["components"].as_array().unwrap();
    assert_eq!(items[2]["components"][0]["disabled"], true);
}

#[test]
fn a_full_panel_has_two_rows_and_no_add() {
    let emojis = strings(10);
    let v = rendered(&emoji_panel(&emojis));
    let items = v[0]["components"].as_array().unwrap();
    assert_eq!(items.len(), 5);
    assert_eq!(items[2]["components"].as_array().unwrap().len(), 5);
    assert_eq!(items[3]["components"].as_array().unwrap().len(), 5);
    assert_eq!(items[3]["components"][4]["custom_id"], "sb:rm:<:e9:10>");
    assert_eq!(items[4]["components"][0]["disabled"], true);
}

#[test]
fn emojis_that_cannot_be_drawn_get_a_label() {
    let v = rendered(&emoji_panel(&["⭐".to_string(), "legacy".to_string()]));
    let button = &v[0]["components"][2]["components"][1];
    assert_eq!(button["label"], "legacy");
    assert!(button.get("emoji").is_none());
}

#[test]
fn shows_the_configuration() {
    let cfg = GuildConfig {
        starboard_channel: Some(123),
        min_stars: 4,
        starboard_emojis: vec!["⭐".to_string(), "🌟".to_string()],
        starboard_emoji: None,
        starred_messages: HashSet::new(),
        starboard_msg_ids: HashMap::new(),
    };
    let v = rendered(&config_panel(&cfg));
    let items = v[0]["components"].as_array().unwrap();
    assert_eq!(items[0]["content"], "**starboard configuration**");
    assert_eq!(items[2]["content"], "channel: <#123>\nmin reactions: 4\nemojis: ⭐ 🌟");

    let unset = Store::empty("data.json").guild(1);
    let v = rendered(&config_panel(&unset));
    assert_eq!(v[0]["components"][2]["content"], "channel: *not set*\nmin reactions: 3\nemojis: ⭐");
}

#[test]
fn sets_the_channel() {
    let mut store = Store::empty("data.json");
    let v = rendered(&set_channel(&mut store, 7, 55));
    assert_eq!(v[0]["components"][0]["content"], "starboard channel set to <#55>");
    assert_eq!(store.guild(7).starboard_channel, Some(55));
    assert_eq!(store.guild(7).min_stars, 3);
}

#[test]
fn sets_the_threshold_but_not_to_zero() {
    let mut store = Store::empty("data.json");
    let (changed, answer) = set_stars(&mut store, 7, 0);
    assert!(!changed);
    assert_eq!(rendered(&answer)[0]["components"][0]["content"], "minimum reactions must be at least 1");
    assert!(store.guilds.is_empty());
    let (changed, answer) = set_stars(&mut store, 7, 5);
    assert!(changed);
    assert_eq!(rendered(&answer)[0]["components"][0]["content"], "minimum reactions set to 5");
    assert_eq!(store.guild(7).min_stars, 5);
}
