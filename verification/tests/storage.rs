use std::collections::{HashMap, HashSet};

use astrum::storage::{AvatarEmoji, GuildConfig, Store};

fn legacy(emoji: Option<&str>) -> GuildConfig {
    GuildConfig {
        starboard_channel: Some(1),
        min_stars: 2,
        starboard_emojis: vec![],
        starboard_emoji: emoji.map(|e| e.to_string()),
        starred_messages: HashSet::new(),
        starboard_msg_ids: HashMap::new(),
    }
}

#[test]
fn an_unconfigured_server_gets_the_defaults() {
    let store = Store::empty("data.json");
    let cfg = store.guild(42);
    assert_eq!(cfg.starboard_channel, None);
    assert_eq!(cfg.min_stars, 3);
    assert_eq!(cfg.starboard_emojis, vec!["⭐".to_string()]);
    assert!(!store.is_starred(42, 1));
    assert_eq!(store.get_starboard_msg(42, 1), None);
    assert_eq!(store.path, "data.json");
}

#[test]
fn remembers_starred_messages_per_server() {
    let mut store = Store::empty("data.json");
    store.mark_starred(1, 100);
    assert!(store.is_starred(1, 100));
    assert!(!store.is_starred(2, 100));
    assert!(!store.is_starred(1, 101));
    // a copy of the server's settings carries the starred set along
    assert_eq!(store.guild(1).starred_messages, HashSet::from([100]));

    store.set_starboard_msg(1, 100, 900);
    assert_eq!(store.get_starboard_msg(1, 100), Some(900));
    assert_eq!(store.get_starboard_msg(2, 100), None);
    // a later post id replaces the earlier one
    store.set_starboard_msg(1, 100, 901);
    assert_eq!(store.get_starboard_msg(1, 100), Some(901));
}

#[test]
fn guild_mut_creates_the_defaults_once() {
    let mut store = Store::empty("data.json");
    store.guild_mut(7).min_stars = 5;
    assert_eq!(store.guild(7).min_stars, 5);
    assert_eq!(store.guild_mut(7).min_stars, 5);
    assert_eq!(store.guilds.len(), 1);
}

#[test]
fn reuses_a_cached_avatar_while_the_hash_is_the_same() {
    let mut store = Store::empty("data.json");
    assert_eq!(store.avatar_at(5, "abc", 1), None);
    assert_eq!(store.set_avatar_at(5, "abc".to_string(), 7, 10), "<:av5:7>");
    assert_eq!(store.avatar_at(5, "abc", 20), Some("<:av5:7>".to_string()));
    assert_eq!(store.avatars[&5].used_at, 20);
    // a new avatar misses the cache and leaves the entry alone
    assert_eq!(store.avatar_at(5, "def", 30), None);
    assert_eq!(store.avatars[&5].used_at, 20);
    assert_eq!(store.avatar(5, "abc"), Some("<:av5:7>".to_string()));
    assert_eq!(store.set_avatar(6, "x".to_string(), 8), "<:av6:8>");
}

fn with_avatars(entries: &[(u64, u64, u64)]) -> Store {
    let mut store = Store::empty("data.json");
    for &(user, emoji, used_at) in entries {
        store.set_avatar_at(user, format!("h{user}"), emoji, used_at);
    }
    store
}

#[test]
fn takes_the_users_old_avatar() {
    let mut store = with_avatars(&[(1, 11, 5), (2, 12, 6)]);
    assert_eq!(store.take_stale_avatars(1, 10), vec![11]);
    assert!(!store.avatars.contains_key(&1));
    assert!(store.avatars.contains_key(&2));
    assert_eq!(store.take_stale_avatars(9, 10), Vec::<u64>::new());
}

#[test]
fn evicts_the_least_recently_used_avatars_when_full() {
    let mut store = with_avatars(&[(1, 11, 30), (2, 12, 10), (3, 13, 20), (4, 14, 40)]);
    // four stored, room for three: the two oldest go, leaving two
    assert_eq!(store.take_stale_avatars(9, 3), vec![12, 13]);
    let mut left: Vec<u64> = store.avatars.keys().copied().collect();
    left.sort();
    assert_eq!(left, vec![1, 4]);

    // the user's own avatar goes first, then as many as needed
    let mut store = with_avatars(&[(1, 11, 30), (2, 12, 10), (3, 13, 20)]);
    assert_eq!(store.take_stale_avatars(3, 2), vec![13, 12]);
    assert_eq!(store.avatars.len(), 1);

    // with no room at all everything goes
    let mut store = with_avatars(&[(1, 11, 30), (2, 12, 10)]);
    assert_eq!(store.take_stale_avatars(5, 0), vec![12, 11]);
    assert!(store.avatars.is_empty());
}

#[test]
fn folds_the_legacy_emoji_into_the_list() {
    let mut cfg = legacy(Some("blob:5"));
    cfg.migrate_emojis();
    assert_eq!(cfg.starboard_emojis, vec!["<:blob:5>".to_string()]);
    assert_eq!(cfg.starboard_emoji, None);
    // a second migration changes nothing
    cfg.migrate_emojis();
    assert_eq!(cfg.starboard_emojis, vec!["<:blob:5>".to_string()]);
    assert_eq!(cfg.starboard_emoji, None);

    let mut cfg = legacy(Some("not an emoji"));
    cfg.migrate_emojis();
    assert_eq!(cfg.starboard_emojis, vec!["not an emoji".to_string()]);

    let mut cfg = legacy(None);
    cfg.migrate_emojis();
    assert_eq!(cfg.starboard_emojis, vec!["⭐".to_string()]);

    let mut cfg = legacy(Some("blob:5"));
    cfg.starboard_emojis = vec!["🌟".to_string()];
    cfg.migrate_emojis();
    assert_eq!(cfg.starboard_emojis, vec!["🌟".to_string()]);
    assert_eq!(cfg.starboard_emoji.as_deref(), Some("blob:5"));
}

#[test]
fn restores_a_saved_store_with_migrated_servers() {
    let mut guilds = HashMap::new();
    guilds.insert(1, legacy(Some("⭐")));
    guilds.insert(2, legacy(None));
    let mut avatars = HashMap::new();
    avatars.insert(5, AvatarEmoji { hash: "h".to_string(), emoji_id: 7, used_at: 0 });
    let store = Store::restore("saved.json", guilds, avatars);
    assert_eq!(store.path, "saved.json");
    assert_eq!(store.guild(1).starboard_emojis, vec!["⭐".to_string()]);
    assert_eq!(store.guild(2).starboard_emojis, vec!["⭐".to_string()]);
    assert_eq!(store.guild(1).min_stars, 2);
    assert_eq!(store.avatars[&5].emoji_id, 7);
}
