use std::collections::{HashMap, HashSet};

use astrum::emoji::ReactionType;
use astrum::handler::{
    is_add_modal, is_admin, is_own_component, next_page, panel_action, star_action, submitted, tally, watch,
    AddOutcome, PanelAction, StarAction, PAGE_SIZE,
};
use astrum::storage::{GuildConfig, Store};

fn config(emojis: &[&str]) -> GuildConfig {
    GuildConfig {
        starboard_channel: Some(10),
        min_stars: 2,
        starboard_emojis: emojis.iter().map(|e| e.to_string()).collect(),
        starboard_emoji: None,
        starred_messages: HashSet::new(),
        starboard_msg_ids: HashMap::new(),
    }
}

fn star() -> ReactionType {
    ReactionType::Unicode("⭐".to_string())
}

#[test]
fn removes_an_emoji_but_never_the_last() {
    let mut cfg = config(&["⭐", "🌟", "<:blob:5>"]);
    cfg.remove_emoji("🌟");
    assert_eq!(cfg.starboard_emojis, vec!["⭐".to_string(), "<:blob:5>".to_string()]);
    cfg.remove_emoji("💫");
    assert_eq!(cfg.starboard_emojis, vec!["⭐".to_string(), "<:blob:5>".to_string()]);
    cfg.remove_emoji("⭐");
    cfg.remove_emoji("<:blob:5>");
    assert_eq!(cfg.starboard_emojis, vec!["<:blob:5>".to_string()]);
    assert_eq!(cfg.min_stars, 2);
}

#[test]
fn adds_emojis_in_their_stored_form() {
    let mut cfg = config(&["⭐"]);
    assert!(matches!(cfg.add_emoji(" blob:7 "), AddOutcome::Added(ref s) if s == "<:blob:7>"));
    assert_eq!(cfg.starboard_emojis, vec!["⭐".to_string(), "<:blob:7>".to_string()]);
    assert!(matches!(cfg.add_emoji("<:blob:7>"), AddOutcome::AlreadySet(ref s) if s == "<:blob:7>"));
    assert!(matches!(cfg.add_emoji("not an emoji"), AddOutcome::NotAnEmoji));
    assert_eq!(cfg.starboard_emojis.len(), 2);
}

#[test]
fn refuses_an_eleventh_emoji() {
    let mut cfg = config(&["⭐"]);
    for i in 0..9u64 {
        let e = format!("<:e:{}>", i + 100);
        assert!(matches!(cfg.add_emoji(&e), AddOutcome::Added(_)));
    }
    assert_eq!(cfg.starboard_emojis.len(), 10);
    let outcome = cfg.add_emoji("<:e:999>");
    assert!(matches!(outcome, AddOutcome::Full));
    assert_eq!(cfg.starboard_emojis.len(), 10);
}

#[test]
fn tells_the_user_what_came_of_an_emoji() {
    assert_eq!(AddOutcome::Added("⭐".to_string()).notice(), None);
    assert_eq!(AddOutcome::NotAnEmoji.notice(), Some("that doesn't look like an emoji".to_string()));
    assert_eq!(AddOutcome::AlreadySet("⭐".to_string()).notice(), Some("⭐ is already set".to_string()));
    assert_eq!(AddOutcome::Full.notice(), Some("you can only have 10 emojis".to_string()));
}

#[test]
fn routes_panel_presses() {
    assert!(matches!(panel_action("sb:add"), PanelAction::OpenModal));
    assert!(matches!(panel_action("sb:rm:<:blob:5>"), PanelAction::Remove(ref e) if e == "<:blob:5>"));
    assert!(matches!(panel_action("sb:rm:"), PanelAction::Remove(ref e) if e.is_empty()));
    assert!(matches!(panel_action("sb:other"), PanelAction::Ignore));
    assert!(matches!(panel_action("something"), PanelAction::Ignore));
    assert!(is_own_component("sb:add"));
    assert!(is_own_component("sb:"));
    assert!(!is_own_component("sb"));
    assert!(!is_own_component("other:sb:"));
    assert!(is_add_modal("sb:add:modal"));
    assert!(!is_add_modal("sb:add"));
}

#[test]
fn reads_the_submitted_emoji_from_the_modal() {
    let inputs = vec![
        ("other".to_string(), Some("x".to_string())),
        ("sb:add:input".to_string(), None),
        ("sb:add:input".to_string(), Some("⭐".to_string())),
        ("sb:add:input".to_string(), Some("🌟".to_string())),
    ];
    assert_eq!(submitted(&inputs), "⭐");
    assert_eq!(submitted(&inputs[..2]), "");
    assert_eq!(submitted(&[]), "");
}

#[test]
fn only_administrators_configure() {
    assert!(is_admin(Some(8)));
    assert!(is_admin(Some(0xff)));
    assert!(!is_admin(Some(0)));
    assert!(!is_admin(Some(0xf7)));
    assert!(!is_admin(None));
}

#[test]
fn watches_configured_emojis_outside_the_starboard_channel() {
    let mut store = Store::empty("data.json");
    // no channel set yet
    assert!(watch(&store, Some(1), 5, &star()).is_none());
    *store.guild_mut(1) = config(&["⭐", "<:blob:5>"]);
    let w = watch(&store, Some(1), 5, &star()).expect("watched");
    assert_eq!(w.starboard_channel, 10);
    assert_eq!(w.min_stars, 2);
    assert_eq!(w.emojis, vec!["⭐".to_string(), "<:blob:5>".to_string()]);
    let blob = ReactionType::Custom { animated: false, id: 5, name: None };
    assert!(watch(&store, Some(1), 5, &blob).is_some());
    // in the starboard channel itself
    assert!(watch(&store, Some(1), 10, &star()).is_none());
    // an emoji that is not configured
    assert!(watch(&store, Some(1), 5, &ReactionType::Unicode("🌟".to_string())).is_none());
    // direct messages
    assert!(watch(&store, None, 5, &star()).is_none());
}

#[test]
fn posts_once_then_refreshes_the_recorded_post() {
    let mut store = Store::empty("data.json");
    assert!(matches!(star_action(&mut store, 1, 77, 1, 2), StarAction::Ignore));
    assert!(!store.is_starred(1, 77));
    assert!(matches!(star_action(&mut store, 1, 77, 2, 2), StarAction::Post));
    assert!(store.is_starred(1, 77));
    // posted, but the post is not recorded yet
    assert!(matches!(star_action(&mut store, 1, 77, 3, 2), StarAction::Ignore));
    store.set_starboard_msg(1, 77, 900);
    assert!(matches!(star_action(&mut store, 1, 77, 3, 2), StarAction::Refresh(900)));
    assert!(matches!(star_action(&mut store, 1, 77, 1, 2), StarAction::Ignore));
}

#[test]
fn counts_distinct_people_and_ignores_bots() {
    let emojis = vec!["⭐".to_string(), "<:blob:5>".to_string()];
    let reactions = vec![
        (star(), vec![(1, false), (2, false), (99, true)]),
        (ReactionType::Unicode("🌟".to_string()), vec![(3, false)]),
        (ReactionType::Custom { animated: false, id: 5, name: Some("blob".to_string()) }, vec![(2, false), (4, false)]),
        (ReactionType::Custom { animated: true, id: 6, name: None }, vec![(5, false)]),
    ];
    let (counts, total) = tally(&reactions, &emojis);
    assert_eq!(counts, vec![("⭐".to_string(), 2), ("<:blob:5>".to_string(), 2)]);
    assert_eq!(total, 3);

    let only_bots = vec![(star(), vec![(99, true)])];
    let (counts, total) = tally(&only_bots, &emojis);
    assert!(counts.is_empty());
    assert_eq!(total, 0);
}

#[test]
fn pages_through_reactors() {
    let full: Vec<u64> = (1..=PAGE_SIZE as u64).collect();
    assert_eq!(next_page(&full), Some(PAGE_SIZE as u64));
    assert_eq!(next_page(&full[..99]), None);
    assert_eq!(next_page(&[]), None);
}
