use astrum::emoji;
use astrum::emoji::{find, normalize, parse_custom, reaction_type, ReactionType};

fn custom(id: u64, name: Option<&str>) -> ReactionType {
    ReactionType::Custom { animated: false, id, name: name.map(|n| n.to_string()) }
}

#[test]
fn normalizes_unicode_emoji_to_themselves() {
    assert_eq!(normalize("⭐"), Some("⭐".to_string()));
    assert_eq!(normalize("  🌟\n"), Some("🌟".to_string()));
}

#[test]
fn normalizes_custom_emoji_to_the_bracket_form() {
    assert_eq!(normalize("<:blob:123>"), Some("<:blob:123>".to_string()));
    assert_eq!(normalize(" <a:dance:456> "), Some("<a:dance:456>".to_string()));
    // the legacy name:id form
    assert_eq!(normalize("blob:123"), Some("<:blob:123>".to_string()));
    // ids are read as numbers
    assert_eq!(normalize("<:blob:+0042>"), Some("<:blob:42>".to_string()));
}

#[test]
fn rejects_what_is_not_an_emoji() {
    assert_eq!(normalize(""), None);
    assert_eq!(normalize("   "), None);
    assert_eq!(normalize("star"), None);
    assert_eq!(normalize("<:blob:>"), None);
    assert_eq!(normalize("<:blob:12x>"), None);
    assert_eq!(normalize("<:blob:99999999999999999999>"), None);
    assert_eq!(normalize("<b:blob:1>"), None);
    assert_eq!(normalize("⭐ ⭐"), None);
    assert_eq!(normalize("⭐⭐⭐⭐⭐⭐⭐⭐⭐⭐⭐⭐⭐⭐⭐⭐⭐"), None);
    assert_eq!(normalize("⭐⭐⭐⭐⭐⭐⭐⭐⭐⭐⭐⭐⭐⭐⭐⭐"), Some("⭐⭐⭐⭐⭐⭐⭐⭐⭐⭐⭐⭐⭐⭐⭐⭐".to_string()));
}

#[test]
fn normalizing_twice_changes_nothing() {
    for input in ["⭐", " <a:dance:456>", "blob:7", "<:x:+1>", "é:5"] {
        let once = normalize(input).expect("an emoji");
        assert_eq!(normalize(&once), Some(once.clone()));
    }
}

#[test]
fn parses_custom_emoji_parts() {
    assert_eq!(parse_custom("<a:dance:456>"), Some((true, "dance".to_string(), 456)));
    assert_eq!(parse_custom("<:blob:1>"), Some((false, "blob".to_string(), 1)));
    assert_eq!(parse_custom("blob:1"), Some((false, "blob".to_string(), 1)));
    assert_eq!(parse_custom(":1"), None);
    assert_eq!(parse_custom("<>"), None);
    assert_eq!(parse_custom("⭐"), None);
}

#[test]
fn matches_reactions_by_text_id_or_legacy_name() {
    assert!(emoji::matches(&ReactionType::Unicode("⭐".to_string()), "⭐"));
    assert!(!emoji::matches(&ReactionType::Unicode("⭐".to_string()), "🌟"));
    assert!(emoji::matches(&custom(123, Some("other")), "<:blob:123>"));
    assert!(!emoji::matches(&custom(124, Some("blob")), "<:blob:123>"));
    assert!(emoji::matches(&custom(9, Some("legacy")), "legacy"));
    assert!(!emoji::matches(&custom(9, None), "legacy"));
}

#[test]
fn finds_the_first_matching_configured_emoji() {
    let configured = vec!["🌟".to_string(), "<:blob:5>".to_string(), "blob:5".to_string()];
    assert_eq!(find(&custom(5, None), &configured), Some(&configured[1]));
    assert_eq!(find(&ReactionType::Unicode("🌟".to_string()), &configured), Some(&configured[0]));
    assert_eq!(find(&ReactionType::Unicode("⭐".to_string()), &configured), None);
}

#[test]
fn turns_stored_emojis_into_button_emojis() {
    match reaction_type("<a:dance:456>") {
        Some(ReactionType::Custom { animated, id, name }) => {
            assert!(animated);
            assert_eq!(id, 456);
            assert_eq!(name.as_deref(), Some("dance"));
        }
        _ => panic!("expected a custom emoji"),
    }
    assert!(matches!(reaction_type("⭐"), Some(ReactionType::Unicode(s)) if s == "⭐"));
    assert!(reaction_type("legacy").is_none());
}
