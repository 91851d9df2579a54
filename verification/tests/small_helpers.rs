use robrix::create_bot::{build_create_bot_request, is_valid_bot_username, INVALID_USERNAME_MESSAGE};
use robrix::directory::collapse_to_single_line;
use robrix::location::{location_error_message, LocationError};
use robrix::reactions::{human_readable_list, reaction_entry, reaction_key_for_button};

#[test]
fn human_readable_list_of_none_one_two_and_three() {
    assert_eq!(human_readable_list(vec![]), "");
    assert_eq!(human_readable_list(vec!["Alice"]), "Alice");
    assert_eq!(human_readable_list(vec!["Alice", "Bob"]), "Alice and Bob");
    assert_eq!(human_readable_list(vec!["Alice", "Bob", "Charlie"]), "Alice, Bob and Charlie");
}

#[test]
fn reaction_entry_shows_the_shortcode_and_the_senders() {
    let (label, count, who) = reaction_entry("🚀", vec!["Alice", "Bob"]);
    assert_eq!(label, "rocket");
    assert_eq!(count, 2);
    assert_eq!(who, "Alice and Bob");
}

#[test]
fn reaction_entry_keeps_text_that_is_no_emoji() {
    let (label, count, who) = reaction_entry("hi", vec!["Carol"]);
    assert_eq!(label, "hi");
    assert_eq!(count, 1);
    assert_eq!(who, "Carol");
}

#[test]
fn reaction_button_text_gives_back_the_emoji() {
    assert_eq!(reaction_key_for_button("rocket 3"), Some("🚀".to_string()));
    assert_eq!(reaction_key_for_button("no_such_shortcode 1"), None);
    assert_eq!(reaction_key_for_button("rocket"), None);
}

#[test]
fn collapse_to_single_line_squashes_whitespace_runs() {
    assert_eq!(collapse_to_single_line("  Rust\n\n  chat \t room  "), "Rust chat room");
    assert_eq!(collapse_to_single_line(""), "");
    assert_eq!(collapse_to_single_line(" \n\t "), "");
    assert_eq!(collapse_to_single_line("one"), "one");
}

#[test]
fn bot_username_rule() {
    assert!(is_valid_bot_username("weather_bot2"));
    assert!(!is_valid_bot_username(""));
    assert!(!is_valid_bot_username("WeatherBot"));
    assert!(!is_valid_bot_username("bot-1"));
    assert!(!is_valid_bot_username("bötchen"));
}

#[test]
fn create_bot_request_trims_and_defaults() {
    let r = build_create_bot_request("  helper ", "  ", "  ").unwrap();
    assert_eq!(r.username, "helper");
    assert_eq!(r.display_name, "helper");
    assert_eq!(r.system_prompt, None);

    let r = build_create_bot_request("helper", " Helper Bot ", " Be kind. ").unwrap();
    assert_eq!(r.display_name, "Helper Bot");
    assert_eq!(r.system_prompt, Some("Be kind.".to_string()));
}

#[test]
fn create_bot_request_refuses_a_bad_username() {
    let r = build_create_bot_request("Bad Name", "x", "y");
    assert_eq!(r.unwrap_err(), INVALID_USERNAME_MESSAGE);
}

#[test]
fn location_errors_have_messages() {
    assert_eq!(
        location_error_message(LocationError::Network),
        "A network problem prevented getting your location. Check your connection and try again."
    );
    assert_eq!(
        location_error_message(LocationError::PermanentlyUnavailable),
        "Location services aren't available on this device."
    );
    assert_eq!(location_error_message(LocationError::Unknown), "Couldn't get your location. Please try again.");
    assert_eq!(location_error_message(LocationError::NotMainThread), "Couldn't get your location. Please try again.");
}

use robrix::directory::{entry_view, DirectoryEntry, DirectoryRow, DirectoryScreen, PAGE_LIMIT};
use robrix::home_navigation::{profile_tooltip_text, should_refetch_own_profile};
use robrix::reactions::{reaction_buttons, reaction_hit_effect, ReactionHit, ReactionHitEffect};

fn entry(id: &str, name: &str) -> DirectoryEntry {
    DirectoryEntry {
        room_id: id.to_string(),
        display_name: name.to_string(),
        topic: Some("  All about\n Rust  ".to_string()),
        canonical_alias: Some("#rust:x.org".to_string()),
        num_joined_members: 1234,
    }
}

#[test]
fn directory_entry_texts() {
    let v = entry_view(&entry("!r:x.org", "Rust"), false, false);
    assert_eq!(v.name, "Rust");
    assert_eq!(v.topic, "All about Rust");
    assert_eq!(v.meta, "#rust:x.org  \u{b7}  1234 members");
    assert_eq!((v.button_text, v.button_enabled), ("Join", true));
    let mut e = entry("!r:x.org", "Rust");
    e.topic = None;
    e.canonical_alias = None;
    let v = entry_view(&e, true, false);
    assert_eq!(v.topic, "");
    assert_eq!(v.meta, "1234 members");
    assert_eq!((v.button_text, v.button_enabled), ("Joining\u{2026}", false));
    assert_eq!(entry_view(&e, true, true).button_text, "Joined");
}

#[test]
fn directory_search_and_pagination() {
    let mut d = DirectoryScreen::new();
    let q = d.before_draw().expect("the first search");
    assert_eq!(q.search_term, "");
    assert_eq!(q.since, None);
    assert_eq!(q.limit, PAGE_LIMIT);
    assert_eq!(q.query_id, 1);
    assert!(d.before_draw().is_none());
    assert_eq!(d.row_count(), 1);
    assert_eq!(d.row(0), Some(DirectoryRow::Loading));
    assert_eq!(d.row(1), None);

    d.page_received(1, true, vec![entry("!a:x.org", "A")], Some("next".to_string()));
    assert_eq!(d.row_count(), 2);
    assert_eq!(d.row(0), Some(DirectoryRow::Room(0)));
    assert_eq!(d.row(1), Some(DirectoryRow::Loading));
    assert!(d.scrolled(false).is_none());
    let q = d.scrolled(true).expect("the next page");
    assert_eq!(q.since, Some("next".to_string()));
    assert!(d.scrolled(true).is_none());
    d.page_received(7, false, vec![entry("!z:x.org", "Z")], None);
    assert_eq!(d.rooms.len(), 1);
    d.page_received(1, false, vec![entry("!b:x.org", "B")], None);
    assert_eq!(d.rooms.len(), 2);
    assert_eq!(d.row_count(), 2);

    d.search_changed("rust".to_string());
    let q = d.debounce_fired().expect("a new search");
    assert_eq!(q.search_term, "rust");
    assert_eq!(q.query_id, 2);
    d.search_changed("rust".to_string());
    assert!(d.debounce_fired().is_none());
    d.page_failed(2, "offline".to_string());
    assert_eq!(d.last_error, Some("offline".to_string()));
    assert_eq!(d.row(0), Some(DirectoryRow::Status("No rooms match your search.")));

    let q = d.search_submitted("".to_string());
    assert_eq!(q.query_id, 3);
    d.page_received(3, true, vec![], None);
    assert_eq!(d.row(0), Some(DirectoryRow::Status("No public rooms found.")));
}

#[test]
fn directory_joins() {
    let mut d = DirectoryScreen::new();
    assert!(d.join_clicked("!a:x.org"));
    assert!(!d.join_clicked("!a:x.org"));
    d.join_result("!b:x.org", true);
    assert!(d.joined_rooms.is_empty());
    d.join_result("!a:x.org", true);
    assert!(d.pending_joins.is_empty());
    assert_eq!(d.joined_rooms, vec!["!a:x.org".to_string()]);
    assert!(!d.join_clicked("!a:x.org"));
    assert!(d.join_clicked("!c:x.org"));
    d.join_result("!c:x.org", false);
    assert!(d.pending_joins.is_empty());
    assert_eq!(d.joined_rooms.len(), 1);
}

#[test]
fn profile_icon_helpers() {
    assert!(should_refetch_own_profile(false, false));
    assert!(should_refetch_own_profile(true, true));
    assert!(!should_refetch_own_profile(true, false));
    assert_eq!(profile_tooltip_text(Some("Alice"), "Verified."), "Logged in as \"Alice\".\n\nVerified.");
    assert_eq!(profile_tooltip_text(None, "Unverified."), "Not logged in.\n\nUnverified.");
}

#[test]
fn reaction_buttons_show_counts_and_own_reactions() {
    let reactions = vec![
        ("👍".to_string(), vec!["@a:x.org".to_string(), "@me:x.org".to_string()]),
        ("🚀".to_string(), vec!["@b:x.org".to_string()]),
    ];
    let buttons = reaction_buttons(&reactions, "@me:x.org");
    assert_eq!(buttons.len(), 2);
    assert_eq!(buttons[0].text, "👍  2");
    assert!(buttons[0].includes_user);
    assert_eq!(buttons[1].text, "🚀  1");
    assert!(!buttons[1].includes_user);
}

#[test]
fn reaction_button_hits() {
    assert_eq!(reaction_hit_effect(ReactionHit::FingerDown, false, true), ReactionHitEffect::Focus);
    assert_eq!(reaction_hit_effect(ReactionHit::LongPress, false, true), ReactionHitEffect::ShowTooltip);
    assert_eq!(reaction_hit_effect(ReactionHit::Scroll, false, true), ReactionHitEffect::HideTooltip);
    assert_eq!(
        reaction_hit_effect(ReactionHit::FingerUp { is_over: true, primary_tap: true }, true, true),
        ReactionHitEffect::Toggle { highlighted: false }
    );
    assert_eq!(
        reaction_hit_effect(ReactionHit::FingerUp { is_over: true, primary_tap: true }, false, false),
        ReactionHitEffect::Ignore
    );
    assert_eq!(
        reaction_hit_effect(ReactionHit::FingerUp { is_over: false, primary_tap: true }, false, true),
        ReactionHitEffect::HideTooltip
    );
}
