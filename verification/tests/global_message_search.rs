use robrix::global_message_search::{
    build_render_items, group_count, resolve_room_display, truncate_body, GlobalMessageSearch, GlobalSearchHit,
    GlobalSearchHitRow, GlobalSearchSectionHeader, RenderItem,
};

fn make_hit(room: &str, ts: u64, body: &str) -> GlobalSearchHit {
    GlobalSearchHit {
        event_id: "$evt:example.org".to_string(),
        room_id: room.to_string(),
        sender_user_id: "@alice:example.org".to_string(),
        sender_display_name: None,
        body: body.to_string(),
        timestamp: ts,
    }
}

#[test]
fn build_render_items_groups_by_room_and_sorts_sections_by_recency() {
    let hits = vec![
        make_hit("!a:example.org", 100, "hello"),
        make_hit("!a:example.org", 200, "world"),
        make_hit("!b:example.org", 1000, "fresh"),
    ];
    let items = build_render_items(&hits);
    match &items[0] {
        RenderItem::Header { room_id, count } => {
            assert_eq!(room_id.as_str(), "!b:example.org");
            assert_eq!(*count, 1);
        }
        other => panic!("expected first item to be section header, got {:?}", other),
    }
    match &items[1] {
        RenderItem::Hit { hit_index } => assert_eq!(*hit_index, 2),
        other => panic!("expected hit, got {:?}", other),
    }
    match &items[2] {
        RenderItem::Header { room_id, count } => {
            assert_eq!(room_id.as_str(), "!a:example.org");
            assert_eq!(*count, 2);
        }
        other => panic!("expected section header, got {:?}", other),
    }
}

#[test]
fn build_render_items_empty_input_returns_empty() {
    assert!(build_render_items(&[]).is_empty());
}

#[test]
fn group_count_counts_distinct_rooms() {
    let hits = vec![
        make_hit("!a:example.org", 1, "x"),
        make_hit("!a:example.org", 2, "y"),
        make_hit("!b:example.org", 3, "z"),
    ];
    assert_eq!(group_count(&hits), 2);
}

#[test]
fn truncate_body_caps_at_140_chars_with_ellipsis() {
    let long = "a".repeat(300);
    let out = truncate_body(&long);
    assert!(out.ends_with('…'));
    assert!(out.chars().count() <= 141);
}

#[test]
fn truncate_body_short_input_unchanged() {
    assert_eq!(truncate_body("hello"), "hello");
}

#[test]
fn build_render_items_full_plan_with_interleaved_rooms() {
    let hits = vec![
        make_hit("!a:x", 5, "1"),
        make_hit("!b:x", 9, "2"),
        make_hit("!a:x", 7, "3"),
        make_hit("!c:x", 1, "4"),
    ];
    let items = build_render_items(&hits);
    assert_eq!(
        items,
        vec![
            RenderItem::Header { room_id: "!b:x".to_string(), count: 1 },
            RenderItem::Hit { hit_index: 1 },
            RenderItem::Header { room_id: "!a:x".to_string(), count: 2 },
            RenderItem::Hit { hit_index: 0 },
            RenderItem::Hit { hit_index: 2 },
            RenderItem::Header { room_id: "!c:x".to_string(), count: 1 },
            RenderItem::Hit { hit_index: 3 },
        ]
    );
}

#[test]
fn build_render_items_breaks_ties_by_room_id() {
    let hits = vec![make_hit("!z:x", 5, "1"), make_hit("!m:x", 5, "2")];
    let items = build_render_items(&hits);
    assert_eq!(items[0], RenderItem::Header { room_id: "!m:x".to_string(), count: 1 });
    assert_eq!(items[2], RenderItem::Header { room_id: "!z:x".to_string(), count: 1 });
}

#[test]
fn every_hit_appears_once_under_its_room() {
    let hits = vec![make_hit("!a:x", 3, "1"), make_hit("!b:x", 2, "2"), make_hit("!a:x", 1, "3"), make_hit("!b:x", 4, "4")];
    let items = build_render_items(&hits);
    let mut seen = vec![0usize; hits.len()];
    let mut current_room = String::new();
    let mut headers = 0;
    for item in &items {
        match item {
            RenderItem::Header { room_id, .. } => {
                current_room = room_id.clone();
                headers += 1;
            }
            RenderItem::Hit { hit_index } => {
                seen[*hit_index] += 1;
                assert_eq!(hits[*hit_index].room_id, current_room);
            }
        }
    }
    assert!(seen.iter().all(|n| *n == 1));
    assert_eq!(headers, group_count(&hits));
}

#[test]
fn truncate_body_cuts_at_last_whitespace_and_replaces_newlines() {
    let body = format!("{} tail-that-is-cut-off-because-it-is-long", "word ".repeat(27));
    let out = truncate_body(&body);
    let expected = format!("{}…", "word ".repeat(27));
    assert_eq!(out, expected);
    assert_eq!(truncate_body("a\nb"), "a b");
}

#[test]
fn truncate_body_without_whitespace_keeps_140_chars() {
    let out = truncate_body(&"x".repeat(141));
    assert_eq!(out, format!("{}…", "x".repeat(140)));
    assert_eq!(truncate_body(&"x".repeat(140)), "x".repeat(140));
}

#[test]
fn section_header_count_text() {
    let mut h = GlobalSearchSectionHeader::new();
    h.set_header("Room", 1);
    assert_eq!(h.hit_count, "1 match");
    h.set_header("Room", 0);
    assert_eq!(h.hit_count, "0 matches");
    h.set_header("Room", 12);
    assert_eq!(h.hit_count, "12 matches");
    assert_eq!(h.room_name, "Room");
}

#[test]
fn hit_row_shows_display_name_or_user_id() {
    let mut row = GlobalSearchHitRow::new();
    let mut hit = make_hit("!a:x", 1, "line1\nline2");
    row.set_hit(&hit, "2024-01-01 10:00");
    assert_eq!(row.sender, "@alice:example.org");
    assert_eq!(row.body, "line1 line2");
    assert_eq!(row.timestamp, "2024-01-01 10:00");
    assert_eq!(row.room_id.as_deref(), Some("!a:x"));
    hit.sender_display_name = Some("Alice".to_string());
    row.set_hit(&hit, "t");
    assert_eq!(row.sender, "Alice");
}

#[test]
fn room_display_falls_back_to_room_id() {
    assert_eq!(resolve_room_display("!a:x", Some("Lobby")), "Lobby");
    assert_eq!(resolve_room_display("!a:x", Some("")), "!a:x");
    assert_eq!(resolve_room_display("!a:x", Some("Empty")), "!a:x");
    assert_eq!(resolve_room_display("!a:x", None), "!a:x");
}

#[test]
fn search_state_walkthrough() {
    let mut s = GlobalMessageSearch::new();
    let d = s.refresh_display();
    assert!(!d.status_visible && !d.results_visible && !d.load_more_visible);
    assert_eq!(d.status_text, "");

    s.set_loading("hello".to_string());
    let d = s.refresh_display();
    assert_eq!(d.status_text, "Searching for \u{201C}hello\u{201D}…");
    assert!(d.status_visible && !d.results_visible);
    assert_eq!(s.last_query(), "hello");

    s.set_results("hello".to_string(), vec![make_hit("!a:x", 1, "x"), make_hit("!b:x", 2, "y")], 10, Some("tok".to_string()));
    let d = s.refresh_display();
    assert_eq!(d.status_text, "Showing 2 of 10 matches in 2 room(s)");
    assert!(d.results_visible && d.load_more_visible);
    assert_eq!(s.next_batch(), Some("tok"));
    assert_eq!(s.render_items().len(), 4);

    s.append_results(vec![make_hit("!a:x", 3, "z")], 0, None);
    let d = s.refresh_display();
    assert_eq!(d.status_text, "3 matches in 2 room(s)");
    assert!(d.results_visible && !d.load_more_visible);
    assert_eq!(s.next_batch(), None);
    assert_eq!(s.hits().len(), 3);

    s.set_error("timeout".to_string());
    let d = s.refresh_display();
    assert_eq!(d.status_text, "Search failed: timeout");
    assert!(d.results_visible);

    s.clear();
    let d = s.refresh_display();
    assert!(!d.status_visible);
    assert_eq!(s.last_query(), "");
    assert!(s.hits().is_empty());
}

#[test]
fn search_with_no_hits_and_a_single_match() {
    let mut s = GlobalMessageSearch::new();
    s.set_results("nothing".to_string(), vec![], 5, None);
    let d = s.refresh_display();
    assert_eq!(d.status_text, "No messages match \u{201C}nothing\u{201D}.");
    assert!(!d.results_visible);

    s.set_results("one".to_string(), vec![make_hit("!a:x", 1, "x")], 1, None);
    let d = s.refresh_display();
    assert_eq!(d.status_text, "1 match");
    let long_query = "q".repeat(50);
    s.set_loading(long_query);
    assert_eq!(s.refresh_display().status_text, format!("Searching for \u{201C}{}…\u{201D}…", "q".repeat(40)));
}

#[test]
fn loading_keeps_previous_hits_visible() {
    let mut s = GlobalMessageSearch::new();
    s.set_results("a".to_string(), vec![make_hit("!a:x", 1, "x")], 0, None);
    s.set_loading("b".to_string());
    assert!(s.refresh_display().results_visible);
}

#[test]
fn an_empty_follow_up_page_on_no_hits_is_empty() {
    let mut s = GlobalMessageSearch::new();
    s.set_results("nothing".to_string(), vec![], 5, Some("tok".to_string()));
    s.append_results(vec![], 5, None);
    let d = s.refresh_display();
    assert_eq!(d.status_text, "No messages match \u{201C}nothing\u{201D}.");
    assert!(!d.results_visible);
}

#[test]
fn new_results_scroll_the_list_back_to_the_top() {
    let mut s = GlobalMessageSearch::new();
    s.set_results("a".to_string(), vec![make_hit("!a:x", 1, "x"), make_hit("!a:x", 2, "y")], 0, Some("t".to_string()));
    s.scrolled_to(2);
    s.append_results(vec![make_hit("!a:x", 3, "z")], 0, None);
    assert_eq!(s.first_visible(), 2);
    s.set_results("b".to_string(), vec![make_hit("!b:x", 1, "x")], 0, None);
    assert_eq!(s.first_visible(), 0);
}
