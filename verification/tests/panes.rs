use robrix::add_room::{
    parse_address, search_enabled, AddRoomScreen, FriendEffect, SearchEffect, ADDRESS_ERROR_PREFIX, INVALID_FRIEND_PREFIX,
};
use robrix::bot_binding::{
    merge_known_bots, resolve_bot_user_id, BotBindingModal, BotBindingSubmit, BotUserIdResolution, RemarkOutcome,
    RoomBotBinding,
};
use robrix::failed_send_banner::{BannerUpdate, FailedSendBanner};
use robrix::loading_pane::{jump_target_not_found_msg, LoadingPane, LoadingPaneState};

fn s(x: &str) -> String {
    x.to_string()
}

#[test]
fn loading_pane_search_walkthrough() {
    let mut pane: LoadingPane<u32> = LoadingPane::new();
    assert!(!pane.is_currently_shown());
    assert!(!pane.is_searching());
    assert_eq!(pane.populate(), None);

    assert_eq!(pane.start_search(s("$old:x.org"), s("a note"), "room", 3), None);
    assert_eq!(pane.start_search(s("$ev:x.org"), s("a reply"), "room", 7), Some((s("$old:x.org"), 3)));
    assert!(pane.is_currently_shown());
    assert!(pane.is_searching());
    assert!(pane.is_searching_for("$ev:x.org"));
    assert!(!pane.is_searching_for("$other:x.org"));
    assert_eq!(pane.searching_for(), Some(s("$ev:x.org")));

    pane.paginated_more_events(20);
    pane.paginated_more_events(5);
    pane.set_timeline_request_sender(9);
    match &pane.state {
        LoadingPaneState::BackwardsPaginateUntilEvent { events_paginated, request_sender, .. } => {
            assert_eq!(*events_paginated, 25);
            assert_eq!(*request_sender, 9);
        }
        _ => panic!("expected a search"),
    }
    let (title, body, button) = pane.populate().unwrap();
    assert_eq!(title, "Searching older messages...");
    assert_eq!(body, "Looking for a reply...\n\nFetched 25 messages so far...");
    assert_eq!(button, "Cancel");

    pane.search_failed();
    assert!(!pane.is_searching());
    let (title, body, button) = pane.populate().unwrap();
    assert_eq!(title, "Error loading content");
    assert_eq!(body, jump_target_not_found_msg("room"));
    assert_eq!(button, "Okay");

    assert_eq!(pane.hide_pane(), None);
    assert!(!pane.is_currently_shown());
    assert_eq!(pane.populate(), None);
}

#[test]
fn jump_target_message_names_the_timeline() {
    assert_eq!(
        jump_target_not_found_msg("thread"),
        "Couldn't find that event in this thread's history.\n\nIt may have been deleted, or the homeserver may not be able to return it."
    );
}

#[test]
fn search_failure_outside_a_search_changes_nothing() {
    let mut pane: LoadingPane<()> = LoadingPane::new();
    assert_eq!(pane.search_failed(), None);
    pane.paginated_more_events(3);
    assert!(matches!(pane.state, LoadingPaneState::Inactive));
}

#[test]
fn known_bots_are_merged_sorted_and_unique() {
    let merged = merge_known_bots(&[s("@z:x.org"), s("@a:x.org")], &[s("@m:x.org"), s("@a:x.org")]);
    assert_eq!(merged, vec![s("@a:x.org"), s("@m:x.org"), s("@z:x.org")]);
    assert!(merge_known_bots(&[], &[]).is_empty());
}

#[test]
fn bot_user_id_resolution_cases() {
    assert!(matches!(resolve_bot_user_id("   ", Some("x.org")), BotUserIdResolution::EnterUserId));
    assert!(matches!(resolve_bot_user_id("helper", None), BotUserIdResolution::CurrentUserUnavailable));
    match resolve_bot_user_id(" helper ", Some("x.org")) {
        BotUserIdResolution::Valid(id) => assert_eq!(id, "@helper:x.org"),
        _ => panic!("expected a valid ID"),
    }
    match resolve_bot_user_id("helper:y.org", None) {
        BotUserIdResolution::Valid(id) => assert_eq!(id, "@helper:y.org"),
        _ => panic!("expected a valid ID"),
    }
    match resolve_bot_user_id("@helper:z.org", None) {
        BotUserIdResolution::Valid(id) => assert_eq!(id, "@helper:z.org"),
        _ => panic!("expected a valid ID"),
    }
    match resolve_bot_user_id("@", None) {
        BotUserIdResolution::Invalid(id) => assert_eq!(id, "@"),
        _ => panic!("expected an invalid ID"),
    }
}

#[test]
fn bot_binding_modal_walkthrough() {
    let mut modal = BotBindingModal::new();
    assert!(matches!(modal.submit(true, "helper", Some("x.org")), BotBindingSubmit::NoRoom));

    let bindings = vec![RoomBotBinding { bot_user_id: s("@b:x.org"), remark: s("  weather  ") }];
    let form = modal.show(s("!room:x.org"), bindings, &[s("@c:x.org")], &[s("@b:x.org")]);
    assert_eq!(form.current_room_bots_index, 1);
    assert_eq!(form.known_bots_index, 1);
    assert_eq!(form.user_id, "@b:x.org");
    assert_eq!(form.remark, "  weather  ");

    assert_eq!(modal.known_bot_labels("Custom"), vec![s("Custom"), s("@b:x.org"), s("@c:x.org")]);
    assert_eq!(modal.room_bound_bot_labels("None"), vec![s("@b:x.org (weather)")]);
    assert_eq!(modal.room_bot_remark("@b:x.org"), Some(s("  weather  ")));
    assert_eq!(modal.room_bot_remark("@c:x.org"), None);
    assert_eq!(modal.known_bot_selected(0), Some((s(""), s(""))));
    assert_eq!(modal.known_bot_selected(2), Some((s("@c:x.org"), s(""))));
    assert_eq!(modal.known_bot_selected(3), None);
    assert_eq!(modal.room_bot_selected(1), Some((s("@b:x.org"), s("  weather  "), 1)));
    assert_eq!(modal.room_bot_selected(0), None);

    match modal.submit(false, "c", Some("x.org")) {
        BotBindingSubmit::SetBinding { room_id, bound, bot_user_id } => {
            assert_eq!(room_id, "!room:x.org");
            assert!(!bound);
            assert_eq!(bot_user_id, "@c:x.org");
        }
        _ => panic!("expected a binding"),
    }
    assert!(matches!(modal.submit(true, "", Some("x.org")), BotBindingSubmit::Refused(BotUserIdResolution::EnterUserId)));
    assert!(matches!(
        modal.submit(true, "b", None),
        BotBindingSubmit::Refused(BotUserIdResolution::CurrentUserUnavailable)
    ));
}

#[test]
fn saving_a_remark_needs_a_bound_bot() {
    let mut modal = BotBindingModal::new();
    assert!(matches!(modal.save_remark("@b:x.org", "x", None), RemarkOutcome::NoRoom));
    let bindings = vec![
        RoomBotBinding { bot_user_id: s("@a:x.org"), remark: s("") },
        RoomBotBinding { bot_user_id: s("@b:x.org"), remark: s("old") },
    ];
    modal.show(s("!room:x.org"), bindings, &[], &[]);
    assert!(matches!(modal.save_remark("  ", "x", None), RemarkOutcome::Refused(BotUserIdResolution::EnterUserId)));
    assert!(matches!(modal.save_remark("@c:x.org", "x", None), RemarkOutcome::RequiresAddedBot));
    assert!(matches!(
        modal.save_remark("b", "  news  ", Some("x.org")),
        RemarkOutcome::RemarkSaved { current_room_bots_index: 2 }
    ));
    assert_eq!(modal.room_bound_bots[1].remark, "news");
    assert_eq!(modal.room_bound_bots[0].remark, "");
}

#[test]
fn bot_binding_modal_without_bound_bots() {
    let mut modal = BotBindingModal::new();
    let form = modal.show(s("!room:x.org"), vec![], &[], &[]);
    assert_eq!(form.current_room_bots_index, 0);
    assert_eq!(form.known_bots_index, 0);
    assert_eq!(form.user_id, "");
    assert_eq!(modal.room_bound_bot_labels("None"), vec![s("None")]);
}

#[test]
fn room_addresses_from_ids_aliases_and_links() {
    assert_eq!(parse_address("!abc:example.org").unwrap(), (s("!abc:example.org"), vec![]));
    assert_eq!(parse_address("#room:example.org").unwrap(), (s("#room:example.org"), vec![]));
    assert_eq!(
        parse_address("https://matrix.to/#/%23room:example.org?via=example.org").unwrap(),
        (s("#room:example.org"), vec![s("example.org")])
    );
    assert_eq!(
        parse_address("matrix:roomid/abc:example.org?via=other.org").unwrap(),
        (s("!abc:example.org"), vec![s("other.org")])
    );
}

#[test]
fn room_address_refuses_users_and_text() {
    assert!(parse_address("hello world").is_err());
    assert!(parse_address("https://matrix.to/#/@alice:example.org").is_err());
    assert!(parse_address("").is_err());
}

#[test]
fn search_needs_some_text() {
    assert!(!search_enabled(""));
    assert!(!search_enabled("   "));
    assert!(search_enabled(" #room:x.org "));
}

#[test]
fn hiding_the_pane_hands_back_the_search_to_cancel() {
    let mut pane: LoadingPane<u8> = LoadingPane::new();
    pane.start_search(s("$a:x.org"), s("a message"), "thread", 4);
    assert_eq!(pane.hide_pane(), Some((s("$a:x.org"), 4)));
    assert!(!pane.is_searching());
    let mut requests = vec![s("$a:x.org"), s("$b:x.org"), s("$a:x.org")];
    assert!(robrix::loading_pane::cancel_search_requests(&mut requests, "$a:x.org"));
    assert_eq!(requests, vec![s("$b:x.org")]);
}

#[test]
fn add_room_screen_error_messages() {
    let mut screen = AddRoomScreen::new();
    match screen.submit_address("  not an address ") {
        SearchEffect::ShowError(m) => {
            assert!(m.starts_with(ADDRESS_ERROR_PREFIX));
            assert!(m.ends_with('.'));
        }
        _ => panic!("expected an error"),
    }
    match screen.submit_address(" #room:example.org ") {
        SearchEffect::FetchPreview { room_or_alias_id, via } => {
            assert_eq!(room_or_alias_id, "#room:example.org");
            assert!(via.is_empty());
        }
        _ => panic!("expected a lookup"),
    }
    match screen.request_friend("bob", None) {
        FriendEffect::InvalidUserId(m) => assert!(m.starts_with(INVALID_FRIEND_PREFIX) && m.len() > INVALID_FRIEND_PREFIX.len()),
        _ => panic!("expected an invalid ID"),
    }
    assert!(matches!(screen.request_friend("@me:x.org", Some("@me:x.org")), FriendEffect::CannotAddSelf));
    assert!(matches!(screen.request_friend("  ", None), FriendEffect::NoEffect));
}

#[test]
fn a_new_search_cancels_the_one_it_replaces() {
    let mut pane: LoadingPane<u8> = LoadingPane::new();
    let mut pending = vec![s("$old:x.org"), s("$other:x.org")];
    assert!(!pane.start_search_cancelling(s("$old:x.org"), s("a note"), "room", 1, &mut pending));
    assert_eq!(pending.len(), 2);
    assert!(pane.start_search_cancelling(s("$new:x.org"), s("a reply"), "room", 2, &mut pending));
    assert_eq!(pending, vec![s("$other:x.org")]);
    assert!(pane.is_searching_for("$new:x.org"));
    let replaced = pane.hide_pane();
    assert!(!robrix::loading_pane::cancel_replaced_search(replaced, &mut pending));
    assert_eq!(pending, vec![s("$other:x.org")]);
}

fn blocked(id: &str, error: &str, retryable: bool) -> robrix::failed_send_banner::BlockedSend<u8> {
    robrix::failed_send_banner::BlockedSend {
        timeline_kind: 0,
        timeline_event_id: s(id),
        error_text: s(error),
        retryable,
    }
}

#[test]
fn failed_send_banner_updates_only_on_change() {
    let mut banner: FailedSendBanner<u8> = FailedSendBanner::new();
    assert_eq!(banner.show_or_hide(None, false), BannerUpdate::Unchanged);
    assert_eq!(
        banner.show_or_hide(Some(blocked("$a", "timeout", true)), false),
        BannerUpdate::Show { reason_text: s("Couldn't send an earlier message: timeout"), retry_visible: true }
    );
    assert_eq!(banner.show_or_hide(Some(blocked("$a", "timeout", true)), true), BannerUpdate::Unchanged);
    assert_eq!(
        banner.show_or_hide(Some(blocked("$a", "too large", false)), false),
        BannerUpdate::Show { reason_text: s("Couldn't send an earlier message: too large"), retry_visible: false }
    );
    assert_eq!(banner.show_or_hide(None, true), BannerUpdate::Hide);
    assert!(banner.blocked.is_none());
}
