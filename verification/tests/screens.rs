use robrix::create_room::{avatar_mime, avatar_too_large_message, AVATAR_MAX_BYTES};
use robrix::dock::SelectedRoom;
use robrix::dock_tabs::{CloseOutcome, DockTabs, FocusPlan};
use robrix::editing_pane::{
    accept_edit, AcceptOutcome, EditResultEffect, EditTarget, EditedContentPlan, EditingPaneModel, MediaKind, ShowOutcome,
    EVENT_TYPE_NOT_EDITABLE, MESSAGE_TYPE_NOT_EDITABLE, POLL_ANSWERS_UNAVAILABLE,
};
use robrix::home_navigation::{
    HomeNavigation, HomePage, MobileStack, NavigationEffect, NavigationRequest, PopOutcome, SelectedTab,
};
use robrix::invite_modal::{InviteModalModel, InviteModalState, InviteResultView, InviteSubmit};
use robrix::invite_screen::{
    DisplayInviteEffect, InviteClickEffect, InviteRecord, InviteScreenModel, InviteState, InviteView, InviterInfo,
};

fn s(x: &str) -> String {
    x.to_string()
}

#[test]
fn accepted_edits_take_the_trimmed_text() {
    assert_eq!(
        accept_edit(EditTarget::Text { has_mentions: true }, "  new text \n"),
        AcceptOutcome::Submit(EditedContentPlan::TextMarkdown { body: s("new text"), keep_mentions: true })
    );
    assert_eq!(
        accept_edit(EditTarget::Emote { has_mentions: false }, "waves"),
        AcceptOutcome::Submit(EditedContentPlan::EmoteMarkdown { body: s("waves"), keep_mentions: false })
    );
    assert_eq!(
        accept_edit(EditTarget::Media { kind: MediaKind::Image, formatted: true, has_mentions: false }, " caption "),
        AcceptOutcome::Submit(EditedContentPlan::Media {
            kind: MediaKind::Image,
            body: s("caption"),
            formatted_markdown: true,
            keep_mentions: false
        })
    );
    assert_eq!(
        accept_edit(EditTarget::Poll { answers_ok: true }, " Lunch? "),
        AcceptOutcome::Submit(EditedContentPlan::PollStart { question: s("Lunch?") })
    );
}

#[test]
fn some_edits_are_refused() {
    assert_eq!(accept_edit(EditTarget::OtherMessage, "x"), AcceptOutcome::RefuseAndHide(MESSAGE_TYPE_NOT_EDITABLE));
    assert_eq!(accept_edit(EditTarget::Poll { answers_ok: false }, "x"), AcceptOutcome::Refuse(POLL_ANSWERS_UNAVAILABLE));
    assert_eq!(accept_edit(EditTarget::OtherMsgLike, "x"), AcceptOutcome::Refuse(EVENT_TYPE_NOT_EDITABLE));
    assert_eq!(accept_edit(EditTarget::NotMsgLike, "x"), AcceptOutcome::Refuse(EVENT_TYPE_NOT_EDITABLE));
}

#[test]
fn editing_pane_life_cycle() {
    let mut pane = EditingPaneModel::new();
    assert!(!pane.is_currently_shown());
    assert_eq!(pane.on_accept("x"), None);
    assert!(!pane.on_cancel());

    assert_eq!(pane.show(false, s("$a"), EditTarget::Text { has_mentions: false }, Some(s("hi"))), ShowOutcome::NotEditable);
    assert_eq!(pane.show(true, s("$a"), EditTarget::NotMsgLike, None), ShowOutcome::NothingToEdit);
    assert!(!pane.is_currently_shown());

    assert_eq!(pane.show(true, s("$a"), EditTarget::Text { has_mentions: false }, Some(s("hi"))), ShowOutcome::Shown(s("hi")));
    assert!(pane.is_currently_shown());
    assert_eq!(pane.save_state(), Some(s("$a")));
    assert!(matches!(pane.on_accept(" hello "), Some(AcceptOutcome::Submit(EditedContentPlan::TextMarkdown { .. }))));
    assert_eq!(pane.handle_edit_result("$other", Ok(())), EditResultEffect::Ignored);
    assert_eq!(
        pane.handle_edit_result("$a", Err(s("timeout"))),
        EditResultEffect::Popup(s("Failed to edit message: timeout"))
    );
    assert_eq!(pane.handle_edit_result("$a", Ok(())), EditResultEffect::StartHide);

    assert!(pane.on_cancel());
    assert!(!pane.after_animation(true, true, true));
    assert!(pane.animating_out);
    assert!(!pane.after_animation(true, true, false));
    assert!(pane.after_animation(false, true, false));
    assert!(!pane.is_currently_shown());
    assert_eq!(pane.save_state(), None);
}

#[test]
fn editing_pane_restore_and_reset() {
    let mut pane = EditingPaneModel::new();
    pane.restore_state(s("$b"), EditTarget::Emote { has_mentions: false });
    assert!(pane.is_currently_shown());
    pane.force_reset_hide();
    assert!(!pane.is_currently_shown());
    assert!(pane.info.is_none());
    pane.before_draw();
    assert!(!pane.visible);
}

fn record(state: InviteState, inviter: Option<InviterInfo>) -> InviteRecord {
    InviteRecord { inviter, invite_state: state, is_space: false }
}

#[test]
fn invite_screen_walkthrough() {
    let mut screen = InviteScreenModel::new();
    assert_eq!(screen.view_model(), InviteView::Restoring { room_label: None, all_rooms_loaded: false });
    assert_eq!(
        screen.set_displayed_invite(s("!r:x.org"), s("Lounge"), None, false),
        DisplayInviteEffect::Waiting
    );
    assert_eq!(screen.view_model(), InviteView::Restoring { room_label: Some(s("Lounge")), all_rooms_loaded: false });
    assert!(!screen.rooms_updated(false, true));
    assert!(screen.all_rooms_loaded);
    assert!(screen.rooms_updated(true, true));

    let inviter = InviterInfo { user_id: s("@bob:x.org"), display_name: Some(s("Bob")) };
    assert_eq!(
        screen.set_displayed_invite(s("!r:x.org"), s("Lounge"), Some(record(InviteState::WaitingOnUserInput, Some(inviter))), false),
        DisplayInviteEffect::Shown
    );
    match screen.view_model() {
        InviteView::Invite { inviter_visible, inviter_name, inviter_user_id, invite_message, room_label, buttons, .. } => {
            assert!(inviter_visible);
            assert_eq!(inviter_name, "Bob");
            assert_eq!(inviter_user_id, Some(s("@bob:x.org")));
            assert_eq!(invite_message, "has invited you to join:");
            assert_eq!(room_label, "Lounge");
            assert!(buttons.enabled && buttons.visible);
            assert_eq!(buttons.cancel_text, "Reject Invite");
            assert_eq!(buttons.accept_text, "Join Room");
        }
        other => panic!("unexpected view {:?}", other),
    }

    screen.is_space_updated("!r:x.org", true);
    assert_eq!(screen.accept_clicked(false), InviteClickEffect::OpenDialog(s("!r:x.org")));
    assert_eq!(screen.invite_state, InviteState::WaitingOnUserInput);
    assert_eq!(screen.accept_clicked(true), InviteClickEffect::SendRequest(s("!r:x.org")));
    assert_eq!(screen.invite_state, InviteState::WaitingForJoinResult);
    screen.join_result("!other:x.org", true);
    assert_eq!(screen.invite_state, InviteState::WaitingForJoinResult);
    screen.join_result("!r:x.org", false);
    assert_eq!(screen.invite_state, InviteState::WaitingOnUserInput);
    match screen.view_model() {
        InviteView::Invite { buttons, .. } => assert_eq!(buttons.accept_text, "Join Space"),
        other => panic!("unexpected view {:?}", other),
    }

    assert_eq!(screen.cancel_clicked(true), InviteClickEffect::SendRequest(s("!r:x.org")));
    assert_eq!(screen.invite_state, InviteState::WaitingForLeaveResult);
    screen.leave_result("!r:x.org", true);
    match screen.view_model() {
        InviteView::Invite { buttons, .. } => {
            assert!(!buttons.visible);
            assert_eq!(buttons.completion, "Invite successfully rejected. You may close this invite.");
        }
        other => panic!("unexpected view {:?}", other),
    }
    screen.dialog_closed("!r:x.org", Some(InviteState::WaitingForJoinedRoom));
    assert_eq!(screen.invite_state, InviteState::WaitingForJoinedRoom);

    screen.hide_displayed_invite();
    assert_eq!(screen.cancel_clicked(true), InviteClickEffect::NoInvite);
}

#[test]
fn invite_accepted_elsewhere_and_inviter_without_name() {
    let mut screen = InviteScreenModel::new();
    assert_eq!(
        screen.set_displayed_invite(s("!r:x.org"), s("Lounge"), None, true),
        DisplayInviteEffect::AcceptedElsewhere
    );
    assert_eq!(screen.view_model(), InviteView::Empty);
    screen.set_displayed_invite(s("!r:x.org"), s("Lounge"), Some(record(InviteState::WaitingOnUserInput, None)), false);
    match screen.view_model() {
        InviteView::Invite { inviter_visible, invite_message, .. } => {
            assert!(!inviter_visible);
            assert_eq!(invite_message, "You have been invited to join:");
        }
        other => panic!("unexpected view {:?}", other),
    }
    screen.inviter_info_updated("!r:x.org", InviterInfo { user_id: s("@eve:x.org"), display_name: None });
    match screen.view_model() {
        InviteView::Invite { inviter_visible, inviter_name, inviter_user_id, inviter_avatar_text, .. } => {
            assert!(inviter_visible);
            assert_eq!(inviter_name, "@eve:x.org");
            assert_eq!(inviter_avatar_text, "@eve:x.org");
            assert_eq!(inviter_user_id, None);
        }
        other => panic!("unexpected view {:?}", other),
    }
}

#[test]
fn invite_modal_walkthrough() {
    let mut modal = InviteModalModel::new();
    assert_eq!(modal.submit("@a:x.org"), InviteSubmit::NoRoom);
    assert_eq!(modal.show(s("!r:x.org"), s("Lounge")), "Invite to Lounge");
    assert_eq!(modal.submit(""), InviteSubmit::Empty);
    assert_eq!(modal.submit("alice"), InviteSubmit::Invalid);
    assert_eq!(modal.state, InviteModalState::WaitingForUserInput);
    assert_eq!(modal.submit("@a:x.org"), InviteSubmit::Send { room_id: s("!r:x.org"), user_id: s("@a:x.org") });
    assert_eq!(modal.state, InviteModalState::WaitingForInvite(s("@a:x.org")));
    assert_eq!(modal.invite_result("!r:x.org", "@b:x.org", Ok(())), None);
    assert_eq!(modal.invite_result("!other:x.org", "@a:x.org", Ok(())), None);
    assert_eq!(
        modal.invite_result("!r:x.org", "@a:x.org", Err(s("forbidden"))),
        Some(InviteResultView::Failure(s("Failed to send invite: forbidden")))
    );
    assert_eq!(modal.state, InviteModalState::InviteError);
    modal.submit("@a:x.org");
    assert_eq!(
        modal.invite_result("!r:x.org", "@a:x.org", Ok(())),
        Some(InviteResultView::Success(s("Successfully invited @a:x.org!")))
    );
    assert_eq!(modal.state, InviteModalState::InviteSuccess);
}

#[test]
fn home_tabs_and_settings_round_trip() {
    let mut nav = HomeNavigation::new();
    assert_eq!(nav.handle(NavigationRequest::GoToHome), NavigationEffect::Unchanged);
    assert_eq!(nav.handle(NavigationRequest::GoToSpace(s("!sp:x.org"))), NavigationEffect::TabSelected(HomePage::HomePage));
    assert_eq!(nav.handle(NavigationRequest::GoToSpace(s("!sp:x.org"))), NavigationEffect::Unchanged);
    assert_eq!(nav.handle(NavigationRequest::OpenSettings), NavigationEffect::TabSelected(HomePage::SettingsPage));
    assert_eq!(nav.previous_selection, SelectedTab::Space(s("!sp:x.org")));
    assert_eq!(nav.handle(NavigationRequest::CloseSettings), NavigationEffect::TabSelected(HomePage::HomePage));
    assert_eq!(nav.selected_tab, SelectedTab::Space(s("!sp:x.org")));
    assert_eq!(nav.handle(NavigationRequest::CloseSettings), NavigationEffect::Unchanged);
    assert_eq!(nav.handle(NavigationRequest::GoToAddRoom), NavigationEffect::TabSelected(HomePage::AddRoomPage));
    assert_eq!(nav.handle(NavigationRequest::ToggleSpacesBar), NavigationEffect::SpacesBar(true));
    assert_eq!(nav.handle(NavigationRequest::ToggleSpacesBar), NavigationEffect::SpacesBar(false));
}

#[test]
fn mobile_stack_push_and_back() {
    let mut stack: MobileStack<u32> = MobileStack::new();
    assert_eq!(stack.pop(false, true), PopOutcome::Nothing);
    assert!(stack.should_push(false, false, false));
    stack.push(1, false);
    stack.push(2, true);
    assert_eq!(stack.history, vec![1]);
    assert!(!stack.should_push(false, true, true));
    assert!(!stack.should_push(true, true, false));
    assert_eq!(stack.pop(true, true), PopOutcome::Nothing);
    assert_eq!(stack.pop(false, false), PopOutcome::Nothing);
    assert_eq!(stack.selected, Some(2));
    assert_eq!(stack.pop(false, true), PopOutcome::PopToPrevious);
    assert_eq!(stack.selected, Some(1));
    assert_eq!(stack.pop(false, true), PopOutcome::PopToRoot);
    assert_eq!(stack.selected, None);
}

fn room(tab_id: u64, name: &str) -> SelectedRoom {
    SelectedRoom { tab_id, key: format!("room:{}", name), display_name: name.to_string(), dock_kind: 1 }
}

#[test]
fn dock_tabs_open_focus_and_close() {
    let mut tabs = DockTabs::new();
    assert_eq!(tabs.focus_plan(&room(10, "a")), FocusPlan::CreateTab { after_tab: None });
    tabs.tab_created(room(10, "a"));
    assert_eq!(tabs.focus_plan(&room(10, "a")), FocusPlan::AlreadySelected);
    assert_eq!(tabs.focus_plan(&room(20, "b")), FocusPlan::CreateTab { after_tab: Some(10) });
    tabs.tab_created(room(20, "b"));
    tabs.tab_created(room(30, "c"));
    assert_eq!(tabs.focus_plan(&room(10, "a")), FocusPlan::SelectOpenTab);
    tabs.tab_pressed(10, 1);
    let order: Vec<u64> = tabs.room_order.iter().map(|r| r.tab_id).collect();
    assert_eq!(order, vec![20, 30, 10]);

    match tabs.close_tab(10) {
        CloseOutcome::Closed(Some(next)) => assert_eq!(next.tab_id, 30),
        other => panic!("unexpected {:?}", other),
    }
    assert_eq!(tabs.selected.as_ref().map(|r| r.tab_id), Some(30));
    assert_eq!(tabs.open_rooms.len(), 2);
    match tabs.close_tab(20) {
        CloseOutcome::Closed(Some(next)) => assert_eq!(next.tab_id, 30),
        other => panic!("unexpected {:?}", other),
    }
    assert!(matches!(tabs.close_tab(99), CloseOutcome::NotARoom));
    tabs.tab_pressed(1, 1);
    assert!(tabs.selected.is_none());
    match tabs.close_tab(30) {
        CloseOutcome::Closed(None) => {}
        other => panic!("unexpected {:?}", other),
    }
    tabs.close_all();
    assert!(tabs.open_rooms.is_empty() && tabs.room_order.is_empty());
}

#[test]
fn avatar_file_checks() {
    assert_eq!(avatar_too_large_message(AVATAR_MAX_BYTES as u64), None);
    assert_eq!(
        avatar_too_large_message(5_000_000),
        Some(s("Avatar is too large (5000000 bytes, max 4194304 bytes)."))
    );
    assert_eq!(avatar_mime(Some(s("image/webp")), Some("png")), Some(s("image/webp")));
    assert_eq!(avatar_mime(None, Some("PNG")), Some(s("image/png")));
    assert_eq!(avatar_mime(None, Some("Jpeg")), Some(s("image/jpeg")));
    assert_eq!(avatar_mime(None, Some("jpg")), Some(s("image/jpeg")));
    assert_eq!(avatar_mime(None, Some("gif")), Some(s("image/gif")));
    assert_eq!(avatar_mime(None, Some("BMP")), Some(s("image/bmp")));
    assert_eq!(avatar_mime(None, None), None);
}

use robrix::create_bot::{clears_error, create_bot_body};
use robrix::create_room::{create_result_message, CreateRoomResult, NoticeTone};
use robrix::link_preview::{
    accepted_links, LinkPreviewCacheEntry, CollapseButtons, LinkPreviewCache, LinkPreviewList, CACHE_ENTRY_MAX_AGE_SECS,
    MAX_CACHE_ENTRIES_BEFORE_CLEANUP,
};

#[test]
fn link_previews_skip_matrix_links_and_duplicates() {
    let links = vec![
        (s("https://example.org/a"), Some(s("example.org"))),
        (s("https://matrix.to/#/#room:x.org"), Some(s("matrix.to"))),
        (s("https://example.org/a"), Some(s("example.org"))),
        (s("https://sub.matrix.io/x"), Some(s("sub.matrix.io"))),
        (s("mailto:a@b.c"), None),
        (s("https://rust-lang.org/"), Some(s("rust-lang.org"))),
    ];
    assert_eq!(
        accepted_links(&links),
        vec![s("https://example.org/a"), s("mailto:a@b.c"), s("https://rust-lang.org/")]
    );
}

#[test]
fn link_preview_list_collapses_past_two() {
    let mut list = LinkPreviewList::new();
    assert_eq!(list.collapse_buttons(), CollapseButtons::Hidden);
    assert!(list.populate(vec![s("a"), s("b"), s("c"), s("d")]));
    assert!(!list.populate(vec![s("a"), s("b"), s("c"), s("d")]));
    assert_eq!(list.num_hidden_links, 2);
    assert_eq!(list.visible_count(), 2);
    assert_eq!(list.collapse_buttons(), CollapseButtons::ShowMore(s("Show 2 more links")));
    list.toggle_expanded();
    assert_eq!(list.visible_count(), 4);
    assert_eq!(list.collapse_buttons(), CollapseButtons::ShowLess);
    assert!(list.populate(vec![s("x")]));
    assert!(!list.is_expanded);
    assert_eq!(list.visible_count(), 1);
    assert_eq!(list.collapse_buttons(), CollapseButtons::Hidden);
    list.clear();
    assert!(list.links.is_empty());
}

#[test]
fn link_preview_cache_requests_each_link_once() {
    let mut cache: LinkPreviewCache<&str> = LinkPreviewCache::new();
    assert_eq!(cache.get_or_fetch_link_preview("https://a", 10), (0, Some(0)));
    assert_eq!(cache.get_or_fetch_link_preview("https://b", 11), (1, Some(1)));
    assert_eq!(cache.get_or_fetch_link_preview("https://a", 12), (0, None));
    assert!(cache.insert_into_cache(1, Some("preview of b"), 20));
    assert!(!cache.insert_into_cache(9, None, 20));
    assert!(matches!(cache.entries[1].entry, LinkPreviewCacheEntry::LoadedLinkPreview("preview of b")));
    assert_eq!(cache.entries[1].timestamp, 20);
    assert!(cache.insert_into_cache(0, None, 21));
    assert!(matches!(cache.entries[0].entry, LinkPreviewCacheEntry::Failed));

    cache.clear_all_pending_and_failed_requests();
    assert_eq!(cache.entries.len(), 1);
    assert_eq!(cache.entries[0].url, "https://b");
    assert_eq!(cache.get_or_fetch_link_preview("https://a", 30), (1, Some(2)));

    cache.cleanup_old_entries(100, 75);
    assert_eq!(cache.entries.len(), 1);
    assert_eq!(cache.entries[0].url, "https://a");
}

#[test]
fn link_preview_cache_cleans_up_when_full() {
    let mut cache: LinkPreviewCache<()> = LinkPreviewCache::new();
    for i in 0..=MAX_CACHE_ENTRIES_BEFORE_CLEANUP {
        cache.get_or_fetch_link_preview(&format!("https://old/{}", i), 0);
    }
    assert_eq!(cache.entries.len(), MAX_CACHE_ENTRIES_BEFORE_CLEANUP + 1);
    let (pos, req) = cache.get_or_fetch_link_preview("https://new", CACHE_ENTRY_MAX_AGE_SECS);
    assert_eq!(pos, 0);
    assert!(req.is_some());
    assert_eq!(cache.entries.len(), 1);
}

#[test]
fn create_room_results_and_bot_dialog() {
    assert_eq!(
        create_result_message(&CreateRoomResult::Created { room_name: s("Lounge") }),
        (s("Room created: Lounge"), NoticeTone::Success, true)
    );
    assert_eq!(
        create_result_message(&CreateRoomResult::PartialInvite { room_name: s("Lounge"), failed: vec![s("@a:x"), s("@b:x")] }),
        (s("Room created (Lounge), but invites failed for: @a:x, @b:x"), NoticeTone::Warning, true)
    );
    assert_eq!(
        create_result_message(&CreateRoomResult::Failed { reason: s("denied") }),
        (s("Failed to create room: denied"), NoticeTone::Error, false)
    );
    assert_eq!(
        create_bot_body("Lounge"),
        "Robrix will send `/createbot` to BotFather in Lounge. The bot becomes available immediately after octos creates it."
    );
    assert!(clears_error(true, true));
    assert!(!clears_error(true, false));
    assert!(!clears_error(false, true));
}

use robrix::home_navigation::{radio_button_for_tab, request_for_radio_button};

#[test]
fn navigation_radio_buttons() {
    assert!(matches!(request_for_radio_button(0), Some(NavigationRequest::GoToHome)));
    assert!(matches!(request_for_radio_button(1), Some(NavigationRequest::GoToAddRoom)));
    assert!(matches!(request_for_radio_button(2), Some(NavigationRequest::OpenSettings)));
    assert!(request_for_radio_button(3).is_none());
    assert_eq!(radio_button_for_tab(&SelectedTab::Settings), Some(2));
    assert_eq!(radio_button_for_tab(&SelectedTab::Space(s("!s:x"))), None);
}
