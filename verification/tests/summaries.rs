use robrix::event_group::{
    format_transition_text, format_user_list, group_repeated_transitions, merge_adjacent_transitions, SmallStateGroupManager,
    SmallStateType, UserEvent as GroupUserEvent,
};
use robrix::membership_transitions::{
    append_user_event, canonicalize_transitions, coalesce_repeated_transitions, describe_transition, format_name_list,
    TransitionType, UserEvent,
};
use robrix::event_group::SmallStateType as S;
use robrix::membership_transitions::TransitionType as T;

fn s(x: &str) -> String {
    x.to_string()
}

#[test]
fn joined_then_left_pairs_become_compound_transitions() {
    assert_eq!(
        canonicalize_transitions(&[T::Joined, T::Left, T::Left, T::Joined, T::Invited]),
        vec![T::JoinedAndLeft, T::LeftAndJoined, T::Invited]
    );
    assert_eq!(canonicalize_transitions(&[T::Joined, T::Joined, T::Left]), vec![T::Joined, T::JoinedAndLeft]);
    assert_eq!(canonicalize_transitions(&[]), Vec::<TransitionType>::new());
}

#[test]
fn repeated_transitions_are_counted() {
    assert_eq!(
        coalesce_repeated_transitions(&[T::JoinedAndLeft, T::JoinedAndLeft, T::Invited, T::JoinedAndLeft]),
        vec![(T::JoinedAndLeft, 2), (T::Invited, 1), (T::JoinedAndLeft, 1)]
    );
}

#[test]
fn transition_descriptions() {
    assert_eq!(describe_transition(TransitionType::Joined, 1, 1), "joined the room");
    assert_eq!(describe_transition(TransitionType::Joined, 2, 3), "joined (×3)");
    assert_eq!(describe_transition(TransitionType::Left, 3, 1), "left");
    assert_eq!(describe_transition(TransitionType::ConfigureRoom, 1, 5), "");
    assert_eq!(describe_transition(TransitionType::CreateRoom, 1, 2), "created and configured the room");
}

#[test]
fn name_lists_with_others() {
    let names = vec![s("A"), s("B"), s("C"), s("D")];
    assert_eq!(format_name_list(&names, 2), "A, B, and 2 others");
    assert_eq!(format_name_list(&names, 4), "A, B, C, D");
    assert_eq!(format_name_list(&names[..2], 5), "A and B");
    assert_eq!(format_name_list(&names[..1], 5), "A");
    assert_eq!(format_name_list(&[], 5), "");
}

fn membership_event(sender: &str, index: usize, transition: TransitionType) -> UserEvent {
    UserEvent {
        transition,
        index,
        is_redacted: false,
        should_show: true,
        sender: s(sender),
        display_name: s(sender),
        state_key: None,
        membership: None,
    }
}

#[test]
fn user_events_go_to_their_sender_once_per_index() {
    let mut groups: Vec<(String, Vec<UserEvent>)> = Vec::new();
    append_user_event(membership_event("@a:x.org", 1, TransitionType::Joined), &mut groups);
    append_user_event(membership_event("@b:x.org", 2, TransitionType::Joined), &mut groups);
    append_user_event(membership_event("@a:x.org", 3, TransitionType::Left), &mut groups);
    append_user_event(membership_event("@a:x.org", 3, TransitionType::Left), &mut groups);
    append_user_event(membership_event("@c:x.org", 4, TransitionType::HiddenEvent), &mut groups);
    assert_eq!(groups.len(), 2);
    assert_eq!(groups[0].0, "@a:x.org");
    assert_eq!(groups[0].1.len(), 2);
    assert_eq!(groups[1].0, "@b:x.org");
    assert_eq!(groups[1].1.len(), 1);
}

#[test]
fn small_state_merging_and_grouping() {
    assert_eq!(
        merge_adjacent_transitions(&[S::Joined, S::Left, S::Left, S::Joined]),
        vec![S::JoinedAndLeft, S::LeftAndJoined]
    );
    assert_eq!(group_repeated_transitions(&[S::Kicked, S::Kicked, S::Banned]), vec![(S::Kicked, 2), (S::Banned, 1)]);
    assert_eq!(format_transition_text(S::Kicked, 1, 2), "was kicked (×2)");
    assert_eq!(format_transition_text(S::VirtualTimelineItem, 1, 1), "");
}

#[test]
fn user_lists_use_a_serial_comma() {
    let names = vec![s("A"), s("B"), s("C"), s("D"), s("E")];
    assert_eq!(format_user_list(&names[..3], 1), "A, B, and C");
    assert_eq!(format_user_list(&names[..4], 4), "A, B, C, and D");
    assert_eq!(format_user_list(&names, 3), "A, B, C, and 2 others");
    assert_eq!(format_user_list(&names[..2], 3), "A and B");
}

fn group_event(sender: &str, index: usize, transition: SmallStateType) -> GroupUserEvent {
    GroupUserEvent {
        transition,
        index,
        sender: Some(s(sender)),
        display_name: s(sender),
        state_key: None,
        event_id: Some(format!("$e{}", index)),
    }
}

#[test]
fn three_consecutive_small_events_form_a_group() {
    let events = vec![
        group_event("@a:x.org", 5, SmallStateType::Joined),
        group_event("@b:x.org", 6, SmallStateType::Joined),
        group_event("@c:x.org", 7, SmallStateType::Left),
        group_event("@d:x.org", 10, SmallStateType::Joined),
        group_event("@e:x.org", 11, SmallStateType::Joined),
    ];
    let mut manager = SmallStateGroupManager::default();
    manager.compute_group_state(events, 3);
    assert_eq!(manager.check_group_range(6), Some(5..8));
    assert_eq!(manager.check_group_range(5), Some(5..8));
    assert_eq!(manager.check_group_range(8), None);
    assert_eq!(manager.check_group_range(10), None);
    let group = manager.get_group_at_item_id(5).expect("a group starts at 5");
    assert!(group.room_creator.is_none());
    assert_eq!(group.user_events_map.len(), 3);
    assert!(group.cached_summary.is_some());
    assert!(manager.get_group_at_item_id(6).is_none());
    assert!(manager.get_group_at_item_id(10).is_none());
}

#[test]
fn room_creation_events_form_their_own_group() {
    let events = vec![
        group_event("@a:x.org", 0, SmallStateType::CreateRoom),
        group_event("@a:x.org", 1, SmallStateType::Joined),
        group_event("@a:x.org", 2, SmallStateType::ConfigureRoom),
        group_event("@b:x.org", 3, SmallStateType::Joined),
    ];
    let mut manager = SmallStateGroupManager::default();
    manager.compute_group_state(events, 3);
    assert_eq!(manager.check_group_range(1), Some(0..3));
    assert_eq!(manager.check_group_range(3), None);
    let group = manager.get_group_at_item_id(0).expect("the creation group");
    assert_eq!(group.room_creator, Some(s("@a:x.org")));
}

#[test]
fn groups_without_event_ids_get_a_synthetic_id() {
    let mut events = vec![
        group_event("@a:x.org", 5, SmallStateType::Joined),
        group_event("@b:x.org", 6, SmallStateType::Joined),
        group_event("@c:x.org", 7, SmallStateType::Left),
    ];
    for e in events.iter_mut() {
        e.event_id = None;
    }
    let mut manager = SmallStateGroupManager::default();
    manager.compute_group_state(events, 3);
    assert_eq!(manager.groups_by_event_id.len(), 1);
    assert_eq!(manager.groups_by_event_id[0].0, "$synthetic_5_8");
    assert_eq!(manager.check_group_range(7), Some(5..8));
}

fn group_of(key: usize, user: &str, events: Vec<UserEvent>) -> robrix::membership_transitions::UserEventGroup {
    robrix::membership_transitions::UserEventGroup { group_id: key, user_id: s(user), events }
}

#[test]
fn summary_ignores_the_order_of_each_users_events() {
    let a1 = vec![membership_event("@a:x.org", 1, T::Joined), membership_event("@a:x.org", 5, T::Left)];
    let a2 = vec![membership_event("@a:x.org", 5, T::Left), membership_event("@a:x.org", 1, T::Joined)];
    let b = vec![membership_event("@b:x.org", 2, T::Joined)];
    let g1 = robrix::membership_transitions::UserEventGroups {
        groups: vec![group_of(1, "@a:x.org", a1), group_of(2, "@b:x.org", b.clone())],
    };
    let g2 = robrix::membership_transitions::UserEventGroups {
        groups: vec![group_of(1, "@a:x.org", a2), group_of(2, "@b:x.org", b)],
    };
    let s1 = robrix::membership_transitions::generate_summary(&g1, 3);
    assert_eq!(s1, robrix::membership_transitions::generate_summary(&g2, 3));
    assert!(s1.starts_with("@a:x.org"));
    let empty = robrix::membership_transitions::UserEventGroups::new();
    assert_eq!(robrix::membership_transitions::generate_summary(&empty, 3), "");
}

#[test]
fn groups_from_events_out_of_order() {
    let mut manager = SmallStateGroupManager::default();
    let events = vec![
        group_event("@a:x.org", 7, S::Joined),
        group_event("@b:x.org", 8, S::Joined),
        group_event("@c:x.org", 9, S::Joined),
        group_event("@d:x.org", 3, S::Joined),
        group_event("@e:x.org", 4, S::Joined),
    ];
    manager.compute_group_state(events, 3);
    assert_eq!(manager.check_group_range(8), Some(7..10));
    assert_eq!(manager.check_group_range(3), None);
}
