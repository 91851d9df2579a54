use robrix::create_room::{
    collect_config, create_button_enabled, create_button_outcome, describe_error, parse_invitee_list, validate_create_room_config,
    CreateRoomConfig, CreateRoomConfigError, RoomPresetChoice, RoomVisibilityChoice, AVATAR_MAX_BYTES, NAME_MAX,
};
use robrix::create_space::{
    build_space_room_request, created_message, parse_invited_user_ids, CreateRoomVisibility, EMPTY_NAME_MESSAGE,
    NO_SPACE_MESSAGE,
};

fn config_named(name: &str) -> CreateRoomConfig {
    CreateRoomConfig { name: name.to_string(), ..CreateRoomConfig::default() }
}

#[test]
fn default_room_config_is_private_and_unencrypted() {
    let c = CreateRoomConfig::default();
    assert_eq!(c.name, "");
    assert_eq!(c.visibility, RoomVisibilityChoice::Private);
    assert!(!c.e2ee_enabled);
    assert!(c.initial_invitees.is_empty());
}

#[test]
fn room_config_rules_in_order() {
    assert_eq!(validate_create_room_config(&config_named("   ")), Err(CreateRoomConfigError::EmptyName));
    let long = "x".repeat(NAME_MAX + 1);
    assert_eq!(
        validate_create_room_config(&config_named(&long)),
        Err(CreateRoomConfigError::NameTooLong { len: NAME_MAX + 1, max: NAME_MAX })
    );
    let exact = "é".repeat(NAME_MAX);
    assert_eq!(validate_create_room_config(&config_named(&exact)), Ok(()));

    let mut c = config_named("Lounge");
    c.avatar_bytes = Some(vec![0u8; AVATAR_MAX_BYTES + 1]);
    assert_eq!(
        validate_create_room_config(&c),
        Err(CreateRoomConfigError::AvatarTooLarge { bytes: AVATAR_MAX_BYTES + 1, max: AVATAR_MAX_BYTES })
    );
    c.avatar_bytes = Some(vec![0u8; AVATAR_MAX_BYTES]);
    assert_eq!(validate_create_room_config(&c), Ok(()));

    c.visibility = RoomVisibilityChoice::Public;
    c.e2ee_enabled = true;
    assert_eq!(validate_create_room_config(&c), Err(CreateRoomConfigError::EncryptedPublicRoom));
}

#[test]
fn room_config_error_messages() {
    assert_eq!(describe_error(&CreateRoomConfigError::EmptyName), "Please enter a room name.");
    assert_eq!(
        describe_error(&CreateRoomConfigError::NameTooLong { len: 300, max: 255 }),
        "Name is too long (300 chars, max 255)."
    );
    assert_eq!(
        describe_error(&CreateRoomConfigError::AvatarTooLarge { bytes: 5000000, max: 4194304 }),
        "Avatar is too large (5000000 bytes, max 4194304)."
    );
    assert_eq!(describe_error(&CreateRoomConfigError::EncryptedPublicRoom), "Public rooms can't be end-to-end encrypted.");
}

#[test]
fn invitee_list_splits_parsed_and_failed() {
    let (ok, bad) = parse_invitee_list("@alice:example.org, bob\n@carol:matrix.org,,");
    assert_eq!(ok, vec!["@alice:example.org".to_string(), "@carol:matrix.org".to_string()]);
    assert_eq!(bad, vec!["bob".to_string()]);
    let (ok, bad) = parse_invitee_list("   ");
    assert!(ok.is_empty() && bad.is_empty());
}

#[test]
fn request_trims_name_and_topic_and_picks_the_preset() {
    let mut c = config_named("  Lounge  ");
    c.topic = Some("   ".to_string());
    c.visibility = RoomVisibilityChoice::Public;
    let r = c.to_ruma_request();
    assert_eq!(r.name, Some("Lounge".to_string()));
    assert_eq!(r.topic, None);
    assert_eq!(r.preset, RoomPresetChoice::PublicChat);
    assert!(!r.encrypted);

    let mut c = config_named("   ");
    c.topic = Some(" About us ".to_string());
    c.e2ee_enabled = true;
    let r = c.to_ruma_request();
    assert_eq!(r.name, None);
    assert_eq!(r.topic, Some("About us".to_string()));
    assert_eq!(r.preset, RoomPresetChoice::PrivateChat);
    assert!(r.encrypted);
}

#[test]
fn collect_config_keeps_topic_as_typed() {
    let (c, failed) = collect_config(
        "Lounge".to_string(),
        " Topic ".to_string(),
        "@a:example.org nope",
        true,
        false,
        None,
        None,
    );
    assert_eq!(c.topic, Some(" Topic ".to_string()));
    assert_eq!(c.visibility, RoomVisibilityChoice::Public);
    assert_eq!(c.initial_invitees, vec!["@a:example.org".to_string()]);
    assert_eq!(failed, vec!["nope".to_string()]);
    let (c, _) = collect_config("x".to_string(), "  ".to_string(), "", false, true, None, None);
    assert_eq!(c.topic, None);
    assert!(c.e2ee_enabled);
}

#[test]
fn create_button_refuses_bad_invitees_then_bad_config() {
    let good = config_named("Lounge");
    let (msg, send) = create_button_outcome(&good, &["bob".to_string(), "eve".to_string()]);
    assert_eq!(msg, "Invalid Matrix IDs (please fix or remove): bob, eve");
    assert!(!send);
    let (msg, send) = create_button_outcome(&config_named(""), &[]);
    assert_eq!(msg, "Please enter a room name.");
    assert!(!send);
    let (msg, send) = create_button_outcome(&good, &[]);
    assert_eq!(msg, "Creating room\u{2026}");
    assert!(send);
}

#[test]
fn create_button_is_disabled_while_the_config_is_invalid() {
    assert!(!create_button_enabled(&config_named(""), &[]));
    assert!(!create_button_enabled(&config_named("Lounge"), &["bob".to_string()]));
    assert!(create_button_enabled(&config_named("Lounge"), &[]));
}

#[test]
fn invited_user_ids_are_deduplicated_in_order() {
    let ids = parse_invited_user_ids(" @a:x.org,@b:y.org\t@a:x.org ").unwrap();
    assert_eq!(ids, vec!["@a:x.org".to_string(), "@b:y.org".to_string()]);
    assert_eq!(parse_invited_user_ids("").unwrap(), Vec::<String>::new());
}

#[test]
fn invited_user_ids_report_the_first_bad_entry() {
    let e = parse_invited_user_ids("@a:x.org bob carol").unwrap_err();
    assert_eq!(e, "Invalid user ID: bob. Expected format: @user:server");
}

#[test]
fn space_room_request_checks_name_invitees_then_space() {
    assert_eq!(build_space_room_request("  ", "", "bad", 0, None).unwrap_err(), EMPTY_NAME_MESSAGE);
    assert_eq!(
        build_space_room_request("Room", "", "bad", 0, None).unwrap_err(),
        "Invalid user ID: bad. Expected format: @user:server"
    );
    assert_eq!(build_space_room_request("Room", "", "", 0, None).unwrap_err(), NO_SPACE_MESSAGE);

    let q = build_space_room_request(" Room ", " A topic ", "@a:x.org", 1, Some("!space:x.org")).unwrap();
    assert_eq!(q.name, "Room");
    assert_eq!(q.topic, Some("A topic".to_string()));
    assert_eq!(q.visibility, CreateRoomVisibility::Public);
    assert_eq!(q.parent_space_id, Some("!space:x.org".to_string()));
    assert!(!q.is_space);
    assert_eq!(q.invite_user_ids, vec!["@a:x.org".to_string()]);

    let q = build_space_room_request("Room", "  ", "", 0, Some("!space:x.org")).unwrap();
    assert_eq!(q.topic, None);
    assert_eq!(q.visibility, CreateRoomVisibility::Private);
}

#[test]
fn created_message_names_the_space() {
    assert_eq!(created_message("Lounge", Some("Friends")), "Created room Lounge in Friends.");
    assert_eq!(created_message("Lounge", None), "Created room Lounge in the selected space.");
}

use robrix::add_room::CreatableSpace;
use robrix::create_room_form::{CreateRoomContext, CreateRoomForm, PopupTone, FIXED_PARENT_HELP, STANDALONE_HELP};
use robrix::create_space::{CreateSpaceRoomModal, SpaceRoomModalState};

fn space(id: &str, label: &str) -> CreatableSpace {
    CreatableSpace { room_id: id.to_string(), label: label.to_string() }
}

#[test]
fn create_room_form_submit_and_created_while_loading() {
    let mut form = CreateRoomForm::new();
    assert!(form.prepare(None, CreateRoomContext::AddRoomPage));
    assert_eq!(form.help_text(), STANDALONE_HELP);
    form.spaces_loaded(vec![space("!s1:x.org", "Friends"), space("!s2:x.org", "Work")]);
    assert!(!form.can_submit("   "));
    assert!(form.submit("  ", 0).is_none());
    form.space_dropdown_changed(2);
    assert_eq!(form.preferred_parent_space_id, Some("!s2:x.org".to_string()));

    let q = form.submit("  Lounge ", 2).expect("a request");
    assert_eq!(q.room_name, "Lounge");
    assert_eq!(q.parent_space_id, Some("!s2:x.org".to_string()));
    assert_eq!(q.context, CreateRoomContext::AddRoomPage);
    assert!(form.is_busy());
    assert!(form.submit("Other", 0).is_none());

    assert!(form.room_created(CreateRoomContext::SpaceLobbyModal, "!r:x.org".to_string(), "Lounge", None, None, false).is_none());
    let e = form
        .room_created(CreateRoomContext::AddRoomPage, "!r:x.org".to_string(), "Lounge", Some("!s2:x.org".to_string()), None, false)
        .unwrap();
    assert_eq!(e.popup, "Successfully created room \"Lounge\".");
    assert_eq!(e.tone, PopupTone::Success);
    assert_eq!(e.refresh_space, Some("!s2:x.org".to_string()));
    assert!(!e.navigate && !e.close_modal);
    assert_eq!(e.feedback.unwrap().text, "Room created. Syncing it into the space...");
    assert!(form.is_busy());
    assert_eq!(form.room_loaded("!other:x.org"), None);
    assert_eq!(form.room_loaded("!r:x.org"), Some(false));
    assert!(!form.is_busy());
}

#[test]
fn create_room_form_in_a_lobby_and_failures() {
    let mut form = CreateRoomForm::new();
    assert!(!form.prepare(Some("!lobby:x.org".to_string()), CreateRoomContext::SpaceLobbyModal));
    assert_eq!(form.help_text(), FIXED_PARENT_HELP);
    assert_eq!(form.selected_parent_space_id(0), Some("!lobby:x.org".to_string()));
    form.submit("Room", 0).unwrap();
    let e = form
        .room_created(
            CreateRoomContext::SpaceLobbyModal,
            "!r:x.org".to_string(),
            "Room",
            Some("!lobby:x.org".to_string()),
            Some("forbidden".to_string()),
            true,
        )
        .unwrap();
    assert_eq!(
        e.popup,
        "Successfully created room \"Room\".\n\nThe room was created, but it could not be linked into the selected space.\nError: forbidden"
    );
    assert_eq!(e.tone, PopupTone::Warning);
    assert!(e.navigate && e.close_modal && e.feedback.is_none());

    form.submit("Room", 0).unwrap();
    let f = form.room_failed(CreateRoomContext::SpaceLobbyModal, "Room", "limit exceeded", " Room ").unwrap();
    assert_eq!(f.feedback.text, "Failed to create room: limit exceeded");
    assert!(f.feedback.is_error);
    assert_eq!(f.popup, "Failed to create room \"Room\".\n\nError: limit exceeded");
    assert!(f.button_enabled);
    assert!(!form.is_busy());
}

#[test]
fn space_room_modal_walkthrough() {
    let mut modal = CreateSpaceRoomModal::new();
    assert_eq!(modal.submit("Room", "", "", 0).unwrap_err(), NO_SPACE_MESSAGE);
    assert_eq!(modal.show("!sp:x.org".to_string(), "Friends".to_string()), "Parent space: Friends");
    assert_eq!(modal.widgets(), (false, "Create Room", None));
    assert_eq!(modal.submit(" ", "", "", 0).unwrap_err(), EMPTY_NAME_MESSAGE);
    assert_eq!(modal.state, SpaceRoomModalState::WaitingForUserInput);
    let q = modal.submit("Room", "", "@a:x.org", 1).unwrap();
    assert_eq!(q.parent_space_id, Some("!sp:x.org".to_string()));
    assert_eq!(q.visibility, CreateRoomVisibility::Public);
    assert_eq!(q.topic, None);
    assert_eq!(modal.widgets(), (true, "Creating Room...", Some("Creating room in this space...")));
    assert_eq!(modal.room_created(true, Some("!other:x.org"), "!r:x.org".to_string(), "Room"), None);
    assert_eq!(
        modal.room_created(true, Some("!sp:x.org"), "!r:x.org".to_string(), "Room"),
        Some("Created room Room in Friends.".to_string())
    );
    assert_eq!(modal.state, SpaceRoomModalState::WaitingForRoomLoad("!r:x.org".to_string()));
    assert!(!modal.room_loaded("!x:x.org"));
    assert!(modal.room_loaded("!r:x.org"));
    assert_eq!(modal.state, SpaceRoomModalState::WaitingForUserInput);

    let q = modal.submit("Room", "  Chat here ", "", 0).unwrap();
    assert_eq!(q.visibility, CreateRoomVisibility::Private);
    assert_eq!(q.topic, Some("Chat here".to_string()));
    assert!(!q.is_space);
    assert!(!modal.create_failed(false, Some("!sp:x.org")));
    assert!(modal.create_failed(true, Some("!sp:x.org")));
    assert_eq!(modal.state, SpaceRoomModalState::CreateError);
}
