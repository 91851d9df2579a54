use robrix::encryption_notice::{encryption_notice_copy, first_other_member_display_name, truncate_display_name, EncryptionNotice, RoomMember};

#[test]
fn test_notice_unencrypted() {
    let (title, body) = encryption_notice_copy(false, None);

    assert_eq!(title, "Encryption not enabled");
    assert_eq!(body, "Messages here are not end-to-end encrypted.");
}

#[test]
fn test_notice_member_placeholder() {
    let (title, body) = encryption_notice_copy(true, None);

    assert_eq!(title, "Encryption enabled");
    assert_eq!(body, "Messages here are end-to-end encrypted.");
}

#[test]
fn test_notice_lonely_room() {
    let (title, body) = encryption_notice_copy(true, Some(None));

    assert_eq!(title, "Encryption enabled");
    assert_eq!(body, "Messages here are end-to-end encrypted.");
}

#[test]
fn test_notice_encrypted() {
    let (title, body) = encryption_notice_copy(true, Some(Some("Alice".to_string())));

    assert_eq!(title, "Encryption enabled");
    assert_eq!(
        body,
        "Messages here are end-to-end encrypted. Verify Alice in their profile - tap on their profile picture."
    );
}

#[test]
fn test_notice_truncates_long_display_name_to_30_chars() {
    let body = encryption_notice_copy(
        true,
        Some(Some("123456789012345678901234567890123".to_string())),
    ).1;

    assert_eq!(
        body,
        "Messages here are end-to-end encrypted. Verify 123456789012345678901234567890… in their profile - tap on their profile picture."
    );
}

#[test]
fn unencrypted_notice_ignores_the_member() {
    let (title, body) = encryption_notice_copy(false, Some(Some("Alice".to_string())));
    assert_eq!(title, "Encryption not enabled");
    assert_eq!(body, "Messages here are not end-to-end encrypted.");
}

#[test]
fn display_name_of_exactly_thirty_chars_is_kept() {
    let name = "123456789012345678901234567890";
    assert_eq!(truncate_display_name(name), name);
    assert_eq!(truncate_display_name("ab"), "ab");
    assert_eq!(truncate_display_name(""), "");
}

#[test]
fn display_name_counts_characters_not_bytes() {
    let name = "拿".repeat(31);
    let out = truncate_display_name(&name);
    assert_eq!(out.chars().count(), 31);
    assert!(out.ends_with('…'));
    assert_eq!(out, format!("{}…", "拿".repeat(30)));
}

fn member(user_id: &str, display_name: Option<&str>) -> RoomMember {
    RoomMember { user_id: user_id.to_string(), display_name: display_name.map(|s| s.to_string()) }
}

#[test]
fn first_other_member_skips_own_user() {
    let members = vec![member("@me:x.org", Some("Me")), member("@bob:x.org", Some("Bob")), member("@carol:x.org", None)];
    assert_eq!(first_other_member_display_name(Some(&members), Some("@me:x.org")), Some(Some("Bob".to_string())));
}

#[test]
fn first_other_member_falls_back_to_user_id() {
    let members = vec![member("@me:x.org", Some("Me")), member("@carol:x.org", None)];
    assert_eq!(first_other_member_display_name(Some(&members), Some("@me:x.org")), Some(Some("@carol:x.org".to_string())));
}

#[test]
fn first_other_member_without_own_id_takes_the_first() {
    let members = vec![member("@me:x.org", Some("Me")), member("@bob:x.org", Some("Bob"))];
    assert_eq!(first_other_member_display_name(Some(&members), None), Some(Some("Me".to_string())));
}

#[test]
fn first_other_member_none_when_alone_or_unknown() {
    let members = vec![member("@me:x.org", Some("Me"))];
    assert_eq!(first_other_member_display_name(Some(&members), Some("@me:x.org")), None);
    assert_eq!(first_other_member_display_name(None, Some("@me:x.org")), None);
    assert_eq!(first_other_member_display_name(Some(&[]), None), None);
}

#[test]
fn notice_shows_the_lock_matching_encryption() {
    let mut n = EncryptionNotice::new();
    n.set_content(true, Some(Some("Alice".to_string())));
    assert!(n.lock_filled_visible && !n.lock_open_visible);
    assert_eq!(n.title, "Encryption enabled");
    n.set_content(false, None);
    assert!(!n.lock_filled_visible && n.lock_open_visible);
    assert_eq!(n.body, "Messages here are not end-to-end encrypted.");
}
