//! The "create room" flow: the room's configuration, its validation, the
//! invitee list, and the request that is sent to the homeserver.

use vstd::prelude::*;
use crate::text::{decimal, push_decimal, push_decimal_u64, push_char, trimmed, trim_chars, trim_str, chars_of, char_is_whitespace, is_white,
    string_of_prefix, views, join, join_all, copy_opt_string};
use crate::ids::{parse_user_id, ruma_accepts_user_id};

verus! {

/// Who can find and join the new room.
#[derive(Clone, Copy, Debug, PartialEq, Eq, Structural)]
pub enum RoomVisibilityChoice {
    Public,
    Private,
}

/// The settings of a room to create.
#[derive(Debug)]
pub struct CreateRoomConfig {
    pub name: String,
    pub topic: Option<String>,
    pub avatar_bytes: Option<Vec<u8>>,
    pub avatar_mime: Option<String>,
    pub visibility: RoomVisibilityChoice,
    pub e2ee_enabled: bool,
    /// The user IDs to invite once the room exists.
    pub initial_invitees: Vec<String>,
}

impl Default for CreateRoomConfig {
    fn default() -> (r: CreateRoomConfig)
        ensures
            r.name@ == Seq::<char>::empty(),
            r.topic is None,
            r.avatar_bytes is None,
            r.avatar_mime is None,
            r.visibility == RoomVisibilityChoice::Private,
            !r.e2ee_enabled,
            r.initial_invitees@.len() == 0,
    {
        CreateRoomConfig {
            name: String::new(),
            topic: None,
            avatar_bytes: None,
            avatar_mime: None,
            visibility: RoomVisibilityChoice::Private,
            e2ee_enabled: false,
            initial_invitees: Vec::new(),
        }
    }
}

/// Why a configuration cannot be sent.
#[derive(Clone, Copy, Debug, PartialEq, Eq, Structural)]
pub enum CreateRoomConfigError {
    EmptyName,
    NameTooLong { len: usize, max: usize },
    AvatarTooLarge { bytes: usize, max: usize },
    /// End-to-end encryption on a public room is refused.
    EncryptedPublicRoom,
}

/// The longest room name, in characters.
pub const NAME_MAX: usize = 255;
/// The largest avatar, in bytes (4 MiB).
pub const AVATAR_MAX_BYTES: usize = 4 * 1024 * 1024;

/// The first rule that the configuration breaks, if any.
pub open spec fn config_error(c: CreateRoomConfig) -> Option<CreateRoomConfigError> {
    let t = trimmed(c.name@);
    if t.len() == 0 {
        Some(CreateRoomConfigError::EmptyName)
    } else if t.len() > NAME_MAX {
        Some(CreateRoomConfigError::NameTooLong { len: t.len() as usize, max: NAME_MAX })
    } else if c.avatar_bytes is Some && c.avatar_bytes->0@.len() > AVATAR_MAX_BYTES {
        Some(CreateRoomConfigError::AvatarTooLarge { bytes: c.avatar_bytes->0@.len() as usize, max: AVATAR_MAX_BYTES })
    } else if c.e2ee_enabled && c.visibility == RoomVisibilityChoice::Public {
        Some(CreateRoomConfigError::EncryptedPublicRoom)
    } else {
        None
    }
}

/// Returns `Ok(())` iff the configuration is well-formed enough to send: a
/// name that is not blank and at most 255 characters once trimmed, an avatar
/// of at most 4 MiB, and no encryption on a public room.
pub fn validate_create_room_config(config: &CreateRoomConfig) -> (r: Result<(), CreateRoomConfigError>)
    ensures
        r is Ok <==> config_error(*config) is None,
        r matches Err(e) ==> config_error(*config) == Some(e),
{
    let t = trim_chars(config.name.as_str());
    if t.len() == 0 {
        return Err(CreateRoomConfigError::EmptyName);
    }
    let name_len = t.len();
    if name_len > NAME_MAX {
        return Err(CreateRoomConfigError::NameTooLong { len: name_len, max: NAME_MAX });
    }
    if let Some(bytes) = &config.avatar_bytes {
        if bytes.len() > AVATAR_MAX_BYTES {
            return Err(CreateRoomConfigError::AvatarTooLarge { bytes: bytes.len(), max: AVATAR_MAX_BYTES });
        }
    }
    if config.e2ee_enabled && config.visibility == RoomVisibilityChoice::Public {
        return Err(CreateRoomConfigError::EncryptedPublicRoom);
    }
    Ok(())
}

// ---------------------------------------------------------------------------
// Invitees
// ---------------------------------------------------------------------------

/// The characters that separate invitees: whitespace and commas.
pub open spec fn is_invitee_delimiter(c: char) -> bool {
    is_white(c) || c == ','
}

/// Files a finished token: among the user IDs when `ruma` accepts it, among
/// the failures otherwise; an empty token is dropped.
pub open spec fn file_token(parsed: Seq<Seq<char>>, failed: Seq<Seq<char>>, token: Seq<char>) -> (Seq<Seq<char>>, Seq<Seq<char>>) {
    if token.len() == 0 {
        (parsed, failed)
    } else if ruma_accepts_user_id(token) {
        (parsed.push(token), failed)
    } else {
        (parsed, failed.push(token))
    }
}

/// The tokens filed so far, and the token being read.
pub open spec fn scan_invitees(s: Seq<char>) -> (Seq<Seq<char>>, Seq<Seq<char>>, Seq<char>)
    decreases s.len(),
{
    if s.len() == 0 {
        (Seq::empty(), Seq::empty(), Seq::empty())
    } else {
        let prev = scan_invitees(s.drop_last());
        let c = s.last();
        if is_invitee_delimiter(c) {
            let f = file_token(prev.0, prev.1, prev.2);
            (f.0, f.1, Seq::empty())
        } else {
            (prev.0, prev.1, prev.2.push(c))
        }
    }
}

/// The invitees of a raw list: the tokens between delimiters, in order,
/// split into those `ruma` accepts as user IDs and those it refuses.
pub open spec fn invitees(s: Seq<char>) -> (Seq<Seq<char>>, Seq<Seq<char>>) {
    let sc = scan_invitees(s);
    file_token(sc.0, sc.1, sc.2)
}

fn file_token_exec(parsed: &mut Vec<String>, failed: &mut Vec<String>, token: &Vec<char>)
    ensures
        (views(final(parsed)@), views(final(failed)@)) == file_token(views(old(parsed)@), views(old(failed)@), token@),
{
    if token.len() == 0 {
        return;
    }
    let t = string_of_prefix(token.as_slice(), token.len());
    assert(token@.take(token@.len() as int) =~= token@);
    match parse_user_id(t.as_str()) {
        Ok(uid) => {
            parsed.push(uid);
            assert(views(parsed@) =~= views(old(parsed)@).push(token@));
        },
        Err(_) => {
            failed.push(t);
            assert(views(failed@) =~= views(old(failed)@).push(token@));
        },
    }
}

/// Splits a raw list into the user IDs that parse and, in a parallel list,
/// the tokens that do not. Whitespace and commas are delimiters; order is kept.
pub fn parse_invitee_list(raw: &str) -> (r: (Vec<String>, Vec<String>))
    ensures
        (views(r.0@), views(r.1@)) == invitees(raw@),
{
    let chars = chars_of(raw);
    let mut parsed: Vec<String> = Vec::new();
    let mut failed: Vec<String> = Vec::new();
    let mut cur: Vec<char> = Vec::new();
    let mut i: usize = 0;
    assert(views(parsed@) =~= Seq::empty());
    assert(views(failed@) =~= Seq::empty());
    assert(chars@.take(0) =~= Seq::empty());
    while i < chars.len()
        invariant
            i <= chars@.len(),
            chars@ == raw@,
            (views(parsed@), views(failed@), cur@) == scan_invitees(chars@.take(i as int)),
        decreases chars@.len() - i,
    {
        let c = chars[i];
        assert(chars@.take(i + 1).drop_last() =~= chars@.take(i as int));
        assert(chars@.take(i + 1).last() == c);
        if char_is_whitespace(c) || c == ',' {
            file_token_exec(&mut parsed, &mut failed, &cur);
            cur = Vec::new();
            assert(cur@ =~= Seq::<char>::empty());
        } else {
            cur.push(c);
        }
        i = i + 1;
    }
    assert(chars@.take(i as int) =~= raw@);
    file_token_exec(&mut parsed, &mut failed, &cur);
    (parsed, failed)
}

// ---------------------------------------------------------------------------
// The request
// ---------------------------------------------------------------------------

/// The preset that the homeserver applies to the new room.
#[derive(Clone, Copy, Debug, PartialEq, Eq, Structural)]
pub enum RoomPresetChoice {
    PublicChat,
    PrivateChat,
}

/// The create-room request: name and topic (trimmed, absent when blank),
/// visibility and preset, and whether an `m.room.encryption` state event
/// (Megolm v1) is part of the initial state. Invitees are not in it: they are
/// invited one by one once the room exists.
#[derive(Debug)]
pub struct RoomCreationRequest {
    pub name: Option<String>,
    pub topic: Option<String>,
    pub visibility: RoomVisibilityChoice,
    pub preset: RoomPresetChoice,
    pub encrypted: bool,
}

/// A text trimmed, or nothing when it is blank.
pub open spec fn non_blank(s: Seq<char>) -> Option<Seq<char>> {
    if trimmed(s).len() == 0 { None } else { Some(trimmed(s)) }
}

pub open spec fn opt_view(o: Option<String>) -> Option<Seq<char>> {
    match o {
        Some(s) => Some(s@),
        None => None,
    }
}

impl CreateRoomConfig {
    /// The request for this configuration.
    pub fn to_ruma_request(&self) -> (r: RoomCreationRequest)
        ensures
            opt_view(r.name) == non_blank(self.name@),
            opt_view(r.topic) == match self.topic { Some(t) => non_blank(t@), None => None },
            r.visibility == self.visibility,
            r.preset == (if self.visibility == RoomVisibilityChoice::Public {
                RoomPresetChoice::PublicChat
            } else {
                RoomPresetChoice::PrivateChat
            }),
            r.encrypted == self.e2ee_enabled,
    {
        let name = trim_str(self.name.as_str());
        let name = if name.as_str().is_empty() { None } else { Some(name) };
        let topic = match &self.topic {
            Some(t) => {
                let tt = trim_str(t.as_str());
                if tt.as_str().is_empty() { None } else { Some(tt) }
            },
            None => None,
        };
        let preset = match self.visibility {
            RoomVisibilityChoice::Public => RoomPresetChoice::PublicChat,
            RoomVisibilityChoice::Private => RoomPresetChoice::PrivateChat,
        };
        RoomCreationRequest { name, topic, visibility: self.visibility, preset, encrypted: self.e2ee_enabled }
    }
}

// ---------------------------------------------------------------------------
// The screen
// ---------------------------------------------------------------------------

/// The configuration that the form's inputs describe, and the invitees that
/// did not parse. The topic is kept as typed, unless it is blank.
pub fn collect_config(
    name: String,
    topic_raw: String,
    invitees_raw: &str,
    public: bool,
    e2ee_enabled: bool,
    avatar_bytes: Option<Vec<u8>>,
    avatar_mime: Option<String>,
) -> (r: (CreateRoomConfig, Vec<String>))
    ensures
        r.0.name == name,
        opt_view(r.0.topic) == (if trimmed(topic_raw@).len() == 0 { None } else { Some(topic_raw@) }),
        r.0.avatar_bytes == avatar_bytes,
        r.0.avatar_mime == avatar_mime,
        r.0.visibility == (if public { RoomVisibilityChoice::Public } else { RoomVisibilityChoice::Private }),
        r.0.e2ee_enabled == e2ee_enabled,
        (views(r.0.initial_invitees@), views(r.1@)) == invitees(invitees_raw@),
{
    let t = trim_chars(topic_raw.as_str());
    let topic = if t.len() == 0 { None } else { Some(topic_raw) };
    let (parsed, failed) = parse_invitee_list(invitees_raw);
    let visibility = if public { RoomVisibilityChoice::Public } else { RoomVisibilityChoice::Private };
    let config = CreateRoomConfig {
        name,
        topic,
        avatar_bytes,
        avatar_mime,
        visibility,
        e2ee_enabled,
        initial_invitees: parsed,
    };
    (config, failed)
}

/// The message shown for a configuration error.
pub open spec fn error_text(e: CreateRoomConfigError) -> Seq<char> {
    match e {
        CreateRoomConfigError::EmptyName => "Please enter a room name."@,
        CreateRoomConfigError::NameTooLong { len, max } =>
            "Name is too long ("@ + decimal(len as nat) + " chars, max "@ + decimal(max as nat) + ")."@,
        CreateRoomConfigError::AvatarTooLarge { bytes, max } =>
            "Avatar is too large ("@ + decimal(bytes as nat) + " bytes, max "@ + decimal(max as nat) + ")."@,
        CreateRoomConfigError::EncryptedPublicRoom => "Public rooms can't be end-to-end encrypted."@,
    }
}

/// The message shown for a configuration error.
pub fn describe_error(error: &CreateRoomConfigError) -> (r: String)
    ensures
        r@ == error_text(*error),
{
    match error {
        CreateRoomConfigError::EmptyName => String::from_str("Please enter a room name."),
        CreateRoomConfigError::NameTooLong { len, max } => {
            let mut r = String::from_str("Name is too long (");
            push_decimal(&mut r, *len);
            r.append(" chars, max ");
            push_decimal(&mut r, *max);
            r.append(").");
            r
        },
        CreateRoomConfigError::AvatarTooLarge { bytes, max } => {
            let mut r = String::from_str("Avatar is too large (");
            push_decimal(&mut r, *bytes);
            r.append(" bytes, max ");
            push_decimal(&mut r, *max);
            r.append(").");
            r
        },
        CreateRoomConfigError::EncryptedPublicRoom => String::from_str("Public rooms can't be end-to-end encrypted."),
    }
}

/// What a click on "create" leads to: the form's message, and whether the
/// request is sent.
pub open spec fn create_outcome(config: CreateRoomConfig, failed: Seq<Seq<char>>) -> (Seq<char>, bool) {
    if failed.len() > 0 {
        ("Invalid Matrix IDs (please fix or remove): "@ + join(failed, ", "@), false)
    } else {
        match config_error(config) {
            None => ("Creating room\u{2026}"@, true),
            Some(e) => (error_text(e), false),
        }
    }
}

/// The form's message after a click on "create", and whether the request is
/// sent: never with invitees that did not parse or with a configuration error.
pub fn create_button_outcome(config: &CreateRoomConfig, failed_invitees: &[String]) -> (r: (String, bool))
    ensures
        (r.0@, r.1) == create_outcome(*config, views(failed_invitees@)),
{
    if failed_invitees.len() > 0 {
        let mut msg = String::from_str("Invalid Matrix IDs (please fix or remove): ");
        let list = join_all(failed_invitees, ", ");
        msg.append(list.as_str());
        return (msg, false);
    }
    match validate_create_room_config(config) {
        Ok(()) => (String::from_str("Creating room\u{2026}"), true),
        Err(e) => (describe_error(&e), false),
    }
}

/// Whether the "create" button is enabled: only while the invitees all parse
/// and the configuration is valid, so an invalid request is never sent.
pub fn create_button_enabled(config: &CreateRoomConfig, failed_invitees: &[String]) -> (r: bool)
    ensures
        r == (failed_invitees@.len() == 0 && config_error(*config) is None),
        r == create_outcome(*config, views(failed_invitees@)).1,
{
    if failed_invitees.len() > 0 {
        return false;
    }
    match validate_create_room_config(config) {
        Ok(()) => true,
        Err(_) => false,
    }
}

// ---------------------------------------------------------------------------
// The avatar file
// ---------------------------------------------------------------------------

/// The error for an avatar file of `len` bytes, when it is larger than allowed.
pub fn avatar_too_large_message(len: u64) -> (r: Option<String>)
    ensures
        len > AVATAR_MAX_BYTES ==> (r matches Some(m) && m@ == "Avatar is too large ("@ + decimal(len as nat)
            + " bytes, max "@ + decimal(AVATAR_MAX_BYTES as nat) + " bytes)."@),
        len <= AVATAR_MAX_BYTES ==> r is None,
{
    if len <= AVATAR_MAX_BYTES as u64 {
        return None;
    }
    let mut m = String::from_str("Avatar is too large (");
    push_decimal_u64(&mut m, len);
    m.append(" bytes, max ");
    push_decimal(&mut m, AVATAR_MAX_BYTES);
    m.append(" bytes).");
    Some(m)
}

/// `c` with an ASCII capital letter made small.
pub open spec fn lower_ascii(c: char) -> char {
    if 'A' <= c && c <= 'Z' { ((c as u32) + 32) as char } else { c }
}

/// The MIME type of an image file by its extension (case aside): PNG, JPEG
/// (`jpg` or `jpeg`) and GIF by name, any other as `image/<extension>`.
pub open spec fn mime_for_extension(ext: Seq<char>) -> Seq<char> {
    let e = ext.map_values(|c: char| lower_ascii(c));
    if e == "png"@ {
        "image/png"@
    } else if e == "jpg"@ || e == "jpeg"@ {
        "image/jpeg"@
    } else if e == "gif"@ {
        "image/gif"@
    } else {
        "image/"@ + e
    }
}

/// The MIME type of the picked avatar: the one detected from its bytes, else
/// the one its file extension names, else none.
pub fn avatar_mime(detected: Option<String>, extension: Option<&str>) -> (r: Option<String>)
    ensures
        detected is Some ==> r == detected,
        detected is None ==> match extension {
            Some(e) => r matches Some(m) && m@ == mime_for_extension(e@),
            None => r is None,
        },
{
    if detected.is_some() {
        return detected;
    }
    let e = match extension {
        Some(e) => e,
        None => return None,
    };
    let chars = chars_of(e);
    let mut lower = String::new();
    let mut i: usize = 0;
    while i < chars.len()
        invariant
            i <= chars@.len(),
            chars@ == e@,
            lower@ == chars@.take(i as int).map_values(|c: char| lower_ascii(c)),
        decreases chars@.len() - i,
    {
        let c = chars[i];
        let l = if 'A' <= c && c <= 'Z' { ((c as u8) + 32) as char } else { c };
        assert(l == lower_ascii(c));
        push_char(&mut lower, l);
        assert(chars@.take(i + 1).map_values(|c: char| lower_ascii(c))
            =~= chars@.take(i as int).map_values(|c: char| lower_ascii(c)).push(lower_ascii(c)));
        i = i + 1;
    }
    assert(chars@.take(i as int) =~= e@);
    let m = if lower == String::from_str("png") {
        String::from_str("image/png")
    } else if lower == String::from_str("jpg") || lower == String::from_str("jpeg") {
        String::from_str("image/jpeg")
    } else if lower == String::from_str("gif") {
        String::from_str("image/gif")
    } else {
        let mut m = String::from_str("image/");
        m.append(lower.as_str());
        m
    };
    Some(m)
}

/// What became of a create-room request.
#[derive(Debug)]
pub enum CreateRoomResult {
    Created { room_name: String },
    /// The room exists, but inviting these users failed.
    PartialInvite { room_name: String, failed: Vec<String> },
    Failed { reason: String },
}

/// The tone of a notice.
#[derive(Clone, Copy, Debug, PartialEq, Eq, Structural)]
pub enum NoticeTone {
    Success,
    Warning,
    Error,
}

/// The form's message for the result of a request (also shown as a popup),
/// its tone, and whether the form is cleared.
pub fn create_result_message(result: &CreateRoomResult) -> (r: (String, NoticeTone, bool))
    ensures
        match *result {
            CreateRoomResult::Created { room_name } =>
                r.0@ == "Room created: "@ + room_name@ && r.1 == NoticeTone::Success && r.2,
            CreateRoomResult::PartialInvite { room_name, failed } =>
                r.0@ == "Room created ("@ + room_name@ + "), but invites failed for: "@ + join(views(failed@), ", "@)
                && r.1 == NoticeTone::Warning && r.2,
            CreateRoomResult::Failed { reason } =>
                r.0@ == "Failed to create room: "@ + reason@ && r.1 == NoticeTone::Error && !r.2,
        },
{
    match result {
        CreateRoomResult::Created { room_name } => {
            let mut m = String::from_str("Room created: ");
            m.append(room_name.as_str());
            (m, NoticeTone::Success, true)
        },
        CreateRoomResult::PartialInvite { room_name, failed } => {
            let mut m = String::from_str("Room created (");
            m.append(room_name.as_str());
            m.append("), but invites failed for: ");
            let list = join_all(failed.as_slice(), ", ");
            m.append(list.as_str());
            (m, NoticeTone::Warning, true)
        },
        CreateRoomResult::Failed { reason } => {
            let mut m = String::from_str("Failed to create room: ");
            m.append(reason.as_str());
            (m, NoticeTone::Error, false)
        },
    }
}

} // verus!
