//! The "add room" page: looking up a room by its address, the preview of a
//! fetched room and what its join button does, adding a friend, and the
//! choice of a parent space for a new room.

use vstd::prelude::*;
use crate::text::{views, trimmed, trim_chars, trim_str, push_decimal_u64, decimal, copy_opt_string};
use crate::ids::{parse_room_or_alias_id, ruma_accepts_room_or_alias_id, parse_matrix_to_uri, parse_matrix_scheme_uri,
    matrix_to_uri, matrix_scheme_uri, uri_view, UriTargetKind, parse_user_id, ruma_accepts_user_id,
    ruma_room_or_alias_id_error, ruma_user_id_error};

verus! {

// ---------------------------------------------------------------------------
// Room addresses
// ---------------------------------------------------------------------------

/// The room that a parsed URI points at, with its `via` servers: a room, an
/// alias, or the room of an event; nothing for any other target.
pub open spec fn uri_room(t: Option<(UriTargetKind, Seq<char>, Seq<Seq<char>>)>) -> Option<(Seq<char>, Seq<Seq<char>>)> {
    match t {
        Some(x) => if x.0 == UriTargetKind::Room || x.0 == UriTargetKind::RoomAlias || x.0 == UriTargetKind::Event {
            Some((x.1, x.2))
        } else {
            None
        },
        None => None,
    }
}

pub const ADDRESS_ERROR_PREFIX: &'static str = "Could not parse the text as a valid room address.\nError: ";
pub const INVALID_FRIEND_PREFIX: &'static str = "Invalid Matrix user ID.\n\nError: ";

/// The room address in a text: the text itself when it is a room ID or alias
/// (with no `via` servers), else what a `https://matrix.to` link or, failing
/// that, a `matrix:` URI points at.
pub open spec fn address_of(s: Seq<char>) -> Option<(Seq<char>, Seq<Seq<char>>)> {
    if ruma_accepts_room_or_alias_id(s) {
        Some((s, Seq::empty()))
    } else if matrix_to_uri(s) is Some {
        uri_room(matrix_to_uri(s))
    } else {
        uri_room(matrix_scheme_uri(s))
    }
}

/// Tries to extract a room address (alias or ID) and its `via` servers from
/// the given text: a room ID, a room alias, a `https://matrix.to` link or a
/// `matrix:` URI. On failure, the error is the text of `ruma`'s error for the
/// text as a room ID or alias.
pub fn parse_address(text: &str) -> (r: Result<(String, Vec<String>), String>)
    ensures
        r is Ok <==> address_of(text@) is Some,
        r matches Ok(a) ==> address_of(text@) == Some((a.0@, views(a.1@))),
        r matches Err(m) ==> ruma_room_or_alias_id_error(text@) == Some(m@),
{
    match parse_room_or_alias_id(text) {
        Ok(id) => {
            let via: Vec<String> = Vec::new();
            assert(views(via@) =~= Seq::empty());
            Ok((id, via))
        },
        Err(e) => {
            let uri = match parse_matrix_to_uri(text) {
                Some(u) => Some(u),
                None => parse_matrix_scheme_uri(text),
            };
            if let Some((kind, id, via)) = uri {
                if kind == UriTargetKind::Room || kind == UriTargetKind::RoomAlias || kind == UriTargetKind::Event {
                    return Ok((id, via));
                }
            }
            Err(e)
        },
    }
}

// ---------------------------------------------------------------------------
// The fetched preview
// ---------------------------------------------------------------------------

/// The user's membership in a previewed room.
#[derive(Clone, Copy, Debug, PartialEq, Eq, Structural)]
pub enum RoomMembershipState {
    Joined,
    Banned,
    Invited,
    Knocked,
    Left,
}

/// Who may join a previewed room.
#[derive(Clone, Copy, Debug, PartialEq, Eq, Structural)]
pub enum JoinRuleKind {
    Public,
    Invite,
    Knock,
    KnockRestricted,
    Restricted,
    /// Any other rule, such as a private or custom one.
    Other,
}

/// The preview of a room or space, fetched from the homeserver.
#[derive(Debug)]
pub struct FetchedRoomPreview {
    pub room_id: String,
    /// The room's name and ID as the app shows them together.
    pub display: String,
    /// The name to show, if the room has one.
    pub name_for_avatar: Option<String>,
    pub canonical_alias: Option<String>,
    pub topic: Option<String>,
    pub is_space: bool,
    pub state: Option<RoomMembershipState>,
    pub join_rule: Option<JoinRuleKind>,
    pub is_direct: Option<bool>,
    pub num_joined_members: u64,
}

impl FetchedRoomPreview {
    /// A field-by-field copy.
    pub fn duplicate(&self) -> (r: FetchedRoomPreview)
        ensures
            r == *self,
    {
        FetchedRoomPreview {
            room_id: self.room_id.clone(),
            display: self.display.clone(),
            name_for_avatar: copy_opt_string(&self.name_for_avatar),
            canonical_alias: copy_opt_string(&self.canonical_alias),
            topic: copy_opt_string(&self.topic),
            is_space: self.is_space,
            state: self.state,
            join_rule: self.join_rule,
            is_direct: self.is_direct,
            num_joined_members: self.num_joined_members,
        }
    }
}

fn copy_strings(v: &Vec<String>) -> (r: Vec<String>)
    ensures
        r@ == v@,
{
    let mut r: Vec<String> = Vec::new();
    let mut i: usize = 0;
    while i < v.len()
        invariant
            i <= v@.len(),
            r@ == v@.take(i as int),
        decreases v@.len() - i,
    {
        r.push(v[i].clone());
        assert(v@.take(i + 1) =~= v@.take(i as int).push(v@[i as int]));
        i = i + 1;
    }
    assert(v@.take(i as int) =~= v@);
    r
}

// ---------------------------------------------------------------------------
// The page's state
// ---------------------------------------------------------------------------

/// Where the lookup of a room stands.
#[derive(Debug)]
pub enum AddRoomState {
    /// Waiting for the user to enter a room ID, alias or Matrix link.
    WaitingOnUserInput,
    /// The input parsed and a request is out; waiting for the preview.
    Parsed { room_or_alias_id: String, via: Vec<String> },
    /// The input did not parse into a room address.
    ParseError(String),
    /// The preview is shown; waiting for the user to join.
    FetchedRoomPreview { frp: FetchedRoomPreview, room_or_alias_id: String, via: Vec<String> },
    /// The preview could not be fetched.
    FetchError(String),
    /// The user knocked and waits for an invitation.
    Knocked { frp: FetchedRoomPreview },
    /// The user joined and the room is being loaded.
    Joined { frp: FetchedRoomPreview },
    /// The room is loaded; the user can go to it.
    Loaded { frp: FetchedRoomPreview, is_invite: bool },
}

impl Default for AddRoomState {
    fn default() -> (r: AddRoomState)
        ensures
            r is WaitingOnUserInput,
    {
        AddRoomState::WaitingOnUserInput
    }
}

/// The preview that a state shows, if any.
pub open spec fn preview_of(s: AddRoomState) -> Option<FetchedRoomPreview> {
    match s {
        AddRoomState::FetchedRoomPreview { frp, .. } => Some(frp),
        AddRoomState::Knocked { frp } => Some(frp),
        AddRoomState::Joined { frp } => Some(frp),
        AddRoomState::Loaded { frp, .. } => Some(frp),
        _ => None,
    }
}

/// The state after a knock on the previewed room succeeded.
pub open spec fn knocked(s: AddRoomState) -> AddRoomState {
    match s {
        AddRoomState::FetchedRoomPreview { frp, .. } => AddRoomState::Knocked { frp },
        _ => s,
    }
}

/// The state after the previewed room was joined.
pub open spec fn joined(s: AddRoomState) -> AddRoomState {
    match s {
        AddRoomState::FetchedRoomPreview { frp, .. } => AddRoomState::Joined { frp },
        _ => s,
    }
}

/// The state after the previewed room was loaded from the homeserver.
pub open spec fn loaded(s: AddRoomState, is_invite: bool) -> AddRoomState {
    match s {
        AddRoomState::FetchedRoomPreview { frp, .. } => AddRoomState::Loaded { frp, is_invite },
        AddRoomState::Joined { frp } => AddRoomState::Loaded { frp, is_invite },
        AddRoomState::Knocked { frp } => AddRoomState::Loaded { frp, is_invite },
        _ => s,
    }
}

impl AddRoomState {
    /// The preview shown in this state, if any.
    pub fn fetched_room_preview(&self) -> (r: Option<&FetchedRoomPreview>)
        ensures
            match r {
                Some(p) => preview_of(*self) == Some(*p),
                None => preview_of(*self) is None,
            },
    {
        match self {
            AddRoomState::FetchedRoomPreview { frp, .. } => Some(frp),
            AddRoomState::Knocked { frp } => Some(frp),
            AddRoomState::Joined { frp } => Some(frp),
            AddRoomState::Loaded { frp, .. } => Some(frp),
            _ => None,
        }
    }

    /// After a successful knock: a shown preview becomes `Knocked`; any other state stays.
    pub fn transition_to_knocked(&mut self)
        ensures
            *final(self) == knocked(*old(self)),
    {
        let mut prev = AddRoomState::WaitingOnUserInput;
        std::mem::swap(&mut prev, self);
        *self = match prev {
            AddRoomState::FetchedRoomPreview { frp, .. } => AddRoomState::Knocked { frp },
            other => other,
        };
    }

    /// After a successful join: a shown preview becomes `Joined`; any other state stays.
    pub fn transition_to_joined(&mut self)
        ensures
            *final(self) == joined(*old(self)),
    {
        let mut prev = AddRoomState::WaitingOnUserInput;
        std::mem::swap(&mut prev, self);
        *self = match prev {
            AddRoomState::FetchedRoomPreview { frp, .. } => AddRoomState::Joined { frp },
            other => other,
        };
    }

    /// Once the room is loaded: a shown, knocked or joined preview becomes
    /// `Loaded`; any other state stays.
    pub fn transition_to_loaded(&mut self, is_invite: bool)
        ensures
            *final(self) == loaded(*old(self), is_invite),
    {
        let mut prev = AddRoomState::WaitingOnUserInput;
        std::mem::swap(&mut prev, self);
        *self = match prev {
            AddRoomState::FetchedRoomPreview { frp, .. } => AddRoomState::Loaded { frp, is_invite },
            AddRoomState::Joined { frp } => AddRoomState::Loaded { frp, is_invite },
            AddRoomState::Knocked { frp } => AddRoomState::Loaded { frp, is_invite },
            other => other,
        };
    }
}

// ---------------------------------------------------------------------------
// Parent spaces of a new room
// ---------------------------------------------------------------------------

/// A space in which the user may create child rooms.
#[derive(Debug)]
pub struct CreatableSpace {
    pub room_id: String,
    /// The space's name as the dropdown shows it.
    pub label: String,
}

pub open spec fn space_labels(spaces: Seq<CreatableSpace>) -> Seq<Seq<char>> {
    spaces.map_values(|s: CreatableSpace| s.label@)
}

/// The dropdown's labels: "Create without a space", then each space.
pub fn creatable_space_labels(creatable_spaces: &[CreatableSpace]) -> (r: Vec<String>)
    ensures
        views(r@) == seq!["Create without a space"@] + space_labels(creatable_spaces@),
{
    let mut labels: Vec<String> = Vec::new();
    labels.push(String::from_str("Create without a space"));
    let mut i: usize = 0;
    while i < creatable_spaces.len()
        invariant
            i <= creatable_spaces@.len(),
            views(labels@) == seq!["Create without a space"@] + space_labels(creatable_spaces@.take(i as int)),
        decreases creatable_spaces@.len() - i,
    {
        let ghost before = views(labels@);
        labels.push(creatable_spaces[i].label.clone());
        assert(views(labels@) =~= before.push(creatable_spaces@[i as int].label@));
        assert(space_labels(creatable_spaces@.take(i + 1)) =~= space_labels(creatable_spaces@.take(i as int)).push(creatable_spaces@[i as int].label@));
        assert(views(labels@) =~= seq!["Create without a space"@] + space_labels(creatable_spaces@.take(i + 1)));
        i = i + 1;
    }
    assert(creatable_spaces@.take(i as int) =~= creatable_spaces@);
    labels
}

/// The space picked at a dropdown position: none at position 0 ("without a
/// space") or past the end, else the space listed one position earlier.
pub fn selected_creatable_space(creatable_spaces: &[CreatableSpace], dropdown_index: usize) -> (r: Option<String>)
    ensures
        match r {
            Some(id) => 1 <= dropdown_index <= creatable_spaces@.len()
                && id@ == creatable_spaces@[dropdown_index - 1].room_id@,
            None => dropdown_index == 0 || dropdown_index > creatable_spaces@.len(),
        },
{
    if dropdown_index == 0 || dropdown_index > creatable_spaces.len() {
        None
    } else {
        Some(creatable_spaces[dropdown_index - 1].room_id.clone())
    }
}

/// The position of the first space with the given room ID, if any.
pub open spec fn space_position(spaces: Seq<CreatableSpace>, id: Seq<char>) -> Option<int>
    decreases spaces.len(),
{
    if spaces.len() == 0 {
        None
    } else {
        match space_position(spaces.drop_last(), id) {
            Some(k) => Some(k),
            None => if spaces.last().room_id@ == id { Some(spaces.len() - 1) } else { None },
        }
    }
}

fn find_space(spaces: &[CreatableSpace], id: &str) -> (r: Option<usize>)
    ensures
        match r {
            Some(k) => space_position(spaces@, id@) == Some(k as int) && k < spaces@.len(),
            None => space_position(spaces@, id@) is None,
        },
{
    let target = String::from_str(id);
    let mut i: usize = 0;
    while i < spaces.len()
        invariant
            i <= spaces@.len(),
            target@ == id@,
            space_position(spaces@.take(i as int), id@) is None,
        decreases spaces@.len() - i,
    {
        assert(spaces@.take(i + 1).drop_last() =~= spaces@.take(i as int));
        if spaces[i].room_id == target {
            proof { lemma_space_position_prefix(spaces@, id@, i + 1); }
            return Some(i);
        }
        i = i + 1;
    }
    assert(spaces@.take(i as int) =~= spaces@);
    None
}

proof fn lemma_space_position_prefix(spaces: Seq<CreatableSpace>, id: Seq<char>, n: int)
    requires
        0 < n <= spaces.len(),
        space_position(spaces.take(n - 1), id) is None,
        spaces[n - 1].room_id@ == id,
    ensures
        space_position(spaces, id) == Some(n - 1),
    decreases spaces.len(),
{
    assert(spaces.take(n).drop_last() =~= spaces.take(n - 1));
    if n < spaces.len() {
        assert(spaces.drop_last().take(n - 1) =~= spaces.take(n - 1));
        lemma_space_position_prefix(spaces.drop_last(), id, n);
        assert(spaces.drop_last().take(n) =~= spaces.take(n));
        assert(spaces.drop_last().take(n - 1) =~= spaces.take(n - 1));
    } else {
        assert(spaces.take(n) =~= spaces);
    }
}

/// The dropdown position to select: that of the preferred parent space when
/// it is listed, else the current position, kept within the list.
pub fn space_dropdown_index(creatable_spaces: &[CreatableSpace], preferred_parent_space_id: Option<&str>, current: usize) -> (r: usize)
    ensures
        r == match preferred_parent_space_id {
            Some(p) => match space_position(creatable_spaces@, p@) {
                Some(k) => (k + 1) as usize,
                None => if current < creatable_spaces@.len() { current } else { creatable_spaces@.len() as usize },
            },
            None => if current < creatable_spaces@.len() { current } else { creatable_spaces@.len() as usize },
        },
{
    let fallback = if current < creatable_spaces.len() { current } else { creatable_spaces.len() };
    match preferred_parent_space_id {
        Some(p) => match find_space(creatable_spaces, p) {
            Some(k) => k + 1,
            None => fallback,
        },
        None => fallback,
    }
}

/// The hint under the dropdown.
pub open spec fn space_hint_text(spaces: Seq<CreatableSpace>, selected: Option<Seq<char>>) -> Seq<char> {
    if spaces.len() == 0 {
        "No joined space currently allows you to create child rooms."@
    } else {
        match selected {
            Some(id) => "New room will be added under: "@ + match space_position(spaces, id) {
                Some(k) => spaces[k].label@,
                None => id,
            },
            None => "Create a standalone room, or choose a space from the dropdown."@,
        }
    }
}

/// The hint under the dropdown: which space the new room goes into, if any.
pub fn space_hint(creatable_spaces: &[CreatableSpace], selected_space_id: Option<&str>) -> (r: String)
    ensures
        r@ == space_hint_text(creatable_spaces@, match selected_space_id { Some(s) => Some(s@), None => None }),
{
    if creatable_spaces.len() == 0 {
        return String::from_str("No joined space currently allows you to create child rooms.");
    }
    match selected_space_id {
        Some(id) => {
            let mut r = String::from_str("New room will be added under: ");
            match find_space(creatable_spaces, id) {
                Some(k) => {
                    proof { lemma_space_position_in_range(creatable_spaces@, id@); }
                    r.append(creatable_spaces[k].label.as_str());
                },
                None => r.append(id),
            }
            r
        },
        None => String::from_str("Create a standalone room, or choose a space from the dropdown."),
    }
}

proof fn lemma_space_position_in_range(spaces: Seq<CreatableSpace>, id: Seq<char>)
    ensures
        space_position(spaces, id) matches Some(k) ==> 0 <= k < spaces.len(),
    decreases spaces.len(),
{
    if spaces.len() > 0 {
        lemma_space_position_in_range(spaces.drop_last(), id);
    }
}

// ---------------------------------------------------------------------------
// What the preview shows
// ---------------------------------------------------------------------------

/// What a click on the join button of a preview does.
#[derive(Clone, Copy, Debug, PartialEq, Eq, Structural)]
pub enum JoinButtonFunction {
    /// Nothing: the button is disabled.
    NoAction,
    /// Navigate to an already-known room or space, or join it if possible.
    NavigateOrJoin,
    /// Knock on (ask to join) the room or space.
    Knock,
}

pub open spec fn kind_lc(p: FetchedRoomPreview) -> Seq<char> {
    if p.is_space { "space"@ } else { "room"@ }
}

pub open spec fn kind_uc(p: FetchedRoomPreview) -> Seq<char> {
    if p.is_space { "Space"@ } else { "Room"@ }
}

/// The join button of a room the user left, by its join rule.
pub open spec fn rejoin_option(rule: Option<JoinRuleKind>, lc: Seq<char>) -> (Seq<char>, JoinButtonFunction) {
    match rule {
        Some(JoinRuleKind::Public) => ("Re-join this "@ + lc, JoinButtonFunction::NavigateOrJoin),
        Some(JoinRuleKind::Invite) => ("Re-joining "@ + lc + " requires an invite"@, JoinButtonFunction::NoAction),
        Some(JoinRuleKind::Knock) => ("Knock to re-join "@ + lc, JoinButtonFunction::Knock),
        Some(JoinRuleKind::KnockRestricted) => ("Knock to re-join "@ + lc, JoinButtonFunction::Knock),
        Some(JoinRuleKind::Restricted) =>
            ("Re-joining "@ + lc + " requires an invite or other room membership"@, JoinButtonFunction::NoAction),
        _ => ("Not allowed to re-join this "@ + lc, JoinButtonFunction::NoAction),
    }
}

/// The join button of a room unknown to the user, by its join rule.
pub open spec fn join_option(rule: Option<JoinRuleKind>, lc: Seq<char>) -> (Seq<char>, JoinButtonFunction) {
    match rule {
        Some(JoinRuleKind::Public) => ("Join this "@ + lc, JoinButtonFunction::NavigateOrJoin),
        Some(JoinRuleKind::Invite) => ("Joining "@ + lc + " requires an invite"@, JoinButtonFunction::NoAction),
        Some(JoinRuleKind::Knock) => ("Knock to join "@ + lc, JoinButtonFunction::Knock),
        Some(JoinRuleKind::KnockRestricted) => ("Knock to join "@ + lc, JoinButtonFunction::Knock),
        Some(JoinRuleKind::Restricted) =>
            ("Joining "@ + lc + " requires an invite or other room membership"@, JoinButtonFunction::NoAction),
        _ => ("Not allowed to join this "@ + lc, JoinButtonFunction::NoAction),
    }
}

/// The summary of a fetched preview, the join button's text and what it does,
/// by the user's membership and the room's join rule.
pub open spec fn preview_options(p: FetchedRoomPreview) -> (Seq<char>, Seq<char>, JoinButtonFunction) {
    let lc = kind_lc(p);
    match p.state {
        Some(RoomMembershipState::Joined) =>
            ("You have already joined this "@ + lc + "."@, "Go to "@ + lc, JoinButtonFunction::NavigateOrJoin),
        Some(RoomMembershipState::Banned) =>
            ("You have been banned from this "@ + lc + "."@, "Cannot join until un-banned"@, JoinButtonFunction::NoAction),
        Some(RoomMembershipState::Invited) =>
            ("You have already been invited to this "@ + lc + "."@, "Go to invitation"@, JoinButtonFunction::NavigateOrJoin),
        Some(RoomMembershipState::Knocked) =>
            ("You have already knocked on this "@ + lc + "."@, "Knock again (be nice!)"@, JoinButtonFunction::Knock),
        Some(RoomMembershipState::Left) => {
            let o = rejoin_option(p.join_rule, lc);
            ("You previously left this "@ + lc + "."@, o.0, o.1)
        },
        None => {
            let o = join_option(p.join_rule, lc);
            ("This is a "@ + (if p.is_direct == Some(true) { "direct"@ } else { "regular"@ }) + " "@ + lc + " with "@
                + decimal(p.num_joined_members as nat) + " "@
                + (if p.num_joined_members == 1 { "member"@ } else { "members"@ }) + "."@, o.0, o.1)
        },
    }
}

/// The join button of a room or space the user is not in (never joined, or
/// left) follows its join rule: a knock-only rule (`Knock` or
/// `KnockRestricted`) gets a button that knocks and says so; a button that
/// joins directly is offered exactly for a public rule; no other rule gets
/// an active button.
pub proof fn lemma_join_button_follows_join_rule(p: FetchedRoomPreview)
    requires
        p.state is None || p.state == Some(RoomMembershipState::Left),
    ensures
        (p.join_rule == Some(JoinRuleKind::Knock) || p.join_rule == Some(JoinRuleKind::KnockRestricted))
            ==> preview_options(p).2 == JoinButtonFunction::Knock && preview_options(p).1.take(9) == "Knock to "@,
        preview_options(p).2 == JoinButtonFunction::NavigateOrJoin <==> p.join_rule == Some(JoinRuleKind::Public),
        preview_options(p).2 == JoinButtonFunction::Knock
            <==> (p.join_rule == Some(JoinRuleKind::Knock) || p.join_rule == Some(JoinRuleKind::KnockRestricted)),
{
    reveal_strlit("Knock to join ");
    reveal_strlit("Knock to re-join ");
    reveal_strlit("Knock to ");
    let lc = kind_lc(p);
    if p.state is None {
        assert(("Knock to join "@ + lc).take(9) =~= "Knock to "@);
    } else {
        assert(("Knock to re-join "@ + lc).take(9) =~= "Knock to "@);
    }
}

fn cat2(a: &str, b: &str) -> (r: String)
    ensures
        r@ == a@ + b@,
{
    let mut r = String::from_str(a);
    r.append(b);
    r
}

fn cat3(a: &str, b: &str, c: &str) -> (r: String)
    ensures
        r@ == a@ + b@ + c@,
{
    let mut r = String::from_str(a);
    r.append(b);
    r.append(c);
    r
}

fn kind_words(p: &FetchedRoomPreview) -> (r: (&'static str, &'static str))
    ensures
        r.0@ == kind_lc(*p),
        r.1@ == kind_uc(*p),
{
    if p.is_space { ("space", "Space") } else { ("room", "Room") }
}

fn rejoin_option_exec(rule: Option<JoinRuleKind>, lc: &str) -> (r: (String, JoinButtonFunction))
    ensures
        (r.0@, r.1) == rejoin_option(rule, lc@),
{
    match rule {
        Some(JoinRuleKind::Public) => (cat2("Re-join this ", lc), JoinButtonFunction::NavigateOrJoin),
        Some(JoinRuleKind::Invite) => (cat3("Re-joining ", lc, " requires an invite"), JoinButtonFunction::NoAction),
        Some(JoinRuleKind::Knock) => (cat2("Knock to re-join ", lc), JoinButtonFunction::Knock),
        Some(JoinRuleKind::KnockRestricted) => (cat2("Knock to re-join ", lc), JoinButtonFunction::Knock),
        Some(JoinRuleKind::Restricted) =>
            (cat3("Re-joining ", lc, " requires an invite or other room membership"), JoinButtonFunction::NoAction),
        _ => (cat2("Not allowed to re-join this ", lc), JoinButtonFunction::NoAction),
    }
}

fn join_option_exec(rule: Option<JoinRuleKind>, lc: &str) -> (r: (String, JoinButtonFunction))
    ensures
        (r.0@, r.1) == join_option(rule, lc@),
{
    match rule {
        Some(JoinRuleKind::Public) => (cat2("Join this ", lc), JoinButtonFunction::NavigateOrJoin),
        Some(JoinRuleKind::Invite) => (cat3("Joining ", lc, " requires an invite"), JoinButtonFunction::NoAction),
        Some(JoinRuleKind::Knock) => (cat2("Knock to join ", lc), JoinButtonFunction::Knock),
        Some(JoinRuleKind::KnockRestricted) => (cat2("Knock to join ", lc), JoinButtonFunction::Knock),
        Some(JoinRuleKind::Restricted) =>
            (cat3("Joining ", lc, " requires an invite or other room membership"), JoinButtonFunction::NoAction),
        _ => (cat2("Not allowed to join this ", lc), JoinButtonFunction::NoAction),
    }
}

/// The summary of a fetched preview, the join button's text and what it does.
pub fn preview_join_options(p: &FetchedRoomPreview) -> (r: (String, String, JoinButtonFunction))
    ensures
        (r.0@, r.1@, r.2) == preview_options(*p),
{
    let (lc, _uc) = kind_words(p);
    match p.state {
        Some(RoomMembershipState::Joined) =>
            (cat3("You have already joined this ", lc, "."), cat2("Go to ", lc), JoinButtonFunction::NavigateOrJoin),
        Some(RoomMembershipState::Banned) =>
            (cat3("You have been banned from this ", lc, "."), String::from_str("Cannot join until un-banned"), JoinButtonFunction::NoAction),
        Some(RoomMembershipState::Invited) =>
            (cat3("You have already been invited to this ", lc, "."), String::from_str("Go to invitation"), JoinButtonFunction::NavigateOrJoin),
        Some(RoomMembershipState::Knocked) =>
            (cat3("You have already knocked on this ", lc, "."), String::from_str("Knock again (be nice!)"), JoinButtonFunction::Knock),
        Some(RoomMembershipState::Left) => {
            let (t, f) = rejoin_option_exec(p.join_rule, lc);
            (cat3("You previously left this ", lc, "."), t, f)
        },
        None => {
            let (t, f) = join_option_exec(p.join_rule, lc);
            let mut s = String::from_str("This is a ");
            s.append(if p.is_direct == Some(true) { "direct" } else { "regular" });
            s.append(" ");
            s.append(lc);
            s.append(" with ");
            push_decimal_u64(&mut s, p.num_joined_members);
            s.append(" ");
            s.append(if p.num_joined_members == 1 { "member" } else { "members" });
            s.append(".");
            (s, t, f)
        },
    }
}

/// The texts and state of the preview card.
pub struct PreviewView {
    pub room_name: String,
    pub subsection_alias: String,
    pub room_alias: String,
    pub room_id: String,
    pub subsection_topic: String,
    pub room_topic: String,
    pub summary: String,
    pub join_text: String,
    pub join_enabled: bool,
}

/// What the page shows.
pub struct AddRoomView {
    pub add_friend_enabled: bool,
    pub loading_visible: bool,
    pub loading_text: String,
    pub preview_visible: bool,
    pub error_visible: bool,
    pub error_text: String,
    pub preview: Option<PreviewView>,
}

/// The shown name of a previewed room.
pub open spec fn preview_name(p: FetchedRoomPreview) -> Seq<char> {
    match p.name_for_avatar {
        Some(n) => n@,
        None => "Unnamed "@ + kind_uc(p) + ", ID: "@ + p.room_id@,
    }
}

/// The summary, join text and enabled state of the join button in each state
/// that shows a preview (the options of the preview itself when it is only
/// shown).
pub open spec fn state_join_view(s: AddRoomState) -> (Seq<char>, Seq<char>, bool) {
    match s {
        AddRoomState::FetchedRoomPreview { frp, .. } => {
            let o = preview_options(frp);
            (o.0, o.1, o.2 != JoinButtonFunction::NoAction)
        },
        AddRoomState::Knocked { frp } => (
            "You have knocked on this "@ + kind_lc(frp) + " and must now wait for someone to invite you in."@,
            "Successfully knocked!"@,
            false,
        ),
        AddRoomState::Joined { frp } => (
            "You have joined this "@ + kind_lc(frp) + ". It is now being loaded from the homeserver; please wait..."@,
            "Successfully joined!"@,
            false,
        ),
        AddRoomState::Loaded { frp, is_invite } => (
            "You have "@ + (if is_invite { "been invited to"@ } else { "fully joined"@ }) + " this "@ + kind_lc(frp) + "."@,
            "Go to "@ + (if is_invite { "invited"@ } else { "joined"@ }) + " "@ + kind_lc(frp),
            true,
        ),
        _ => (Seq::empty(), Seq::empty(), false),
    }
}

/// What the join button does once the page is drawn in state `s`.
pub open spec fn drawn_join_function(s: AddRoomState, current: JoinButtonFunction) -> JoinButtonFunction {
    match s {
        AddRoomState::FetchedRoomPreview { frp, .. } => preview_options(frp).2,
        AddRoomState::Loaded { .. } => JoinButtonFunction::NavigateOrJoin,
        _ => current,
    }
}

/// What a click on the join button leads to.
pub enum JoinEffect {
    /// Go to the room (joining it if needed).
    Navigate(FetchedRoomPreview),
    /// Knock on the room, by its canonical alias when it has one.
    Knock { room_or_alias_id: String, via: Vec<String> },
    NoEffect,
}

/// What a submitted room address leads to.
pub enum SearchEffect {
    /// Ask the homeserver for the room's preview.
    FetchPreview { room_or_alias_id: String, via: Vec<String> },
    /// Show the error.
    ShowError(String),
}

/// The outcome of a knock or join request, as the homeserver reports it.
pub enum RoomRequestOutcome {
    Knocked { room_id: String, is_space: bool },
    KnockFailed { room_or_alias_id: String, error: String },
    Joined { room_id: String },
    JoinFailed { room_id: String, error: String },
}

/// What a request to add a friend leads to.
pub enum FriendEffect {
    /// Nothing was entered.
    NoEffect,
    /// The user entered their own ID.
    CannotAddSelf,
    /// The text is not a user ID; the message to show.
    InvalidUserId(String),
    /// Open (or find) the direct-message room with this user.
    OpenDirectMessage(String),
}

/// The "add room" page.
pub struct AddRoomScreen {
    pub state: AddRoomState,
    /// What the join button does.
    pub join_function: JoinButtonFunction,
    /// Whether a request to add a friend is out.
    pub adding_friend: bool,
}

impl AddRoomScreen {
    pub fn new() -> (r: AddRoomScreen)
        ensures
            r.state is WaitingOnUserInput,
            r.join_function == JoinButtonFunction::NoAction,
            !r.adding_friend,
    {
        AddRoomScreen { state: AddRoomState::WaitingOnUserInput, join_function: JoinButtonFunction::NoAction, adding_friend: false }
    }

    /// Whether the add-friend button is enabled: no request is out and the
    /// input is not blank.
    pub fn add_friend_enabled(&self, friend_text: &str) -> (r: bool)
        ensures
            r == (!self.adding_friend && trimmed(friend_text@).len() > 0),
    {
        let t = trim_chars(friend_text);
        !self.adding_friend && t.len() > 0
    }

    /// What the page shows in its current state; drawing also sets what the
    /// join button does.
    pub fn draw_model(&mut self, friend_text: &str) -> (v: AddRoomView)
        ensures
            final(self).state == old(self).state,
            final(self).adding_friend == old(self).adding_friend,
            final(self).join_function == drawn_join_function(old(self).state, old(self).join_function),
            v.add_friend_enabled == (!old(self).adding_friend && trimmed(friend_text@).len() > 0),
            v.loading_visible == old(self).state is Parsed,
            old(self).state matches AddRoomState::Parsed { room_or_alias_id, .. }
                ==> v.loading_text@ == "Fetching "@ + room_or_alias_id@ + "..."@,
            v.error_visible == (old(self).state is ParseError || old(self).state is FetchError),
            old(self).state matches AddRoomState::ParseError(e) ==> v.error_text@ == e@,
            old(self).state matches AddRoomState::FetchError(e) ==> v.error_text@ == e@,
            v.preview_visible == preview_of(old(self).state) is Some,
            v.preview is Some == preview_of(old(self).state) is Some,
            v.preview matches Some(pv) ==> ({
                let p = preview_of(old(self).state)->0;
                &&& pv.room_name@ == preview_name(p)
                &&& pv.subsection_alias@ == "Main "@ + kind_uc(p) + " Alias and ID"@
                &&& pv.room_alias@ == "Alias: "@ + match p.canonical_alias { Some(a) => a@, None => "not set"@ }
                &&& pv.room_id@ == "ID: "@ + p.room_id@
                &&& pv.subsection_topic@ == kind_uc(p) + " Topic"@
                &&& pv.room_topic@ == match p.topic { Some(t) => t@, None => "<i>No topic set</i>"@ }
                &&& (pv.summary@, pv.join_text@, pv.join_enabled) == state_join_view(old(self).state)
            }),
    {
        let add_friend_enabled = self.add_friend_enabled(friend_text);
        let mut v = AddRoomView {
            add_friend_enabled,
            loading_visible: false,
            loading_text: String::new(),
            preview_visible: false,
            error_visible: false,
            error_text: String::new(),
            preview: None,
        };
        match &self.state {
            AddRoomState::WaitingOnUserInput => {},
            AddRoomState::ParseError(e) => {
                v.error_visible = true;
                v.error_text = e.clone();
            },
            AddRoomState::FetchError(e) => {
                v.error_visible = true;
                v.error_text = e.clone();
            },
            AddRoomState::Parsed { room_or_alias_id, .. } => {
                v.loading_visible = true;
                v.loading_text = cat3("Fetching ", room_or_alias_id.as_str(), "...");
            },
            _ => {},
        }
        let mut new_function = self.join_function;
        if let Some(p) = self.state.fetched_room_preview() {
            let (lc, uc) = kind_words(p);
            let room_name = match &p.name_for_avatar {
                Some(n) => n.clone(),
                None => {
                    let mut s = cat3("Unnamed ", uc, ", ID: ");
                    s.append(p.room_id.as_str());
                    s
                },
            };
            let room_alias = match &p.canonical_alias {
                Some(a) => cat2("Alias: ", a.as_str()),
                None => String::from_str("Alias: not set"),
            };
            proof {
                reveal_strlit("Alias: not set");
                reveal_strlit("Alias: ");
                reveal_strlit("not set");
            }
            let (summary, join_text, join_enabled) = match &self.state {
                AddRoomState::FetchedRoomPreview { frp, .. } => {
                    let (s, t, f) = preview_join_options(frp);
                    new_function = f;
                    let enabled = match f {
                        JoinButtonFunction::NoAction => false,
                        _ => true,
                    };
                    (s, t, enabled)
                },
                AddRoomState::Knocked { frp } => (
                    cat3("You have knocked on this ", lc, " and must now wait for someone to invite you in."),
                    String::from_str("Successfully knocked!"),
                    false,
                ),
                AddRoomState::Joined { frp } => (
                    cat3("You have joined this ", lc, ". It is now being loaded from the homeserver; please wait..."),
                    String::from_str("Successfully joined!"),
                    false,
                ),
                AddRoomState::Loaded { frp, is_invite } => {
                    new_function = JoinButtonFunction::NavigateOrJoin;
                    let mut s = cat3("You have ", if *is_invite { "been invited to" } else { "fully joined" }, " this ");
                    s.append(lc);
                    s.append(".");
                    let t = cat3("Go to ", if *is_invite { "invited" } else { "joined" }, " ");
                    let mut t = t;
                    t.append(lc);
                    (s, t, true)
                },
                _ => (String::new(), String::new(), false),
            };
            v.preview_visible = true;
            v.preview = Some(PreviewView {
                room_name,
                subsection_alias: cat3("Main ", uc, " Alias and ID"),
                room_alias,
                room_id: cat2("ID: ", p.room_id.as_str()),
                subsection_topic: cat2(uc, " Topic"),
                room_topic: match &p.topic {
                    Some(t) => t.clone(),
                    None => String::from_str("<i>No topic set</i>"),
                },
                summary,
                join_text,
                join_enabled,
            });
        }
        self.join_function = new_function;
        v
    }

    /// The cancel button: back to waiting for input.
    pub fn cancel(&mut self)
        ensures
            final(self).state is WaitingOnUserInput,
            final(self).join_function == old(self).join_function,
            final(self).adding_friend == old(self).adding_friend,
    {
        self.state = AddRoomState::WaitingOnUserInput;
    }

    /// What a click on the join button does: go to a previewed or loaded room
    /// when the button navigates; knock (by the canonical alias when the room
    /// has one) on a previewed room when it knocks; else nothing.
    pub fn join_clicked(&self) -> (r: JoinEffect)
        ensures
            match (self.join_function, self.state) {
                (JoinButtonFunction::NavigateOrJoin, AddRoomState::FetchedRoomPreview { frp, .. }) =>
                    r matches JoinEffect::Navigate(p) && p == frp,
                (JoinButtonFunction::NavigateOrJoin, AddRoomState::Loaded { frp, .. }) =>
                    r matches JoinEffect::Navigate(p) && p == frp,
                (JoinButtonFunction::Knock, AddRoomState::FetchedRoomPreview { frp, room_or_alias_id, via }) =>
                    r matches JoinEffect::Knock { room_or_alias_id: target, via: v }
                        && target == (match frp.canonical_alias { Some(a) => a, None => room_or_alias_id })
                        && v@ == via@,
                _ => r is NoEffect,
            },
    {
        match (self.join_function, &self.state) {
            (JoinButtonFunction::NavigateOrJoin, AddRoomState::FetchedRoomPreview { frp, .. }) => JoinEffect::Navigate(frp.duplicate()),
            (JoinButtonFunction::NavigateOrJoin, AddRoomState::Loaded { frp, .. }) => JoinEffect::Navigate(frp.duplicate()),
            (JoinButtonFunction::Knock, AddRoomState::FetchedRoomPreview { frp, room_or_alias_id, via }) => {
                let target = match &frp.canonical_alias {
                    Some(a) => a.clone(),
                    None => room_or_alias_id.clone(),
                };
                JoinEffect::Knock { room_or_alias_id: target, via: copy_strings(via) }
            },
            _ => JoinEffect::NoEffect,
        }
    }

    /// Looks up the room at the (trimmed) address the user entered: on
    /// success the page waits for the preview; on failure it shows why.
    pub fn submit_address(&mut self, text: &str) -> (r: SearchEffect)
        ensures
            final(self).join_function == old(self).join_function,
            final(self).adding_friend == old(self).adding_friend,
            match address_of(trimmed(text@)) {
                Some(a) => (r matches SearchEffect::FetchPreview { room_or_alias_id, via }
                    && room_or_alias_id@ == a.0 && views(via@) == a.1)
                    && (final(self).state matches AddRoomState::Parsed { room_or_alias_id: id2, via: v2 }
                    && id2@ == a.0 && views(v2@) == a.1),
                None => (r matches SearchEffect::ShowError(msg)
                    && msg@ == ADDRESS_ERROR_PREFIX@ + ruma_room_or_alias_id_error(trimmed(text@))->Some_0 + "."@
                    && (final(self).state matches AddRoomState::ParseError(m2) && m2 == msg)),
            },
    {
        let t = trim_str(text);
        match parse_address(t.as_str()) {
            Ok((room_or_alias_id, via)) => {
                let id2 = room_or_alias_id.clone();
                let via2 = copy_strings(&via);
                self.state = AddRoomState::Parsed { room_or_alias_id: id2, via: via2 };
                SearchEffect::FetchPreview { room_or_alias_id, via }
            },
            Err(e) => {
                let mut msg = String::from_str(ADDRESS_ERROR_PREFIX);
                msg.append(e.as_str());
                msg.append(".");
                let m2 = msg.clone();
                self.state = AddRoomState::ParseError(m2);
                SearchEffect::ShowError(msg)
            },
        }
    }

    /// The preview (or the error) for the address being looked up: only
    /// heeded while the page waits for it. Returns the error to show, if any.
    pub fn preview_fetched(&mut self, result: Result<FetchedRoomPreview, String>) -> (r: Option<String>)
        ensures
            final(self).join_function == old(self).join_function,
            final(self).adding_friend == old(self).adding_friend,
            match old(self).state {
                AddRoomState::Parsed { room_or_alias_id, via } => match result {
                    Ok(frp) => r is None && (final(self).state matches AddRoomState::FetchedRoomPreview { frp: f2, room_or_alias_id: id2, via: v2 }
                        && f2 == frp && id2 == room_or_alias_id && v2@ == via@),
                    Err(e) => (r matches Some(msg) && msg@ == "Failed to fetch room info.\n\nError: "@ + e@ + "."@
                        && (final(self).state matches AddRoomState::FetchError(m2) && m2 == msg)),
                },
                _ => r is None && final(self).state == old(self).state,
            },
    {
        if let AddRoomState::Parsed { room_or_alias_id, via } = &self.state {
            match result {
                Ok(frp) => {
                    let id = room_or_alias_id.clone();
                    let v = copy_strings(via);
                    self.state = AddRoomState::FetchedRoomPreview { frp, room_or_alias_id: id, via: v };
                    None
                },
                Err(e) => {
                    let mut msg = String::from_str("Failed to fetch room info.\n\nError: ");
                    msg.append(e.as_str());
                    msg.append(".");
                    self.state = AddRoomState::FetchError(msg.clone());
                    Some(msg)
                },
            }
        } else {
            None
        }
    }

    /// The homeserver's answer to a knock or join on the previewed room: only
    /// heeded while the preview is shown and the answer is about its room.
    /// Returns the notification to show, if any.
    pub fn request_outcome(&mut self, outcome: &RoomRequestOutcome) -> (r: Option<String>)
        ensures
            final(self).join_function == old(self).join_function,
            final(self).adding_friend == old(self).adding_friend,
            match old(self).state {
                AddRoomState::FetchedRoomPreview { frp, room_or_alias_id, .. } => match *outcome {
                    RoomRequestOutcome::Knocked { room_id, is_space } =>
                        if room_id@ == frp.room_id@ {
                            final(self).state == knocked(old(self).state) && (r matches Some(m)
                                && m@ == "Successfully knocked on "@ + (if is_space { "space"@ } else { "room"@ }) + " "@ + frp.display@ + "."@)
                        } else {
                            final(self).state == old(self).state && r is None
                        },
                    RoomRequestOutcome::KnockFailed { room_or_alias_id: roai, error } =>
                        final(self).state == old(self).state && if roai@ == room_or_alias_id@ {
                            r matches Some(m) && m@ == "Failed to knock on room.\n\nError: "@ + error@ + "."@
                        } else {
                            r is None
                        },
                    RoomRequestOutcome::Joined { room_id } =>
                        if room_id@ == frp.room_id@ {
                            final(self).state == joined(old(self).state) && (r matches Some(m)
                                && m@ == "Successfully joined "@ + kind_lc(frp) + " "@ + frp.display@ + "."@)
                        } else {
                            final(self).state == old(self).state && r is None
                        },
                    RoomRequestOutcome::JoinFailed { room_id, error } =>
                        final(self).state == old(self).state && if room_id@ == frp.room_id@ {
                            r matches Some(m) && m@ == "Failed to join room.\n\nError: "@ + error@ + "."@
                        } else {
                            r is None
                        },
                },
                _ => final(self).state == old(self).state && r is None,
            },
    {
        let (msg, to_knocked, to_joined) = match &self.state {
            AddRoomState::FetchedRoomPreview { frp, room_or_alias_id, .. } => match outcome {
                RoomRequestOutcome::Knocked { room_id, is_space } => {
                    if *room_id == frp.room_id {
                        let mut m = cat3("Successfully knocked on ", if *is_space { "space" } else { "room" }, " ");
                        m.append(frp.display.as_str());
                        m.append(".");
                        (Some(m), true, false)
                    } else {
                        (None, false, false)
                    }
                },
                RoomRequestOutcome::KnockFailed { room_or_alias_id: roai, error } => {
                    if *roai == *room_or_alias_id {
                        (Some(cat3("Failed to knock on room.\n\nError: ", error.as_str(), ".")), false, false)
                    } else {
                        (None, false, false)
                    }
                },
                RoomRequestOutcome::Joined { room_id } => {
                    if *room_id == frp.room_id {
                        let (lc, _uc) = kind_words(frp);
                        let mut m = cat3("Successfully joined ", lc, " ");
                        m.append(frp.display.as_str());
                        m.append(".");
                        (Some(m), false, true)
                    } else {
                        (None, false, false)
                    }
                },
                RoomRequestOutcome::JoinFailed { room_id, error } => {
                    if *room_id == frp.room_id {
                        (Some(cat3("Failed to join room.\n\nError: ", error.as_str(), ".")), false, false)
                    } else {
                        (None, false, false)
                    }
                },
            },
            _ => (None, false, false),
        };
        if to_knocked {
            self.state.transition_to_knocked();
        }
        if to_joined {
            self.state.transition_to_joined();
        }
        msg
    }

    /// The room (or space) `room_id` was loaded from the homeserver: if it is
    /// the previewed one, the page lets the user go to it.
    pub fn room_loaded(&mut self, room_id: &str, is_invite: bool)
        ensures
            final(self).join_function == old(self).join_function,
            final(self).adding_friend == old(self).adding_friend,
            final(self).state == (match preview_of(old(self).state) {
                Some(p) => if p.room_id@ == room_id@ { loaded(old(self).state, is_invite) } else { old(self).state },
                None => old(self).state,
            }),
    {
        let target = String::from_str(room_id);
        let matches = match self.state.fetched_room_preview() {
            Some(p) => p.room_id == target,
            None => false,
        };
        if matches {
            self.state.transition_to_loaded(is_invite);
        }
    }

    /// A request to add the user `user_id_text` (trimmed) as a friend: nothing
    /// when blank; refused for the signed-in user (`current_user_id`) or text
    /// that is no user ID; else the direct-message room is opened and the
    /// request is marked as out.
    pub fn request_friend(&mut self, user_id_text: &str, current_user_id: Option<&str>) -> (r: FriendEffect)
        ensures
            final(self).state == old(self).state,
            final(self).join_function == old(self).join_function,
            ({
                let t = trimmed(user_id_text@);
                if t.len() == 0 {
                    r is NoEffect && final(self).adding_friend == old(self).adding_friend
                } else if !ruma_accepts_user_id(t) {
                    (r matches FriendEffect::InvalidUserId(m) && m@ == INVALID_FRIEND_PREFIX@ + ruma_user_id_error(t)->Some_0)
                        && final(self).adding_friend == old(self).adding_friend
                } else if current_user_id matches Some(me) && me@ == t {
                    r is CannotAddSelf && final(self).adding_friend == old(self).adding_friend
                } else {
                    r matches FriendEffect::OpenDirectMessage(u) && u@ == t && final(self).adding_friend
                }
            }),
    {
        let t = trim_str(user_id_text);
        if t.as_str().is_empty() {
            return FriendEffect::NoEffect;
        }
        match parse_user_id(t.as_str()) {
            Ok(user_id) => {
                let is_self = match current_user_id {
                    Some(me) => String::from_str(me) == user_id,
                    None => false,
                };
                if is_self {
                    FriendEffect::CannotAddSelf
                } else {
                    self.adding_friend = true;
                    FriendEffect::OpenDirectMessage(user_id)
                }
            },
            Err(e) => {
                let mut msg = String::from_str(INVALID_FRIEND_PREFIX);
                msg.append(e.as_str());
                FriendEffect::InvalidUserId(msg)
            },
        }
    }

    /// The direct-message request finished, whatever its outcome.
    pub fn direct_message_done(&mut self)
        ensures
            !final(self).adding_friend,
            final(self).state == old(self).state,
            final(self).join_function == old(self).join_function,
    {
        self.adding_friend = false;
    }
}

/// Whether the search button is enabled: the address input is not blank.
pub fn search_enabled(text: &str) -> (r: bool)
    ensures
        r == (trimmed(text@).len() > 0),
{
    let t = trim_chars(text);
    t.len() > 0
}

} // verus!
