//! Creating a room inside a space: the invitee list and the request.

use vstd::prelude::*;
use crate::text::{is_white, trimmed, trim_str, trim_chars, chars_of, char_is_whitespace, string_of_prefix, views};
use crate::ids::{parse_user_id, ruma_accepts_user_id};

verus! {

/// The characters that separate list entries: commas and whitespace.
pub open spec fn is_list_delimiter(c: char) -> bool {
    c == ',' || is_white(c)
}

/// The finished entries of a list so far, and the entry being read.
pub open spec fn scan_entries(s: Seq<char>) -> (Seq<Seq<char>>, Seq<char>)
    decreases s.len(),
{
    if s.len() == 0 {
        (Seq::empty(), Seq::empty())
    } else {
        let p = scan_entries(s.drop_last());
        if is_list_delimiter(s.last()) {
            (if p.1.len() > 0 { p.0.push(p.1) } else { p.0 }, Seq::empty())
        } else {
            (p.0, p.1.push(s.last()))
        }
    }
}

/// The non-empty entries of a list, in order.
pub open spec fn list_entries(s: Seq<char>) -> Seq<Seq<char>> {
    let p = scan_entries(s);
    if p.1.len() > 0 { p.0.push(p.1) } else { p.0 }
}

/// The user IDs of the entries, each once, in order of first appearance; or
/// the first entry that is no user ID.
pub open spec fn collect_user_ids(ts: Seq<Seq<char>>) -> Result<Seq<Seq<char>>, Seq<char>>
    decreases ts.len(),
{
    if ts.len() == 0 {
        Ok(Seq::empty())
    } else {
        match collect_user_ids(ts.drop_last()) {
            Err(t) => Err(t),
            Ok(ids) => if !ruma_accepts_user_id(ts.last()) {
                Err(ts.last())
            } else if ids.contains(ts.last()) {
                Ok(ids)
            } else {
                Ok(ids.push(ts.last()))
            },
        }
    }
}

/// The message for an entry that is no user ID.
pub open spec fn invalid_user_id_text(t: Seq<char>) -> Seq<char> {
    "Invalid user ID: "@ + t + ". Expected format: @user:server"@
}

fn add_entry(ids: &mut Vec<String>, err: &mut Option<String>, token: &Vec<char>)
    requires
        token@.len() > 0,
    ensures
        match *old(err) {
            Some(e) => *final(err) == Some(e) && final(ids)@ == old(ids)@,
            None => match *final(err) {
                Some(e) => !ruma_accepts_user_id(token@) && e@ == invalid_user_id_text(token@) && final(ids)@ == old(ids)@,
                None => ruma_accepts_user_id(token@) && views(final(ids)@) == (if views(old(ids)@).contains(token@) {
                    views(old(ids)@)
                } else {
                    views(old(ids)@).push(token@)
                }),
            },
        },
{
    if err.is_some() {
        return;
    }
    let t = string_of_prefix(token.as_slice(), token.len());
    assert(token@.take(token@.len() as int) =~= token@);
    match parse_user_id(t.as_str()) {
        Ok(uid) => {
            let mut k: usize = 0;
            let mut dup = false;
            while k < ids.len() && !dup
                invariant
                    k <= ids@.len(),
                    uid@ == token@,
                    dup ==> k < ids@.len() && ids@[k as int]@ == token@,
                    !dup ==> forall|j: int| 0 <= j < k ==> (#[trigger] ids@[j])@ != token@,
                decreases ids@.len() - k + (if dup { 0int } else { 1int }),
            {
                if ids[k] == uid {
                    dup = true;
                } else {
                    k = k + 1;
                }
            }
            if dup {
                assert(views(ids@)[k as int] == token@);
            } else {
                assert(!views(ids@).contains(token@)) by {
                    if views(ids@).contains(token@) {
                        let j = choose|j: int| 0 <= j < views(ids@).len() && views(ids@)[j] == token@;
                        assert(ids@[j]@ == token@);
                    }
                }
                let ghost before = views(ids@);
                ids.push(uid);
                assert(views(ids@) =~= before.push(token@));
            }
        },
        Err(_) => {
            let mut m = String::from_str("Invalid user ID: ");
            m.append(t.as_str());
            m.append(". Expected format: @user:server");
            *err = Some(m);
        },
    }
}

/// Parses a list of user IDs separated by commas or whitespace: each ID once,
/// in order; or the error for the first entry that is no user ID.
pub fn parse_invited_user_ids(input: &str) -> (r: Result<Vec<String>, String>)
    ensures
        match collect_user_ids(list_entries(input@)) {
            Ok(ids) => r matches Ok(v) && views(v@) == ids,
            Err(t) => r matches Err(e) && e@ == invalid_user_id_text(t),
        },
{
    let chars = chars_of(input);
    let mut ids: Vec<String> = Vec::new();
    let mut err: Option<String> = None;
    let mut cur: Vec<char> = Vec::new();
    let mut i: usize = 0;
    assert(chars@.take(0) =~= Seq::<char>::empty());
    assert(views(ids@) =~= Seq::empty());
    while i < chars.len()
        invariant
            i <= chars@.len(),
            chars@ == input@,
            scan_entries(chars@.take(i as int)).1 == cur@,
            match collect_user_ids(scan_entries(chars@.take(i as int)).0) {
                Ok(v) => err is None && views(ids@) == v,
                Err(t) => err matches Some(e) && e@ == invalid_user_id_text(t),
            },
        decreases chars@.len() - i,
    {
        let c = chars[i];
        let ghost prev = scan_entries(chars@.take(i as int));
        assert(chars@.take(i + 1).drop_last() =~= chars@.take(i as int));
        assert(chars@.take(i + 1).last() == c);
        if c == ',' || char_is_whitespace(c) {
            if cur.len() > 0 {
                add_entry(&mut ids, &mut err, &cur);
                assert(prev.0.push(cur@).drop_last() =~= prev.0);
            }
            cur = Vec::new();
            assert(cur@ =~= Seq::<char>::empty());
        } else {
            cur.push(c);
        }
        i = i + 1;
    }
    assert(chars@.take(i as int) =~= input@);
    if cur.len() > 0 {
        let ghost prev = scan_entries(input@);
        add_entry(&mut ids, &mut err, &cur);
        assert(prev.0.push(cur@).drop_last() =~= prev.0);
    }
    match err {
        Some(e) => Err(e),
        None => Ok(ids),
    }
}

/// Who can find and join the new room.
#[derive(Clone, Copy, Debug, PartialEq, Eq, Structural)]
pub enum CreateRoomVisibility {
    Public,
    Private,
}

/// A request to create a room in a space.
#[derive(Debug)]
pub struct SpaceRoomRequest {
    pub name: String,
    pub topic: Option<String>,
    pub visibility: CreateRoomVisibility,
    pub parent_space_id: Option<String>,
    pub is_space: bool,
    pub invite_user_ids: Vec<String>,
}

pub const EMPTY_NAME_MESSAGE: &'static str = "Please enter a room name.";
pub const NO_SPACE_MESSAGE: &'static str = "No parent space is selected for this room.";

/// What the form's values give: the message for a blank name, else for the
/// first invalid invitee, else for a missing parent space; otherwise the
/// request with the trimmed name, the trimmed topic (left out when blank),
/// "public" exactly at dropdown position 1, the parent space, the invitees,
/// and no space flag.
pub open spec fn space_room_request_is(
    name: Seq<char>,
    topic: Seq<char>,
    invitees: Seq<char>,
    visibility_index: usize,
    space_id: Option<Seq<char>>,
    r: Result<SpaceRoomRequest, String>,
) -> bool {
    if trimmed(name).len() == 0 {
        r matches Err(m) && m@ == EMPTY_NAME_MESSAGE@
    } else {
        match collect_user_ids(list_entries(invitees)) {
            Err(t) => r matches Err(m) && m@ == invalid_user_id_text(t),
            Ok(ids) => match space_id {
                None => r matches Err(m) && m@ == NO_SPACE_MESSAGE@,
                Some(sp) => r matches Ok(q) && q.name@ == trimmed(name)
                    && (q.topic matches Some(t) ==> t@ == trimmed(topic) && t@.len() > 0)
                    && (q.topic is None <==> trimmed(topic).len() == 0)
                    && q.visibility == (if visibility_index == 1 { CreateRoomVisibility::Public } else { CreateRoomVisibility::Private })
                    && (q.parent_space_id matches Some(p) && p@ == sp)
                    && !q.is_space
                    && views(q.invite_user_ids@) == ids,
            },
        }
    }
}

/// The request that the form describes, or the message for what is wrong:
/// a blank name, an invalid invitee, or no parent space (in that order). The
/// name and topic are trimmed; a blank topic is left out; dropdown position 1
/// is "public", any other "private".
pub fn build_space_room_request(
    name: &str,
    topic: &str,
    invitees: &str,
    visibility_index: usize,
    space_id: Option<&str>,
) -> (r: Result<SpaceRoomRequest, String>)
    ensures
        space_room_request_is(name@, topic@, invitees@, visibility_index,
            match space_id { Some(sp) => Some(sp@), None => None }, r),
{
    let n = trim_str(name);
    if n.as_str().is_empty() {
        return Err(String::from_str(EMPTY_NAME_MESSAGE));
    }
    let ids = match parse_invited_user_ids(invitees) {
        Ok(ids) => ids,
        Err(e) => return Err(e),
    };
    let sp = match space_id {
        Some(sp) => sp,
        None => return Err(String::from_str(NO_SPACE_MESSAGE)),
    };
    let t = trim_str(topic);
    let topic = if t.as_str().is_empty() { None } else { Some(t) };
    let visibility = if visibility_index == 1 { CreateRoomVisibility::Public } else { CreateRoomVisibility::Private };
    Ok(SpaceRoomRequest {
        name: n,
        topic,
        visibility,
        parent_space_id: Some(String::from_str(sp)),
        is_space: false,
        invite_user_ids: ids,
    })
}

/// The notification once the room is created: in the named space, or "the
/// selected space" when its name is unknown.
pub fn created_message(room_label: &str, space_label: Option<&str>) -> (r: String)
    ensures
        r@ == "Created room "@ + room_label@ + " in "@
            + (match space_label { Some(s) => s@, None => "the selected space"@ }) + "."@,
{
    let mut r = String::from_str("Created room ");
    r.append(room_label);
    r.append(" in ");
    match space_label {
        Some(s) => r.append(s),
        None => r.append("the selected space"),
    }
    r.append(".");
    r
}

// ---------------------------------------------------------------------------
// The modal's life cycle
// ---------------------------------------------------------------------------

/// Where the modal stands.
#[derive(Debug, PartialEq, Eq)]
pub enum SpaceRoomModalState {
    WaitingForUserInput,
    /// The request for a room under this parent space was sent.
    WaitingForCreate { parent_space_id: Option<String> },
    /// The room was created; it is loading.
    WaitingForRoomLoad(String),
    CreateError,
}

/// What the modal's widgets show in a state: whether the form is locked,
/// the create button's text, and the status line with a spinner, if any.
pub open spec fn modal_widgets(st: SpaceRoomModalState) -> (bool, Seq<char>, Option<Seq<char>>) {
    match st {
        SpaceRoomModalState::WaitingForCreate { .. } =>
            (true, "Creating Room..."@, Some("Creating room in this space..."@)),
        SpaceRoomModalState::WaitingForRoomLoad(_) =>
            (true, "Opening Room..."@, Some("Room created. Waiting for it to finish syncing before opening..."@)),
        _ => (false, "Create Room"@, None),
    }
}

/// The modal that creates a room in a space: its state and the space (ID
/// and label).
#[derive(Debug)]
pub struct CreateSpaceRoomModal {
    pub state: SpaceRoomModalState,
    pub space: Option<(String, String)>,
}

pub open spec fn opt_view(o: Option<String>) -> Option<Seq<char>> {
    match o {
        Some(s) => Some(s@),
        None => None,
    }
}

impl CreateSpaceRoomModal {
    /// A modal with no space.
    pub fn new() -> (r: CreateSpaceRoomModal)
        ensures
            r.state == SpaceRoomModalState::WaitingForUserInput,
            r.space is None,
    {
        CreateSpaceRoomModal { state: SpaceRoomModalState::WaitingForUserInput, space: None }
    }

    /// Opens the modal for a space; returns its subtitle.
    pub fn show(&mut self, space_id: String, space_label: String) -> (subtitle: String)
        ensures
            final(self).state == SpaceRoomModalState::WaitingForUserInput,
            final(self).space == (Some((space_id, space_label))),
            subtitle@ == "Parent space: "@ + space_label@,
    {
        let mut subtitle = String::from_str("Parent space: ");
        subtitle.append(space_label.as_str());
        self.state = SpaceRoomModalState::WaitingForUserInput;
        self.space = Some((space_id, space_label));
        subtitle
    }

    /// What the widgets show now (see `modal_widgets`).
    pub fn widgets(&self) -> (r: (bool, &'static str, Option<&'static str>))
        ensures
            (r.0, r.1@, match r.2 { Some(t) => Some(t@), None => None }) == modal_widgets(self.state),
    {
        match &self.state {
            SpaceRoomModalState::WaitingForCreate { .. } =>
                (true, "Creating Room...", Some("Creating room in this space...")),
            SpaceRoomModalState::WaitingForRoomLoad(_) =>
                (true, "Opening Room...", Some("Room created. Waiting for it to finish syncing before opening...")),
            _ => (false, "Create Room", None),
        }
    }

    /// A click on "create": the request for the form's values (see
    /// `build_space_room_request`), after which the modal waits for it; or
    /// the message for what is wrong, the state unchanged.
    pub fn submit(&mut self, name: &str, topic: &str, invitees: &str, visibility_index: usize) -> (r: Result<SpaceRoomRequest, String>)
        ensures
            space_room_request_is(name@, topic@, invitees@, visibility_index,
                match old(self).space { Some(sp) => Some(sp.0@), None => None }, r),
            r matches Ok(q) ==> (final(self).state matches SpaceRoomModalState::WaitingForCreate { parent_space_id: p }
                && opt_view(p) == opt_view(q.parent_space_id)),
            r is Err ==> final(self).state == old(self).state,
            final(self).space == old(self).space,
    {
        let sp = match &self.space {
            Some(s) => Some(s.0.as_str()),
            None => None,
        };
        let r = build_space_room_request(name, topic, invitees, visibility_index, sp);
        if let Ok(q) = &r {
            let parent = match &q.parent_space_id {
                Some(p) => Some(p.clone()),
                None => None,
            };
            self.state = SpaceRoomModalState::WaitingForCreate { parent_space_id: parent };
        }
        r
    }

    /// A room `room_id` (labelled `room_label`) was created under
    /// `parent_space_id` by a request of this modal (`from_this_modal`):
    /// when the modal waits for exactly that, it waits for the room to load
    /// and returns the notice to show.
    pub fn room_created(&mut self, from_this_modal: bool, parent_space_id: Option<&str>, room_id: String, room_label: &str)
        -> (notice: Option<String>)
        ensures
            (from_this_modal && (old(self).state matches SpaceRoomModalState::WaitingForCreate { parent_space_id: p }
                && opt_view(p) == match parent_space_id { Some(x) => Some(x@), None => None }))
                ==> (notice matches Some(n) && n@ == "Created room "@ + room_label@ + " in "@
                        + (match old(self).space { Some(s) => s.1@, None => "the selected space"@ }) + "."@)
                    && final(self).state == SpaceRoomModalState::WaitingForRoomLoad(room_id),
            !(from_this_modal && (old(self).state matches SpaceRoomModalState::WaitingForCreate { parent_space_id: p }
                && opt_view(p) == match parent_space_id { Some(x) => Some(x@), None => None }))
                ==> notice is None && final(self).state == old(self).state,
            final(self).space == old(self).space,
    {
        if !from_this_modal || !self.waits_for(parent_space_id) {
            return None;
        }
        let label = match &self.space {
            Some(s) => Some(s.1.as_str()),
            None => None,
        };
        let notice = created_message(room_label, label);
        self.state = SpaceRoomModalState::WaitingForRoomLoad(room_id);
        Some(notice)
    }

    fn waits_for(&self, parent_space_id: Option<&str>) -> (r: bool)
        ensures
            r == (self.state matches SpaceRoomModalState::WaitingForCreate { parent_space_id: p }
                && opt_view(p) == match parent_space_id { Some(x) => Some(x@), None => None }),
    {
        match &self.state {
            SpaceRoomModalState::WaitingForCreate { parent_space_id: p } => match (p, parent_space_id) {
                (Some(a), Some(b)) => *a == String::from_str(b),
                (None, None) => true,
                _ => false,
            },
            _ => false,
        }
    }

    /// Creating the room failed: when the modal waits for that request, it
    /// shows the error. Returns whether it does.
    pub fn create_failed(&mut self, from_this_modal: bool, parent_space_id: Option<&str>) -> (shown: bool)
        ensures
            shown == (from_this_modal && (old(self).state matches SpaceRoomModalState::WaitingForCreate { parent_space_id: p }
                && opt_view(p) == match parent_space_id { Some(x) => Some(x@), None => None })),
            shown ==> final(self).state == SpaceRoomModalState::CreateError,
            !shown ==> final(self).state == old(self).state,
            final(self).space == old(self).space,
    {
        if !from_this_modal || !self.waits_for(parent_space_id) {
            return false;
        }
        self.state = SpaceRoomModalState::CreateError;
        true
    }

    /// The room `room_id` is loaded: when the modal waits for it, the room is
    /// opened and the modal closes. Returns whether it does.
    pub fn room_loaded(&mut self, room_id: &str) -> (open: bool)
        ensures
            open == (old(self).state matches SpaceRoomModalState::WaitingForRoomLoad(r) && r@ == room_id@),
            open ==> final(self).state == SpaceRoomModalState::WaitingForUserInput,
            !open ==> final(self).state == old(self).state,
            final(self).space == old(self).space,
    {
        let waiting = match &self.state {
            SpaceRoomModalState::WaitingForRoomLoad(r) => *r == String::from_str(room_id),
            _ => false,
        };
        if waiting {
            self.state = SpaceRoomModalState::WaitingForUserInput;
        }
        waiting
    }
}

} // verus!
