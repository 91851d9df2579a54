//! The notice at the top of a room's timeline that says whether the room is
//! end-to-end encrypted, and whom to verify.

use vstd::prelude::*;
use crate::text::{truncated, truncate_for_display};

verus! {

pub const ENCRYPTED_TITLE: &'static str = "Encryption enabled";
pub const UNENCRYPTED_TITLE: &'static str = "Encryption not enabled";
pub const ENCRYPTED_BODY: &'static str = "Messages here are end-to-end encrypted.";
pub const UNENCRYPTED_BODY: &'static str = "Messages here are not end-to-end encrypted.";
pub const VERIFY_PREFIX: &'static str = "Messages here are end-to-end encrypted. Verify ";
pub const VERIFY_SUFFIX: &'static str = " in their profile - tap on their profile picture.";
/// The longest display name, in characters, before it is cut.
pub const DISPLAY_NAME_LIMIT: usize = 30;

/// A member of a room, as far as the notice needs one.
pub struct RoomMember {
    pub user_id: String,
    pub display_name: Option<String>,
}

/// Whether the member is someone other than the signed-in user.
pub open spec fn is_other(m: RoomMember, own_user_id: Option<Seq<char>>) -> bool {
    match own_user_id {
        Some(own) => m.user_id@ != own,
        None => true,
    }
}

/// The name of a member: the display name when there is one, else the user ID.
pub open spec fn member_name(m: RoomMember) -> Seq<char> {
    match m.display_name {
        Some(n) => n@,
        None => m.user_id@,
    }
}

/// The characters of an optional string.
pub open spec fn str_view(o: Option<&str>) -> Option<Seq<char>> {
    match o {
        Some(s) => Some(s@),
        None => None,
    }
}

/// The position of the first member other than the signed-in user, if any.
pub open spec fn first_other(members: Seq<RoomMember>, own_user_id: Option<Seq<char>>) -> Option<int>
    decreases members.len(),
{
    if members.len() == 0 {
        None
    } else if is_other(members[0], own_user_id) {
        Some(0)
    } else {
        match first_other(members.skip(1), own_user_id) {
            Some(i) => Some(i + 1),
            None => None,
        }
    }
}

/// The name of the first member other than the signed-in user (whose ID is
/// `own_user_id`, when known): `None` when the members are not known or there
/// is no other member.
pub fn first_other_member_display_name(members: Option<&[RoomMember]>, own_user_id: Option<&str>) -> (r: Option<Option<String>>)
    ensures
        r matches Some(n) ==> n is Some,
        match members {
            None => r is None,
            Some(ms) => match first_other(ms@, str_view(own_user_id)) {
                None => r is None,
                Some(i) => r is Some && r->0->0@ == member_name(ms@[i]),
            },
        },
{
    let ms = match members {
        Some(ms) => ms,
        None => return None,
    };
    let ghost own = str_view(own_user_id);
    let mut i: usize = 0;
    assert(ms@.skip(0) =~= ms@);
    while i < ms.len()
        invariant
            i <= ms@.len(),
            own == str_view(own_user_id),
            members == Some(ms),
            first_other(ms@, own) == (match first_other(ms@.skip(i as int), own) {
                Some(j) => Some(j + i),
                None => None,
            }),
        decreases ms@.len() - i,
    {
        let ghost rest = ms@.skip(i as int);
        assert(rest[0] == ms@[i as int]);
        assert(rest.skip(1) =~= ms@.skip(i + 1));
        let other = match own_user_id {
            Some(o) => {
                let own_s = String::from_str(o);
                !(ms[i].user_id == own_s)
            },
            None => true,
        };
        assert(other == is_other(ms@[i as int], own));
        if other {
            assert(first_other(rest, own) == Some(0int));
            let name = match &ms[i].display_name {
                Some(n) => n.clone(),
                None => ms[i].user_id.clone(),
            };
            return Some(Some(name));
        }
        i = i + 1;
    }
    assert(ms@.skip(i as int).len() == 0);
    None
}

/// A display name cut to its first 30 characters, with `…` when it was longer.
pub fn truncate_display_name(display_name: &str) -> (r: String)
    ensures
        r@ == truncated(display_name@, DISPLAY_NAME_LIMIT as nat),
{
    truncate_for_display(display_name, DISPLAY_NAME_LIMIT)
}

/// The body of the notice of an encrypted room whose first other member is named `name`.
pub open spec fn verify_body(name: Seq<char>) -> Seq<char> {
    VERIFY_PREFIX@ + truncated(name, DISPLAY_NAME_LIMIT as nat) + VERIFY_SUFFIX@
}

/// The title and body of the notice. The sentence that asks to verify someone
/// appears only when a name is known.
pub fn encryption_notice_copy(is_encrypted: bool, first_other_member: Option<Option<String>>) -> (r: (&'static str, String))
    ensures
        !is_encrypted ==> r.0@ == UNENCRYPTED_TITLE@ && r.1@ == UNENCRYPTED_BODY@,
        is_encrypted ==> r.0@ == ENCRYPTED_TITLE@,
        is_encrypted ==> r.1@ == match first_other_member {
            Some(Some(name)) => verify_body(name@),
            _ => ENCRYPTED_BODY@,
        },
{
    if !is_encrypted {
        return (UNENCRYPTED_TITLE, String::from_str(UNENCRYPTED_BODY));
    }
    match first_other_member {
        Some(Some(display_name)) => {
            let mut body = String::from_str(VERIFY_PREFIX);
            let name = truncate_display_name(display_name.as_str());
            body.append(name.as_str());
            body.append(VERIFY_SUFFIX);
            (ENCRYPTED_TITLE, body)
        },
        _ => (ENCRYPTED_TITLE, String::from_str(ENCRYPTED_BODY)),
    }
}

/// What the notice shows.
pub struct EncryptionNotice {
    pub title: String,
    pub body: String,
    pub lock_filled_visible: bool,
    pub lock_open_visible: bool,
}

impl EncryptionNotice {
    /// A notice with nothing shown yet.
    pub fn new() -> (r: EncryptionNotice)
        ensures
            r.title@ == Seq::<char>::empty(),
            r.body@ == Seq::<char>::empty(),
            !r.lock_filled_visible,
            !r.lock_open_visible,
    {
        EncryptionNotice { title: String::new(), body: String::new(), lock_filled_visible: false, lock_open_visible: false }
    }

    /// Fills the notice for a room: its copy, and the closed lock for an
    /// encrypted room or the open one for another.
    pub fn set_content(&mut self, is_encrypted: bool, first_other_member: Option<Option<String>>)
        ensures
            !is_encrypted ==> final(self).title@ == UNENCRYPTED_TITLE@ && final(self).body@ == UNENCRYPTED_BODY@,
            is_encrypted ==> final(self).title@ == ENCRYPTED_TITLE@,
            is_encrypted ==> final(self).body@ == match first_other_member {
                Some(Some(name)) => verify_body(name@),
                _ => ENCRYPTED_BODY@,
            },
            final(self).lock_filled_visible == is_encrypted,
            final(self).lock_open_visible == !is_encrypted,
    {
        let (title, body) = encryption_notice_copy(is_encrypted, first_other_member);
        self.title = String::from_str(title);
        self.body = body;
        self.lock_filled_visible = is_encrypted;
        self.lock_open_visible = !is_encrypted;
    }
}

} // verus!
