//! The screen of a room invite: what it shows, and how clicks and replies
//! from the homeserver move the invite along.

use vstd::prelude::*;

verus! {

/// Where an invite stands.
#[derive(Clone, Copy, Debug, PartialEq, Eq, Structural)]
pub enum InviteState {
    /// The user has not decided yet.
    WaitingOnUserInput,
    /// A join request was sent.
    WaitingForJoinResult,
    /// A leave (reject) request was sent.
    WaitingForLeaveResult,
    /// The room was joined; it is not loaded yet.
    WaitingForJoinedRoom,
    /// The invite was rejected.
    RoomLeft,
}

impl Default for InviteState {
    fn default() -> (r: Self)
        ensures
            r == InviteState::WaitingOnUserInput,
    {
        InviteState::WaitingOnUserInput
    }
}

/// Who sent an invite.
#[derive(Debug)]
pub struct InviterInfo {
    pub user_id: String,
    pub display_name: Option<String>,
}

/// The invite as the invited-rooms list records it.
#[derive(Debug)]
pub struct InviteRecord {
    pub inviter: Option<InviterInfo>,
    pub invite_state: InviteState,
    pub is_space: bool,
}

/// What the screen shows of an invite.
#[derive(Debug)]
pub struct InviteDetails {
    pub room_id: String,
    pub room_label: String,
    pub inviter: Option<InviterInfo>,
}

/// The state of the invite screen.
#[derive(Debug)]
pub struct InviteScreenModel {
    pub invite_state: InviteState,
    pub info: Option<InviteDetails>,
    /// The invited room: its ID and label.
    pub room: Option<(String, String)>,
    pub is_loaded: bool,
    pub all_rooms_loaded: bool,
    pub is_space: bool,
}

/// What a click on one of the two buttons does.
#[derive(Debug, PartialEq, Eq)]
pub enum InviteClickEffect {
    /// Nothing: no invite is shown.
    NoInvite,
    /// Send the request at once (a shift-click), for this room.
    SendRequest(String),
    /// Open the confirmation dialog for this room.
    OpenDialog(String),
}

/// What showing an invite leads to.
#[derive(Debug, PartialEq, Eq)]
pub enum DisplayInviteEffect {
    /// The invite is shown.
    Shown,
    /// The invite was accepted elsewhere: the screen turns into the joined room's.
    AcceptedElsewhere,
    /// The invite is not known yet: the screen waits for the rooms to load.
    Waiting,
}

/// The texts and states of the screen's widgets.
#[derive(Debug, PartialEq, Eq)]
pub enum InviteView {
    /// The rooms are not loaded: the waiting view, for the room if one is set.
    Restoring { room_label: Option<String>, all_rooms_loaded: bool },
    /// Nothing to show.
    Empty,
    /// The invite.
    Invite {
        inviter_visible: bool,
        /// The text of the inviter's avatar, its name, and its user ID (when
        /// a name is shown too).
        inviter_avatar_text: String,
        inviter_name: String,
        inviter_user_id: Option<String>,
        invite_message: &'static str,
        room_label: String,
        buttons: InviteButtons,
    },
}

/// The two buttons: their texts, whether they are enabled, and whether they
/// (and not the completion note) are shown.
#[derive(Debug, PartialEq, Eq)]
pub struct InviteButtons {
    pub visible: bool,
    pub enabled: bool,
    pub cancel_text: &'static str,
    pub accept_text: &'static str,
    pub completion: &'static str,
}

/// The buttons for an invite state.
pub open spec fn buttons_for(state: InviteState, is_space: bool) -> (bool, bool, Seq<char>, Seq<char>, Seq<char>) {
    let join_text = if is_space { "Join Space"@ } else { "Join Room"@ };
    match state {
        InviteState::WaitingOnUserInput => (true, true, "Reject Invite"@, join_text, ""@),
        InviteState::WaitingForJoinResult => (true, false, "Reject Invite"@, "Joining..."@, ""@),
        InviteState::WaitingForLeaveResult => (true, false, "Rejecting..."@, join_text, ""@),
        InviteState::WaitingForJoinedRoom => (true, false, "Reject Invite"@, "Joined!"@, ""@),
        InviteState::RoomLeft => (false, false, "Reject Invite"@, join_text,
            "Invite successfully rejected. You may close this invite."@),
    }
}

/// The buttons can be clicked only while the screen waits for the user:
/// while a join or leave is awaited they are disabled, and the accept button
/// then shows the join in progress ("Joining...", then "Joined!") instead of
/// offering to join. The buttons disappear once the invite is rejected.
pub proof fn lemma_buttons_only_while_waiting_on_user(state: InviteState, is_space: bool)
    ensures
        buttons_for(state, is_space).1 <==> state == InviteState::WaitingOnUserInput,
        state == InviteState::WaitingForJoinResult ==> buttons_for(state, is_space).3 == "Joining..."@,
        state == InviteState::WaitingForJoinedRoom ==> buttons_for(state, is_space).3 == "Joined!"@,
        (state == InviteState::WaitingForJoinResult || state == InviteState::WaitingForJoinedRoom)
            ==> buttons_for(state, is_space).3 != buttons_for(InviteState::WaitingOnUserInput, is_space).3,
        state == InviteState::WaitingForLeaveResult ==> buttons_for(state, is_space).2 == "Rejecting..."@,
        buttons_for(state, is_space).0 <==> state != InviteState::RoomLeft,
{
    reveal_strlit("Joining...");
    reveal_strlit("Joined!");
    reveal_strlit("Join Space");
    reveal_strlit("Join Room");
    let j = buttons_for(InviteState::WaitingOnUserInput, is_space).3;
    assert(j.len() == 9 || j.len() == 10);
    if is_space {
        assert(j[4] == ' ' && "Joining..."@[4] == 'i');
    }
}

fn invite_buttons(state: InviteState, is_space: bool) -> (b: InviteButtons)
    ensures
        (b.visible, b.enabled, b.cancel_text@, b.accept_text@, b.completion@) == buttons_for(state, is_space),
{
    let join_text = if is_space { "Join Space" } else { "Join Room" };
    match state {
        InviteState::WaitingOnUserInput =>
            InviteButtons { visible: true, enabled: true, cancel_text: "Reject Invite", accept_text: join_text, completion: "" },
        InviteState::WaitingForJoinResult =>
            InviteButtons { visible: true, enabled: false, cancel_text: "Reject Invite", accept_text: "Joining...", completion: "" },
        InviteState::WaitingForLeaveResult =>
            InviteButtons { visible: true, enabled: false, cancel_text: "Rejecting...", accept_text: join_text, completion: "" },
        InviteState::WaitingForJoinedRoom =>
            InviteButtons { visible: true, enabled: false, cancel_text: "Reject Invite", accept_text: "Joined!", completion: "" },
        InviteState::RoomLeft => InviteButtons {
            visible: false,
            enabled: false,
            cancel_text: "Reject Invite",
            accept_text: join_text,
            completion: "Invite successfully rejected. You may close this invite.",
        },
    }
}

/// Whether `room` names the room with ID `id`.
pub open spec fn is_room(room: Option<(String, String)>, id: Seq<char>) -> bool {
    room matches Some(r) && r.0@ == id
}

impl InviteScreenModel {
    /// An empty screen.
    pub fn new() -> (r: InviteScreenModel)
        ensures
            r.invite_state == InviteState::WaitingOnUserInput,
            r.info is None,
            r.room is None,
            !r.is_loaded,
            !r.all_rooms_loaded,
            !r.is_space,
    {
        InviteScreenModel {
            invite_state: InviteState::WaitingOnUserInput,
            info: None,
            room: None,
            is_loaded: false,
            all_rooms_loaded: false,
            is_space: false,
        }
    }

    /// Shows the invite to the room `room_id` (labelled `room_label`):
    /// `record` is what the invited-rooms list holds for it, and
    /// `joined_elsewhere` whether the room is known as joined already.
    pub fn set_displayed_invite(&mut self, room_id: String, room_label: String, record: Option<InviteRecord>, joined_elsewhere: bool)
        -> (r: DisplayInviteEffect)
        ensures
            final(self).room == (Some((room_id, room_label))),
            record matches Some(rec) ==> r is Shown
                && final(self).invite_state == rec.invite_state
                && final(self).is_space == rec.is_space
                && final(self).is_loaded
                && final(self).all_rooms_loaded
                && (final(self).info matches Some(d) && d.room_id@ == room_id@ && d.room_label@ == room_label@
                    && d.inviter == rec.inviter),
            record is None && joined_elsewhere ==> r is AcceptedElsewhere && final(self).is_loaded
                && final(self).info == old(self).info && final(self).invite_state == old(self).invite_state
                && final(self).is_space == old(self).is_space && final(self).all_rooms_loaded == old(self).all_rooms_loaded,
            record is None && !joined_elsewhere ==> r is Waiting
                && final(self).is_loaded == old(self).is_loaded
                && final(self).info == old(self).info && final(self).invite_state == old(self).invite_state
                && final(self).is_space == old(self).is_space && final(self).all_rooms_loaded == old(self).all_rooms_loaded,
    {
        let id2 = room_id.clone();
        let label2 = room_label.clone();
        self.room = Some((room_id, room_label));
        match record {
            Some(rec) => {
                self.info = Some(InviteDetails { room_id: id2, room_label: label2, inviter: rec.inviter });
                self.invite_state = rec.invite_state;
                self.is_space = rec.is_space;
                self.is_loaded = true;
                self.all_rooms_loaded = true;
                DisplayInviteEffect::Shown
            },
            None => if joined_elsewhere {
                self.is_loaded = true;
                DisplayInviteEffect::AcceptedElsewhere
            } else {
                DisplayInviteEffect::Waiting
            },
        }
    }

    /// Clears the screen.
    pub fn hide_displayed_invite(&mut self)
        ensures
            final(self).invite_state == InviteState::WaitingOnUserInput,
            final(self).info is None,
            final(self).room is None,
            !final(self).is_loaded,
            !final(self).all_rooms_loaded,
            !final(self).is_space,
    {
        self.room = None;
        self.info = None;
        self.invite_state = InviteState::WaitingOnUserInput;
        self.is_space = false;
        self.is_loaded = false;
        self.all_rooms_loaded = false;
    }

    /// The room is loaded now, or not yet, after the homeserver answered:
    /// a screen that waits for its room records whether all rooms are loaded
    /// (when its room is not loaded yet). Returns whether the invite should
    /// be shown again now.
    pub fn rooms_updated(&mut self, room_is_loaded: bool, all_rooms_loaded: bool) -> (show_again: bool)
        ensures
            show_again == (!old(self).is_loaded && old(self).room is Some && room_is_loaded),
            !old(self).is_loaded && old(self).room is Some && !room_is_loaded
                ==> final(self).all_rooms_loaded == all_rooms_loaded,
            !(!old(self).is_loaded && old(self).room is Some && !room_is_loaded)
                ==> final(self).all_rooms_loaded == old(self).all_rooms_loaded,
            final(self).invite_state == old(self).invite_state,
            final(self).info == old(self).info,
            final(self).room == old(self).room,
            final(self).is_loaded == old(self).is_loaded,
            final(self).is_space == old(self).is_space,
    {
        if !self.is_loaded && self.room.is_some() {
            if !room_is_loaded {
                self.all_rooms_loaded = all_rooms_loaded;
                return false;
            }
            return true;
        }
        false
    }

    /// More is known of who sent the invite to `room_id`.
    pub fn inviter_info_updated(&mut self, room_id: &str, inviter: InviterInfo)
        ensures
            final(self).invite_state == old(self).invite_state,
            final(self).room == old(self).room,
            final(self).is_loaded == old(self).is_loaded,
            final(self).all_rooms_loaded == old(self).all_rooms_loaded,
            final(self).is_space == old(self).is_space,
            is_room(old(self).room, room_id@) && old(self).info is Some ==> (final(self).info matches Some(d)
                && old(self).info matches Some(d0) && d.room_id == d0.room_id && d.room_label == d0.room_label
                && d.inviter == Some(inviter)),
            !(is_room(old(self).room, room_id@) && old(self).info is Some) ==> final(self).info == old(self).info,
    {
        let matches_room = match &self.room {
            Some(r) => r.0 == String::from_str(room_id),
            None => false,
        };
        if matches_room {
            match self.info.take() {
                Some(d) => {
                    self.info = Some(InviteDetails { room_id: d.room_id, room_label: d.room_label, inviter: Some(inviter) });
                },
                None => {},
            }
        }
    }

    /// It is now known whether the invite to `room_id` is for a space.
    pub fn is_space_updated(&mut self, room_id: &str, is_space: bool)
        ensures
            final(self).is_space == (if is_room(old(self).room, room_id@) { is_space } else { old(self).is_space }),
            final(self).invite_state == old(self).invite_state,
            final(self).info == old(self).info,
            final(self).room == old(self).room,
            final(self).is_loaded == old(self).is_loaded,
            final(self).all_rooms_loaded == old(self).all_rooms_loaded,
    {
        let matches_room = match &self.room {
            Some(r) => r.0 == String::from_str(room_id),
            None => false,
        };
        if matches_room {
            self.is_space = is_space;
        }
    }

    /// A click on "reject" (`shift`: held with shift): a shift-click sends
    /// the leave request at once and waits for its result; a plain click
    /// opens the confirmation dialog.
    pub fn cancel_clicked(&mut self, shift: bool) -> (r: InviteClickEffect)
        ensures
            old(self).info is None ==> r is NoInvite && final(self).invite_state == old(self).invite_state,
            old(self).info matches Some(d) ==> if shift {
                (r matches InviteClickEffect::SendRequest(id) && id@ == d.room_id@)
                    && final(self).invite_state == InviteState::WaitingForLeaveResult
            } else {
                (r matches InviteClickEffect::OpenDialog(id) && id@ == d.room_id@)
                    && final(self).invite_state == old(self).invite_state
            },
            final(self).info == old(self).info,
            final(self).room == old(self).room,
            final(self).is_loaded == old(self).is_loaded,
            final(self).all_rooms_loaded == old(self).all_rooms_loaded,
            final(self).is_space == old(self).is_space,
    {
        let id = match &self.info {
            Some(d) => d.room_id.clone(),
            None => return InviteClickEffect::NoInvite,
        };
        if shift {
            self.invite_state = InviteState::WaitingForLeaveResult;
            InviteClickEffect::SendRequest(id)
        } else {
            InviteClickEffect::OpenDialog(id)
        }
    }

    /// A click on "join": as `cancel_clicked`, with the join request.
    pub fn accept_clicked(&mut self, shift: bool) -> (r: InviteClickEffect)
        ensures
            old(self).info is None ==> r is NoInvite && final(self).invite_state == old(self).invite_state,
            old(self).info matches Some(d) ==> if shift {
                (r matches InviteClickEffect::SendRequest(id) && id@ == d.room_id@)
                    && final(self).invite_state == InviteState::WaitingForJoinResult
            } else {
                (r matches InviteClickEffect::OpenDialog(id) && id@ == d.room_id@)
                    && final(self).invite_state == old(self).invite_state
            },
            final(self).info == old(self).info,
            final(self).room == old(self).room,
            final(self).is_loaded == old(self).is_loaded,
            final(self).all_rooms_loaded == old(self).all_rooms_loaded,
            final(self).is_space == old(self).is_space,
    {
        let id = match &self.info {
            Some(d) => d.room_id.clone(),
            None => return InviteClickEffect::NoInvite,
        };
        if shift {
            self.invite_state = InviteState::WaitingForJoinResult;
            InviteClickEffect::SendRequest(id)
        } else {
            InviteClickEffect::OpenDialog(id)
        }
    }

    fn is_current(&self, room_id: &str) -> (r: bool)
        ensures
            r == (self.info matches Some(d) && d.room_id@ == room_id@),
    {
        match &self.info {
            Some(d) => d.room_id == String::from_str(room_id),
            None => false,
        }
    }

    /// The result of a join request for `room_id`: joined (waiting for the
    /// room), or failed (the user decides again). Replies for other rooms
    /// change nothing.
    pub fn join_result(&mut self, room_id: &str, joined: bool)
        ensures
            final(self).invite_state == (if old(self).info matches Some(d) && d.room_id@ == room_id@ {
                if joined { InviteState::WaitingForJoinedRoom } else { InviteState::WaitingOnUserInput }
            } else {
                old(self).invite_state
            }),
            final(self).info == old(self).info,
            final(self).room == old(self).room,
            final(self).is_loaded == old(self).is_loaded,
            final(self).all_rooms_loaded == old(self).all_rooms_loaded,
            final(self).is_space == old(self).is_space,
    {
        if self.is_current(room_id) {
            self.invite_state = if joined { InviteState::WaitingForJoinedRoom } else { InviteState::WaitingOnUserInput };
        }
    }

    /// The result of a leave request for `room_id`: left, or failed.
    pub fn leave_result(&mut self, room_id: &str, left: bool)
        ensures
            final(self).invite_state == (if old(self).info matches Some(d) && d.room_id@ == room_id@ {
                if left { InviteState::RoomLeft } else { InviteState::WaitingOnUserInput }
            } else {
                old(self).invite_state
            }),
            final(self).info == old(self).info,
            final(self).room == old(self).room,
            final(self).is_loaded == old(self).is_loaded,
            final(self).all_rooms_loaded == old(self).all_rooms_loaded,
            final(self).is_space == old(self).is_space,
    {
        if self.is_current(room_id) {
            self.invite_state = if left { InviteState::RoomLeft } else { InviteState::WaitingOnUserInput };
        }
    }

    /// The confirmation dialog for `room_id` closed; `recorded` is the state
    /// that the invited-rooms list holds for it now, if any.
    pub fn dialog_closed(&mut self, room_id: &str, recorded: Option<InviteState>)
        ensures
            final(self).invite_state == (if old(self).info matches Some(d) && d.room_id@ == room_id@ && recorded is Some {
                recorded->0
            } else {
                old(self).invite_state
            }),
            final(self).info == old(self).info,
            final(self).room == old(self).room,
            final(self).is_loaded == old(self).is_loaded,
            final(self).all_rooms_loaded == old(self).all_rooms_loaded,
            final(self).is_space == old(self).is_space,
    {
        if self.is_current(room_id) {
            if let Some(s) = recorded {
                self.invite_state = s;
            }
        }
    }

    /// What the screen shows.
    pub fn view_model(&self) -> (v: InviteView)
        ensures
            !self.is_loaded ==> (v matches InviteView::Restoring { room_label, all_rooms_loaded }
                && all_rooms_loaded == self.all_rooms_loaded
                && match self.room {
                    Some(r) => room_label matches Some(l) && l@ == r.1@,
                    None => room_label is None,
                }),
            self.is_loaded && self.info is None ==> v is Empty,
            self.is_loaded ==> (self.info matches Some(d) ==> (v matches InviteView::Invite {
                inviter_visible, inviter_avatar_text, inviter_name, inviter_user_id, invite_message, room_label, buttons }
                && room_label@ == d.room_label@
                && (buttons.visible, buttons.enabled, buttons.cancel_text@, buttons.accept_text@, buttons.completion@)
                    == buttons_for(self.invite_state, self.is_space)
                && match d.inviter {
                    Some(i) => inviter_visible && invite_message@ == "has invited you to join:"@
                        && match i.display_name {
                            Some(n) => inviter_avatar_text@ == n@ && inviter_name@ == n@
                                && (inviter_user_id matches Some(u) && u@ == i.user_id@),
                            None => inviter_avatar_text@ == i.user_id@ && inviter_name@ == i.user_id@
                                && inviter_user_id is None,
                        },
                    None => !inviter_visible && invite_message@ == "You have been invited to join:"@
                        && inviter_avatar_text@.len() == 0 && inviter_name@.len() == 0 && inviter_user_id is None,
                })),
    {
        if !self.is_loaded {
            let room_label = match &self.room {
                Some(r) => Some(r.1.clone()),
                None => None,
            };
            return InviteView::Restoring { room_label, all_rooms_loaded: self.all_rooms_loaded };
        }
        let d = match &self.info {
            Some(d) => d,
            None => return InviteView::Empty,
        };
        let buttons = invite_buttons(self.invite_state, self.is_space);
        match &d.inviter {
            Some(i) => {
                let (avatar, name, uid) = match &i.display_name {
                    Some(n) => (n.clone(), n.clone(), Some(i.user_id.clone())),
                    None => (i.user_id.clone(), i.user_id.clone(), None),
                };
                InviteView::Invite {
                    inviter_visible: true,
                    inviter_avatar_text: avatar,
                    inviter_name: name,
                    inviter_user_id: uid,
                    invite_message: "has invited you to join:",
                    room_label: d.room_label.clone(),
                    buttons,
                }
            },
            None => InviteView::Invite {
                inviter_visible: false,
                inviter_avatar_text: String::new(),
                inviter_name: String::new(),
                inviter_user_id: None,
                invite_message: "You have been invited to join:",
                room_label: d.room_label.clone(),
                buttons,
            },
        }
    }
}

} // verus!
