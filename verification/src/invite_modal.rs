//! The dialog that invites a user to a room: the typed user ID, the request,
//! and its result.

use vstd::prelude::*;
use crate::ids::{parse_user_id, ruma_accepts_user_id};

verus! {

/// Where the dialog stands.
#[derive(Debug, PartialEq, Eq)]
pub enum InviteModalState {
    /// Waiting for the user to enter a user ID.
    WaitingForUserInput,
    /// Waiting for the invite of this user to be sent.
    WaitingForInvite(String),
    /// The invite was sent.
    InviteSuccess,
    /// The invite failed.
    InviteError,
}

/// The color of the status line.
#[derive(Clone, Copy, Debug, PartialEq, Eq, Structural)]
pub enum StatusTone {
    Danger,
    Active,
    Accept,
}

/// The dialog: its state and the room it invites to (ID and label).
#[derive(Debug)]
pub struct InviteModalModel {
    pub state: InviteModalState,
    pub room: Option<(String, String)>,
}

/// What submitting the typed user ID leads to.
#[derive(Debug, PartialEq, Eq)]
pub enum InviteSubmit {
    /// Nothing was typed: a status in red.
    Empty,
    /// `ruma` refused the user ID: a status in red, and the input takes the focus.
    Invalid,
    /// The invite request for this room and user is sent; the status says so
    /// and the input and button are locked.
    Send { room_id: String, user_id: String },
    /// The ID is valid but the dialog has no room: nothing happens.
    NoRoom,
}

/// How the dialog answers the result of an invite request.
#[derive(Debug, PartialEq, Eq)]
pub enum InviteResultView {
    /// The invite went out: a green status; only the "okay" button is left.
    Success(String),
    /// It failed: a red status; the input and button are unlocked again.
    Failure(String),
}

pub const EMPTY_USER_ID_STATUS: &'static str = "Please enter a user ID.";
pub const INVALID_USER_ID_STATUS: &'static str = "Invalid User ID. Expected format: @user:server.xyz";
pub const SENDING_STATUS: &'static str = "Sending invite...";

impl InviteModalModel {
    /// A closed dialog.
    pub fn new() -> (r: InviteModalModel)
        ensures
            r.state == InviteModalState::WaitingForUserInput,
            r.room is None,
    {
        InviteModalModel { state: InviteModalState::WaitingForUserInput, room: None }
    }

    /// Opens the dialog for a room; returns its title.
    pub fn show(&mut self, room_id: String, room_label: String) -> (title: String)
        ensures
            final(self).state == InviteModalState::WaitingForUserInput,
            final(self).room == (Some((room_id, room_label))),
            title@ == "Invite to "@ + room_label@,
    {
        let mut title = String::from_str("Invite to ");
        title.append(room_label.as_str());
        self.state = InviteModalState::WaitingForUserInput;
        self.room = Some((room_id, room_label));
        title
    }

    /// A click on "invite" (or Enter) with `user_id` typed.
    pub fn submit(&mut self, user_id: &str) -> (r: InviteSubmit)
        ensures
            user_id@.len() == 0 ==> r is Empty && final(self).state == old(self).state,
            user_id@.len() > 0 && !ruma_accepts_user_id(user_id@) ==> r is Invalid && final(self).state == old(self).state,
            user_id@.len() > 0 && ruma_accepts_user_id(user_id@) ==> match old(self).room {
                Some(rm) => (r matches InviteSubmit::Send { room_id, user_id: u } && room_id@ == rm.0@ && u@ == user_id@)
                    && (final(self).state matches InviteModalState::WaitingForInvite(w) && w@ == user_id@),
                None => r is NoRoom && final(self).state == old(self).state,
            },
            final(self).room == old(self).room,
    {
        if user_id.is_empty() {
            return InviteSubmit::Empty;
        }
        let uid = match parse_user_id(user_id) {
            Ok(u) => u,
            Err(_) => return InviteSubmit::Invalid,
        };
        match &self.room {
            Some(rm) => {
                let room_id = rm.0.clone();
                self.state = InviteModalState::WaitingForInvite(uid.clone());
                InviteSubmit::Send { room_id, user_id: uid }
            },
            None => InviteSubmit::NoRoom,
        }
    }

    /// The result of an invite request of `user_id` to `room_id` (`Err` with
    /// the error's text when it failed); nothing unless the dialog waits for
    /// exactly that invite.
    pub fn invite_result(&mut self, room_id: &str, user_id: &str, result: Result<(), String>) -> (r: Option<InviteResultView>)
        ensures
            (old(self).state matches InviteModalState::WaitingForInvite(w) && w@ == user_id@
                && (old(self).room matches Some(rm) && rm.0@ == room_id@)) ==> match result {
                Ok(()) => (r matches Some(InviteResultView::Success(m)) && m@ == "Successfully invited "@ + user_id@ + "!"@)
                    && final(self).state == InviteModalState::InviteSuccess,
                Err(e) => (r matches Some(InviteResultView::Failure(m)) && m@ == "Failed to send invite: "@ + e@)
                    && final(self).state == InviteModalState::InviteError,
            },
            !(old(self).state matches InviteModalState::WaitingForInvite(w) && w@ == user_id@
                && (old(self).room matches Some(rm) && rm.0@ == room_id@)) ==> r is None && final(self).state == old(self).state,
            final(self).room == old(self).room,
    {
        let waiting = match &self.state {
            InviteModalState::WaitingForInvite(w) => *w == String::from_str(user_id),
            _ => false,
        };
        let same_room = match &self.room {
            Some(rm) => rm.0 == String::from_str(room_id),
            None => false,
        };
        if !(waiting && same_room) {
            return None;
        }
        match result {
            Ok(()) => {
                let mut m = String::from_str("Successfully invited ");
                m.append(user_id);
                m.append("!");
                self.state = InviteModalState::InviteSuccess;
                Some(InviteResultView::Success(m))
            },
            Err(e) => {
                let mut m = String::from_str("Failed to send invite: ");
                m.append(e.as_str());
                self.state = InviteModalState::InviteError;
                Some(InviteResultView::Failure(m))
            },
        }
    }
}

} // verus!
