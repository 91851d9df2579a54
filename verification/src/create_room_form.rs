//! The short "create a room" form of the add-room page and of a space's
//! lobby: when it can be submitted, the request it sends, and how it answers
//! the outcome.

use vstd::prelude::*;
use crate::text::{trimmed, trim_str, trim_chars};
use crate::add_room::{CreatableSpace, selected_creatable_space};

verus! {

/// Where the form is shown.
#[derive(Clone, Copy, Debug, PartialEq, Eq, Structural)]
pub enum CreateRoomContext {
    /// On the add-room page.
    AddRoomPage,
    /// In the modal of a space's lobby; rooms go into that space.
    SpaceLobbyModal,
}

/// The request to create a room.
#[derive(Debug, PartialEq, Eq)]
pub struct CreateRoomRequest {
    pub room_name: String,
    pub parent_space_id: Option<String>,
    pub context: CreateRoomContext,
}

/// The form's feedback line: its text, whether a spinner turns, whether it is an error.
#[derive(Debug, PartialEq, Eq)]
pub struct Feedback {
    pub text: String,
    pub spinner: bool,
    pub is_error: bool,
}

/// The kind of a popup.
#[derive(Clone, Copy, Debug, PartialEq, Eq, Structural)]
pub enum PopupTone {
    Success,
    Warning,
    Error,
}

/// What the creation of a room leads to.
#[derive(Debug, PartialEq, Eq)]
pub struct CreatedEffect {
    /// The popup to show.
    pub popup: String,
    pub tone: PopupTone,
    /// The space whose children to refresh.
    pub refresh_space: Option<String>,
    /// Whether to go to the new room now (it is loaded).
    pub navigate: bool,
    /// Whether to close the lobby's modal.
    pub close_modal: bool,
    /// The feedback to show while the new room loads.
    pub feedback: Option<Feedback>,
}

/// What a failed creation leads to.
#[derive(Debug, PartialEq, Eq)]
pub struct FailedEffect {
    pub feedback: Feedback,
    pub popup: String,
    /// Whether the "create" button is enabled again.
    pub button_enabled: bool,
}

/// The form's state.
#[derive(Debug)]
pub struct CreateRoomForm {
    pub context: CreateRoomContext,
    pub creating_room: bool,
    /// The room created, while it loads: its ID.
    pub pending_created_room: Option<String>,
    pub creatable_spaces: Vec<CreatableSpace>,
    pub preferred_parent_space_id: Option<String>,
    /// The space that rooms go into, in a lobby's modal.
    pub fixed_parent_space_id: Option<String>,
}

pub open spec fn opt_str(o: Option<String>) -> Option<Seq<char>> {
    match o {
        Some(s) => Some(s@),
        None => None,
    }
}

/// The parent space for a dropdown position: the fixed one, else the space
/// at that position.
pub open spec fn parent_space(fixed: Option<String>, spaces: Seq<CreatableSpace>, index: usize) -> Option<Seq<char>> {
    match fixed {
        Some(f) => Some(f@),
        None => if 1 <= index <= spaces.len() { Some(spaces[index - 1].room_id@) } else { None },
    }
}

pub const CREATING_ROOM_FEEDBACK: &'static str = "Creating room...";
pub const FIXED_PARENT_HELP: &'static str = "Enter a room name. It will be created directly in this space.";
pub const STANDALONE_HELP: &'static str =
    "Create a standalone room, or attach it under a space where you can create child rooms.";

impl CreateRoomForm {
    /// A form on the add-room page.
    pub fn new() -> (r: CreateRoomForm)
        ensures
            r.context == CreateRoomContext::AddRoomPage,
            !r.creating_room,
            r.pending_created_room is None,
            r.creatable_spaces@.len() == 0,
            r.preferred_parent_space_id is None,
            r.fixed_parent_space_id is None,
    {
        CreateRoomForm {
            context: CreateRoomContext::AddRoomPage,
            creating_room: false,
            pending_created_room: None,
            creatable_spaces: Vec::new(),
            preferred_parent_space_id: None,
            fixed_parent_space_id: None,
        }
    }

    /// Whether a request is under way: one sent, or a created room loading.
    pub fn is_busy(&self) -> (r: bool)
        ensures
            r == (self.creating_room || self.pending_created_room is Some),
    {
        self.creating_room || self.pending_created_room.is_some()
    }

    /// Whether the "create" button is enabled: the form is not busy and the
    /// name is not blank.
    pub fn can_submit(&self, name_text: &str) -> (r: bool)
        ensures
            r == (!(self.creating_room || self.pending_created_room is Some) && trimmed(name_text@).len() > 0),
    {
        !self.is_busy() && trim_chars(name_text).len() > 0
    }

    /// The parent space for the dropdown position `index`.
    pub fn selected_parent_space_id(&self, index: usize) -> (r: Option<String>)
        ensures
            opt_str(r) == parent_space(self.fixed_parent_space_id, self.creatable_spaces@, index),
    {
        match &self.fixed_parent_space_id {
            Some(f) => Some(f.clone()),
            None => selected_creatable_space(self.creatable_spaces.as_slice(), index),
        }
    }

    /// The dropdown moved to `index`: its space becomes the preferred parent.
    pub fn space_dropdown_changed(&mut self, index: usize)
        ensures
            opt_str(final(self).preferred_parent_space_id)
                == (if 1 <= index <= old(self).creatable_spaces@.len() {
                    Some(old(self).creatable_spaces@[index - 1].room_id@)
                } else {
                    None
                }),
            final(self).fixed_parent_space_id == old(self).fixed_parent_space_id,
            final(self).creating_room == old(self).creating_room,
            final(self).pending_created_room == old(self).pending_created_room,
            final(self).creatable_spaces@ == old(self).creatable_spaces@,
            final(self).context == old(self).context,
    {
        self.preferred_parent_space_id = selected_creatable_space(self.creatable_spaces.as_slice(), index);
    }

    /// The creatable spaces were loaded.
    pub fn spaces_loaded(&mut self, spaces: Vec<CreatableSpace>)
        ensures
            final(self).creatable_spaces@ == spaces@,
            final(self).preferred_parent_space_id == old(self).preferred_parent_space_id,
            final(self).fixed_parent_space_id == old(self).fixed_parent_space_id,
            final(self).creating_room == old(self).creating_room,
            final(self).pending_created_room == old(self).pending_created_room,
            final(self).context == old(self).context,
    {
        self.creatable_spaces = spaces;
    }

    /// Readies the form: in a lobby's modal the preferred space is fixed.
    /// Returns whether the creatable spaces must be fetched (when no space is
    /// fixed).
    pub fn prepare(&mut self, preferred_parent_space_id: Option<String>, context: CreateRoomContext) -> (fetch_spaces: bool)
        ensures
            final(self).context == context,
            !final(self).creating_room,
            final(self).pending_created_room is None,
            final(self).preferred_parent_space_id == preferred_parent_space_id,
            final(self).fixed_parent_space_id == (if context == CreateRoomContext::SpaceLobbyModal {
                preferred_parent_space_id
            } else {
                None
            }),
            final(self).creatable_spaces@ == old(self).creatable_spaces@,
            fetch_spaces == final(self).fixed_parent_space_id is None,
    {
        self.context = context;
        self.creating_room = false;
        self.pending_created_room = None;
        self.fixed_parent_space_id = match context {
            CreateRoomContext::SpaceLobbyModal => match &preferred_parent_space_id {
                Some(p) => Some(p.clone()),
                None => None,
            },
            CreateRoomContext::AddRoomPage => None,
        };
        self.preferred_parent_space_id = preferred_parent_space_id;
        self.fixed_parent_space_id.is_none()
    }

    /// The help text above the form.
    pub fn help_text(&self) -> (r: &'static str)
        ensures
            r@ == (if self.fixed_parent_space_id is Some { FIXED_PARENT_HELP@ } else { STANDALONE_HELP@ }),
    {
        if self.fixed_parent_space_id.is_some() { FIXED_PARENT_HELP } else { STANDALONE_HELP }
    }

    /// A click on "create" (or Enter) with `name_text` typed and the
    /// dropdown at `index`: when the form can be submitted, the request (the
    /// name trimmed) goes out and the form is busy.
    pub fn submit(&mut self, name_text: &str, index: usize) -> (r: Option<CreateRoomRequest>)
        ensures
            !(!(old(self).creating_room || old(self).pending_created_room is Some) && trimmed(name_text@).len() > 0)
                ==> r is None && final(self).creating_room == old(self).creating_room,
            (!(old(self).creating_room || old(self).pending_created_room is Some) && trimmed(name_text@).len() > 0)
                ==> (r matches Some(q) && q.room_name@ == trimmed(name_text@)
                    && opt_str(q.parent_space_id) == parent_space(old(self).fixed_parent_space_id, old(self).creatable_spaces@, index)
                    && q.context == old(self).context)
                && final(self).creating_room,
            final(self).pending_created_room == old(self).pending_created_room,
            final(self).creatable_spaces@ == old(self).creatable_spaces@,
            final(self).preferred_parent_space_id == old(self).preferred_parent_space_id,
            final(self).fixed_parent_space_id == old(self).fixed_parent_space_id,
            final(self).context == old(self).context,
    {
        if !self.can_submit(name_text) {
            return None;
        }
        let room_name = trim_str(name_text);
        let parent_space_id = self.selected_parent_space_id(index);
        self.creating_room = true;
        Some(CreateRoomRequest { room_name, parent_space_id, context: self.context })
    }

    /// A room `room_id` (shown as `room_label`) was created from a form in
    /// `context`; `room_is_loaded` tells whether the rooms list has it already.
    /// Outcomes for a form in another context are not this form's.
    pub fn room_created(
        &mut self,
        context: CreateRoomContext,
        room_id: String,
        room_label: &str,
        parent_space_id: Option<String>,
        space_link_error: Option<String>,
        room_is_loaded: bool,
    ) -> (r: Option<CreatedEffect>)
        ensures
            context != old(self).context ==> r is None && final(self).creating_room == old(self).creating_room
                && final(self).pending_created_room == old(self).pending_created_room,
            context == old(self).context ==> (r matches Some(e)
                && e.popup@ == "Successfully created room \""@ + room_label@ + "\"."@ + match space_link_error {
                    Some(err) => "\n\nThe room was created, but it could not be linked into the selected space.\nError: "@ + err@,
                    None => Seq::<char>::empty(),
                }
                && e.tone == (if space_link_error is Some { PopupTone::Warning } else { PopupTone::Success })
                && e.refresh_space == parent_space_id
                && e.navigate == room_is_loaded
                && e.close_modal == (room_is_loaded && context == CreateRoomContext::SpaceLobbyModal)
                && (room_is_loaded ==> e.feedback is None)
                && (!room_is_loaded ==> (e.feedback matches Some(f) && f.spinner && !f.is_error
                    && f.text@ == (match (parent_space_id, space_link_error) {
                        (Some(_), None) => "Room created. Syncing it into the space..."@,
                        (Some(_), Some(_)) => "Room created, but linking it into the space failed. Opening the room..."@,
                        (None, _) => "Room created. Opening the room..."@,
                    }))))
                && !final(self).creating_room
                && final(self).pending_created_room == (if room_is_loaded { old(self).pending_created_room } else { Some(room_id) }),
            final(self).creatable_spaces@ == old(self).creatable_spaces@,
            final(self).preferred_parent_space_id == old(self).preferred_parent_space_id,
            final(self).fixed_parent_space_id == old(self).fixed_parent_space_id,
            final(self).context == old(self).context,
    {
        if context != self.context {
            return None;
        }
        self.creating_room = false;
        let mut popup = String::from_str("Successfully created room \"");
        popup.append(room_label);
        popup.append("\".");
        let tone = match &space_link_error {
            Some(err) => {
                popup.append("\n\nThe room was created, but it could not be linked into the selected space.\nError: ");
                popup.append(err.as_str());
                PopupTone::Warning
            },
            None => PopupTone::Success,
        };
        let feedback = if room_is_loaded {
            None
        } else {
            let text = match (&parent_space_id, &space_link_error) {
                (Some(_), None) => "Room created. Syncing it into the space...",
                (Some(_), Some(_)) => "Room created, but linking it into the space failed. Opening the room...",
                (None, _) => "Room created. Opening the room...",
            };
            self.pending_created_room = Some(room_id);
            Some(Feedback { text: String::from_str(text), spinner: true, is_error: false })
        };
        let close_modal = room_is_loaded && context == CreateRoomContext::SpaceLobbyModal;
        Some(CreatedEffect {
            popup,
            tone,
            refresh_space: parent_space_id,
            navigate: room_is_loaded,
            close_modal,
            feedback,
        })
    }

    /// Creating `room_name` from a form in `context` failed with `error`;
    /// `name_text` is what the name input holds now.
    pub fn room_failed(&mut self, context: CreateRoomContext, room_name: &str, error: &str, name_text: &str) -> (r: Option<FailedEffect>)
        ensures
            context != old(self).context ==> r is None && final(self).creating_room == old(self).creating_room,
            context == old(self).context ==> (r matches Some(e)
                && e.feedback.text@ == "Failed to create room: "@ + error@ && !e.feedback.spinner && e.feedback.is_error
                && e.popup@ == "Failed to create room \""@ + room_name@ + "\".\n\nError: "@ + error@
                && e.button_enabled == (trimmed(name_text@).len() > 0))
                && !final(self).creating_room,
            final(self).pending_created_room == old(self).pending_created_room,
            final(self).creatable_spaces@ == old(self).creatable_spaces@,
            final(self).preferred_parent_space_id == old(self).preferred_parent_space_id,
            final(self).fixed_parent_space_id == old(self).fixed_parent_space_id,
            final(self).context == old(self).context,
    {
        if context != self.context {
            return None;
        }
        self.creating_room = false;
        let mut text = String::from_str("Failed to create room: ");
        text.append(error);
        let mut popup = String::from_str("Failed to create room \"");
        popup.append(room_name);
        popup.append("\".\n\nError: ");
        popup.append(error);
        Some(FailedEffect {
            feedback: Feedback { text, spinner: false, is_error: true },
            popup,
            button_enabled: trim_chars(name_text).len() > 0,
        })
    }

    /// The room `room_id` finished loading: when it is the created room the
    /// form waits for, the form goes to it (closing a lobby's modal) and is
    /// no longer busy. Returns whether to go to the room and whether to close
    /// the modal.
    pub fn room_loaded(&mut self, room_id: &str) -> (r: Option<bool>)
        ensures
            (old(self).pending_created_room matches Some(p) && p@ == room_id@) ==> final(self).pending_created_room is None
                && r == Some(old(self).context == CreateRoomContext::SpaceLobbyModal),
            !(old(self).pending_created_room matches Some(p) && p@ == room_id@) ==> r is None
                && final(self).pending_created_room == old(self).pending_created_room,
            final(self).creating_room == old(self).creating_room,
            final(self).creatable_spaces@ == old(self).creatable_spaces@,
            final(self).context == old(self).context,
    {
        let waiting = match &self.pending_created_room {
            Some(p) => *p == String::from_str(room_id),
            None => false,
        };
        if !waiting {
            return None;
        }
        self.pending_created_room = None;
        Some(self.context == CreateRoomContext::SpaceLobbyModal)
    }
}

} // verus!
