//! The pane shown while older messages are searched for a target event.

use vstd::prelude::*;
use crate::text::{decimal, push_decimal, views, remove_all_equal};

verus! {

/// The message shown when the target event could not be found in the
/// history of a room or thread (`noun`).
pub open spec fn not_found_text(noun: Seq<char>) -> Seq<char> {
    "Couldn't find that event in this "@ + noun
        + "'s history.\n\nIt may have been deleted, or the homeserver may not be able to return it."@
}

pub fn jump_target_not_found_msg(noun: &str) -> (r: String)
    ensures
        r@ == not_found_text(noun@),
{
    let mut r = String::from_str("Couldn't find that event in this ");
    r.append(noun);
    r.append("'s history.\n\nIt may have been deleted, or the homeserver may not be able to return it.");
    r
}

/// What the pane is doing. `S` is the sender through which a search is
/// cancelled.
pub enum LoadingPaneState<S> {
    /// Older messages are fetched until the target event is reached.
    BackwardsPaginateUntilEvent {
        target_event_id: String,
        /// What is being searched for, for the user.
        description: String,
        /// The number of events fetched so far.
        events_paginated: usize,
        /// "room" or "thread".
        timeline_noun: &'static str,
        request_sender: S,
    },
    /// An error is shown until the user closes the pane.
    Error(String),
    /// The pane does nothing and can be hidden.
    Inactive,
}

/// The loading pane.
pub struct LoadingPane<S> {
    pub state: LoadingPaneState<S>,
    pub visible: bool,
}

/// The texts the pane shows: title, status and button.
pub open spec fn pane_texts<S>(st: LoadingPaneState<S>) -> Option<(Seq<char>, Seq<char>, Seq<char>)> {
    match st {
        LoadingPaneState::BackwardsPaginateUntilEvent { description, events_paginated, .. } => Some((
            "Searching older messages..."@,
            "Looking for "@ + description@ + "...\n\nFetched "@ + decimal(events_paginated as nat) + " messages so far..."@,
            "Cancel"@,
        )),
        LoadingPaneState::Error(e) => Some(("Error loading content"@, e@, "Okay"@)),
        LoadingPaneState::Inactive => None,
    }
}

/// The target and sender of a search in progress, if the state is one.
pub open spec fn search_of<S>(st: LoadingPaneState<S>) -> Option<(String, S)> {
    match st {
        LoadingPaneState::BackwardsPaginateUntilEvent { target_event_id, request_sender, .. } => Some((target_event_id, request_sender)),
        _ => None,
    }
}

fn into_search<S>(st: LoadingPaneState<S>) -> (r: Option<(String, S)>)
    ensures
        r == search_of(st),
{
    match st {
        LoadingPaneState::BackwardsPaginateUntilEvent { target_event_id, request_sender, .. } => Some((target_event_id, request_sender)),
        _ => None,
    }
}

impl<S> LoadingPane<S> {
    pub fn new() -> (r: LoadingPane<S>)
        ensures
            r.state is Inactive,
            !r.visible,
    {
        LoadingPane { state: LoadingPaneState::Inactive, visible: false }
    }

    /// Whether the pane is shown.
    pub fn is_currently_shown(&self) -> (r: bool)
        ensures
            r == self.visible,
    {
        self.visible
    }

    /// Whether the pane is searching for an event.
    pub fn is_searching(&self) -> (r: bool)
        ensures
            r == self.state is BackwardsPaginateUntilEvent,
    {
        match &self.state {
            LoadingPaneState::BackwardsPaginateUntilEvent { .. } => true,
            _ => false,
        }
    }

    /// The event searched for, if any.
    pub fn searching_for(&self) -> (r: Option<String>)
        ensures
            match self.state {
                LoadingPaneState::BackwardsPaginateUntilEvent { target_event_id, .. } => r == Some(target_event_id),
                _ => r is None,
            },
    {
        match &self.state {
            LoadingPaneState::BackwardsPaginateUntilEvent { target_event_id, .. } => Some(target_event_id.clone()),
            _ => None,
        }
    }

    /// Whether the pane is searching for the given event.
    pub fn is_searching_for(&self, target_event_id: &str) -> (r: bool)
        ensures
            r == (self.state matches LoadingPaneState::BackwardsPaginateUntilEvent { target_event_id: id, .. }
                && id@ == target_event_id@),
    {
        match &self.state {
            LoadingPaneState::BackwardsPaginateUntilEvent { target_event_id: id, .. } => *id == String::from_str(target_event_id),
            _ => false,
        }
    }

    /// Shows the pane and starts searching for the given event. A search in
    /// progress is cancelled: its target and sender are handed back, and the
    /// caller drops that target's pending requests (see
    /// `cancel_search_requests`) through that sender.
    pub fn start_search(&mut self, target_event_id: String, description: String, timeline_noun: &'static str, request_sender: S)
        -> (cancelled: Option<(String, S)>)
        ensures
            final(self).state == (LoadingPaneState::BackwardsPaginateUntilEvent {
                target_event_id,
                description,
                events_paginated: 0,
                timeline_noun,
                request_sender,
            }),
            final(self).visible,
            cancelled == search_of(old(self).state),
    {
        let mut st = LoadingPaneState::BackwardsPaginateUntilEvent {
            target_event_id,
            description,
            events_paginated: 0,
            timeline_noun,
            request_sender,
        };
        std::mem::swap(&mut self.state, &mut st);
        self.visible = true;
        into_search(st)
    }

    /// Adds `num_events` to the progress of a search in progress (it adds,
    /// it does not replace); nothing otherwise.
    pub fn paginated_more_events(&mut self, num_events: usize)
        requires
            old(self).state matches LoadingPaneState::BackwardsPaginateUntilEvent { events_paginated, .. }
                ==> events_paginated + num_events <= usize::MAX,
        ensures
            final(self).visible == old(self).visible,
            match old(self).state {
                LoadingPaneState::BackwardsPaginateUntilEvent { target_event_id, description, events_paginated, timeline_noun, request_sender } =>
                    final(self).state == (LoadingPaneState::BackwardsPaginateUntilEvent {
                        target_event_id,
                        description,
                        events_paginated: (events_paginated + num_events) as usize,
                        timeline_noun,
                        request_sender,
                    }),
                _ => final(self).state == old(self).state,
            },
    {
        if let LoadingPaneState::BackwardsPaginateUntilEvent { events_paginated, .. } = &mut self.state {
            *events_paginated = *events_paginated + num_events;
        }
    }

    /// Replaces the sender of the search in progress; nothing otherwise.
    pub fn set_timeline_request_sender(&mut self, request_sender: S)
        ensures
            final(self).visible == old(self).visible,
            match old(self).state {
                LoadingPaneState::BackwardsPaginateUntilEvent { target_event_id, description, events_paginated, timeline_noun, .. } =>
                    final(self).state == (LoadingPaneState::BackwardsPaginateUntilEvent {
                        target_event_id,
                        description,
                        events_paginated,
                        timeline_noun,
                        request_sender,
                    }),
                _ => final(self).state == old(self).state,
            },
    {
        if let LoadingPaneState::BackwardsPaginateUntilEvent { request_sender: sender, .. } = &mut self.state {
            *sender = request_sender;
        }
    }

    /// Ends the search in progress with the error that the event was not
    /// found, and hands back its target and sender so that the caller cancels
    /// its pending requests; nothing when no search is in progress.
    pub fn search_failed(&mut self) -> (cancelled: Option<(String, S)>)
        ensures
            final(self).visible == old(self).visible,
            match old(self).state {
                LoadingPaneState::BackwardsPaginateUntilEvent { timeline_noun, .. } =>
                    final(self).state matches LoadingPaneState::Error(e) && e@ == not_found_text(timeline_noun@),
                _ => final(self).state == old(self).state,
            },
            cancelled == search_of(old(self).state),
    {
        let msg = match &self.state {
            LoadingPaneState::BackwardsPaginateUntilEvent { timeline_noun, .. } => Some(jump_target_not_found_msg(timeline_noun)),
            _ => None,
        };
        match msg {
            Some(m) => {
                let mut st = LoadingPaneState::Error(m);
                std::mem::swap(&mut self.state, &mut st);
                into_search(st)
            },
            None => None,
        }
    }

    /// Hides the pane and ends any search, handing back its target and sender
    /// so that the caller cancels its pending requests.
    pub fn hide_pane(&mut self) -> (cancelled: Option<(String, S)>)
        ensures
            final(self).state is Inactive,
            !final(self).visible,
            cancelled == search_of(old(self).state),
    {
        let mut st = LoadingPaneState::Inactive;
        std::mem::swap(&mut self.state, &mut st);
        self.visible = false;
        into_search(st)
    }

    /// The title, status and button texts of the pane, if it shows any.
    pub fn populate(&self) -> (r: Option<(&'static str, String, &'static str)>)
        ensures
            match pane_texts(self.state) {
                Some(t) => r matches Some(x) && x.0@ == t.0 && x.1@ == t.1 && x.2@ == t.2,
                None => r is None,
            },
    {
        match &self.state {
            LoadingPaneState::BackwardsPaginateUntilEvent { description, events_paginated, .. } => {
                let mut s = String::from_str("Looking for ");
                s.append(description.as_str());
                s.append("...\n\nFetched ");
                push_decimal(&mut s, *events_paginated);
                s.append(" messages so far...");
                Some(("Searching older messages...", s, "Cancel"))
            },
            LoadingPaneState::Error(e) => Some(("Error loading content", e.clone(), "Okay")),
            LoadingPaneState::Inactive => None,
        }
    }
}

// ---------------------------------------------------------------------------
// The loading modal
// ---------------------------------------------------------------------------

/// What the loading modal does.
pub enum LoadingModalState<S> {
    /// The room is paginated backwards until the target event shows up.
    BackwardsPaginateUntilEvent { target_event_id: String, events_paginated: usize, request_sender: S },
    /// An error, shown until the user closes the modal.
    Error(String),
    /// Nothing: the modal can be hidden.
    Inactive,
}

/// The title, status and button text that the modal shows in a state; none
/// when it does nothing.
pub open spec fn modal_texts<S>(st: LoadingModalState<S>) -> Option<(Seq<char>, Seq<char>, Seq<char>)> {
    match st {
        LoadingModalState::BackwardsPaginateUntilEvent { target_event_id, events_paginated, .. } => Some((
            "Searching older messages..."@,
            "Looking for event "@ + target_event_id@ + "\n\nFetched "@ + decimal(events_paginated as nat)
                + " messages so far..."@,
            "Cancel"@,
        )),
        LoadingModalState::Error(e) => Some(("Error loading content"@, e@, "Okay"@)),
        LoadingModalState::Inactive => None,
    }
}

/// The texts that the modal shows for a state (see `modal_texts`).
pub fn loading_modal_texts<S>(st: &LoadingModalState<S>) -> (r: Option<(&'static str, String, &'static str)>)
    ensures
        match modal_texts(*st) {
            Some(t) => r matches Some(x) && x.0@ == t.0 && x.1@ == t.1 && x.2@ == t.2,
            None => r is None,
        },
{
    match st {
        LoadingModalState::BackwardsPaginateUntilEvent { target_event_id, events_paginated, .. } => {
            let mut s = String::from_str("Looking for event ");
            s.append(target_event_id.as_str());
            s.append("\n\nFetched ");
            push_decimal(&mut s, *events_paginated);
            s.append(" messages so far...");
            Some(("Searching older messages...", s, "Cancel"))
        },
        LoadingModalState::Error(e) => Some(("Error loading content", e.clone(), "Okay")),
        LoadingModalState::Inactive => None,
    }
}

/// Cancels the search for `target`: the pending search requests for it
/// (listed by their target events) are dropped. Returns whether any was,
/// in which case the timeline is told to stop looking.
pub fn cancel_search_requests(requests: &mut Vec<String>, target: &str) -> (changed: bool)
    ensures
        views(final(requests)@) == views(old(requests)@).filter(|x: Seq<char>| x != target@),
        changed == views(old(requests)@).contains(target@),
{
    remove_all_equal(requests, target)
}

/// Cancels the search that `start_search`, `search_failed` or `hide_pane`
/// handed back, if any: its target's pending requests are dropped from
/// `pending`, the requests waiting in its sender. Returns whether any was.
pub fn cancel_replaced_search<S>(replaced: Option<(String, S)>, pending: &mut Vec<String>) -> (changed: bool)
    ensures
        match replaced {
            Some(p) => views(final(pending)@) == views(old(pending)@).filter(|x: Seq<char>| x != p.0@)
                && changed == views(old(pending)@).contains(p.0@),
            None => final(pending)@ == old(pending)@ && !changed,
        },
{
    match replaced {
        Some((target, _sender)) => cancel_search_requests(pending, target.as_str()),
        None => false,
    }
}

impl<S> LoadingPane<S> {
    /// Shows the pane and starts searching for the given event; the search it
    /// replaces, if any, is cancelled: its target's requests are dropped from
    /// `pending`. Returns whether any was.
    pub fn start_search_cancelling(&mut self, target_event_id: String, description: String, timeline_noun: &'static str,
        request_sender: S, pending: &mut Vec<String>) -> (changed: bool)
        ensures
            final(self).state == (LoadingPaneState::BackwardsPaginateUntilEvent {
                target_event_id,
                description,
                events_paginated: 0,
                timeline_noun,
                request_sender,
            }),
            final(self).visible,
            match search_of(old(self).state) {
                Some(p) => views(final(pending)@) == views(old(pending)@).filter(|x: Seq<char>| x != p.0@)
                    && changed == views(old(pending)@).contains(p.0@),
                None => final(pending)@ == old(pending)@ && !changed,
            },
    {
        let replaced = self.start_search(target_event_id, description, timeline_noun, request_sender);
        cancel_replaced_search(replaced, pending)
    }
}

/// The modal is closed by its button (`dismissed` false) or by a click
/// outside it: it goes idle, and only a click on its button asks the parent
/// to close it (a dismissal already did). Returns the target whose search to
/// cancel, if it was searching, and whether to ask for the close.
pub fn close_loading_modal<S>(st: &mut LoadingModalState<S>, dismissed: bool) -> (r: (Option<String>, bool))
    ensures
        *final(st) is Inactive,
        match *old(st) {
            LoadingModalState::BackwardsPaginateUntilEvent { target_event_id, .. } => r.0 == Some(target_event_id),
            _ => r.0 is None,
        },
        r.1 == !dismissed,
{
    let target = match st {
        LoadingModalState::BackwardsPaginateUntilEvent { target_event_id, .. } => Some(target_event_id.clone()),
        _ => None,
    };
    *st = LoadingModalState::Inactive;
    (target, !dismissed)
}

} // verus!
