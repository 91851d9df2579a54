//! The pane that slides in to edit a message: its show/hide life cycle and
//! the content that an accepted edit sends.

use vstd::prelude::*;
use crate::text::{trimmed, trim_str};

verus! {

/// The kind of media message.
#[derive(Clone, Copy, Debug, PartialEq, Eq, Structural)]
pub enum MediaKind {
    Image,
    Audio,
    File,
    Video,
}

/// What the edited event holds, as far as editing reads it.
#[derive(Clone, Copy, Debug, PartialEq, Eq, Structural)]
pub enum EditTarget {
    /// A text message; whether it carries mentions.
    Text { has_mentions: bool },
    /// An emote message.
    Emote { has_mentions: bool },
    /// A media message; whether its caption has a formatted body.
    Media { kind: MediaKind, formatted: bool, has_mentions: bool },
    /// Another message type (a location, a notice, ...), which cannot be edited.
    OtherMessage,
    /// A poll; whether its answers could be taken over into the edit.
    Poll { answers_ok: bool },
    /// Another kind of message-like event.
    OtherMsgLike,
    /// An event that is no message at all.
    NotMsgLike,
}

/// The new content of an edited event.
#[derive(Debug, PartialEq, Eq)]
pub enum EditedContentPlan {
    /// A Markdown text message with the given body; the old mentions are kept when asked.
    TextMarkdown { body: String, keep_mentions: bool },
    /// A Markdown emote.
    EmoteMarkdown { body: String, keep_mentions: bool },
    /// The media message with the given caption; its formatted body becomes
    /// the Markdown of the caption when it had one.
    Media { kind: MediaKind, body: String, formatted_markdown: bool, keep_mentions: bool },
    /// A poll start with the new question (also the fallback text) and the old answers.
    PollStart { question: String },
}

/// What a click on "accept" (or Enter) leads to.
#[derive(Debug, PartialEq, Eq)]
pub enum AcceptOutcome {
    /// The edit request with the new content.
    Submit(EditedContentPlan),
    /// An error popup, and the pane starts to hide.
    RefuseAndHide(&'static str),
    /// An error popup; the pane stays.
    Refuse(&'static str),
}

pub const MESSAGE_TYPE_NOT_EDITABLE: &'static str = "That message type cannot be edited.";
pub const EVENT_TYPE_NOT_EDITABLE: &'static str = "That event type cannot be edited.";
pub const POLL_ANSWERS_UNAVAILABLE: &'static str = "Failed to obtain existing poll answers while editing poll.";

/// Whether `r` is what accepting text whose trimmed form is `body` as the
/// new content of `target` leads to.
pub open spec fn accept_outcome_is(target: EditTarget, body: Seq<char>, r: AcceptOutcome) -> bool {
    match target {
        EditTarget::Text { has_mentions } => (r matches AcceptOutcome::Submit(EditedContentPlan::TextMarkdown { body: b, keep_mentions })
            && b@ == body && keep_mentions == has_mentions),
        EditTarget::Emote { has_mentions } => (r matches AcceptOutcome::Submit(EditedContentPlan::EmoteMarkdown { body: b, keep_mentions })
            && b@ == body && keep_mentions == has_mentions),
        EditTarget::Media { kind, formatted, has_mentions } => (r matches AcceptOutcome::Submit(
            EditedContentPlan::Media { kind: k, body: b, formatted_markdown, keep_mentions })
            && k == kind && b@ == body && formatted_markdown == formatted && keep_mentions == has_mentions),
        EditTarget::OtherMessage => (r matches AcceptOutcome::RefuseAndHide(m) && m@ == MESSAGE_TYPE_NOT_EDITABLE@),
        EditTarget::Poll { answers_ok } => if answers_ok {
            (r matches AcceptOutcome::Submit(EditedContentPlan::PollStart { question }) && question@ == body)
        } else {
            (r matches AcceptOutcome::Refuse(m) && m@ == POLL_ANSWERS_UNAVAILABLE@)
        },
        EditTarget::OtherMsgLike | EditTarget::NotMsgLike => (r matches AcceptOutcome::Refuse(m) && m@ == EVENT_TYPE_NOT_EDITABLE@),
    }
}

/// What accepting `text` as the new content of `target` leads to: text,
/// emotes and media captions take the trimmed text (keeping the old
/// mentions); a poll takes it as its new question when its answers could be
/// taken over; other messages are refused and the pane hides; other events
/// are refused.
pub fn accept_edit(target: EditTarget, text: &str) -> (r: AcceptOutcome)
    ensures
        accept_outcome_is(target, trimmed(text@), r),
{
    match target {
        EditTarget::Text { has_mentions } =>
            AcceptOutcome::Submit(EditedContentPlan::TextMarkdown { body: trim_str(text), keep_mentions: has_mentions }),
        EditTarget::Emote { has_mentions } =>
            AcceptOutcome::Submit(EditedContentPlan::EmoteMarkdown { body: trim_str(text), keep_mentions: has_mentions }),
        EditTarget::Media { kind, formatted, has_mentions } => AcceptOutcome::Submit(EditedContentPlan::Media {
            kind,
            body: trim_str(text),
            formatted_markdown: formatted,
            keep_mentions: has_mentions,
        }),
        EditTarget::OtherMessage => AcceptOutcome::RefuseAndHide(MESSAGE_TYPE_NOT_EDITABLE),
        EditTarget::Poll { answers_ok } => if answers_ok {
            AcceptOutcome::Submit(EditedContentPlan::PollStart { question: trim_str(text) })
        } else {
            AcceptOutcome::Refuse(POLL_ANSWERS_UNAVAILABLE)
        },
        EditTarget::OtherMsgLike | EditTarget::NotMsgLike => AcceptOutcome::Refuse(EVENT_TYPE_NOT_EDITABLE),
    }
}

/// The event being edited: its timeline identifier and what it holds.
#[derive(Debug)]
pub struct EditInfo {
    pub item_id: String,
    pub target: EditTarget,
}

/// The state of the editing pane: whether it is shown, whether its hide
/// animation runs, and the event it edits.
#[derive(Debug)]
pub struct EditingPaneModel {
    pub visible: bool,
    pub animating_out: bool,
    pub info: Option<EditInfo>,
}

/// What opening the pane on an event leads to.
#[derive(Debug, PartialEq, Eq)]
pub enum ShowOutcome {
    /// The event cannot be edited: an error popup.
    NotEditable,
    /// The event holds neither a message nor a poll: an error popup shown for
    /// a few seconds.
    NothingToEdit,
    /// The pane opens with this text in its input.
    Shown(String),
}

/// What the result of an edit request leads to.
#[derive(Debug, PartialEq, Eq)]
pub enum EditResultEffect {
    /// The result is not for the event being edited (or nothing is edited).
    Ignored,
    /// The edit went through: the pane starts to hide.
    StartHide,
    /// The edit failed: an error popup with this text.
    Popup(String),
}

pub const CANNOT_EDIT_MESSAGE: &'static str = "That message cannot be edited.";

impl EditingPaneModel {
    /// A shown pane always edits an event, and only a shown pane hides.
    /// Every operation keeps this.
    pub open spec fn consistent(&self) -> bool {
        &&& self.visible ==> self.info is Some
        &&& self.animating_out ==> self.visible
    }

    /// A hidden pane that edits nothing.
    pub fn new() -> (r: EditingPaneModel)
        ensures
            r.consistent(),
            !r.visible,
            !r.animating_out,
            r.info is None,
    {
        EditingPaneModel { visible: false, animating_out: false, info: None }
    }

    /// Whether the pane is shown.
    pub fn is_currently_shown(&self) -> (r: bool)
        ensures
            r == self.visible,
    {
        self.visible
    }

    /// Once the animator has handled an event. `track_animating` tells whether
    /// the panel's track still animates; `in_hide_state` whether the panel is
    /// in its hide state; `animating` whether the animator just animated.
    /// Returns whether the pane is now hidden (the "hidden" action is sent and
    /// the event's handling ends). A hidden pane ignores the call.
    pub fn after_animation(&mut self, track_animating: bool, in_hide_state: bool, animating: bool) -> (hidden: bool)
        ensures
            old(self).consistent() ==> final(self).consistent(),
            !old(self).visible ==> !hidden && final(self).visible == old(self).visible
                && final(self).animating_out == old(self).animating_out && final(self).info == old(self).info,
            old(self).visible && old(self).animating_out && !track_animating ==> hidden && !final(self).visible
                && !final(self).animating_out && final(self).info is None,
            old(self).visible && old(self).animating_out && track_animating ==> !hidden && final(self).visible
                && final(self).animating_out && final(self).info == old(self).info,
            old(self).visible && !old(self).animating_out ==> !hidden && final(self).visible
                && final(self).animating_out == (in_hide_state && animating) && final(self).info == old(self).info,
    {
        if !self.visible {
            return false;
        }
        if self.animating_out {
            if !track_animating {
                self.visible = false;
                self.animating_out = false;
                self.info = None;
                return true;
            }
        } else if in_hide_state && animating {
            self.animating_out = true;
        }
        false
    }

    /// Whether a click on "cancel" (or Escape) starts to hide the pane: it
    /// does whenever the pane is shown.
    pub fn on_cancel(&self) -> (start_hide: bool)
        ensures
            start_hide == self.visible,
    {
        self.visible
    }

    /// What a click on "accept" (or Enter) with `text` in the input leads
    /// to; nothing when the pane is hidden or edits nothing.
    pub fn on_accept(&self, text: &str) -> (r: Option<AcceptOutcome>)
        ensures
            !self.visible || self.info is None ==> r is None,
            self.visible ==> (self.info matches Some(info) ==> (r matches Some(o)
                && accept_outcome_is(info.target, trimmed(text@), o))),
    {
        if !self.visible {
            return None;
        }
        match &self.info {
            Some(info) => Some(accept_edit(info.target, text)),
            None => None,
        }
    }

    /// Before the pane is drawn: a pane that edits nothing is hidden.
    pub fn before_draw(&mut self)
        ensures
            old(self).consistent() ==> final(self).consistent(),
            final(self).visible == (old(self).visible && old(self).info is Some),
            final(self).animating_out == old(self).animating_out,
            final(self).info == old(self).info,
    {
        if self.info.is_none() {
            self.visible = false;
        }
    }

    /// The result of an edit request for the event `item_id`: the pane starts
    /// to hide when it went through, and the error is shown when it failed.
    pub fn handle_edit_result(&self, item_id: &str, result: Result<(), String>) -> (r: EditResultEffect)
        ensures
            match self.info {
                Some(info) if info.item_id@ == item_id@ => match result {
                    Ok(()) => r is StartHide,
                    Err(e) => r matches EditResultEffect::Popup(m) && m@ == "Failed to edit message: "@ + e@,
                },
                _ => r is Ignored,
            },
    {
        let info = match &self.info {
            Some(info) => info,
            None => return EditResultEffect::Ignored,
        };
        if info.item_id != String::from_str(item_id) {
            return EditResultEffect::Ignored;
        }
        match result {
            Ok(()) => EditResultEffect::StartHide,
            Err(e) => {
                let mut m = String::from_str("Failed to edit message: ");
                m.append(e.as_str());
                EditResultEffect::Popup(m)
            },
        }
    }

    /// Opens the pane on an event: refused when the event cannot be edited or
    /// holds no text to edit (`text`: a message's body or a poll's question);
    /// else the pane is shown, not hiding, editing that event.
    pub fn show(&mut self, editable: bool, item_id: String, target: EditTarget, text: Option<String>) -> (r: ShowOutcome)
        ensures
            old(self).consistent() ==> final(self).consistent(),
            !editable ==> r is NotEditable && *final(self) == *old(self),
            editable && text is None ==> r is NothingToEdit && *final(self) == *old(self),
            editable ==> (text matches Some(t) ==> r == ShowOutcome::Shown(t) && final(self).visible
                && !final(self).animating_out
                && final(self).info == (Some(EditInfo { item_id, target }))),
    {
        if !editable {
            return ShowOutcome::NotEditable;
        }
        match text {
            None => ShowOutcome::NothingToEdit,
            Some(t) => {
                self.info = Some(EditInfo { item_id, target });
                self.visible = true;
                self.animating_out = false;
                ShowOutcome::Shown(t)
            },
        }
    }

    /// The event being edited, to save the pane's state.
    pub fn save_state(&self) -> (r: Option<String>)
        ensures
            match self.info {
                Some(info) => r == Some(info.item_id),
                None => r is None,
            },
    {
        match &self.info {
            Some(info) => Some(info.item_id.clone()),
            None => None,
        }
    }

    /// Reopens the pane on a saved event.
    pub fn restore_state(&mut self, item_id: String, target: EditTarget)
        ensures
            old(self).consistent() ==> final(self).consistent(),
            final(self).visible,
            !final(self).animating_out,
            final(self).info == (Some(EditInfo { item_id, target })),
    {
        self.info = Some(EditInfo { item_id, target });
        self.visible = true;
        self.animating_out = false;
    }

    /// Hides the pane at once and forgets the event, with no animation.
    pub fn force_reset_hide(&mut self)
        ensures
            old(self).consistent() ==> final(self).consistent(),
            !final(self).visible,
            !final(self).animating_out,
            final(self).info is None,
    {
        self.visible = false;
        self.animating_out = false;
        self.info = None;
    }
}

} // verus!
