//! The parts of a room timeline item that the grouping of small state events
//! reads, held as plain values.

use vstd::prelude::*;

verus! {

/// The kind of change a membership event made.
#[derive(Clone, Copy, Debug, PartialEq, Eq, Structural)]
pub enum MembershipChange {
    NoChange,
    Error,
    Joined,
    Left,
    Banned,
    Unbanned,
    Kicked,
    Invited,
    KickedAndBanned,
    InvitationAccepted,
    InvitationRejected,
    InvitationRevoked,
    Knocked,
    KnockAccepted,
    KnockRetracted,
    KnockDenied,
    NotImplemented,
}

/// The kind of a state event other than membership and profile changes.
#[derive(Clone, Copy, Debug, PartialEq, Eq, Structural)]
pub enum OtherStateKind {
    PolicyRuleRoom,
    PolicyRuleServer,
    PolicyRuleUser,
    RoomAliases,
    RoomAvatar,
    RoomCanonicalAlias,
    /// `original` is false for a redacted creation event.
    RoomCreate { original: bool },
    RoomEncryption,
    RoomGuestAccess,
    RoomHistoryVisibility,
    RoomJoinRules,
    RoomName,
    RoomPinnedEvents,
    RoomPowerLevels,
    RoomServerAcl,
    RoomThirdPartyInvite,
    RoomTombstone,
    RoomTopic,
    SpaceChild,
    SpaceParent,
    Custom,
}

/// The kind of a message-like event.
#[derive(Clone, Copy, Debug, PartialEq, Eq, Structural)]
pub enum MsgLikeKind {
    Message,
    Sticker,
    Poll,
    Redacted,
    UnableToDecrypt,
    Other,
}

/// What a timeline event holds, as far as grouping is concerned.
#[derive(Clone, Debug)]
pub enum TimelineItemContent {
    MembershipChange { user_id: String, change: Option<MembershipChange>, display_name: Option<String> },
    ProfileChange { avatar_url_changed: bool, displayname_changed: bool },
    OtherState { state_key: String, content: OtherStateKind },
    MsgLike(MsgLikeKind),
    Other,
}

/// An event of the timeline.
#[derive(Clone, Debug)]
pub struct EventTimelineItem {
    pub sender: String,
    pub event_id: Option<String>,
    pub content: TimelineItemContent,
}

/// An item of the timeline: an event, or a virtual item such as a date divider.
#[derive(Clone, Debug)]
pub enum TimelineItem {
    Event(EventTimelineItem),
    Virtual,
}

/// Whether an event is a small state event: a membership, profile or other state
/// change, a poll, a redacted message or a message that could not be decrypted.
pub open spec fn is_small_content(c: TimelineItemContent) -> bool {
    match c {
        TimelineItemContent::MembershipChange { .. } => true,
        TimelineItemContent::ProfileChange { .. } => true,
        TimelineItemContent::OtherState { .. } => true,
        TimelineItemContent::MsgLike(k) => k == MsgLikeKind::Poll || k == MsgLikeKind::Redacted
            || k == MsgLikeKind::UnableToDecrypt,
        TimelineItemContent::Other => false,
    }
}

/// Whether a neighbouring timeline item exists, is an event, and is a small state event.
pub open spec fn is_small_item(item: Option<TimelineItem>) -> bool {
    match item {
        Some(TimelineItem::Event(e)) => is_small_content(e.content),
        _ => false,
    }
}

/// Checks if a timeline item represents a small state change.
pub fn is_small_state(timeline_item: Option<&TimelineItem>) -> (b: bool)
    ensures
        b == is_small_item(match timeline_item { Some(t) => Some(*t), None => None }),
{
    match timeline_item {
        Some(TimelineItem::Event(e)) => match &e.content {
            TimelineItemContent::MembershipChange { .. } => true,
            TimelineItemContent::ProfileChange { .. } => true,
            TimelineItemContent::OtherState { .. } => true,
            TimelineItemContent::MsgLike(k) => *k == MsgLikeKind::Poll || *k == MsgLikeKind::Redacted
                || *k == MsgLikeKind::UnableToDecrypt,
            TimelineItemContent::Other => false,
        },
        _ => false,
    }
}


fn copy_opt(o: &Option<String>) -> (r: Option<String>)
    ensures
        r == *o,
{
    match o {
        Some(s) => Some(s.clone()),
        None => None,
    }
}

impl TimelineItemContent {
    /// A field-by-field copy.
    pub fn duplicate(&self) -> (r: Self)
        ensures
            r == *self,
    {
        match self {
            TimelineItemContent::MembershipChange { user_id, change, display_name } =>
                TimelineItemContent::MembershipChange {
                    user_id: user_id.clone(),
                    change: *change,
                    display_name: copy_opt(display_name),
                },
            TimelineItemContent::ProfileChange { avatar_url_changed, displayname_changed } =>
                TimelineItemContent::ProfileChange {
                    avatar_url_changed: *avatar_url_changed,
                    displayname_changed: *displayname_changed,
                },
            TimelineItemContent::OtherState { state_key, content } =>
                TimelineItemContent::OtherState { state_key: state_key.clone(), content: *content },
            TimelineItemContent::MsgLike(k) => TimelineItemContent::MsgLike(*k),
            TimelineItemContent::Other => TimelineItemContent::Other,
        }
    }
}

impl EventTimelineItem {
    /// A field-by-field copy.
    pub fn duplicate(&self) -> (r: Self)
        ensures
            r == *self,
    {
        EventTimelineItem {
            sender: self.sender.clone(),
            event_id: copy_opt(&self.event_id),
            content: self.content.duplicate(),
        }
    }
}

} // verus!
