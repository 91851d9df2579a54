//! Grouping of adjacent small state events of a room timeline into collapsible
//! groups, each with a cached summary line and avatar list.

use vstd::prelude::*;
use std::ops::Range;
use vstd::std_specs::convert::FromSpecImpl;
use crate::text::{decimal, join, views, push_decimal, join_prefix, join_all};
use crate::timeline::{MembershipChange, OtherStateKind, MsgLikeKind, TimelineItemContent, EventTimelineItem, TimelineItem, is_small_content};
use crate::ids::{parse_user_id, parse_event_id, ruma_accepts_user_id};
use crate::range_map::{IndexRangeMap, range_map_contents, with_range, is_maximal_run, range_map_new, range_map_clear, range_map_insert, range_map_get_key_value};

verus! {

/// Minimum number of sequential small state events to collapse.
pub const MIN_GROUP_SIZE_FOR_COLLAPSE: usize = 3;
/// Maximum number of user names to display before coalescing.
pub const SUMMARY_LENGTH: usize = 4;

/// Represent Small state type.
#[derive(Clone, Copy, Debug, PartialEq, Eq, Structural, PartialOrd, Ord, Hash)]
pub enum SmallStateType {
    CreateRoom,
    ConfigureRoom,
    Joined,
    Left,
    JoinedAndLeft,
    LeftAndJoined,
    InvitationRejected,
    InvitationRevoked,
    Invited,
    Banned,
    Unbanned,
    Kicked,
    ChangedName,
    ChangedAvatar,
    NoChange,
    ServerAcl,
    ChangedPins,
    MessageRemoved,
    UnableToDecrypt,
    HiddenEvent,
    VirtualTimelineItem,
}

impl Default for SmallStateType {
    fn default() -> (r: Self)
        ensures
            r == SmallStateType::NoChange,
    {
        SmallStateType::NoChange
    }
}

/// The small state type of a membership change.
pub open spec fn membership_small_type(change: MembershipChange) -> SmallStateType {
    match change {
        MembershipChange::Joined => SmallStateType::Joined,
        MembershipChange::Left => SmallStateType::Left,
        MembershipChange::Banned => SmallStateType::Banned,
        MembershipChange::Unbanned => SmallStateType::Unbanned,
        MembershipChange::Kicked => SmallStateType::Kicked,
        MembershipChange::Invited => SmallStateType::Invited,
        MembershipChange::KickedAndBanned => SmallStateType::Banned,
        MembershipChange::InvitationAccepted => SmallStateType::Joined,
        MembershipChange::InvitationRejected => SmallStateType::InvitationRejected,
        MembershipChange::InvitationRevoked => SmallStateType::InvitationRevoked,
        MembershipChange::Knocked => SmallStateType::HiddenEvent,
        MembershipChange::KnockAccepted => SmallStateType::Joined,
        MembershipChange::KnockRetracted => SmallStateType::HiddenEvent,
        MembershipChange::NoChange => SmallStateType::NoChange,
        MembershipChange::Error => SmallStateType::NoChange,
        MembershipChange::NotImplemented => SmallStateType::NoChange,
        MembershipChange::KnockDenied => SmallStateType::HiddenEvent,
    }
}

impl From<MembershipChange> for SmallStateType {
    fn from(change: MembershipChange) -> (r: Self) {
        match change {
            MembershipChange::Joined => SmallStateType::Joined,
            MembershipChange::Left => SmallStateType::Left,
            MembershipChange::Banned => SmallStateType::Banned,
            MembershipChange::Unbanned => SmallStateType::Unbanned,
            MembershipChange::Kicked => SmallStateType::Kicked,
            MembershipChange::Invited => SmallStateType::Invited,
            MembershipChange::KickedAndBanned => SmallStateType::Banned,
            MembershipChange::InvitationAccepted => SmallStateType::Joined,
            MembershipChange::InvitationRejected => SmallStateType::InvitationRejected,
            MembershipChange::InvitationRevoked => SmallStateType::InvitationRevoked,
            MembershipChange::Knocked => SmallStateType::HiddenEvent,
            MembershipChange::KnockAccepted => SmallStateType::Joined,
            MembershipChange::KnockRetracted => SmallStateType::HiddenEvent,
            MembershipChange::NoChange => SmallStateType::NoChange,
            MembershipChange::Error => SmallStateType::NoChange,
            MembershipChange::NotImplemented => SmallStateType::NoChange,
            MembershipChange::KnockDenied => SmallStateType::HiddenEvent,
        }
    }
}

impl FromSpecImpl<MembershipChange> for SmallStateType {
    open spec fn obeys_from_spec() -> bool {
        true
    }

    open spec fn from_spec(change: MembershipChange) -> SmallStateType {
        membership_small_type(change)
    }
}

/// The small state type of another state event.
pub open spec fn other_small_type(content: OtherStateKind) -> SmallStateType {
    match content {
        OtherStateKind::RoomServerAcl => SmallStateType::ServerAcl,
        OtherStateKind::RoomCreate { .. } => SmallStateType::CreateRoom,
        OtherStateKind::Custom => SmallStateType::HiddenEvent,
        _ => SmallStateType::ConfigureRoom,
    }
}

impl From<OtherStateKind> for SmallStateType {
    fn from(content: OtherStateKind) -> (r: Self) {
        match content {
            OtherStateKind::RoomServerAcl => SmallStateType::ServerAcl,
            OtherStateKind::RoomCreate { .. } => SmallStateType::CreateRoom,
            OtherStateKind::Custom => SmallStateType::HiddenEvent,
            _ => SmallStateType::ConfigureRoom,
        }
    }
}

impl FromSpecImpl<OtherStateKind> for SmallStateType {
    open spec fn obeys_from_spec() -> bool {
        true
    }

    open spec fn from_spec(content: OtherStateKind) -> SmallStateType {
        other_small_type(content)
    }
}

/// The small state type of an event.
pub open spec fn content_small_type(content: TimelineItemContent) -> SmallStateType {
    match content {
        TimelineItemContent::MembershipChange { change, .. } => match change {
            Some(c) => membership_small_type(c),
            None => SmallStateType::NoChange,
        },
        TimelineItemContent::ProfileChange { avatar_url_changed, displayname_changed } =>
            if avatar_url_changed { SmallStateType::ChangedAvatar }
            else if displayname_changed { SmallStateType::ChangedName }
            else { SmallStateType::NoChange },
        TimelineItemContent::OtherState { content, .. } => other_small_type(content),
        TimelineItemContent::MsgLike(k) =>
            if k == MsgLikeKind::Redacted { SmallStateType::MessageRemoved }
            else if k == MsgLikeKind::UnableToDecrypt { SmallStateType::UnableToDecrypt }
            else { SmallStateType::NoChange },
        TimelineItemContent::Other => SmallStateType::NoChange,
    }
}

impl SmallStateType {
    /// The small state type of an event.
    pub fn from_content(content: &TimelineItemContent) -> (r: SmallStateType)
        ensures
            r == content_small_type(*content),
    {
        match content {
            TimelineItemContent::MembershipChange { change, .. } => match change {
                Some(c) => SmallStateType::from(*c),
                None => SmallStateType::NoChange,
            },
            TimelineItemContent::ProfileChange { avatar_url_changed, displayname_changed } => {
                if *avatar_url_changed {
                    SmallStateType::ChangedAvatar
                } else if *displayname_changed {
                    SmallStateType::ChangedName
                } else {
                    SmallStateType::NoChange
                }
            },
            TimelineItemContent::OtherState { content, .. } => SmallStateType::from(*content),
            TimelineItemContent::MsgLike(k) => {
                if *k == MsgLikeKind::Redacted {
                    SmallStateType::MessageRemoved
                } else if *k == MsgLikeKind::UnableToDecrypt {
                    SmallStateType::UnableToDecrypt
                } else {
                    SmallStateType::NoChange
                }
            },
            TimelineItemContent::Other => SmallStateType::NoChange,
        }
    }
}

// ---------------------------------------------------------------------------
// Canonical form: neighbouring Joined/Left pairs become one compound transition
// ---------------------------------------------------------------------------

/// The canonical form of a transition sequence, read from the front:
/// `[Joined, Left]` becomes `JoinedAndLeft` and `[Left, Joined]` becomes `LeftAndJoined`.
pub open spec fn canonical(s: Seq<SmallStateType>) -> Seq<SmallStateType>
    decreases s.len(),
{
    if s.len() == 0 {
        seq![]
    } else if s.len() >= 2 && s[0] == SmallStateType::Joined && s[1] == SmallStateType::Left {
        seq![SmallStateType::JoinedAndLeft] + canonical(s.skip(2))
    } else if s.len() >= 2 && s[0] == SmallStateType::Left && s[1] == SmallStateType::Joined {
        seq![SmallStateType::LeftAndJoined] + canonical(s.skip(2))
    } else {
        seq![s[0]] + canonical(s.skip(1))
    }
}

/// Combines neighboring transitions into compound actions, e.g. `[Joined, Left]` -> `[JoinedAndLeft]`.
pub fn merge_adjacent_transitions(transitions: &[SmallStateType]) -> (res: Vec<SmallStateType>)
    ensures
        res@ == canonical(transitions@),
{
    let mut res: Vec<SmallStateType> = Vec::new();
    let mut i: usize = 0;
    assert(transitions@.skip(0) =~= transitions@);
    assert(res@ + canonical(transitions@) =~= canonical(transitions@));
    while i < transitions.len()
        invariant
            i <= transitions@.len(),
            res@ + canonical(transitions@.skip(i as int)) == canonical(transitions@),
        decreases transitions@.len() - i,
    {
        let ghost rest = transitions@.skip(i as int);
        let t = transitions[i];
        if i + 1 < transitions.len() {
            let t2 = transitions[i + 1];
            if t == SmallStateType::Joined && t2 == SmallStateType::Left {
                assert(rest.skip(2) =~= transitions@.skip(i + 2));
                res.push(SmallStateType::JoinedAndLeft);
                assert(res@ + canonical(transitions@.skip(i + 2)) =~= canonical(transitions@));
                i = i + 2;
                continue;
            }
            if t == SmallStateType::Left && t2 == SmallStateType::Joined {
                assert(rest.skip(2) =~= transitions@.skip(i + 2));
                res.push(SmallStateType::LeftAndJoined);
                assert(res@ + canonical(transitions@.skip(i + 2)) =~= canonical(transitions@));
                i = i + 2;
                continue;
            }
        }
        assert(rest.skip(1) =~= transitions@.skip(i + 1));
        res.push(t);
        assert(res@ + canonical(transitions@.skip(i + 1)) =~= canonical(transitions@));
        i = i + 1;
    }
    assert(transitions@.skip(i as int) =~= Seq::<SmallStateType>::empty());
    assert(res@ =~= res@ + canonical(transitions@.skip(i as int)));
    res
}

/// Whether a transition is one of the two compound ones.
pub open spec fn is_compound(t: SmallStateType) -> bool {
    t == SmallStateType::JoinedAndLeft || t == SmallStateType::LeftAndJoined
}

/// The plain transitions that a canonical sequence stands for.
pub open spec fn expand(s: Seq<SmallStateType>) -> Seq<SmallStateType>
    decreases s.len(),
{
    if s.len() == 0 {
        seq![]
    } else if s[0] == SmallStateType::JoinedAndLeft {
        seq![SmallStateType::Joined, SmallStateType::Left] + expand(s.skip(1))
    } else if s[0] == SmallStateType::LeftAndJoined {
        seq![SmallStateType::Left, SmallStateType::Joined] + expand(s.skip(1))
    } else {
        seq![s[0]] + expand(s.skip(1))
    }
}

/// Canonicalization loses nothing: on a sequence of plain transitions,
/// expanding the compound transitions of its canonical form gives it back.
pub proof fn lemma_canonical_expands_back(s: Seq<SmallStateType>)
    requires
        forall|i: int| 0 <= i < s.len() ==> !is_compound(#[trigger] s[i]),
    ensures
        expand(canonical(s)) == s,
    decreases s.len(),
{
    if s.len() == 0 {
    } else if s.len() >= 2 && s[0] == SmallStateType::Joined && s[1] == SmallStateType::Left {
        let r = s.skip(2);
        assert forall|i: int| 0 <= i < r.len() implies !is_compound(#[trigger] r[i]) by {
            assert(r[i] == s[i + 2]);
        }
        lemma_canonical_expands_back(r);
        let c = seq![SmallStateType::JoinedAndLeft] + canonical(r);
        assert(c.skip(1) =~= canonical(r));
        assert(expand(c) =~= seq![SmallStateType::Joined, SmallStateType::Left] + r);
        assert(s =~= seq![SmallStateType::Joined, SmallStateType::Left] + r);
    } else if s.len() >= 2 && s[0] == SmallStateType::Left && s[1] == SmallStateType::Joined {
        let r = s.skip(2);
        assert forall|i: int| 0 <= i < r.len() implies !is_compound(#[trigger] r[i]) by {
            assert(r[i] == s[i + 2]);
        }
        lemma_canonical_expands_back(r);
        let c = seq![SmallStateType::LeftAndJoined] + canonical(r);
        assert(c.skip(1) =~= canonical(r));
        assert(expand(c) =~= seq![SmallStateType::Left, SmallStateType::Joined] + r);
        assert(s =~= seq![SmallStateType::Left, SmallStateType::Joined] + r);
    } else {
        let r = s.skip(1);
        assert forall|i: int| 0 <= i < r.len() implies !is_compound(#[trigger] r[i]) by {
            assert(r[i] == s[i + 1]);
        }
        lemma_canonical_expands_back(r);
        assert(!is_compound(s[0]));
        let c = seq![s[0]] + canonical(r);
        assert(c.skip(1) =~= canonical(r));
        assert(c[0] == s[0]);
        assert(expand(c) =~= seq![s[0]] + r);
        assert(s =~= seq![s[0]] + r);
    }
}

/// Whether two neighbouring transitions form a pair that canonicalization merges.
pub open spec fn mergeable(a: SmallStateType, b: SmallStateType) -> bool {
    (a == SmallStateType::Joined && b == SmallStateType::Left)
    || (a == SmallStateType::Left && b == SmallStateType::Joined)
}

/// A canonical sequence has no `Joined` right before a `Left`, and no `Left`
/// right before a `Joined`: every such pair has been merged.
pub proof fn lemma_canonical_has_no_mergeable_pair(s: Seq<SmallStateType>)
    ensures
        forall|i: int| 0 <= i < canonical(s).len() - 1 ==> !mergeable(#[trigger] canonical(s)[i], canonical(s)[i + 1]),
    decreases s.len(),
{
    if s.len() == 0 {
    } else {
        let skip_n: int = if s.len() >= 2 && ((s[0] == SmallStateType::Joined && s[1] == SmallStateType::Left)
            || (s[0] == SmallStateType::Left && s[1] == SmallStateType::Joined)) { 2 } else { 1 };
        let r = s.skip(skip_n);
        lemma_canonical_has_no_mergeable_pair(r);
        lemma_canonical_first(r);
        let c = canonical(s);
        assert(c.skip(1) =~= canonical(r));
        assert forall|i: int| 0 <= i < c.len() - 1 implies !mergeable(#[trigger] c[i], c[i + 1]) by {
            if i > 0 {
                assert(c[i] == canonical(r)[i - 1]);
                assert(c[i + 1] == canonical(r)[i]);
            } else {
                assert(c[1] == canonical(r)[0]);
                if skip_n == 1 && s.len() >= 2 {
                    assert(r[0] == s[1]);
                }
            }
        }
    }
}

/// The first element of a canonical form comes from the first one or two inputs.
proof fn lemma_canonical_first(s: Seq<SmallStateType>)
    ensures
        s.len() > 0 ==> canonical(s).len() > 0,
        s.len() > 0 ==> (canonical(s)[0] == s[0] || is_compound(canonical(s)[0])),
{
    if s.len() > 0 {
        if s.len() >= 2 && s[0] == SmallStateType::Joined && s[1] == SmallStateType::Left {
        } else if s.len() >= 2 && s[0] == SmallStateType::Left && s[1] == SmallStateType::Joined {
        } else {
        }
    }
}

// ---------------------------------------------------------------------------
// Runs of repeated transitions
// ---------------------------------------------------------------------------

/// The runs of equal neighbouring transitions, each with its length.
pub open spec fn runs(s: Seq<SmallStateType>) -> Seq<(SmallStateType, usize)>
    decreases s.len(),
{
    if s.len() == 0 {
        seq![]
    } else {
        let prev = runs(s.drop_last());
        let t = s.last();
        if prev.len() > 0 && prev.last().0 == t {
            prev.update(prev.len() - 1, (t, (prev.last().1 + 1) as usize))
        } else {
            prev.push((t, 1usize))
        }
    }
}

/// Every run length is at least 1 and at most the length of the input.
pub proof fn lemma_runs_bounds(s: Seq<SmallStateType>)
    requires
        s.len() <= usize::MAX,
    ensures
        forall|k: int| 0 <= k < runs(s).len() ==> 1 <= #[trigger] runs(s)[k].1 <= s.len(),
        runs(s).len() <= s.len(),
        s.len() > 0 ==> runs(s).len() > 0 && runs(s).last().0 == s.last(),
    decreases s.len(),
{
    if s.len() > 0 {
        let p = s.drop_last();
        lemma_runs_bounds(p);
        let prev = runs(p);
        let r = runs(s);
        if prev.len() > 0 && prev.last().0 == s.last() {
            assert(prev.last().1 <= p.len());
            assert forall|k: int| 0 <= k < r.len() implies 1 <= #[trigger] r[k].1 <= s.len() by {
                if k < r.len() - 1 {
                    assert(r[k] == prev[k]);
                }
            }
        } else {
            assert forall|k: int| 0 <= k < r.len() implies 1 <= #[trigger] r[k].1 <= s.len() by {
                if k < r.len() - 1 {
                    assert(r[k] == prev[k]);
                }
            }
        }
    }
}

/// Groups consecutive identical transitions with their count (e.g. `[JoinedAndLeft, JoinedAndLeft]` -> `(JoinedAndLeft, 2)`).
pub fn group_repeated_transitions(transitions: &[SmallStateType]) -> (res: Vec<(SmallStateType, usize)>)
    ensures
        res@ == runs(transitions@),
{
    let mut res: Vec<(SmallStateType, usize)> = Vec::new();
    let mut i: usize = 0;
    while i < transitions.len()
        invariant
            i <= transitions@.len(),
            res@ == runs(transitions@.take(i as int)),
        decreases transitions@.len() - i,
    {
        let t = transitions[i];
        let ghost pre = transitions@.take(i as int);
        let ghost post = transitions@.take(i + 1);
        assert(post.drop_last() =~= pre);
        proof { lemma_runs_bounds(pre); }
        let n = res.len();
        if n > 0 && res[n - 1].0 == t {
            let c = res[n - 1].1;
            assert(c <= i);
            res.set(n - 1, (t, c + 1));
        } else {
            res.push((t, 1));
        }
        assert(res@ =~= runs(post));
        i = i + 1;
    }
    assert(transitions@.take(i as int) =~= transitions@);
    res
}

/// `t` repeated `n` times.
pub open spec fn repeat(t: SmallStateType, n: nat) -> Seq<SmallStateType>
    decreases n,
{
    if n == 0 { seq![] } else { repeat(t, (n - 1) as nat).push(t) }
}

/// The sequence that a list of runs stands for.
pub open spec fn unrun(r: Seq<(SmallStateType, usize)>) -> Seq<SmallStateType>
    decreases r.len(),
{
    if r.len() == 0 { seq![] } else { unrun(r.drop_last()) + repeat(r.last().0, r.last().1 as nat) }
}

/// Coalescing loses nothing and is minimal: spelling out every run gives
/// the input back, and two neighbouring runs never hold the same transition.
pub proof fn lemma_runs_decode(s: Seq<SmallStateType>)
    requires
        s.len() <= usize::MAX,
    ensures
        unrun(runs(s)) == s,
        forall|k: int| 0 <= k < runs(s).len() - 1 ==> #[trigger] runs(s)[k].0 != runs(s)[k + 1].0,
    decreases s.len(),
{
    if s.len() > 0 {
        let p = s.drop_last();
        lemma_runs_decode(p);
        lemma_runs_bounds(p);
        let prev = runs(p);
        let t = s.last();
        if prev.len() > 0 && prev.last().0 == t {
            let r = runs(s);
            assert(r.drop_last() =~= prev.drop_last());
            let c = prev.last().1;
            assert(c <= p.len());
            assert(r.last() == (t, (c + 1) as usize));
            assert(repeat(t, (c + 1) as nat) == repeat(t, c as nat).push(t));
            assert(unrun(r) =~= unrun(prev.drop_last()) + repeat(t, prev.last().1 as nat).push(t));
            assert(unrun(prev) == unrun(prev.drop_last()) + repeat(t, prev.last().1 as nat));
            assert(s =~= p.push(t));
        } else {
            let r = runs(s);
            assert(r.drop_last() =~= prev);
            assert(repeat(t, 1) =~= seq![t]) by {
                assert(repeat(t, 0) =~= Seq::<SmallStateType>::empty());
            }
            assert(s =~= p + seq![t]);
        }
    }
}

// ---------------------------------------------------------------------------
// Text of the summary
// ---------------------------------------------------------------------------

/// `text` with ` (×n)` appended when `repeats > 1`.
pub open spec fn with_repeats(text: Seq<char>, repeats: nat) -> Seq<char> {
    if repeats > 1 { text + " (×"@ + decimal(repeats) + ")"@ } else { text }
}

/// The description of a transition done by `user_count` users, `repeats` times each.
pub open spec fn describe(t: SmallStateType, user_count: nat, repeats: nat) -> Seq<char> {
    let plural = user_count > 1;
    match t {
        SmallStateType::CreateRoom => "created and configured the room"@,
        SmallStateType::ConfigureRoom => seq![],
        SmallStateType::Joined => with_repeats(if plural { "joined"@ } else { "joined the room"@ }, repeats),
        SmallStateType::Left => with_repeats(if plural { "left"@ } else { "left the room"@ }, repeats),
        SmallStateType::JoinedAndLeft => with_repeats("joined and left"@, repeats),
        SmallStateType::LeftAndJoined => with_repeats("left and rejoined"@, repeats),
        SmallStateType::ChangedName => with_repeats("changed their name"@, repeats),
        SmallStateType::ChangedAvatar => with_repeats("changed their profile picture"@, repeats),
        SmallStateType::Invited => with_repeats("was invited"@, repeats),
        SmallStateType::Banned => with_repeats("was banned"@, repeats),
        SmallStateType::Unbanned => with_repeats("was unbanned"@, repeats),
        SmallStateType::InvitationRejected => with_repeats("rejected invite"@, repeats),
        SmallStateType::InvitationRevoked => with_repeats("invite withdrawn"@, repeats),
        SmallStateType::Kicked => with_repeats("was kicked"@, repeats),
        SmallStateType::ServerAcl => with_repeats("updated server ACLs"@, repeats),
        SmallStateType::ChangedPins => with_repeats("changed pinned messages"@, repeats),
        SmallStateType::MessageRemoved => with_repeats("removed a message"@, repeats),
        SmallStateType::HiddenEvent => with_repeats("did a hidden event"@, repeats),
        SmallStateType::NoChange => with_repeats("made no changes"@, repeats),
        SmallStateType::UnableToDecrypt => with_repeats("decryption failed"@, repeats),
        SmallStateType::VirtualTimelineItem => seq![],
    }
}

/// `base`, followed by ` (×repeats)` when the transition was repeated.
fn text_with_repeats(base: &str, repeats: usize) -> (r: String)
    ensures
        r@ == with_repeats(base@, repeats as nat),
{
    let mut r = String::from_str(base);
    if repeats > 1 {
        r.append(" (×");
        push_decimal(&mut r, repeats);
        r.append(")");
    }
    r
}

/// Creates human-readable text for a transition type with user count and repetition count.
pub fn format_transition_text(t: SmallStateType, user_count: usize, repeats: usize) -> (r: String)
    ensures
        r@ == describe(t, user_count as nat, repeats as nat),
{
    let plural = user_count > 1;
    match t {
        SmallStateType::CreateRoom => String::from_str("created and configured the room"),
        SmallStateType::ConfigureRoom => String::new(),
        SmallStateType::Joined => text_with_repeats(if plural { "joined" } else { "joined the room" }, repeats),
        SmallStateType::Left => text_with_repeats(if plural { "left" } else { "left the room" }, repeats),
        SmallStateType::JoinedAndLeft => text_with_repeats("joined and left", repeats),
        SmallStateType::LeftAndJoined => text_with_repeats("left and rejoined", repeats),
        SmallStateType::ChangedName => text_with_repeats("changed their name", repeats),
        SmallStateType::ChangedAvatar => text_with_repeats("changed their profile picture", repeats),
        SmallStateType::Invited => text_with_repeats("was invited", repeats),
        SmallStateType::Banned => text_with_repeats("was banned", repeats),
        SmallStateType::Unbanned => text_with_repeats("was unbanned", repeats),
        SmallStateType::InvitationRejected => text_with_repeats("rejected invite", repeats),
        SmallStateType::InvitationRevoked => text_with_repeats("invite withdrawn", repeats),
        SmallStateType::Kicked => text_with_repeats("was kicked", repeats),
        SmallStateType::ServerAcl => text_with_repeats("updated server ACLs", repeats),
        SmallStateType::ChangedPins => text_with_repeats("changed pinned messages", repeats),
        SmallStateType::MessageRemoved => text_with_repeats("removed a message", repeats),
        SmallStateType::HiddenEvent => text_with_repeats("did a hidden event", repeats),
        SmallStateType::NoChange => text_with_repeats("made no changes", repeats),
        SmallStateType::UnableToDecrypt => text_with_repeats("decryption failed", repeats),
        SmallStateType::VirtualTimelineItem => String::new(),
    }
}

/// An English list of names: "A", "A and B", "A, B, and C", "A, B, C, and D" up to
/// `max_display_count` names, then "A, B, and N others".
pub open spec fn user_list(names: Seq<Seq<char>>, max_display_count: nat) -> Seq<char> {
    let n = names.len();
    if n == 0 {
        seq![]
    } else if n == 1 {
        names[0]
    } else if n == 2 {
        names[0] + " and "@ + names[1]
    } else if n == 3 {
        names[0] + ", "@ + names[1] + ", and "@ + names[2]
    } else if n <= max_display_count {
        join(names.take(n - 1), ", "@) + ", and "@ + names[n - 1]
    } else {
        join(names.take(max_display_count as int), ", "@) + ", and "@ + decimal((n - max_display_count) as nat)
            + " others"@
    }
}

/// Produce an English-readable name list, with "and N others".
pub fn format_user_list(user_names: &[String], max_display_count: usize) -> (r: String)
    ensures
        r@ == user_list(views(user_names@), max_display_count as nat),
{
    let n = user_names.len();
    if n == 0 {
        String::new()
    } else if n == 1 {
        user_names[0].clone()
    } else if n == 2 {
        let mut r = user_names[0].clone();
        r.append(" and ");
        r.append(user_names[1].as_str());
        r
    } else if n == 3 {
        let mut r = user_names[0].clone();
        r.append(", ");
        r.append(user_names[1].as_str());
        r.append(", and ");
        r.append(user_names[2].as_str());
        r
    } else if n <= max_display_count {
        let mut r = join_prefix(user_names, n - 1, ", ");
        r.append(", and ");
        r.append(user_names[n - 1].as_str());
        assert(views(user_names@.take(n - 1)) =~= views(user_names@).take(n - 1));
        r
    } else {
        let mut r = join_prefix(user_names, max_display_count, ", ");
        r.append(", and ");
        push_decimal(&mut r, n - max_display_count);
        r.append(" others");
        assert(views(user_names@.take(max_display_count as int)) =~= views(user_names@).take(max_display_count as int));
        r
    }
}

// ---------------------------------------------------------------------------
// User events
// ---------------------------------------------------------------------------

/// Condensed version of a timeline event, used for generating summaries.
#[derive(Clone, Debug, Default, PartialEq, Eq)]
pub struct UserEvent {
    /// The transition type
    pub transition: SmallStateType,
    /// The index of the event in the timeline
    pub index: usize,
    /// The sender of the event
    pub sender: Option<String>,
    /// The display name of the sender
    pub display_name: String,
    /// The state key of the event
    pub state_key: Option<String>,
    /// The ID of the event
    pub event_id: Option<String>,
}

fn copy_opt(o: &Option<String>) -> (r: Option<String>)
    ensures
        r == *o,
{
    match o {
        Some(s) => Some(s.clone()),
        None => None,
    }
}

impl UserEvent {
    /// A field-by-field copy of this event.
    pub fn duplicate(&self) -> (r: UserEvent)
        ensures
            r == *self,
    {
        UserEvent {
            transition: self.transition,
            index: self.index,
            sender: copy_opt(&self.sender),
            display_name: self.display_name.clone(),
            state_key: copy_opt(&self.state_key),
            event_id: copy_opt(&self.event_id),
        }
    }
}

/// The events of one user, with the user's ID.
pub type EntryModel = (Seq<char>, Seq<UserEvent>);

pub open spec fn entry_models(v: Seq<(String, Vec<UserEvent>)>) -> Seq<EntryModel> {
    v.map_values(|e: (String, Vec<UserEvent>)| (e.0@, e.1@))
}

/// Stable insertion of `e` into `t`, after every event whose index is not above its own.
pub open spec fn insert_by_index(t: Seq<UserEvent>, e: UserEvent) -> Seq<UserEvent>
    decreases t.len(),
{
    if t.len() == 0 {
        seq![e]
    } else if t.last().index > e.index {
        insert_by_index(t.drop_last(), e).push(t.last())
    } else {
        t.push(e)
    }
}

/// The events stably sorted by timeline index.
pub open spec fn sort_events(s: Seq<UserEvent>) -> Seq<UserEvent>
    decreases s.len(),
{
    if s.len() == 0 { seq![] } else { insert_by_index(sort_events(s.drop_last()), s.last()) }
}

spec fn insert_pos(t: Seq<UserEvent>, e: UserEvent) -> int
    decreases t.len(),
{
    if t.len() == 0 { 0 } else if t.last().index > e.index { insert_pos(t.drop_last(), e) } else { t.len() as int }
}

proof fn lemma_insert_pos(t: Seq<UserEvent>, e: UserEvent)
    ensures
        0 <= insert_pos(t, e) <= t.len(),
        insert_by_index(t, e) == t.insert(insert_pos(t, e), e),
    decreases t.len(),
{
    if t.len() > 0 && t.last().index > e.index {
        lemma_insert_pos(t.drop_last(), e);
        assert(t.drop_last().insert(insert_pos(t.drop_last(), e), e).push(t.last())
            =~= t.insert(insert_pos(t, e), e));
    } else if t.len() > 0 {
        assert(t.push(e) =~= t.insert(t.len() as int, e));
    } else {
        assert(seq![e] =~= t.insert(0, e));
    }
}

/// A copy of `events`, stably sorted by timeline index.
fn sorted_by_index(events: &Vec<UserEvent>) -> (r: Vec<UserEvent>)
    ensures
        r@ == sort_events(events@),
{
    let mut r: Vec<UserEvent> = Vec::new();
    let mut i: usize = 0;
    while i < events.len()
        invariant
            i <= events@.len(),
            r@ == sort_events(events@.take(i as int)),
        decreases events@.len() - i,
    {
        let e = events[i].duplicate();
        let ghost t = r@;
        let mut p = r.len();
        assert(t.take(p as int) =~= t);
        while p > 0 && r[p - 1].index > e.index
            invariant
                p <= t.len(),
                r@ == t,
                insert_pos(t, e) == insert_pos(t.take(p as int), e),
            decreases p,
        {
            assert(t.take(p as int).drop_last() =~= t.take(p - 1));
            p = p - 1;
        }
        proof {
            if p > 0 {
                assert(t.take(p as int).last() == t[p - 1]);
            }
            lemma_insert_pos(t, e);
        }
        r.insert(p, e);
        assert(events@.take(i + 1).drop_last() =~= events@.take(i as int));
        i = i + 1;
    }
    assert(events@.take(i as int) =~= events@);
    r
}

/// The transitions of a sequence of events.
pub open spec fn transitions_of(s: Seq<UserEvent>) -> Seq<SmallStateType> {
    s.map_values(|e: UserEvent| e.transition)
}

/// `s` without its `Joined` transitions.
pub open spec fn without_joined(s: Seq<SmallStateType>) -> Seq<SmallStateType>
    decreases s.len(),
{
    if s.len() == 0 {
        seq![]
    } else if s.last() == SmallStateType::Joined {
        without_joined(s.drop_last())
    } else {
        without_joined(s.drop_last()).push(s.last())
    }
}

/// The transitions of one user in timeline order; a room creator's joins are left out.
pub open spec fn user_transitions(events: Seq<UserEvent>) -> Seq<SmallStateType> {
    let ts = transitions_of(sort_events(events));
    if ts.contains(SmallStateType::CreateRoom) { without_joined(ts) } else { ts }
}

/// The name shown for a group: the display name of its earliest event, else its user.
pub open spec fn group_display_name(g: EntryModel) -> Seq<char> {
    let sorted = sort_events(g.1);
    if sorted.len() > 0 { sorted[0].display_name@ } else { g.0 }
}

/// Users aggregated by their canonical transition sequence, in order of first appearance.
pub open spec fn aggregate(g: Seq<EntryModel>) -> Seq<(Seq<SmallStateType>, Seq<Seq<char>>)>
    decreases g.len(),
{
    if g.len() == 0 {
        seq![]
    } else {
        let prev = aggregate(g.drop_last());
        let c = canonical(user_transitions(g.last().1));
        let name = group_display_name(g.last());
        if exists|k: int| 0 <= k < prev.len() && (#[trigger] prev[k]).0 == c {
            let k = choose|k: int| 0 <= k < prev.len() && (#[trigger] prev[k]).0 == c;
            prev.update(k, (c, prev[k].1.push(name)))
        } else {
            prev.push((c, seq![name]))
        }
    }
}

/// No transition sequence is aggregated twice.
pub proof fn lemma_aggregate_distinct(g: Seq<EntryModel>)
    ensures
        forall|i: int, j: int| 0 <= i < j < aggregate(g).len() ==> (#[trigger] aggregate(g)[i]).0 != (#[trigger] aggregate(g)[j]).0,
    decreases g.len(),
{
    if g.len() > 0 {
        let d = g.drop_last();
        lemma_aggregate_distinct(d);
        let prev = aggregate(d);
        let c = canonical(user_transitions(g.last().1));
        let a = aggregate(g);
        if exists|k: int| 0 <= k < prev.len() && (#[trigger] prev[k]).0 == c {
            let k = choose|k: int| 0 <= k < prev.len() && (#[trigger] prev[k]).0 == c;
            assert forall|i: int, j: int| 0 <= i < j < a.len() implies (#[trigger] a[i]).0 != (#[trigger] a[j]).0 by {
                assert(a[i].0 == prev[i].0);
                assert(a[j].0 == prev[j].0);
            }
        } else {
            assert forall|i: int, j: int| 0 <= i < j < a.len() implies (#[trigger] a[i]).0 != (#[trigger] a[j]).0 by {
                assert(a[i] == prev[i]);
                if j < prev.len() {
                    assert(a[j] == prev[j]);
                }
            }
        }
    }
}

/// One sentence of the summary: the names, then what they did.
pub open spec fn summary_part(a: (Seq<SmallStateType>, Seq<Seq<char>>), summary_length: nat) -> Seq<char> {
    user_list(a.1, summary_length) + " "@ + join(
        runs(a.0).map_values(|r: (SmallStateType, usize)| describe(r.0, a.1.len(), r.1 as nat)), ", "@)
}

/// The summary of a map of user event groups.
pub open spec fn summary(g: Seq<EntryModel>, summary_length: nat) -> Seq<char> {
    join(aggregate(g).map_values(|a: (Seq<SmallStateType>, Seq<Seq<char>>)| summary_part(a, summary_length)), ", "@)
}

fn same_transitions(a: &Vec<SmallStateType>, b: &Vec<SmallStateType>) -> (r: bool)
    ensures
        r == (a@ == b@),
{
    if a.len() != b.len() {
        return false;
    }
    let mut i: usize = 0;
    while i < a.len()
        invariant
            i <= a@.len() == b@.len(),
            forall|j: int| 0 <= j < i ==> a@[j] == b@[j],
        decreases a@.len() - i,
    {
        if a[i] != b[i] {
            return false;
        }
        i = i + 1;
    }
    assert(a@ =~= b@);
    true
}

fn user_transition_list(events: &Vec<UserEvent>) -> (r: Vec<SmallStateType>)
    ensures
        r@ == user_transitions(events@),
{
    let sorted = sorted_by_index(events);
    let ghost ts = transitions_of(sorted@);
    let mut all: Vec<SmallStateType> = Vec::new();
    let mut has_create = false;
    let mut i: usize = 0;
    while i < sorted.len()
        invariant
            i <= sorted@.len(),
            ts == transitions_of(sorted@),
            all@ == ts.take(i as int),
            has_create == ts.take(i as int).contains(SmallStateType::CreateRoom),
        decreases sorted@.len() - i,
    {
        let t = sorted[i].transition;
        all.push(t);
        assert(ts.take(i + 1) =~= ts.take(i as int).push(t));
        if t == SmallStateType::CreateRoom {
            assert(ts.take(i + 1)[i as int] == t);
            has_create = true;
        } else {
            assert(ts.take(i + 1).contains(SmallStateType::CreateRoom) ==> ts.take(i as int).contains(SmallStateType::CreateRoom)) by {
                if ts.take(i + 1).contains(SmallStateType::CreateRoom) {
                    let j = choose|j: int| 0 <= j < i + 1 && #[trigger] ts.take(i + 1)[j] == SmallStateType::CreateRoom;
                    assert(j != i as int);
                    assert(ts.take(i as int)[j] == SmallStateType::CreateRoom);
                }
            }
        }
        i = i + 1;
    }
    assert(ts.take(i as int) =~= ts);
    if !has_create {
        return all;
    }
    let mut kept: Vec<SmallStateType> = Vec::new();
    let mut j: usize = 0;
    while j < all.len()
        invariant
            j <= all@.len(),
            kept@ == without_joined(all@.take(j as int)),
        decreases all@.len() - j,
    {
        assert(all@.take(j + 1).drop_last() =~= all@.take(j as int));
        if all[j] != SmallStateType::Joined {
            kept.push(all[j]);
        }
        j = j + 1;
    }
    assert(all@.take(j as int) =~= all@);
    kept
}

fn entry_name(user_id: &String, events: &Vec<UserEvent>) -> (r: String)
    ensures
        r@ == group_display_name((user_id@, events@)),
{
    let sorted = sorted_by_index(events);
    if sorted.len() > 0 {
        sorted[0].display_name.clone()
    } else {
        user_id.clone()
    }
}

/// The model of the aggregates built so far.
pub open spec fn agg_model(v: Seq<(Vec<SmallStateType>, Vec<String>)>) -> Seq<(Seq<SmallStateType>, Seq<Seq<char>>)> {
    v.map_values(|a: (Vec<SmallStateType>, Vec<String>)| (a.0@, views(a.1@)))
}

/// Generates a summary string from the user events of a group.
pub fn generate_summary(user_events: &Vec<(String, Vec<UserEvent>)>, summary_length: usize) -> (r: String)
    ensures
        r@ == summary(entry_models(user_events@), summary_length as nat),
{
    let ghost g = entry_models(user_events@);
    let mut aggregates: Vec<(Vec<SmallStateType>, Vec<String>)> = Vec::new();
    let mut i: usize = 0;
    while i < user_events.len()
        invariant
            i <= g.len(),
            g == entry_models(user_events@),
            agg_model(aggregates@) == aggregate(g.take(i as int)),
        decreases g.len() - i,
    {
        let entry = &user_events[i];
        assert(g[i as int] == (entry.0@, entry.1@));
        let canonical_seq = merge_adjacent_transitions(user_transition_list(&entry.1).as_slice());
        let name = entry_name(&entry.0, &entry.1);
        let ghost prev = agg_model(aggregates@);
        let ghost gi = g.take(i + 1);
        assert(gi.drop_last() =~= g.take(i as int));
        assert(gi.last() == (entry.0@, entry.1@));
        proof { lemma_aggregate_distinct(g.take(i as int)); }
        let mut k: usize = 0;
        let mut found = false;
        while k < aggregates.len() && !found
            invariant
                k <= aggregates@.len(),
                prev == agg_model(aggregates@),
                found ==> k < aggregates@.len() && prev[k as int].0 == canonical_seq@,
                forall|j: int| 0 <= j < k ==> (#[trigger] prev[j]).0 != canonical_seq@,
            decreases aggregates@.len() - k + (if found { 0int } else { 1int }),
        {
            assert(prev[k as int].0 == aggregates@[k as int].0@);
            if same_transitions(&aggregates[k].0, &canonical_seq) {
                found = true;
            } else {
                k = k + 1;
            }
        }
        if found {
            proof {
                let c = canonical_seq@;
                assert(prev[k as int].0 == c);
                let k2 = choose|k2: int| 0 <= k2 < prev.len() && (#[trigger] prev[k2]).0 == c;
                assert(k2 == k as int) by {
                    if k2 < k as int {
                        assert(prev[k2].0 != c);
                    } else if k2 > k as int {
                        assert(prev[k as int].0 != prev[k2].0);
                    }
                }
            }
            let (seq_k, mut names) = aggregates.remove(k);
            names.push(name);
            aggregates.insert(k, (seq_k, names));
            assert(views(names@) =~= prev[k as int].1.push(name@));
            assert(agg_model(aggregates@) =~= prev.update(k as int, (canonical_seq@, prev[k as int].1.push(name@))));
        } else {
            let mut names: Vec<String> = Vec::new();
            names.push(name);
            assert(views(names@) =~= seq![name@]);
            aggregates.push((canonical_seq, names));
            assert(agg_model(aggregates@) =~= prev.push((canonical_seq@, seq![name@])));
        }
        i = i + 1;
    }
    assert(g.take(i as int) =~= g);
    let ghost aggs = aggregate(g);
    let mut parts: Vec<String> = Vec::new();
    let mut a: usize = 0;
    while a < aggregates.len()
        invariant
            a <= aggregates@.len(),
            agg_model(aggregates@) == aggs,
            views(parts@) == aggs.take(a as int).map_values(
                |x: (Seq<SmallStateType>, Seq<Seq<char>>)| summary_part(x, summary_length as nat)),
        decreases aggregates@.len() - a,
    {
        let names = &aggregates[a].1;
        let coalesced = group_repeated_transitions(aggregates[a].0.as_slice());
        let ghost rs = runs(aggregates@[a as int].0@);
        let mut descs: Vec<String> = Vec::new();
        let mut d: usize = 0;
        while d < coalesced.len()
            invariant
                d <= coalesced@.len(),
                coalesced@ == rs,
                views(descs@) == rs.take(d as int).map_values(
                    |r: (SmallStateType, usize)| describe(r.0, views(names@).len(), r.1 as nat)),
            decreases coalesced@.len() - d,
        {
            let (t, repeats) = coalesced[d];
            let text = format_transition_text(t, names.len(), repeats);
            let ghost f = |r: (SmallStateType, usize)| describe(r.0, views(names@).len(), r.1 as nat);
            assert(views(names@).len() == names@.len());
            assert(text@ == f(rs[d as int]));
            let ghost before = descs@;
            descs.push(text);
            assert(rs.take(d + 1) =~= rs.take(d as int).push(rs[d as int]));
            assert(views(descs@) =~= views(before).push(text@));
            assert(rs.take(d + 1).map_values(f) =~= rs.take(d as int).map_values(f).push(f(rs[d as int])));
            d = d + 1;
        }
        assert(rs.take(d as int) =~= rs);
        let mut part = format_user_list(names.as_slice(), summary_length);
        part.append(" ");
        let text = join_all(descs.as_slice(), ", ");
        part.append(text.as_str());
        assert(aggs[a as int] == (aggregates@[a as int].0@, views(names@)));
        let ghost fp = |x: (Seq<SmallStateType>, Seq<Seq<char>>)| summary_part(x, summary_length as nat);
        assert(views(names@).len() == names@.len());
        assert(part@ == fp(aggs[a as int]));
        let ghost before = parts@;
        parts.push(part);
        assert(views(parts@) =~= views(before).push(part@));
        assert(aggs.take(a + 1) =~= aggs.take(a as int).push(aggs[a as int]));
        assert(aggs.take(a + 1).map_values(fp) =~= aggs.take(a as int).map_values(fp).push(fp(aggs[a as int])));
        a = a + 1;
    }
    assert(aggs.take(a as int) =~= aggs);
    join_all(parts.as_slice(), ", ")
}


// ---------------------------------------------------------------------------
// From timeline items to user events
// ---------------------------------------------------------------------------

/// The state key of an event: the affected user of a membership change, the state
/// key of another state event, none otherwise.
pub open spec fn content_state_key(c: TimelineItemContent) -> Option<String> {
    match c {
        TimelineItemContent::MembershipChange { user_id, .. } => Some(user_id),
        TimelineItemContent::OtherState { state_key, .. } => Some(state_key),
        _ => None,
    }
}

/// The user event made from a timeline event at a timeline index.
pub open spec fn converted(item: EventTimelineItem, index: usize) -> UserEvent {
    UserEvent {
        index,
        display_name: item.sender,
        transition: content_small_type(item.content),
        sender: Some(item.sender),
        state_key: content_state_key(item.content),
        event_id: item.event_id,
    }
}

/// Convert an event timeline item to a user event.
pub fn convert_event_timeline_item_to_user_event(event_item: &EventTimelineItem, index: usize) -> (r: UserEvent)
    ensures
        r == converted(*event_item, index),
{
    let state_key = match &event_item.content {
        TimelineItemContent::MembershipChange { user_id, .. } => Some(user_id.clone()),
        TimelineItemContent::OtherState { state_key, .. } => Some(state_key.clone()),
        _ => None,
    };
    UserEvent {
        index,
        display_name: event_item.sender.clone(),
        transition: SmallStateType::from_content(&event_item.content),
        sender: Some(event_item.sender.clone()),
        state_key,
        event_id: copy_opt(&event_item.event_id),
    }
}

/// The view of an optional string.
pub open spec fn opt_view(o: Option<String>) -> Option<Seq<char>> {
    match o {
        Some(s) => Some(s@),
        None => None,
    }
}

/// The user an event is about: its state key when that is a user ID, else its sender.
pub open spec fn effective_user(e: UserEvent) -> Option<Seq<char>> {
    match e.state_key {
        Some(k) => if ruma_accepts_user_id(k@) { Some(k@) } else { opt_view(e.sender) },
        None => opt_view(e.sender),
    }
}

/// An event is filed under the user it is about: when its state key is a
/// user ID, that user, whoever sent it. Two events with the same such state
/// key are filed under the same user even when different users sent them, and
/// the sender counts only when the state key is missing or no user ID.
pub proof fn lemma_events_are_filed_under_their_subject(e1: UserEvent, e2: UserEvent)
    ensures
        e1.state_key matches Some(k) ==> (ruma_accepts_user_id(k@) ==> effective_user(e1) == Some(k@)),
        (e1.state_key matches Some(k) && ruma_accepts_user_id(k@)) && e2.state_key == e1.state_key
            ==> effective_user(e1) == effective_user(e2),
        !(e1.state_key matches Some(k) && ruma_accepts_user_id(k@)) ==> effective_user(e1) == opt_view(e1.sender),
        effective_user(e1) matches Some(u) ==> (u == opt_view(e1.sender)->Some_0 && e1.sender is Some)
            || (e1.state_key matches Some(k) && k@ == u && ruma_accepts_user_id(u)),
{
}

/// Gets the effective user ID for a user event, preferring the state key over the sender.
pub fn get_effective_user_id(user_event: &UserEvent) -> (r: Option<String>)
    ensures
        opt_view(r) == effective_user(*user_event),
{
    match &user_event.state_key {
        Some(k) => match parse_user_id(k.as_str()) {
            Ok(u) => Some(u),
            Err(_) => copy_opt(&user_event.sender),
        },
        None => copy_opt(&user_event.sender),
    }
}

/// Whether `e` is the placeholder for a virtual timeline item at `index`.
pub open spec fn is_virtual_event(e: UserEvent, index: usize) -> bool {
    &&& e.index == index
    &&& e.display_name@ == Seq::<char>::empty()
    &&& e.transition == SmallStateType::VirtualTimelineItem
    &&& e.sender is None && e.state_key is None && e.event_id is None
}

/// Whether `r` holds the user events of a timeline: one per small state event and a
/// placeholder for each virtual item, each carrying its position, in timeline order.
pub open spec fn is_extraction(r: Seq<UserEvent>, items: Seq<TimelineItem>) -> bool
    decreases items.len(),
{
    if items.len() == 0 {
        r.len() == 0
    } else {
        let index = (items.len() - 1) as usize;
        match items.last() {
            TimelineItem::Event(e) =>
                if is_small_content(e.content) {
                    r.len() > 0 && r.last() == converted(e, index) && is_extraction(r.drop_last(), items.drop_last())
                } else {
                    is_extraction(r, items.drop_last())
                },
            TimelineItem::Virtual =>
                r.len() > 0 && is_virtual_event(r.last(), index) && is_extraction(r.drop_last(), items.drop_last()),
        }
    }
}

/// Extracts small state events from timeline items and converts them to user events.
pub fn extract_small_state_events(timeline_items: &[TimelineItem]) -> (r: Vec<UserEvent>)
    ensures
        is_extraction(r@, timeline_items@),
{
    let mut r: Vec<UserEvent> = Vec::new();
    let mut i: usize = 0;
    while i < timeline_items.len()
        invariant
            i <= timeline_items@.len(),
            is_extraction(r@, timeline_items@.take(i as int)),
        decreases timeline_items@.len() - i,
    {
        let ghost before = r@;
        let ghost t = timeline_items@.take(i + 1);
        assert(t.drop_last() =~= timeline_items@.take(i as int));
        assert(t.last() == timeline_items@[i as int]);
        match &timeline_items[i] {
            TimelineItem::Event(e) => {
                if crate::timeline::is_small_state(Some(&timeline_items[i])) {
                    r.push(convert_event_timeline_item_to_user_event(e, i));
                    assert(r@.drop_last() =~= before);
                }
            },
            TimelineItem::Virtual => {
                r.push(UserEvent {
                    index: i,
                    display_name: String::new(),
                    transition: SmallStateType::VirtualTimelineItem,
                    sender: None,
                    state_key: None,
                    event_id: None,
                });
                assert(r@.drop_last() =~= before);
            },
        }
        i = i + 1;
    }
    assert(timeline_items@.take(i as int) =~= timeline_items@);
    r
}

// ---------------------------------------------------------------------------
// Avatars and cached data of a group
// ---------------------------------------------------------------------------

/// The smallest timeline index among the events, or 0 when there are none.
pub open spec fn first_index(v: Seq<UserEvent>) -> usize
    decreases v.len(),
{
    if v.len() == 0 {
        0
    } else if v.len() == 1 {
        v[0].index
    } else {
        let m = first_index(v.drop_last());
        if v.last().index < m { v.last().index } else { m }
    }
}

fn min_event_index(v: &Vec<UserEvent>) -> (m: usize)
    ensures
        m == first_index(v@),
{
    let mut m: usize = 0;
    let mut i: usize = 0;
    while i < v.len()
        invariant
            i <= v@.len(),
            m == first_index(v@.take(i as int)),
        decreases v@.len() - i,
    {
        assert(v@.take(i + 1).drop_last() =~= v@.take(i as int));
        if i == 0 || v[i].index < m {
            m = v[i].index;
        }
        i = i + 1;
    }
    assert(v@.take(i as int) =~= v@);
    m
}

/// A user with a sort key.
pub type KeyedUser = (Seq<char>, usize);

/// Stable insertion of `x` after every pair whose key is not above its own.
pub open spec fn insert_by_key(t: Seq<KeyedUser>, x: KeyedUser) -> Seq<KeyedUser>
    decreases t.len(),
{
    if t.len() == 0 {
        seq![x]
    } else if t.last().1 > x.1 {
        insert_by_key(t.drop_last(), x).push(t.last())
    } else {
        t.push(x)
    }
}

/// The pairs stably sorted by their key.
pub open spec fn sort_by_key(s: Seq<KeyedUser>) -> Seq<KeyedUser>
    decreases s.len(),
{
    if s.len() == 0 { seq![] } else { insert_by_key(sort_by_key(s.drop_last()), s.last()) }
}

spec fn key_insert_pos(t: Seq<KeyedUser>, x: KeyedUser) -> int
    decreases t.len(),
{
    if t.len() == 0 { 0 } else if t.last().1 > x.1 { key_insert_pos(t.drop_last(), x) } else { t.len() as int }
}

proof fn lemma_key_insert_pos(t: Seq<KeyedUser>, x: KeyedUser)
    ensures
        0 <= key_insert_pos(t, x) <= t.len(),
        insert_by_key(t, x) == t.insert(key_insert_pos(t, x), x),
    decreases t.len(),
{
    if t.len() > 0 && t.last().1 > x.1 {
        lemma_key_insert_pos(t.drop_last(), x);
        assert(t.drop_last().insert(key_insert_pos(t.drop_last(), x), x).push(t.last())
            =~= t.insert(key_insert_pos(t, x), x));
    } else if t.len() > 0 {
        assert(t.push(x) =~= t.insert(t.len() as int, x));
    } else {
        assert(seq![x] =~= t.insert(0, x));
    }
}

/// Each user with the smallest index of its events.
pub open spec fn first_indices(m: Seq<EntryModel>) -> Seq<KeyedUser> {
    m.map_values(|e: EntryModel| (e.0, first_index(e.1)))
}

/// The users of a group in order of their first event, at most `max_avatars` of them.
pub open spec fn avatar_users(m: Seq<EntryModel>, max_avatars: nat) -> Seq<Seq<char>> {
    let sorted = sort_by_key(first_indices(m));
    sorted.take(if max_avatars < sorted.len() { max_avatars as int } else { sorted.len() as int })
        .map_values(|p: KeyedUser| p.0)
}

/// Whether no user occurs twice among the entries.
pub open spec fn users_distinct(m: Seq<EntryModel>) -> bool {
    forall|i: int, j: int| 0 <= i < j < m.len() ==> (#[trigger] m[i]).0 != (#[trigger] m[j]).0
}

/// Whether no name occurs twice.
pub open spec fn names_distinct(s: Seq<Seq<char>>) -> bool {
    forall|i: int, j: int| 0 <= i < j < s.len() ==> s[i] != s[j]
}

/// Sorting keeps the users: each one sorted was there before, and users that
/// were distinct stay distinct.
proof fn lemma_sort_by_key_users(s: Seq<KeyedUser>)
    ensures
        sort_by_key(s).len() == s.len(),
        forall|k: int| 0 <= k < sort_by_key(s).len() ==> exists|j: int| 0 <= j < s.len() && (#[trigger] s[j]).0 == (#[trigger] sort_by_key(s)[k]).0,
        (forall|i: int, j: int| 0 <= i < j < s.len() ==> (#[trigger] s[i]).0 != (#[trigger] s[j]).0)
            ==> forall|i: int, j: int| 0 <= i < j < sort_by_key(s).len() ==> (#[trigger] sort_by_key(s)[i]).0 != (#[trigger] sort_by_key(s)[j]).0,
    decreases s.len(),
{
    if s.len() > 0 {
        let d = s.drop_last();
        let x = s.last();
        let t = sort_by_key(d);
        lemma_sort_by_key_users(d);
        lemma_key_insert_pos(t, x);
        let p = key_insert_pos(t, x);
        let r = sort_by_key(s);
        assert(r == t.insert(p, x));
        assert forall|k: int| 0 <= k < r.len() implies exists|j: int| 0 <= j < s.len() && (#[trigger] s[j]).0 == (#[trigger] r[k]).0 by {
            if k < p {
                assert(r[k] == t[k]);
                let j = choose|j: int| 0 <= j < d.len() && (#[trigger] d[j]).0 == t[k].0;
                assert(s[j] == d[j]);
            } else if k == p {
                assert(s[s.len() - 1] == x);
            } else {
                assert(r[k] == t[k - 1]);
                let j = choose|j: int| 0 <= j < d.len() && (#[trigger] d[j]).0 == t[k - 1].0;
                assert(s[j] == d[j]);
            }
        }
        if forall|i: int, j: int| 0 <= i < j < s.len() ==> (#[trigger] s[i]).0 != (#[trigger] s[j]).0 {
            assert forall|i: int, j: int| 0 <= i < j < d.len() implies (#[trigger] d[i]).0 != (#[trigger] d[j]).0 by {
                assert(d[i] == s[i] && d[j] == s[j]);
            }
            assert forall|k: int| 0 <= k < t.len() implies (#[trigger] t[k]).0 != x.0 by {
                let j = choose|j: int| 0 <= j < d.len() && (#[trigger] d[j]).0 == t[k].0;
                assert(s[j] == d[j] && s[s.len() - 1] == x);
            }
            assert forall|i: int, j: int| 0 <= i < j < r.len() implies (#[trigger] r[i]).0 != (#[trigger] r[j]).0 by {
                if j < p {
                    assert(r[i] == t[i] && r[j] == t[j]);
                } else if j == p {
                    assert(r[i] == t[i]);
                } else if i < p {
                    assert(r[i] == t[i] && r[j] == t[j - 1]);
                } else if i == p {
                    assert(r[j] == t[j - 1]);
                } else {
                    assert(r[i] == t[i - 1] && r[j] == t[j - 1]);
                }
            }
        }
    }
}

/// The avatars of users that are distinct are distinct.
pub proof fn lemma_avatar_users_distinct(m: Seq<EntryModel>, max_avatars: nat)
    requires
        users_distinct(m),
    ensures
        names_distinct(avatar_users(m, max_avatars)),
{
    let f = first_indices(m);
    assert forall|i: int, j: int| 0 <= i < j < f.len() implies (#[trigger] f[i]).0 != (#[trigger] f[j]).0 by {
        assert(f[i].0 == m[i].0 && f[j].0 == m[j].0);
    }
    lemma_sort_by_key_users(f);
    let sorted = sort_by_key(f);
    let n = if max_avatars < sorted.len() { max_avatars as int } else { sorted.len() as int };
    let a = avatar_users(m, max_avatars);
    assert forall|i: int, j: int| 0 <= i < j < a.len() implies a[i] != a[j] by {
        assert(a[i] == sorted[i].0 && a[j] == sorted[j].0);
    }
}

/// The views of keyed users.
pub open spec fn keyed_views(v: Seq<(String, usize)>) -> Seq<KeyedUser> {
    v.map_values(|p: (String, usize)| (p.0@, p.1))
}

/// Extracts and sorts user IDs from the user events map for avatar display.
pub fn extract_avatar_user_ids(user_events_map: &Vec<(String, Vec<UserEvent>)>, max_avatars: usize) -> (r: Vec<String>)
    ensures
        views(r@) == avatar_users(entry_models(user_events_map@), max_avatars as nat),
{
    let ghost pairs = first_indices(entry_models(user_events_map@));
    let mut sorted: Vec<(String, usize)> = Vec::new();
    let mut i: usize = 0;
    while i < user_events_map.len()
        invariant
            i <= user_events_map@.len(),
            pairs == first_indices(entry_models(user_events_map@)),
            keyed_views(sorted@) == sort_by_key(pairs.take(i as int)),
        decreases user_events_map@.len() - i,
    {
        let x = (user_events_map[i].0.clone(), min_event_index(&user_events_map[i].1));
        let ghost xv = (x.0@, x.1);
        assert(xv == pairs[i as int]);
        let ghost t = keyed_views(sorted@);
        let mut p = sorted.len();
        assert(t.take(p as int) =~= t);
        while p > 0 && sorted[p - 1].1 > x.1
            invariant
                p <= t.len(),
                keyed_views(sorted@) == t,
                xv == (x.0@, x.1),
                key_insert_pos(t, xv) == key_insert_pos(t.take(p as int), xv),
            decreases p,
        {
            assert(t.take(p as int).drop_last() =~= t.take(p - 1));
            assert(t[p - 1].1 == sorted@[p - 1].1);
            assert(t.take(p as int).last() == t[p - 1]);
            p = p - 1;
        }
        proof {
            if p > 0 {
                assert(t.take(p as int).last() == t[p - 1]);
                assert(t[p - 1].1 == sorted@[p - 1].1);
            }
            lemma_key_insert_pos(t, xv);
        }
        sorted.insert(p, x);
        assert(keyed_views(sorted@) =~= t.insert(p as int, xv));
        assert(pairs.take(i + 1).drop_last() =~= pairs.take(i as int));
        i = i + 1;
    }
    assert(pairs.take(i as int) =~= pairs);
    let n = if max_avatars < sorted.len() { max_avatars } else { sorted.len() };
    let mut r: Vec<String> = Vec::new();
    let mut k: usize = 0;
    while k < n
        invariant
            k <= n <= sorted@.len(),
            keyed_views(sorted@).len() == sorted@.len(),
            views(r@) == keyed_views(sorted@).take(k as int).map_values(|p: KeyedUser| p.0),
        decreases n - k,
    {
        let ghost kv = keyed_views(sorted@);
        let ghost before = r@;
        r.push(sorted[k].0.clone());
        assert(views(r@) =~= views(before).push(kv[k as int].0));
        assert(kv.take(k + 1) =~= kv.take(k as int).push(kv[k as int]));
        assert(views(r@) =~= kv.take(k + 1).map_values(|p: KeyedUser| p.0));
        k = k + 1;
    }
    r
}

/// A group of adjacent small state events that can be collapsed and expanded.
#[derive(Debug, Default, Clone, PartialEq, Eq)]
pub struct SmallStateGroup {
    /// The creator of the room, for the group of the room's creation events.
    pub room_creator: Option<String>,
    /// The events of each user of the group, keyed by user ID.
    pub user_events_map: Vec<(String, Vec<UserEvent>)>,
    /// Cached summary text.
    pub cached_summary: Option<String>,
    /// Cached list of user IDs for avatar display, sorted and limited.
    pub cached_avatar_user_ids: Option<Vec<String>>,
}

/// Whether the cached data of a group is that of its user events map.
pub open spec fn cache_is_current(g: SmallStateGroup, max_avatars: nat) -> bool {
    &&& g.cached_summary matches Some(s) && s@ == summary(entry_models(g.user_events_map@), SUMMARY_LENGTH as nat)
    &&& g.cached_avatar_user_ids matches Some(a) && views(a@) == avatar_users(entry_models(g.user_events_map@), max_avatars)
}

impl SmallStateGroup {
    /// Computes and caches the summary text and avatar user IDs for this group,
    /// listing at most `max_avatars` avatars.
    pub fn update_cached_data(&mut self, max_avatars: usize)
        ensures
            final(self).room_creator == old(self).room_creator,
            final(self).user_events_map == old(self).user_events_map,
            cache_is_current(*final(self), max_avatars as nat),
            users_distinct(entry_models(old(self).user_events_map@))
                ==> (final(self).cached_avatar_user_ids matches Some(a) && names_distinct(views(a@))),
    {
        self.cached_summary = Some(generate_summary(&self.user_events_map, SUMMARY_LENGTH));
        self.cached_avatar_user_ids = Some(extract_avatar_user_ids(&self.user_events_map, max_avatars));
        proof {
            if users_distinct(entry_models(self.user_events_map@)) {
                lemma_avatar_users_distinct(entry_models(self.user_events_map@), max_avatars as nat);
            }
        }
    }
}

// ---------------------------------------------------------------------------
// Building groups
// ---------------------------------------------------------------------------

/// A group as a value: room creator, events by user, cached summary and avatars.
pub type GroupView = (Option<Seq<char>>, Seq<EntryModel>, Option<Seq<char>>, Option<Seq<Seq<char>>>);

pub open spec fn opt_views(o: Option<Vec<String>>) -> Option<Seq<Seq<char>>> {
    match o {
        Some(v) => Some(views(v@)),
        None => None,
    }
}

impl View for SmallStateGroup {
    type V = GroupView;

    open spec fn view(&self) -> GroupView {
        (opt_view(self.room_creator), entry_models(self.user_events_map@), opt_view(self.cached_summary),
            opt_views(self.cached_avatar_user_ids))
    }
}

/// Whether some event of `v` has the given timeline index.
pub open spec fn has_index(v: Seq<UserEvent>, index: usize) -> bool {
    exists|i: int| 0 <= i < v.len() && (#[trigger] v[i]).index == index
}

/// `v` with `e` appended, unless `v` already holds an event at `e`'s index.
pub open spec fn push_absent(v: Seq<UserEvent>, e: UserEvent) -> Seq<UserEvent> {
    if has_index(v, e.index) { v } else { v.push(e) }
}

/// The events of a group by effective user, users in order of first appearance;
/// events without a user are left out, and an index is recorded once per user.
pub open spec fn by_user(g: Seq<UserEvent>) -> Seq<EntryModel>
    decreases g.len(),
{
    if g.len() == 0 {
        seq![]
    } else {
        let m = by_user(g.drop_last());
        let e = g.last();
        match effective_user(e) {
            None => m,
            Some(u) => if exists|k: int| 0 <= k < m.len() && (#[trigger] m[k]).0 == u {
                let k = choose|k: int| 0 <= k < m.len() && (#[trigger] m[k]).0 == u;
                m.update(k, (u, push_absent(m[k].1, e)))
            } else {
                m.push((u, seq![e]))
            },
        }
    }
}

/// No user occurs twice in `by_user`.
pub proof fn lemma_by_user_distinct(g: Seq<UserEvent>)
    ensures
        forall|i: int, j: int| 0 <= i < j < by_user(g).len() ==> (#[trigger] by_user(g)[i]).0 != (#[trigger] by_user(g)[j]).0,
    decreases g.len(),
{
    if g.len() > 0 {
        let d = g.drop_last();
        lemma_by_user_distinct(d);
        let m = by_user(d);
        let b = by_user(g);
        match effective_user(g.last()) {
            None => {},
            Some(u) => {
                if exists|k: int| 0 <= k < m.len() && (#[trigger] m[k]).0 == u {
                    assert forall|i: int, j: int| 0 <= i < j < b.len() implies (#[trigger] b[i]).0 != (#[trigger] b[j]).0 by {
                        assert(b[i].0 == m[i].0 && b[j].0 == m[j].0);
                    }
                } else {
                    assert forall|i: int, j: int| 0 <= i < j < b.len() implies (#[trigger] b[i]).0 != (#[trigger] b[j]).0 by {
                        assert(b[i] == m[i]);
                        if j < m.len() { assert(b[j] == m[j]); }
                    }
                }
            },
        }
    }
}

/// The synthetic event ID of a group without one: `$synthetic_{start}_{end}`.
pub open spec fn synthetic_id(start: usize, end: nat) -> Seq<char> {
    "$synthetic_"@ + decimal(start as nat) + "_"@ + decimal(end)
}

/// The ID a group is known by: its first event's ID, else a synthetic one.
pub open spec fn header_id(g: Seq<UserEvent>) -> Seq<char> {
    match g[0].event_id {
        Some(e) => e@,
        None => synthetic_id(g[0].index, (g.last().index + 1) as nat),
    }
}

/// The group made of the events `g`.
pub open spec fn group_of(g: Seq<UserEvent>, is_creation: bool, max_avatars: nat) -> GroupView {
    let m = by_user(g);
    (if is_creation { opt_view(g[0].sender) } else { None }, m, Some(summary(m, SUMMARY_LENGTH as nat)),
        Some(avatar_users(m, max_avatars)))
}

/// The manager as a value: what each index maps to, and the groups by ID.
pub type ManagerModel = (Map<usize, Seq<char>>, Seq<(Seq<char>, GroupView)>);

/// The manager's state after adding the group of events `g`: its range maps to
/// its ID, and the group is stored under that ID, replacing a group with the same ID.
pub open spec fn add_group(m: ManagerModel, g: Seq<UserEvent>, is_creation: bool, max_avatars: nat) -> ManagerModel {
    let id = header_id(g);
    let r = Range { start: g[0].index, end: (g.last().index + 1) as usize };
    let gv = group_of(g, is_creation, max_avatars);
    (with_range(m.0, r, id),
        if exists|k: int| 0 <= k < m.1.len() && (#[trigger] m.1[k]).0 == id {
            let k = choose|k: int| 0 <= k < m.1.len() && (#[trigger] m.1[k]).0 == id;
            m.1.update(k, (id, gv))
        } else {
            m.1.push((id, gv))
        })
}

/// Combined state for managing small state groups.
#[derive(Debug)]
pub struct SmallStateGroupManager {
    /// The group ranges, each mapped to its group's ID.
    pub small_state_groups: IndexRangeMap,
    /// The groups, by ID.
    pub groups_by_event_id: Vec<(String, SmallStateGroup)>,
}

pub open spec fn group_entries(v: Seq<(String, SmallStateGroup)>) -> Seq<(Seq<char>, GroupView)> {
    v.map_values(|e: (String, SmallStateGroup)| (e.0@, e.1@))
}

/// No ID occurs twice.
pub open spec fn ids_distinct(v: Seq<(Seq<char>, GroupView)>) -> bool {
    forall|i: int, j: int| 0 <= i < j < v.len() ==> (#[trigger] v[i]).0 != (#[trigger] v[j]).0
}

impl View for SmallStateGroupManager {
    type V = ManagerModel;

    open spec fn view(&self) -> ManagerModel {
        (range_map_contents(self.small_state_groups), group_entries(self.groups_by_event_id@))
    }
}

impl Default for SmallStateGroupManager {
    fn default() -> (r: Self)
        ensures
            r@.0 =~= Map::empty(),
            r@.1.len() == 0,
    {
        SmallStateGroupManager { small_state_groups: range_map_new(), groups_by_event_id: Vec::new() }
    }
}

fn push_if_absent(v: &mut Vec<UserEvent>, e: UserEvent)
    ensures
        final(v)@ == push_absent(old(v)@, e),
{
    let mut i: usize = 0;
    while i < v.len()
        invariant
            i <= v@.len(),
            v@ == old(v)@,
            forall|j: int| 0 <= j < i ==> (#[trigger] v@[j]).index != e.index,
        decreases v@.len() - i,
    {
        if v[i].index == e.index {
            return;
        }
        i = i + 1;
    }
    v.push(e);
}

/// The events of a group, by effective user.
fn group_by_user(events: &[UserEvent]) -> (r: Vec<(String, Vec<UserEvent>)>)
    ensures
        entry_models(r@) == by_user(events@),
{
    let mut m: Vec<(String, Vec<UserEvent>)> = Vec::new();
    let mut i: usize = 0;
    while i < events.len()
        invariant
            i <= events@.len(),
            entry_models(m@) == by_user(events@.take(i as int)),
        decreases events@.len() - i,
    {
        let ghost prev = entry_models(m@);
        let ghost t = events@.take(i + 1);
        assert(t.drop_last() =~= events@.take(i as int));
        assert(t.last() == events@[i as int]);
        proof { lemma_by_user_distinct(events@.take(i as int)); }
        let e = events[i].duplicate();
        match get_effective_user_id(&e) {
            None => {},
            Some(u) => {
                let mut k: usize = 0;
                let mut found = false;
                while k < m.len() && !found
                    invariant
                        k <= m@.len(),
                        prev == entry_models(m@),
                        found ==> k < m@.len() && prev[k as int].0 == u@,
                        forall|j: int| 0 <= j < k ==> (#[trigger] prev[j]).0 != u@,
                    decreases m@.len() - k + (if found { 0int } else { 1int }),
                {
                    assert(prev[k as int].0 == m@[k as int].0@);
                    if m[k].0 == u {
                        found = true;
                    } else {
                        k = k + 1;
                    }
                }
                if found {
                    proof {
                        let k2 = choose|k2: int| 0 <= k2 < prev.len() && (#[trigger] prev[k2]).0 == u@;
                        assert(k2 == k as int) by {
                            if k2 < k as int { assert(prev[k2].0 != u@); }
                            if k2 > k as int { assert(prev[k as int].0 != prev[k2].0); }
                        }
                    }
                    let (key, mut evs) = m.remove(k);
                    push_if_absent(&mut evs, e);
                    m.insert(k, (key, evs));
                    assert(entry_models(m@) =~= prev.update(k as int, (u@, push_absent(prev[k as int].1, events@[i as int]))));
                } else {
                    let mut evs: Vec<UserEvent> = Vec::new();
                    evs.push(e);
                    m.push((u, evs));
                    assert(entry_models(m@) =~= prev.push((u@, seq![events@[i as int]])));
                }
            },
        }
        i = i + 1;
    }
    assert(events@.take(i as int) =~= events@);
    m
}

/// The synthetic ID `$synthetic_{start}_{end}`.
fn synthetic_event_id(start: usize, end: usize) -> (r: String)
    ensures
        r@ == synthetic_id(start, end as nat),
{
    let mut s = String::from_str("$synthetic_");
    push_decimal(&mut s, start);
    s.append("_");
    push_decimal(&mut s, end);
    s
}

proof fn lemma_decimal_digits(n: nat)
    ensures
        forall|i: int| 0 <= i < decimal(n).len() ==> (#[trigger] decimal(n)[i]) != ':',
        decimal(n).len() > 0,
    decreases n,
{
    if n >= 10 {
        lemma_decimal_digits(n / 10);
        let d = decimal(n);
        assert forall|i: int| 0 <= i < d.len() implies (#[trigger] d[i]) != ':' by {
            if i < d.len() - 1 {
                assert(d[i] == decimal(n / 10)[i]);
            }
        }
    }
}

proof fn lemma_synthetic_id_shape(start: usize, end: nat)
    ensures
        !synthetic_id(start, end).contains(':'),
        synthetic_id(start, end).len() > 0,
        synthetic_id(start, end)[0] == '$',
{
    reveal_strlit("$synthetic_");
    reveal_strlit("_");
    lemma_decimal_digits(start as nat);
    lemma_decimal_digits(end);
    let s = synthetic_id(start, end);
    let a = "$synthetic_"@;
    let b = decimal(start as nat);
    let c = "_"@;
    let d = decimal(end);
    assert(s == a + b + c + d);
    assert(s[0] == a[0]);
    if s.contains(':') {
        let i = choose|i: int| 0 <= i < s.len() && s[i] == ':';
        if i < a.len() {
            assert(s[i] == a[i]);
        } else if i < a.len() + b.len() {
            assert(s[i] == b[i - a.len()]);
        } else if i < a.len() + b.len() + c.len() {
            assert(s[i] == c[i - a.len() - b.len()]);
        } else {
            assert(s[i] == d[i - a.len() - b.len() - c.len()]);
        }
    }
}

/// Whether every timeline index of the events is below `usize::MAX` (so that
/// the index after it exists).
pub open spec fn indices_below_max(g: Seq<UserEvent>) -> bool {
    forall|i: int| 0 <= i < g.len() ==> (#[trigger] g[i]).index < usize::MAX
}

/// Whether a group's first index is not past its last one, so that it spans a
/// non-empty range.
pub open spec fn spans_forward(g: Seq<UserEvent>) -> bool {
    g.len() > 0 ==> g[0].index <= g.last().index
}

impl SmallStateGroupManager {
    /// No group ID occurs twice, and no user occurs twice within a group.
    pub open spec fn wf(&self) -> bool {
        &&& ids_distinct(self@.1)
        &&& forall|k: int| 0 <= k < self@.1.len() ==> users_distinct((#[trigger] self@.1[k]).1.1)
    }

    /// Adds the group of the given events.
    fn create_group(&mut self, events: &[UserEvent], is_creation: bool, max_avatars: usize)
        requires
            old(self).wf(),
            events@.len() > 0,
            indices_below_max(events@),
            spans_forward(events@),
        ensures
            final(self).wf(),
            final(self)@ == add_group(old(self)@, events@, is_creation, max_avatars as nat),
    {
        let ghost g = events@;
        let start_index = events[0].index;
        let end_index = events[events.len() - 1].index + 1;
        let user_events_map = group_by_user(events);
        let header_event_id = match &events[0].event_id {
            Some(e) => e.clone(),
            None => {
                let synthetic = synthetic_event_id(start_index, end_index);
                proof { lemma_synthetic_id_shape(start_index, end_index as nat); }
                match parse_event_id(synthetic.as_str()) {
                    Some(id) => id,
                    None => synthetic,
                }
            },
        };
        assert(header_event_id@ == header_id(g));
        range_map_insert(&mut self.small_state_groups, start_index..end_index, header_event_id.clone());
        let room_creator = if is_creation { copy_opt(&events[0].sender) } else { None };
        let mut group = SmallStateGroup {
            room_creator,
            user_events_map,
            cached_summary: None,
            cached_avatar_user_ids: None,
        };
        group.update_cached_data(max_avatars);
        assert(group@ == group_of(g, is_creation, max_avatars as nat));
        let ghost entries = self@.1;
        let mut k: usize = 0;
        let mut found = false;
        while k < self.groups_by_event_id.len() && !found
            invariant
                k <= self.groups_by_event_id@.len(),
                entries == group_entries(self.groups_by_event_id@),
                found ==> k < entries.len() && entries[k as int].0 == header_event_id@,
                forall|j: int| 0 <= j < k ==> (#[trigger] entries[j]).0 != header_event_id@,
            decreases self.groups_by_event_id@.len() - k + (if found { 0int } else { 1int }),
        {
            assert(entries[k as int].0 == self.groups_by_event_id@[k as int].0@);
            if self.groups_by_event_id[k].0 == header_event_id {
                found = true;
            } else {
                k = k + 1;
            }
        }
        if found {
            proof {
                let k2 = choose|k2: int| 0 <= k2 < entries.len() && (#[trigger] entries[k2]).0 == header_id(g);
                assert(k2 == k as int) by {
                    if k2 < k as int { assert(entries[k2].0 != header_id(g)); }
                    if k2 > k as int { assert(entries[k as int].0 != entries[k2].0); }
                }
            }
            self.groups_by_event_id.set(k, (header_event_id, group));
            assert(group_entries(self.groups_by_event_id@) =~= entries.update(k as int, (header_id(g), group_of(g, is_creation, max_avatars as nat))));
            assert(ids_distinct(self@.1)) by {
                let e2 = self@.1;
                assert forall|i: int, j: int| 0 <= i < j < e2.len() implies (#[trigger] e2[i]).0 != (#[trigger] e2[j]).0 by {
                    assert(e2[i].0 == entries[i].0 && e2[j].0 == entries[j].0);
                }
            }
            proof {
                lemma_by_user_distinct(g);
                let e2 = self@.1;
                assert forall|i: int| 0 <= i < e2.len() implies users_distinct((#[trigger] e2[i]).1.1) by {
                    if i != k as int { assert(e2[i] == entries[i]); }
                }
            }
        } else {
            self.groups_by_event_id.push((header_event_id, group));
            assert(group_entries(self.groups_by_event_id@) =~= entries.push((header_id(g), group_of(g, is_creation, max_avatars as nat))));
            assert(ids_distinct(self@.1)) by {
                let e2 = self@.1;
                assert forall|i: int, j: int| 0 <= i < j < e2.len() implies (#[trigger] e2[i]).0 != (#[trigger] e2[j]).0 by {
                    assert(e2[i] == entries[i]);
                    if j < entries.len() { assert(e2[j] == entries[j]); }
                }
            }
            proof {
                lemma_by_user_distinct(g);
                let e2 = self@.1;
                assert forall|i: int| 0 <= i < e2.len() implies users_distinct((#[trigger] e2[i]).1.1) by {
                    if i < entries.len() { assert(e2[i] == entries[i]); }
                }
            }
        }
    }

    /// Creates or updates a room-creation group from the given creation events.
    fn create_room_creation_group(&mut self, events: &[UserEvent], max_avatars: usize)
        requires
            old(self).wf(),
            indices_below_max(events@),
            spans_forward(events@),
        ensures
            final(self).wf(),
            events@.len() == 0 ==> final(self)@ == old(self)@,
            events@.len() > 0 ==> final(self)@ == add_group(old(self)@, events@, true, max_avatars as nat),
    {
        if events.len() == 0 {
            return;
        }
        self.create_group(events, true, max_avatars);
    }

    /// Creates or updates a regular group from consecutive user events.
    fn create_group_from_events(&mut self, events: &[UserEvent], max_avatars: usize)
        requires
            old(self).wf(),
            indices_below_max(events@),
            spans_forward(events@),
        ensures
            final(self).wf(),
            events@.len() == 0 ==> final(self)@ == old(self)@,
            events@.len() > 0 ==> final(self)@ == add_group(old(self)@, events@, false, max_avatars as nat),
    {
        if events.len() == 0 {
            return;
        }
        self.create_group(events, false, max_avatars);
    }
}

// ---------------------------------------------------------------------------
// Computing all groups of a timeline
// ---------------------------------------------------------------------------

/// The state of the scan over the small state events: finished room-creation
/// groups, the creation group being built, the index of its last event, the room
/// creator, and the events left for regular groups.
pub type Scan = (Seq<Seq<UserEvent>>, Seq<UserEvent>, Option<usize>, Option<Seq<char>>, Seq<UserEvent>);

/// One step of the scan. A `CreateRoom` event starts (or extends) the creation
/// group; while one is open, the creator's `Joined`/`ConfigureRoom` event at the
/// next index extends it, and any other event closes it and becomes regular.
/// Virtual items are skipped.
pub open spec fn scan_step(st: Scan, e: UserEvent) -> Scan {
    let (done, cur, end, creator, regular) = st;
    if e.transition == SmallStateType::VirtualTimelineItem {
        st
    } else if e.transition == SmallStateType::CreateRoom {
        (done, cur.push(e), Some(e.index), opt_view(e.sender), regular)
    } else if end is Some {
        if (e.transition == SmallStateType::Joined || e.transition == SmallStateType::ConfigureRoom)
            && opt_view(e.sender) == creator && e.index == end.unwrap() + 1 {
            (done, cur.push(e), Some(e.index), creator, regular)
        } else {
            (if cur.len() > 0 { done.push(cur) } else { done }, seq![], None, None, regular.push(e))
        }
    } else {
        (done, cur, end, creator, regular.push(e))
    }
}

pub open spec fn scan(events: Seq<UserEvent>) -> Scan
    decreases events.len(),
{
    if events.len() == 0 {
        (seq![], seq![], None, None, seq![])
    } else {
        scan_step(scan(events.drop_last()), events.last())
    }
}

/// The room-creation groups of the events.
pub open spec fn creation_groups(events: Seq<UserEvent>) -> Seq<Seq<UserEvent>> {
    let st = scan(events);
    if st.1.len() > 0 { st.0.push(st.1) } else { st.0 }
}

/// The maximal runs of events with consecutive timeline indices.
pub open spec fn index_runs(s: Seq<UserEvent>) -> Seq<Seq<UserEvent>>
    decreases s.len(),
{
    if s.len() == 0 {
        seq![]
    } else {
        let prev = index_runs(s.drop_last());
        if prev.len() > 0 && s.last().index == prev.last().last().index + 1 {
            prev.update(prev.len() - 1, prev.last().push(s.last()))
        } else {
            prev.push(seq![s.last()])
        }
    }
}

/// The runs long enough to be collapsed.
pub open spec fn long_runs(runs: Seq<Seq<UserEvent>>) -> Seq<Seq<UserEvent>>
    decreases runs.len(),
{
    if runs.len() == 0 {
        seq![]
    } else if runs.last().len() >= MIN_GROUP_SIZE_FOR_COLLAPSE {
        long_runs(runs.drop_last()).push(runs.last())
    } else {
        long_runs(runs.drop_last())
    }
}

/// The manager's state after adding the groups, the first ones first.
pub open spec fn add_groups(m: ManagerModel, groups: Seq<Seq<UserEvent>>, is_creation: bool, max_avatars: nat) -> ManagerModel
    decreases groups.len(),
{
    if groups.len() == 0 {
        m
    } else {
        add_group(add_groups(m, groups.drop_last(), is_creation, max_avatars), groups.last(), is_creation, max_avatars)
    }
}

/// The manager's state computed from the small state events: the room-creation
/// groups, then the runs of at least three consecutive regular events.
pub open spec fn computed_state(events: Seq<UserEvent>, max_avatars: nat) -> ManagerModel {
    let after_creation = add_groups((Map::empty(), seq![]), creation_groups(events), true, max_avatars);
    add_groups(after_creation, long_runs(index_runs(scan(events).4)), false, max_avatars)
}

/// Whether each room-creation group of the events spans a non-empty range.
pub open spec fn creation_groups_span_forward(events: Seq<UserEvent>) -> bool {
    forall|k: int| 0 <= k < creation_groups(events).len() ==> spans_forward(#[trigger] creation_groups(events)[k])
}

/// The groups closed while scanning a prefix are the first groups closed
/// while scanning the whole.
proof fn lemma_scan_done_prefix(s: Seq<UserEvent>, i: int)
    requires
        0 <= i <= s.len(),
    ensures
        scan(s.take(i)).0.len() <= scan(s).0.len(),
        forall|k: int| 0 <= k < scan(s.take(i)).0.len() ==> (#[trigger] scan(s.take(i)).0[k]) == scan(s).0[k],
    decreases s.len(),
{
    if i == s.len() {
        assert(s.take(i) =~= s);
    } else {
        lemma_scan_done_prefix(s.drop_last(), i);
        assert(s.drop_last().take(i) =~= s.take(i));
    }
}

proof fn lemma_index_runs_last(s: Seq<UserEvent>)
    requires
        s.len() > 0,
    ensures
        index_runs(s).len() > 0,
        index_runs(s).last().len() > 0,
        index_runs(s).last().last() == s.last(),
    decreases s.len(),
{
    if s.len() > 1 {
        lemma_index_runs_last(s.drop_last());
    }
}

fn same_opt(a: &Option<String>, b: &Option<String>) -> (r: bool)
    ensures
        r == (opt_view(*a) == opt_view(*b)),
{
    match (a, b) {
        (Some(x), Some(y)) => *x == *y,
        (None, None) => true,
        _ => false,
    }
}

impl SmallStateGroupManager {
    /// Recomputes the groups from a flat list of user events: room-creation groups
    /// for the creator's first events, then groups of at least three consecutive
    /// other small state events. The events may come in any order; a
    /// creation group whose last index lies before its first would give the
    /// range map an empty range, so such input is left out.
    pub fn compute_group_state(&mut self, small_state_events: Vec<UserEvent>, max_avatars: usize)
        requires
            indices_below_max(small_state_events@),
            creation_groups_span_forward(small_state_events@),
        ensures
            final(self).wf(),
            final(self)@ == computed_state(small_state_events@, max_avatars as nat),
    {
        let ghost ev = small_state_events@;
        range_map_clear(&mut self.small_state_groups);
        self.groups_by_event_id.clear();
        assert(self@ =~= (Map::<usize, Seq<char>>::empty(), Seq::<(Seq<char>, GroupView)>::empty()));
        if small_state_events.len() == 0 {
            return;
        }
        let ghost init: ManagerModel = (Map::empty(), seq![]);
        let mut creation_events: Vec<UserEvent> = Vec::new();
        let mut creation_end_index: Option<usize> = None;
        let mut room_creator: Option<String> = None;
        let mut regular_events: Vec<UserEvent> = Vec::new();
        let mut i: usize = 0;
        while i < small_state_events.len()
            invariant
                i <= ev.len(),
                ev == small_state_events@,
                indices_below_max(ev),
                creation_groups_span_forward(ev),
                self.wf(),
                ({
                    let st = scan(ev.take(i as int));
                    &&& creation_events@ == st.1
                    &&& creation_end_index == st.2
                    &&& opt_view(room_creator) == st.3
                    &&& regular_events@ == st.4
                    &&& self@ == add_groups(init, st.0, true, max_avatars as nat)
                }),
                init == (Map::<usize, Seq<char>>::empty(), Seq::<(Seq<char>, GroupView)>::empty()),
                indices_below_max(creation_events@),
                indices_below_max(regular_events@),
                creation_end_index matches Some(x) ==> creation_events@.len() > 0 && x == creation_events@.last().index,
            decreases ev.len() - i,
        {
            let ghost st = scan(ev.take(i as int));
            assert(ev.take(i + 1).drop_last() =~= ev.take(i as int));
            assert(ev.take(i + 1).last() == ev[i as int]);
            let event = &small_state_events[i];
            if event.transition == SmallStateType::VirtualTimelineItem {
            } else if event.transition == SmallStateType::CreateRoom {
                room_creator = copy_opt(&event.sender);
                creation_end_index = Some(event.index);
                creation_events.push(event.duplicate());
            } else if creation_end_index.is_some() {
                let last_creation_index = creation_end_index.unwrap();
                if (event.transition == SmallStateType::Joined || event.transition == SmallStateType::ConfigureRoom)
                    && same_opt(&event.sender, &room_creator)
                    && event.index == last_creation_index + 1 {
                    creation_end_index = Some(event.index);
                    creation_events.push(event.duplicate());
                } else {
                    if creation_events.len() > 0 {
                        proof {
                            let n = st.0.len();
                            assert(scan(ev.take(i + 1)).0 == st.0.push(st.1));
                            lemma_scan_done_prefix(ev, i + 1);
                            assert(scan(ev.take(i + 1)).0[n as int] == scan(ev).0[n as int]);
                            assert(creation_groups(ev)[n as int] == scan(ev).0[n as int]);
                        }
                        self.create_room_creation_group(creation_events.as_slice(), max_avatars);
                        assert(st.0.push(st.1).drop_last() =~= st.0);
                        assert(st.0.push(st.1).last() == st.1);
                        creation_events.clear();
                    }
                    creation_end_index = None;
                    room_creator = None;
                    regular_events.push(event.duplicate());
                }
            } else {
                regular_events.push(event.duplicate());
            }
            i = i + 1;
        }
        assert(ev.take(i as int) =~= ev);
        let ghost st = scan(ev);
        if creation_events.len() > 0 {
            assert(creation_groups(ev)[st.0.len() as int] == st.1);
            self.create_room_creation_group(creation_events.as_slice(), max_avatars);
            assert(st.0.push(st.1).drop_last() =~= st.0);
        }
        let ghost after_creation = self@;
        assert(after_creation == add_groups(init, creation_groups(ev), true, max_avatars as nat));
        let ghost reg = regular_events@;
        if regular_events.len() == 0 {
            assert(index_runs(reg) =~= Seq::<Seq<UserEvent>>::empty());
            return;
        }
        let mut current_group_events: Vec<UserEvent> = Vec::new();
        current_group_events.push(regular_events[0].duplicate());
        assert(reg.take(1).drop_last() =~= Seq::<UserEvent>::empty());
        assert(reg.take(1).last() == reg[0]);
        assert(index_runs(reg.take(1).drop_last()) =~= Seq::<Seq<UserEvent>>::empty());
        assert(index_runs(reg.take(1)) =~= seq![seq![reg[0]]]);
        let mut j: usize = 1;
        while j < regular_events.len()
            invariant
                1 <= j <= reg.len(),
                reg == regular_events@,
                indices_below_max(reg),
                self.wf(),
                index_runs(reg.take(j as int)).len() > 0,
                current_group_events@ == index_runs(reg.take(j as int)).last(),
                current_group_events@.len() > 0,
                forall|k: int| 0 <= k < current_group_events@.len()
                    ==> (#[trigger] current_group_events@[k]).index == current_group_events@[0].index + k,
                current_group_events@.last() == reg[j - 1],
                self@ == add_groups(after_creation, long_runs(index_runs(reg.take(j as int)).drop_last()), false, max_avatars as nat),
            decreases reg.len() - j,
        {
            let ghost runs = index_runs(reg.take(j as int));
            let ghost t = reg.take(j + 1);
            assert(t.drop_last() =~= reg.take(j as int));
            assert(t.last() == reg[j as int]);
            proof { lemma_index_runs_last(reg.take(j as int)); }
            assert(reg.take(j as int).last() == reg[j - 1]);
            let prev_index = regular_events[j - 1].index;
            let current_index = regular_events[j].index;
            if current_index == prev_index + 1 {
                current_group_events.push(regular_events[j].duplicate());
                assert(index_runs(t).drop_last() =~= runs.drop_last());
            } else {
                assert(index_runs(t).drop_last() =~= runs);
                if current_group_events.len() >= MIN_GROUP_SIZE_FOR_COLLAPSE {
                    self.create_group_from_events(current_group_events.as_slice(), max_avatars);
                    assert(long_runs(runs).drop_last() =~= long_runs(runs.drop_last()));
                }
                current_group_events = Vec::new();
                current_group_events.push(regular_events[j].duplicate());
                assert(current_group_events@ =~= index_runs(t).last());
            }
            j = j + 1;
        }
        assert(reg.take(j as int) =~= reg);
        let ghost runs = index_runs(reg);
        if current_group_events.len() >= MIN_GROUP_SIZE_FOR_COLLAPSE {
            self.create_group_from_events(current_group_events.as_slice(), max_avatars);
            assert(long_runs(runs).drop_last() =~= long_runs(runs.drop_last()));
        }
        assert(runs =~= runs.drop_last().push(runs.last()));
    }
}

/// Whether some group starts at `item_id`: the index is covered, and the index
/// before it is not covered by the same group.
pub open spec fn group_starts_at(contents: Map<usize, Seq<char>>, item_id: usize) -> bool {
    &&& contents.contains_key(item_id)
    &&& item_id > 0 ==> !(contents.contains_key((item_id - 1) as usize)
        && contents[(item_id - 1) as usize] == contents[item_id])
}

impl SmallStateGroupManager {
    /// The range of the group that covers the item, if any.
    pub fn check_group_range(&self, item_id: usize) -> (r: Option<Range<usize>>)
        ensures
            r is Some <==> self@.0.contains_key(item_id),
            r matches Some(rg) ==> rg.start <= item_id < rg.end && is_maximal_run(self@.0, rg, self@.0[item_id]),
    {
        match range_map_get_key_value(&self.small_state_groups, item_id) {
            Some((range, _)) => Some(range),
            None => None,
        }
    }

    /// The group that starts at the item, if there is one.
    pub fn get_group_at_item_id(&self, item_id: usize) -> (r: Option<&SmallStateGroup>)
        requires
            self.wf(),
        ensures
            r is Some <==> group_starts_at(self@.0, item_id)
                && exists|k: int| 0 <= k < self@.1.len() && (#[trigger] self@.1[k]).0 == self@.0[item_id],
            r matches Some(g) ==> exists|k: int| 0 <= k < self@.1.len() && (#[trigger] self@.1[k]).0 == self@.0[item_id]
                && self@.1[k].1 == g@,
    {
        let ghost c = self@.0;
        match range_map_get_key_value(&self.small_state_groups, item_id) {
            Some((range, event_id)) => {
                assert(is_maximal_run(c, range, event_id@));
                assert(c.contains_key(item_id));
                if range.start != item_id {
                    let prev_item = (item_id - 1) as usize;
                    assert(range.start <= prev_item < range.end);
                    assert(c.contains_key(prev_item) && c[prev_item] == event_id@);
                    return None;
                }
                assert(group_starts_at(c, item_id));
                let ghost entries = self@.1;
                let mut k: usize = 0;
                while k < self.groups_by_event_id.len()
                    invariant
                        k <= entries.len(),
                        entries == group_entries(self.groups_by_event_id@),
                        entries == self@.1,
                        c == self@.0,
                        c.contains_key(item_id),
                        group_starts_at(c, item_id),
                        event_id@ == c[item_id],
                        forall|j: int| 0 <= j < k ==> (#[trigger] entries[j]).0 != event_id@,
                    decreases entries.len() - k,
                {
                    assert(entries[k as int] == (self.groups_by_event_id@[k as int].0@, self.groups_by_event_id@[k as int].1@));
                    if self.groups_by_event_id[k].0 == event_id {
                        assert(entries[k as int].0 == c[item_id]);
                        return Some(&self.groups_by_event_id[k].1);
                    }
                    k = k + 1;
                }
                None
            },
            None => None,
        }
    }
}

} // verus!
