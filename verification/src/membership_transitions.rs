//! Summaries of runs of membership and other small state events, as shown
//! when consecutive small events of a room timeline are collapsed.

use vstd::prelude::*;
use std::ops::Range;
use crate::timeline::{MembershipChange, OtherStateKind, MsgLikeKind, TimelineItemContent, EventTimelineItem, TimelineItem, is_small_content, is_small_item, is_small_state};
use crate::text::{decimal, join, views, push_decimal, join_prefix, join_all, copy_opt_string};

verus! {

/// What a user did in one small state event.
#[derive(Clone, Copy, Debug, PartialEq, Eq, Hash, Structural)]
pub enum TransitionType {
    CreateRoom,
    ConfigureRoom,
    Joined,
    Left,
    JoinedAndLeft,
    LeftAndJoined,
    InviteReject,
    InviteWithdrawal,
    Invited,
    Banned,
    Unbanned,
    Kicked,
    ChangedName,
    ChangedAvatar,
    NoChange,
    ServerAcl,
    ChangedPins,
    MessageRemoved,
    UnableToDecrypt,
    HiddenEvent,
}

impl Default for TransitionType {
    fn default() -> (r: Self)
        ensures
            r == TransitionType::NoChange,
    {
        TransitionType::NoChange
    }
}

// ---------------------------------------------------------------------------
// Canonical form: neighbouring Joined/Left pairs become one compound transition
// ---------------------------------------------------------------------------

/// The canonical form of a transition sequence, read from the front:
/// `[Joined, Left]` becomes `JoinedAndLeft` and `[Left, Joined]` becomes `LeftAndJoined`.
pub open spec fn canonical(s: Seq<TransitionType>) -> Seq<TransitionType>
    decreases s.len(),
{
    if s.len() == 0 {
        seq![]
    } else if s.len() >= 2 && s[0] == TransitionType::Joined && s[1] == TransitionType::Left {
        seq![TransitionType::JoinedAndLeft] + canonical(s.skip(2))
    } else if s.len() >= 2 && s[0] == TransitionType::Left && s[1] == TransitionType::Joined {
        seq![TransitionType::LeftAndJoined] + canonical(s.skip(2))
    } else {
        seq![s[0]] + canonical(s.skip(1))
    }
}

/// Canonicalize neighbouring transitions, e.g. `[Joined, Left]` -> `[JoinedAndLeft]`.
pub fn canonicalize_transitions(transitions: &[TransitionType]) -> (res: Vec<TransitionType>)
    ensures
        res@ == canonical(transitions@),
{
    let mut res: Vec<TransitionType> = Vec::new();
    let mut i: usize = 0;
    assert(transitions@.skip(0) =~= transitions@);
    assert(res@ + canonical(transitions@) =~= canonical(transitions@));
    while i < transitions.len()
        invariant
            i <= transitions@.len(),
            res@ + canonical(transitions@.skip(i as int)) == canonical(transitions@),
        decreases transitions@.len() - i,
    {
        let ghost rest = transitions@.skip(i as int);
        let t = transitions[i];
        if i + 1 < transitions.len() {
            let t2 = transitions[i + 1];
            if t == TransitionType::Joined && t2 == TransitionType::Left {
                assert(rest.skip(2) =~= transitions@.skip(i + 2));
                res.push(TransitionType::JoinedAndLeft);
                assert(res@ + canonical(transitions@.skip(i + 2)) =~= canonical(transitions@));
                i = i + 2;
                continue;
            }
            if t == TransitionType::Left && t2 == TransitionType::Joined {
                assert(rest.skip(2) =~= transitions@.skip(i + 2));
                res.push(TransitionType::LeftAndJoined);
                assert(res@ + canonical(transitions@.skip(i + 2)) =~= canonical(transitions@));
                i = i + 2;
                continue;
            }
        }
        assert(rest.skip(1) =~= transitions@.skip(i + 1));
        res.push(t);
        assert(res@ + canonical(transitions@.skip(i + 1)) =~= canonical(transitions@));
        i = i + 1;
    }
    assert(transitions@.skip(i as int) =~= Seq::<TransitionType>::empty());
    assert(res@ =~= res@ + canonical(transitions@.skip(i as int)));
    res
}

/// Whether a transition is one of the two compound ones.
pub open spec fn is_compound(t: TransitionType) -> bool {
    t == TransitionType::JoinedAndLeft || t == TransitionType::LeftAndJoined
}

/// The plain transitions that a canonical sequence stands for.
pub open spec fn expand(s: Seq<TransitionType>) -> Seq<TransitionType>
    decreases s.len(),
{
    if s.len() == 0 {
        seq![]
    } else if s[0] == TransitionType::JoinedAndLeft {
        seq![TransitionType::Joined, TransitionType::Left] + expand(s.skip(1))
    } else if s[0] == TransitionType::LeftAndJoined {
        seq![TransitionType::Left, TransitionType::Joined] + expand(s.skip(1))
    } else {
        seq![s[0]] + expand(s.skip(1))
    }
}

/// Canonicalization loses nothing: on a sequence of plain transitions,
/// expanding the compound transitions of its canonical form gives it back.
pub proof fn lemma_canonical_expands_back(s: Seq<TransitionType>)
    requires
        forall|i: int| 0 <= i < s.len() ==> !is_compound(#[trigger] s[i]),
    ensures
        expand(canonical(s)) == s,
    decreases s.len(),
{
    if s.len() == 0 {
    } else if s.len() >= 2 && s[0] == TransitionType::Joined && s[1] == TransitionType::Left {
        let r = s.skip(2);
        assert forall|i: int| 0 <= i < r.len() implies !is_compound(#[trigger] r[i]) by {
            assert(r[i] == s[i + 2]);
        }
        lemma_canonical_expands_back(r);
        let c = seq![TransitionType::JoinedAndLeft] + canonical(r);
        assert(c.skip(1) =~= canonical(r));
        assert(expand(c) =~= seq![TransitionType::Joined, TransitionType::Left] + r);
        assert(s =~= seq![TransitionType::Joined, TransitionType::Left] + r);
    } else if s.len() >= 2 && s[0] == TransitionType::Left && s[1] == TransitionType::Joined {
        let r = s.skip(2);
        assert forall|i: int| 0 <= i < r.len() implies !is_compound(#[trigger] r[i]) by {
            assert(r[i] == s[i + 2]);
        }
        lemma_canonical_expands_back(r);
        let c = seq![TransitionType::LeftAndJoined] + canonical(r);
        assert(c.skip(1) =~= canonical(r));
        assert(expand(c) =~= seq![TransitionType::Left, TransitionType::Joined] + r);
        assert(s =~= seq![TransitionType::Left, TransitionType::Joined] + r);
    } else {
        let r = s.skip(1);
        assert forall|i: int| 0 <= i < r.len() implies !is_compound(#[trigger] r[i]) by {
            assert(r[i] == s[i + 1]);
        }
        lemma_canonical_expands_back(r);
        assert(!is_compound(s[0]));
        let c = seq![s[0]] + canonical(r);
        assert(c.skip(1) =~= canonical(r));
        assert(c[0] == s[0]);
        assert(expand(c) =~= seq![s[0]] + r);
        assert(s =~= seq![s[0]] + r);
    }
}

/// Whether two neighbouring transitions form a pair that canonicalization merges.
pub open spec fn mergeable(a: TransitionType, b: TransitionType) -> bool {
    (a == TransitionType::Joined && b == TransitionType::Left)
    || (a == TransitionType::Left && b == TransitionType::Joined)
}

/// A canonical sequence has no `Joined` right before a `Left`, and no `Left`
/// right before a `Joined`: every such pair has been merged.
pub proof fn lemma_canonical_has_no_mergeable_pair(s: Seq<TransitionType>)
    ensures
        forall|i: int| 0 <= i < canonical(s).len() - 1 ==> !mergeable(#[trigger] canonical(s)[i], canonical(s)[i + 1]),
    decreases s.len(),
{
    if s.len() == 0 {
    } else {
        let skip_n: int = if s.len() >= 2 && ((s[0] == TransitionType::Joined && s[1] == TransitionType::Left)
            || (s[0] == TransitionType::Left && s[1] == TransitionType::Joined)) { 2 } else { 1 };
        let r = s.skip(skip_n);
        lemma_canonical_has_no_mergeable_pair(r);
        lemma_canonical_first(r);
        let c = canonical(s);
        assert(c.skip(1) =~= canonical(r));
        assert forall|i: int| 0 <= i < c.len() - 1 implies !mergeable(#[trigger] c[i], c[i + 1]) by {
            if i > 0 {
                assert(c[i] == canonical(r)[i - 1]);
                assert(c[i + 1] == canonical(r)[i]);
            } else {
                assert(c[1] == canonical(r)[0]);
                if skip_n == 1 && s.len() >= 2 {
                    assert(r[0] == s[1]);
                }
            }
        }
    }
}

/// The first element of a canonical form comes from the first one or two inputs.
proof fn lemma_canonical_first(s: Seq<TransitionType>)
    ensures
        s.len() > 0 ==> canonical(s).len() > 0,
        s.len() > 0 ==> (canonical(s)[0] == s[0] || is_compound(canonical(s)[0])),
{
    if s.len() > 0 {
        if s.len() >= 2 && s[0] == TransitionType::Joined && s[1] == TransitionType::Left {
        } else if s.len() >= 2 && s[0] == TransitionType::Left && s[1] == TransitionType::Joined {
        } else {
        }
    }
}

// ---------------------------------------------------------------------------
// Runs of repeated transitions
// ---------------------------------------------------------------------------

/// The runs of equal neighbouring transitions, each with its length.
pub open spec fn runs(s: Seq<TransitionType>) -> Seq<(TransitionType, usize)>
    decreases s.len(),
{
    if s.len() == 0 {
        seq![]
    } else {
        let prev = runs(s.drop_last());
        let t = s.last();
        if prev.len() > 0 && prev.last().0 == t {
            prev.update(prev.len() - 1, (t, (prev.last().1 + 1) as usize))
        } else {
            prev.push((t, 1usize))
        }
    }
}

/// Every run length is at least 1 and at most the length of the input.
pub proof fn lemma_runs_bounds(s: Seq<TransitionType>)
    requires
        s.len() <= usize::MAX,
    ensures
        forall|k: int| 0 <= k < runs(s).len() ==> 1 <= #[trigger] runs(s)[k].1 <= s.len(),
        runs(s).len() <= s.len(),
        s.len() > 0 ==> runs(s).len() > 0 && runs(s).last().0 == s.last(),
    decreases s.len(),
{
    if s.len() > 0 {
        let p = s.drop_last();
        lemma_runs_bounds(p);
        let prev = runs(p);
        let r = runs(s);
        if prev.len() > 0 && prev.last().0 == s.last() {
            assert(prev.last().1 <= p.len());
            assert forall|k: int| 0 <= k < r.len() implies 1 <= #[trigger] r[k].1 <= s.len() by {
                if k < r.len() - 1 {
                    assert(r[k] == prev[k]);
                }
            }
        } else {
            assert forall|k: int| 0 <= k < r.len() implies 1 <= #[trigger] r[k].1 <= s.len() by {
                if k < r.len() - 1 {
                    assert(r[k] == prev[k]);
                }
            }
        }
    }
}

/// Combine repeated transitions (e.g. `[JoinedAndLeft, JoinedAndLeft]` -> `2×JoinedAndLeft`).
pub fn coalesce_repeated_transitions(transitions: &[TransitionType]) -> (res: Vec<(TransitionType, usize)>)
    ensures
        res@ == runs(transitions@),
{
    let mut res: Vec<(TransitionType, usize)> = Vec::new();
    let mut i: usize = 0;
    while i < transitions.len()
        invariant
            i <= transitions@.len(),
            res@ == runs(transitions@.take(i as int)),
        decreases transitions@.len() - i,
    {
        let t = transitions[i];
        let ghost pre = transitions@.take(i as int);
        let ghost post = transitions@.take(i + 1);
        assert(post.drop_last() =~= pre);
        proof { lemma_runs_bounds(pre); }
        let n = res.len();
        if n > 0 && res[n - 1].0 == t {
            let c = res[n - 1].1;
            assert(c <= i);
            res.set(n - 1, (t, c + 1));
        } else {
            res.push((t, 1));
        }
        assert(res@ =~= runs(post));
        i = i + 1;
    }
    assert(transitions@.take(i as int) =~= transitions@);
    res
}

/// `t` repeated `n` times.
pub open spec fn repeat(t: TransitionType, n: nat) -> Seq<TransitionType>
    decreases n,
{
    if n == 0 { seq![] } else { repeat(t, (n - 1) as nat).push(t) }
}

/// The sequence that a list of runs stands for.
pub open spec fn unrun(r: Seq<(TransitionType, usize)>) -> Seq<TransitionType>
    decreases r.len(),
{
    if r.len() == 0 { seq![] } else { unrun(r.drop_last()) + repeat(r.last().0, r.last().1 as nat) }
}

/// Coalescing loses nothing and is minimal: spelling out every run gives
/// the input back, and two neighbouring runs never hold the same transition.
pub proof fn lemma_runs_decode(s: Seq<TransitionType>)
    requires
        s.len() <= usize::MAX,
    ensures
        unrun(runs(s)) == s,
        forall|k: int| 0 <= k < runs(s).len() - 1 ==> #[trigger] runs(s)[k].0 != runs(s)[k + 1].0,
    decreases s.len(),
{
    if s.len() > 0 {
        let p = s.drop_last();
        lemma_runs_decode(p);
        lemma_runs_bounds(p);
        let prev = runs(p);
        let t = s.last();
        if prev.len() > 0 && prev.last().0 == t {
            let r = runs(s);
            assert(r.drop_last() =~= prev.drop_last());
            let c = prev.last().1;
            assert(c <= p.len());
            assert(r.last() == (t, (c + 1) as usize));
            assert(repeat(t, (c + 1) as nat) == repeat(t, c as nat).push(t));
            assert(unrun(r) =~= unrun(prev.drop_last()) + repeat(t, prev.last().1 as nat).push(t));
            assert(unrun(prev) == unrun(prev.drop_last()) + repeat(t, prev.last().1 as nat));
            assert(s =~= p.push(t));
        } else {
            let r = runs(s);
            assert(r.drop_last() =~= prev);
            assert(repeat(t, 1) =~= seq![t]) by {
                assert(repeat(t, 0) =~= Seq::<TransitionType>::empty());
            }
            assert(s =~= p + seq![t]);
        }
    }
}

// ---------------------------------------------------------------------------
// Text of the summary
// ---------------------------------------------------------------------------

/// `text` with ` (×n)` appended when `repeats > 1`.
pub open spec fn with_repeats(text: Seq<char>, repeats: nat) -> Seq<char> {
    if repeats > 1 { text + " (×"@ + decimal(repeats) + ")"@ } else { text }
}

/// The description of a transition done by `user_count` users, `repeats` times each.
pub open spec fn describe(t: TransitionType, user_count: nat, repeats: nat) -> Seq<char> {
    let plural = user_count > 1;
    match t {
        TransitionType::CreateRoom => "created and configured the room"@,
        TransitionType::ConfigureRoom => seq![],
        TransitionType::Joined => with_repeats(if plural { "joined"@ } else { "joined the room"@ }, repeats),
        TransitionType::Left => with_repeats(if plural { "left"@ } else { "left the room"@ }, repeats),
        TransitionType::JoinedAndLeft => with_repeats("joined and left"@, repeats),
        TransitionType::LeftAndJoined => with_repeats("left and rejoined"@, repeats),
        TransitionType::ChangedName => with_repeats("changed their name"@, repeats),
        TransitionType::ChangedAvatar => with_repeats("changed their profile picture"@, repeats),
        TransitionType::Invited => with_repeats("was invited"@, repeats),
        TransitionType::Banned => with_repeats("was banned"@, repeats),
        TransitionType::Unbanned => with_repeats("was unbanned"@, repeats),
        TransitionType::InviteReject => with_repeats("rejected invite"@, repeats),
        TransitionType::InviteWithdrawal => with_repeats("invite withdrawn"@, repeats),
        TransitionType::Kicked => with_repeats("was kicked"@, repeats),
        TransitionType::ServerAcl => with_repeats("updated server ACLs"@, repeats),
        TransitionType::ChangedPins => with_repeats("changed pinned messages"@, repeats),
        TransitionType::MessageRemoved => with_repeats("removed a message"@, repeats),
        TransitionType::HiddenEvent => with_repeats("did a hidden event"@, repeats),
        TransitionType::NoChange => with_repeats("made no changes"@, repeats),
        TransitionType::UnableToDecrypt => with_repeats("decryption failed"@, repeats),
    }
}

/// `base`, followed by ` (×repeats)` when the transition was repeated.
fn text_with_repeats(base: &str, repeats: usize) -> (r: String)
    ensures
        r@ == with_repeats(base@, repeats as nat),
{
    let mut r = String::from_str(base);
    if repeats > 1 {
        r.append(" (×");
        push_decimal(&mut r, repeats);
        r.append(")");
    }
    r
}

/// Determine the textual description for a transition.
pub fn describe_transition(t: TransitionType, user_count: usize, repeats: usize) -> (r: String)
    ensures
        r@ == describe(t, user_count as nat, repeats as nat),
{
    let plural = user_count > 1;
    match t {
        TransitionType::CreateRoom => String::from_str("created and configured the room"),
        TransitionType::ConfigureRoom => String::new(),
        TransitionType::Joined => text_with_repeats(if plural { "joined" } else { "joined the room" }, repeats),
        TransitionType::Left => text_with_repeats(if plural { "left" } else { "left the room" }, repeats),
        TransitionType::JoinedAndLeft => text_with_repeats("joined and left", repeats),
        TransitionType::LeftAndJoined => text_with_repeats("left and rejoined", repeats),
        TransitionType::ChangedName => text_with_repeats("changed their name", repeats),
        TransitionType::ChangedAvatar => text_with_repeats("changed their profile picture", repeats),
        TransitionType::Invited => text_with_repeats("was invited", repeats),
        TransitionType::Banned => text_with_repeats("was banned", repeats),
        TransitionType::Unbanned => text_with_repeats("was unbanned", repeats),
        TransitionType::InviteReject => text_with_repeats("rejected invite", repeats),
        TransitionType::InviteWithdrawal => text_with_repeats("invite withdrawn", repeats),
        TransitionType::Kicked => text_with_repeats("was kicked", repeats),
        TransitionType::ServerAcl => text_with_repeats("updated server ACLs", repeats),
        TransitionType::ChangedPins => text_with_repeats("changed pinned messages", repeats),
        TransitionType::MessageRemoved => text_with_repeats("removed a message", repeats),
        TransitionType::HiddenEvent => text_with_repeats("did a hidden event", repeats),
        TransitionType::NoChange => text_with_repeats("made no changes", repeats),
        TransitionType::UnableToDecrypt => text_with_repeats("decryption failed", repeats),
    }
}

proof fn lemma_with_repeats_cancel(a: Seq<char>, b: Seq<char>, repeats: nat)
    ensures
        with_repeats(a, repeats) == with_repeats(b, repeats) ==> a == b,
        repeats > 1 ==> with_repeats(a, repeats).len() > 0 && with_repeats(a, repeats).last() == ')',
{
    reveal_strlit(" (×");
    reveal_strlit(")");
    if repeats > 1 {
        let s = " (×"@ + decimal(repeats) + ")"@;
        assert(with_repeats(a, repeats) == a + s);
        assert((a + s).last() == ')');
        if with_repeats(a, repeats) == with_repeats(b, repeats) {
            assert(a + s == b + s);
            assert(a.len() == b.len());
            assert(a =~= (a + s).take(a.len() as int));
            assert(b =~= (b + s).take(b.len() as int));
        }
    }
}

/// The words of a transition before any repeat count.
spec fn base_text(t: TransitionType, plural: bool) -> Seq<char> {
    match t {
        TransitionType::CreateRoom => "created and configured the room"@,
        TransitionType::ConfigureRoom => seq![],
        TransitionType::Joined => if plural { "joined"@ } else { "joined the room"@ },
        TransitionType::Left => if plural { "left"@ } else { "left the room"@ },
        TransitionType::JoinedAndLeft => "joined and left"@,
        TransitionType::LeftAndJoined => "left and rejoined"@,
        TransitionType::ChangedName => "changed their name"@,
        TransitionType::ChangedAvatar => "changed their profile picture"@,
        TransitionType::Invited => "was invited"@,
        TransitionType::Banned => "was banned"@,
        TransitionType::Unbanned => "was unbanned"@,
        TransitionType::InviteReject => "rejected invite"@,
        TransitionType::InviteWithdrawal => "invite withdrawn"@,
        TransitionType::Kicked => "was kicked"@,
        TransitionType::ServerAcl => "updated server ACLs"@,
        TransitionType::ChangedPins => "changed pinned messages"@,
        TransitionType::MessageRemoved => "removed a message"@,
        TransitionType::HiddenEvent => "did a hidden event"@,
        TransitionType::NoChange => "made no changes"@,
        TransitionType::UnableToDecrypt => "decryption failed"@,
    }
}

/// The length and the characters at positions 0, 4 and 7 of the words.
spec fn base_sig(t: TransitionType, plural: bool) -> (int, char, char, char) {
    match t {
        TransitionType::CreateRoom => (31, 'c', 't', ' '),
        TransitionType::ConfigureRoom => (0, ' ', ' ', ' '),
        TransitionType::Joined => if plural { (6, 'j', 'e', ' ') } else { (15, 'j', 'e', 't') },
        TransitionType::Left => if plural { (4, 'l', ' ', ' ') } else { (13, 'l', ' ', 'e') },
        TransitionType::JoinedAndLeft => (15, 'j', 'e', 'a'),
        TransitionType::LeftAndJoined => (17, 'l', ' ', 'd'),
        TransitionType::ChangedName => (18, 'c', 'g', ' '),
        TransitionType::ChangedAvatar => (29, 'c', 'g', ' '),
        TransitionType::Invited => (11, 'w', 'i', 'i'),
        TransitionType::Banned => (10, 'w', 'b', 'n'),
        TransitionType::Unbanned => (12, 'w', 'u', 'a'),
        TransitionType::InviteReject => (15, 'r', 'c', 'd'),
        TransitionType::InviteWithdrawal => (16, 'i', 't', 'w'),
        TransitionType::Kicked => (10, 'w', 'k', 'k'),
        TransitionType::ServerAcl => (19, 'u', 't', ' '),
        TransitionType::ChangedPins => (23, 'c', 'g', ' '),
        TransitionType::MessageRemoved => (17, 'r', 'v', ' '),
        TransitionType::HiddenEvent => (18, 'd', 'a', 'i'),
        TransitionType::NoChange => (15, 'm', ' ', ' '),
        TransitionType::UnableToDecrypt => (17, 'd', 'y', 'i'),
    }
}

proof fn lemma_base_sig(t: TransitionType, plural: bool)
    ensures
        base_text(t, plural).len() == base_sig(t, plural).0,
        base_text(t, plural).len() > 0 ==> base_text(t, plural)[0] == base_sig(t, plural).1,
        base_text(t, plural).len() > 4 ==> base_text(t, plural)[4] == base_sig(t, plural).2,
        base_text(t, plural).len() > 7 ==> base_text(t, plural)[7] == base_sig(t, plural).3,
{
    match t {
        TransitionType::CreateRoom => reveal_strlit("created and configured the room"),
        TransitionType::ConfigureRoom => {},
        TransitionType::Joined => { reveal_strlit("joined"); reveal_strlit("joined the room"); },
        TransitionType::Left => { reveal_strlit("left"); reveal_strlit("left the room"); },
        TransitionType::JoinedAndLeft => reveal_strlit("joined and left"),
        TransitionType::LeftAndJoined => reveal_strlit("left and rejoined"),
        TransitionType::ChangedName => reveal_strlit("changed their name"),
        TransitionType::ChangedAvatar => reveal_strlit("changed their profile picture"),
        TransitionType::Invited => reveal_strlit("was invited"),
        TransitionType::Banned => reveal_strlit("was banned"),
        TransitionType::Unbanned => reveal_strlit("was unbanned"),
        TransitionType::InviteReject => reveal_strlit("rejected invite"),
        TransitionType::InviteWithdrawal => reveal_strlit("invite withdrawn"),
        TransitionType::Kicked => reveal_strlit("was kicked"),
        TransitionType::ServerAcl => reveal_strlit("updated server ACLs"),
        TransitionType::ChangedPins => reveal_strlit("changed pinned messages"),
        TransitionType::MessageRemoved => reveal_strlit("removed a message"),
        TransitionType::HiddenEvent => reveal_strlit("did a hidden event"),
        TransitionType::NoChange => reveal_strlit("made no changes"),
        TransitionType::UnableToDecrypt => reveal_strlit("decryption failed"),
    }
}

proof fn lemma_base_distinct(t1: TransitionType, t2: TransitionType, plural: bool)
    requires
        t1 != t2,
    ensures
        base_text(t1, plural) != base_text(t2, plural),
{
    lemma_base_sig(t1, plural);
    lemma_base_sig(t2, plural);
    let a = base_sig(t1, plural);
    let b = base_sig(t2, plural);
    assert(a.0 != b.0 || (a.0 > 0 && a.1 != b.1) || (a.0 > 4 && a.2 != b.2) || (a.0 > 7 && a.3 != b.3));
}

/// Different transitions are never described alike: for the same number of
/// users and repeats, each transition's text tells it apart from every other.
pub proof fn lemma_descriptions_tell_transitions_apart(t1: TransitionType, t2: TransitionType, user_count: nat, repeats: nat)
    requires
        t1 != t2,
    ensures
        describe(t1, user_count, repeats) != describe(t2, user_count, repeats),
{
    let plural = user_count > 1;
    lemma_base_distinct(t1, t2, plural);
    lemma_base_sig(t1, plural);
    lemma_base_sig(t2, plural);
    let b1 = base_text(t1, plural);
    let b2 = base_text(t2, plural);
    let d1 = describe(t1, user_count, repeats);
    let d2 = describe(t2, user_count, repeats);
    lemma_with_repeats_cancel(b1, b2, repeats);
    if t1 == TransitionType::CreateRoom || t1 == TransitionType::ConfigureRoom {
        assert(d1 == b1);
    } else {
        assert(d1 == with_repeats(b1, repeats));
    }
    if t2 == TransitionType::CreateRoom || t2 == TransitionType::ConfigureRoom {
        assert(d2 == b2);
    } else {
        assert(d2 == with_repeats(b2, repeats));
    }
    if repeats > 1 {
        lemma_with_repeats_cancel(b1, b1, repeats);
        lemma_with_repeats_cancel(b2, b2, repeats);
        reveal_strlit("created and configured the room");
        if t1 == TransitionType::CreateRoom && t2 != TransitionType::ConfigureRoom {
            assert(d1.last() == 'm');
        }
        if t2 == TransitionType::CreateRoom && t1 != TransitionType::ConfigureRoom {
            assert(d2.last() == 'm');
        }
    }
}

/// Whether `w` occurs in `s` starting at position `i`.
pub open spec fn occurs_at(s: Seq<char>, w: Seq<char>, i: int) -> bool {
    0 <= i && i + w.len() <= s.len() && s.subrange(i, i + w.len()) == w
}

/// What happened to a user as a moderation step reads "was invited", "was
/// banned", "was unbanned" or "was kicked", whatever the counts.
pub proof fn lemma_moderation_is_named(user_count: nat, repeats: nat)
    ensures
        describe(TransitionType::Invited, user_count, repeats).take(11) == "was invited"@,
        describe(TransitionType::Banned, user_count, repeats).take(10) == "was banned"@,
        describe(TransitionType::Unbanned, user_count, repeats).take(12) == "was unbanned"@,
        describe(TransitionType::Kicked, user_count, repeats).take(10) == "was kicked"@,
{
    reveal_strlit("was invited");
    reveal_strlit("was banned");
    reveal_strlit("was unbanned");
    reveal_strlit("was kicked");
    assert(describe(TransitionType::Invited, user_count, repeats).take(11) =~= "was invited"@);
    assert(describe(TransitionType::Banned, user_count, repeats).take(10) =~= "was banned"@);
    assert(describe(TransitionType::Unbanned, user_count, repeats).take(12) =~= "was unbanned"@);
    assert(describe(TransitionType::Kicked, user_count, repeats).take(10) =~= "was kicked"@);
}

/// An English list of names: "A", "A and B", "A, B, C", or, past `max_names`
/// names, "A, B, and N others".
pub open spec fn name_list(names: Seq<Seq<char>>, max_names: nat) -> Seq<char> {
    if names.len() == 0 {
        seq![]
    } else if names.len() == 1 {
        names[0]
    } else if names.len() == 2 {
        names[0] + " and "@ + names[1]
    } else if names.len() <= max_names {
        join(names, ", "@)
    } else {
        join(names.take(max_names as int), ", "@) + ", and "@ + decimal((names.len() - max_names) as nat)
            + " others"@
    }
}

/// Produce an English-readable name list, with "and N others".
pub fn format_name_list(names: &[String], max_names: usize) -> (r: String)
    ensures
        r@ == name_list(views(names@), max_names as nat),
{
    let n = names.len();
    if n == 0 {
        String::new()
    } else if n == 1 {
        names[0].clone()
    } else if n == 2 {
        let mut r = names[0].clone();
        r.append(" and ");
        r.append(names[1].as_str());
        r
    } else if n <= max_names {
        join_all(names, ", ")
    } else {
        let mut r = join_prefix(names, max_names, ", ");
        r.append(", and ");
        push_decimal(&mut r, n - max_names);
        r.append(" others");
        assert(views(names@.take(max_names as int)) =~= views(names@).take(max_names as int));
        r
    }
}


// ---------------------------------------------------------------------------
// User events and their grouping by user
// ---------------------------------------------------------------------------

/// One small state event, condensed to what a summary needs.
#[derive(Clone, Debug, PartialEq)]
pub struct UserEvent {
    pub transition: TransitionType,
    pub index: usize,
    pub is_redacted: bool,
    pub should_show: bool,
    pub sender: String,
    pub display_name: String,
    pub state_key: Option<String>,
    pub membership: Option<String>,
}

impl UserEvent {
    /// A field-by-field copy of this event.
    pub fn duplicate(&self) -> (r: UserEvent)
        ensures
            r == *self,
    {
        UserEvent {
            transition: self.transition,
            index: self.index,
            is_redacted: self.is_redacted,
            should_show: self.should_show,
            sender: self.sender.clone(),
            display_name: self.display_name.clone(),
            state_key: copy_opt_string(&self.state_key),
            membership: copy_opt_string(&self.membership),
        }
    }
}

/// Whether some event of `v` has the given timeline index.
pub open spec fn has_index(v: Seq<UserEvent>, index: usize) -> bool {
    exists|i: int| 0 <= i < v.len() && (#[trigger] v[i]).index == index
}

/// `v` with `e` appended, unless `v` already holds an event at `e`'s index.
pub open spec fn push_absent(v: Seq<UserEvent>, e: UserEvent) -> Seq<UserEvent> {
    if has_index(v, e.index) { v } else { v.push(e) }
}

fn contains_index(v: &Vec<UserEvent>, index: usize) -> (b: bool)
    ensures
        b == has_index(v@, index),
{
    let mut i: usize = 0;
    while i < v.len()
        invariant
            i <= v@.len(),
            forall|j: int| 0 <= j < i ==> (#[trigger] v@[j]).index != index,
        decreases v@.len() - i,
    {
        if v[i].index == index {
            return true;
        }
        i = i + 1;
    }
    false
}

fn push_if_absent(v: &mut Vec<UserEvent>, e: UserEvent)
    ensures
        final(v)@ == push_absent(old(v)@, e),
{
    if !contains_index(v, e.index) {
        v.push(e);
    }
}

/// Whether `k` is the first entry of `user_events` that belongs to `sender`.
pub open spec fn is_first_user(user_events: Seq<(String, Vec<UserEvent>)>, sender: Seq<char>, k: int) -> bool {
    &&& 0 <= k < user_events.len()
    &&& user_events[k].0@ == sender
    &&& forall|j: int| 0 <= j < k ==> (#[trigger] user_events[j]).0@ != sender
}

/// Appends a new user event to the given list of user events.
///
/// A `HiddenEvent` is dropped. Otherwise the event goes to the first entry of
/// its sender, unless that entry already holds an event at the same index;
/// a sender without an entry gets a new one at the end.
pub fn append_user_event(user_event: UserEvent, user_events: &mut Vec<(String, Vec<UserEvent>)>)
    ensures
        user_event.transition == TransitionType::HiddenEvent ==> final(user_events)@ == old(user_events)@,
        user_event.transition != TransitionType::HiddenEvent ==> (
            if exists|k: int| is_first_user(old(user_events)@, user_event.sender@, k) {
                let k = choose|k: int| is_first_user(old(user_events)@, user_event.sender@, k);
                &&& final(user_events)@.len() == old(user_events)@.len()
                &&& final(user_events)@[k].0 == old(user_events)@[k].0
                &&& final(user_events)@[k].1@ == push_absent(old(user_events)@[k].1@, user_event)
                &&& forall|j: int| 0 <= j < old(user_events)@.len() && j != k
                        ==> final(user_events)@[j] == old(user_events)@[j]
            } else {
                final(user_events)@.len() == old(user_events)@.len() + 1
                && final(user_events)@.drop_last() == old(user_events)@
                && final(user_events)@.last().0 == user_event.sender
                && final(user_events)@.last().1@ == seq![user_event]
            }
        ),
{
    if user_event.transition == TransitionType::HiddenEvent {
        return;
    }
    let mut k: usize = 0;
    while k < user_events.len()
        invariant
            k <= user_events@.len(),
            user_events@ == old(user_events)@,
            user_event.transition != TransitionType::HiddenEvent,
            forall|j: int| 0 <= j < k ==> (#[trigger] user_events@[j]).0@ != user_event.sender@,
        decreases user_events@.len() - k,
    {
        if user_events[k].0 == user_event.sender {
            assert(is_first_user(old(user_events)@, user_event.sender@, k as int));
            let (id, mut events) = user_events.remove(k);
            push_if_absent(&mut events, user_event);
            user_events.insert(k, (id, events));
            proof {
                let k2 = choose|k2: int| is_first_user(old(user_events)@, user_event.sender@, k2);
                assert(k2 == k as int) by {
                    if k2 < k as int {
                        assert(old(user_events)@[k2].0@ != user_event.sender@);
                    } else if k2 > k as int {
                        assert(old(user_events)@[k as int].0@ != user_event.sender@);
                    }
                }
                assert forall|j: int| 0 <= j < old(user_events)@.len() && j != k
                    implies final(user_events)@[j] == old(user_events)@[j] by {
                    if j < k as int {
                    } else {
                    }
                }
            }
            return;
        }
        k = k + 1;
    }
    let sender = user_event.sender.clone();
    let mut v: Vec<UserEvent> = Vec::new();
    v.push(user_event);
    user_events.push((sender, v));
}


// ---------------------------------------------------------------------------
// Groups of user events keyed by the timeline index at which they start
// ---------------------------------------------------------------------------

/// The events of one user inside a run of small state events, keyed by the
/// timeline index of the group.
#[derive(Clone, Debug)]
pub struct UserEventGroup {
    pub group_id: usize,
    pub user_id: String,
    pub events: Vec<UserEvent>,
}

/// A group as a value: its key, its user and its events.
pub type GroupModel = (usize, String, Seq<UserEvent>);

impl View for UserEventGroup {
    type V = GroupModel;

    open spec fn view(&self) -> GroupModel {
        (self.group_id, self.user_id, self.events@)
    }
}

/// The models of a sequence of groups.
pub open spec fn models(g: Seq<UserEventGroup>) -> Seq<GroupModel> {
    g.map_values(|x: UserEventGroup| x@)
}

/// A map from group keys to user event groups, held in ascending key order.
#[derive(Clone, Debug)]
pub struct UserEventGroups {
    pub groups: Vec<UserEventGroup>,
}

/// Keys strictly ascending: no key occurs twice and iteration is in key order.
pub open spec fn keys_ascending(g: Seq<GroupModel>) -> bool {
    forall|i: int, j: int| 0 <= i < j < g.len() ==> (#[trigger] g[i]).0 < (#[trigger] g[j]).0
}

impl View for UserEventGroups {
    type V = Seq<GroupModel>;

    open spec fn view(&self) -> Seq<GroupModel> {
        models(self.groups@)
    }
}

impl UserEventGroups {
    pub open spec fn wf(&self) -> bool {
        keys_ascending(self@)
    }

    /// An empty map.
    pub fn new() -> (r: UserEventGroups)
        ensures
            r.wf(),
            r@.len() == 0,
    {
        UserEventGroups { groups: Vec::new() }
    }
}

/// On ascending keys, the first position whose key is at least `key`
/// (scanning from the back over the keys that are at least `key`).
pub open spec fn lower_bound(g: Seq<GroupModel>, key: usize) -> int
    decreases g.len(),
{
    if g.len() == 0 {
        0
    } else if g.last().0 < key {
        g.len() as int
    } else {
        lower_bound(g.drop_last(), key)
    }
}

proof fn lemma_lower_bound(g: Seq<GroupModel>, key: usize)
    requires
        keys_ascending(g),
    ensures
        0 <= lower_bound(g, key) <= g.len(),
        forall|i: int| 0 <= i < lower_bound(g, key) ==> (#[trigger] g[i]).0 < key,
        forall|i: int| lower_bound(g, key) <= i < g.len() ==> (#[trigger] g[i]).0 >= key,
    decreases g.len(),
{
    if g.len() > 0 {
        let d = g.drop_last();
        assert(keys_ascending(d));
        lemma_lower_bound(d, key);
        if g.last().0 < key {
            assert forall|i: int| 0 <= i < g.len() implies (#[trigger] g[i]).0 < key by {
                if i < g.len() - 1 {
                    assert(g[i].0 < g[g.len() - 1].0);
                }
            }
        } else {
            assert forall|i: int| lower_bound(g, key) <= i < g.len() implies (#[trigger] g[i]).0 >= key by {
                if i < g.len() - 1 {
                    assert(g[i] == d[i]);
                }
            }
            assert forall|i: int| 0 <= i < lower_bound(g, key) implies (#[trigger] g[i]).0 < key by {
                assert(g[i] == d[i]);
            }
        }
    }
}

/// `g` with `x` stored under its key, replacing an entry with the same key.
pub open spec fn insert_keyed(g: Seq<GroupModel>, x: GroupModel) -> Seq<GroupModel> {
    let p = lower_bound(g, x.0);
    if p < g.len() && g[p].0 == x.0 { g.update(p, x) } else { g.insert(p, x) }
}

fn insert_group(groups: &mut Vec<UserEventGroup>, x: UserEventGroup)
    requires
        keys_ascending(models(old(groups)@)),
    ensures
        models(final(groups)@) == insert_keyed(models(old(groups)@), x@),
        keys_ascending(models(final(groups)@)),
{
    let ghost g = models(groups@);
    let key = x.group_id;
    let mut p = groups.len();
    assert(g.take(p as int) =~= g);
    while p > 0 && groups[p - 1].group_id >= key
        invariant
            p <= g.len(),
            models(groups@) == g,
            lower_bound(g, key) == lower_bound(g.take(p as int), key),
        decreases p,
    {
        assert(g.take(p as int).drop_last() =~= g.take(p - 1));
        assert(g[p - 1].0 == groups@[p - 1].group_id);
        p = p - 1;
    }
    proof {
        if p > 0 {
            assert(g.take(p as int).last() == g[p - 1]);
            assert(g[p - 1].0 == groups@[p - 1].group_id);
        }
        lemma_lower_bound(g, key);
    }
    assert(p as int == lower_bound(g, key));
    if p < groups.len() && groups[p].group_id == key {
        groups.set(p, x);
        assert(models(groups@) =~= g.update(p as int, x@));
    } else {
        groups.insert(p, x);
        assert(models(groups@) =~= g.insert(p as int, x@));
    }
    let ghost r = models(groups@);
    assert forall|i: int, j: int| 0 <= i < j < r.len()
        implies (#[trigger] r[i]).0 < (#[trigger] r[j]).0 by {
        if r.len() == g.len() {
            if i == p as int {
                assert(g[i].0 == key);
                assert(r[j] == g[j]);
            } else if j == p as int {
                assert(g[j].0 == key);
                assert(r[i] == g[i]);
            } else {
                assert(r[i] == g[i] && r[j] == g[j]);
            }
        } else {
            if j < p as int {
                assert(r[i] == g[i] && r[j] == g[j]);
            } else if j == p as int {
                assert(r[i] == g[i]);
            } else if i == p as int {
                assert(r[j] == g[j - 1]);
            } else if i < p as int {
                assert(r[i] == g[i] && r[j] == g[j - 1]);
            } else {
                assert(r[i] == g[i - 1] && r[j] == g[j - 1]);
            }
        }
    }
}


/// The user a small state event is about: its non-empty state key, else its sender.
pub open spec fn event_user_key(e: UserEvent) -> String {
    match e.state_key {
        Some(k) => if k@.len() > 0 { k } else { e.sender },
        None => e.sender,
    }
}

/// Whether `k` is the first group, in key order, that belongs to `user`.
pub open spec fn is_first_group_of(g: Seq<GroupModel>, user: Seq<char>, k: int) -> bool {
    &&& 0 <= k < g.len()
    &&& g[k].1@ == user
    &&& forall|j: int| 0 <= j < k ==> (#[trigger] g[j]).1@ != user
}

/// Whether `k` is the last group, in key order, that belongs to `user`.
pub open spec fn is_last_group_of(g: Seq<GroupModel>, user: Seq<char>, k: int) -> bool {
    &&& 0 <= k < g.len()
    &&& g[k].1@ == user
    &&& forall|j: int| k < j < g.len() ==> (#[trigger] g[j]).1@ != user
}

/// `e` added, where absent, to every group of `user`.
pub open spec fn push_to_user(g: Seq<GroupModel>, user: Seq<char>, e: UserEvent) -> Seq<GroupModel> {
    Seq::new(g.len(), |k: int| if g[k].1@ == user { (g[k].0, g[k].1, push_absent(g[k].2, e)) } else { g[k] })
}

/// Where a small state event goes among the groups.
///
/// If the first group of its user starts at or before the event, the event joins
/// that group. Otherwise, if its user has groups (all starting later), the event
/// joins each of them and the last one is moved to start at the event. A user
/// without a group gets a new group at the event's index.
pub open spec fn place_event(g: Seq<GroupModel>, e: UserEvent) -> Seq<GroupModel> {
    let user = event_user_key(e);
    if exists|k: int| is_first_group_of(g, user@, k) {
        let k = choose|k: int| is_first_group_of(g, user@, k);
        if g[k].0 <= e.index {
            g.update(k, (g[k].0, g[k].1, push_absent(g[k].2, e)))
        } else {
            let pushed = push_to_user(g, user@, e);
            let l = choose|l: int| is_last_group_of(g, user@, l);
            insert_keyed(pushed.remove(l), (e.index, pushed[l].1, pushed[l].2))
        }
    } else {
        insert_keyed(g, (e.index, user, seq![e]))
    }
}

proof fn lemma_first_group(g: Seq<GroupModel>, user: Seq<char>, l: int)
    requires
        0 <= l < g.len(),
        g[l].1@ == user,
    ensures
        exists|k: int| is_first_group_of(g, user, k),
    decreases l,
{
    if exists|j: int| 0 <= j < l && (#[trigger] g[j]).1@ == user {
        let j = choose|j: int| 0 <= j < l && (#[trigger] g[j]).1@ == user;
        lemma_first_group(g, user, j);
    } else {
        assert(is_first_group_of(g, user, l));
    }
}

fn user_key_of(e: &UserEvent) -> (r: String)
    ensures
        r == event_user_key(*e),
{
    match &e.state_key {
        Some(k) => {
            if k.as_str().is_empty() {
                e.sender.clone()
            } else {
                k.clone()
            }
        },
        None => e.sender.clone(),
    }
}

/// Appends a new user event to the groups of user events, as `place_event` says.
fn append_user_event_to_map(user_event: UserEvent, user_events: &mut UserEventGroups)
    requires
        old(user_events).wf(),
    ensures
        final(user_events).wf(),
        final(user_events)@ == place_event(old(user_events)@, user_event),
{
    let ghost g = user_events@;
    let item_id = user_event.index;
    let user_state_key = user_key_of(&user_event);
    let ghost user = user_state_key@;
    let mut last: Option<usize> = None;
    let mut k: usize = 0;
    while k < user_events.groups.len()
        invariant
            k <= g.len(),
            g == old(user_events)@,
            keys_ascending(g),
            user == event_user_key(user_event)@,
            user_state_key == event_user_key(user_event),
            user_state_key@ == user,
            item_id == user_event.index,
            user_events@.len() == g.len(),
            forall|j: int| 0 <= j < k ==> (#[trigger] user_events@[j]) == push_to_user(g, user, user_event)[j],
            forall|j: int| k <= j < g.len() ==> (#[trigger] user_events@[j]) == g[j],
            forall|j: int| 0 <= j < k && (#[trigger] g[j]).1@ == user ==> g[j].0 > item_id,
            match last {
                Some(l) => l < k && g[l as int].1@ == user
                    && forall|j: int| l < j < k ==> (#[trigger] g[j]).1@ != user,
                None => forall|j: int| 0 <= j < k ==> (#[trigger] g[j]).1@ != user,
            },
        decreases g.len() - k,
    {
        assert(user_events@[k as int] == user_events.groups@[k as int]@);
        assert(user_events@[k as int] == g[k as int]);
        let same_user = user_events.groups[k].user_id == user_state_key;
        assert(same_user == (user_events.groups@[k as int].user_id@ == user_state_key@));
        if same_user {
            let ghost before = user_events.groups@;
            let mut grp = user_events.groups.remove(k);
            let gid = grp.group_id;
            push_if_absent(&mut grp.events, user_event.duplicate());
            user_events.groups.insert(k, grp);
            assert(user_events.groups@ =~= before.update(k as int, grp));
            assert(g[k as int].1@ == user);
            assert(user_events@ =~= models(before).update(k as int, grp@));
            assert(grp@ == push_to_user(g, user, user_event)[k as int]);
            if item_id >= gid {
                proof {
                    assert(is_first_group_of(g, user, k as int)) by {
                        assert forall|j: int| 0 <= j < k implies (#[trigger] g[j]).1@ != user by {
                            if g[j].1@ == user {
                                assert(g[j].0 < g[k as int].0);
                            }
                        }
                    }
                    let k2 = choose|k2: int| is_first_group_of(g, user, k2);
                    assert(k2 == k as int) by {
                        if k2 < k as int { assert(g[k2].1@ != user); }
                        if k2 > k as int { assert(g[k as int].1@ != user); }
                    }
                    assert(user_events@ =~= g.update(k as int, (g[k as int].0, g[k as int].1, push_absent(g[k as int].2, user_event)))) by {
                        assert forall|j: int| 0 <= j < g.len() && j != k as int implies
                            #[trigger] user_events@[j] == g[j] by {
                            if j < k as int {
                                assert(g[j].1@ != user);
                            }
                        }
                    }
                    assert forall|i: int, j: int| 0 <= i < j < user_events@.len()
                        implies (#[trigger] user_events@[i]).0 < (#[trigger] user_events@[j]).0 by {
                        assert(user_events@[i].0 == g[i].0 && user_events@[j].0 == g[j].0);
                    }
                }
                return;
            }
            last = Some(k);
        }
        k = k + 1;
    }
    let ghost pushed = push_to_user(g, user, user_event);
    assert(user_events@ =~= pushed);
    assert(keys_ascending(pushed)) by {
        assert forall|i: int, j: int| 0 <= i < j < pushed.len()
            implies (#[trigger] pushed[i]).0 < (#[trigger] pushed[j]).0 by {
            assert(pushed[i].0 == g[i].0 && pushed[j].0 == g[j].0);
        }
    }
    match last {
        Some(l) => {
            proof {
                lemma_first_group(g, user, l as int);
                let f = choose|f: int| is_first_group_of(g, user, f);
                assert(g[f].0 > item_id);
                assert(is_last_group_of(g, user, l as int));
                let l2 = choose|l2: int| is_last_group_of(g, user, l2);
                assert(l2 == l as int) by {
                    if l2 < l as int { assert(g[l as int].1@ != user); }
                    if l2 > l as int { assert(g[l2].1@ != user); }
                }
            }
            let data = user_events.groups.remove(l);
            assert(user_events@ =~= pushed.remove(l as int));
            assert(keys_ascending(pushed.remove(l as int))) by {
                let r = pushed.remove(l as int);
                assert forall|i: int, j: int| 0 <= i < j < r.len()
                    implies (#[trigger] r[i]).0 < (#[trigger] r[j]).0 by {
                    if j < l as int {
                        assert(r[i] == pushed[i] && r[j] == pushed[j]);
                    } else if i < l as int {
                        assert(r[i] == pushed[i] && r[j] == pushed[j + 1]);
                    } else {
                        assert(r[i] == pushed[i + 1] && r[j] == pushed[j + 1]);
                    }
                }
            }
            insert_group(&mut user_events.groups,
                UserEventGroup { group_id: item_id, user_id: data.user_id, events: data.events });
        },
        None => {
            assert(!exists|k: int| is_first_group_of(g, user, k));
            assert(pushed =~= g);
            let mut v: Vec<UserEvent> = Vec::new();
            v.push(user_event);
            insert_group(&mut user_events.groups,
                UserEventGroup { group_id: item_id, user_id: user_state_key, events: v });
            assert(v@ == seq![user_event]);
        },
    }
}


// ---------------------------------------------------------------------------
// Summary text
// ---------------------------------------------------------------------------

/// Stable insertion of `e` into `t`, after every event whose index is not above its own.
pub open spec fn insert_by_index(t: Seq<UserEvent>, e: UserEvent) -> Seq<UserEvent>
    decreases t.len(),
{
    if t.len() == 0 {
        seq![e]
    } else if t.last().index > e.index {
        insert_by_index(t.drop_last(), e).push(t.last())
    } else {
        t.push(e)
    }
}

/// The events stably sorted by timeline index.
pub open spec fn sort_events(s: Seq<UserEvent>) -> Seq<UserEvent>
    decreases s.len(),
{
    if s.len() == 0 { seq![] } else { insert_by_index(sort_events(s.drop_last()), s.last()) }
}

spec fn insert_pos(t: Seq<UserEvent>, e: UserEvent) -> int
    decreases t.len(),
{
    if t.len() == 0 { 0 } else if t.last().index > e.index { insert_pos(t.drop_last(), e) } else { t.len() as int }
}

proof fn lemma_insert_pos(t: Seq<UserEvent>, e: UserEvent)
    ensures
        0 <= insert_pos(t, e) <= t.len(),
        insert_by_index(t, e) == t.insert(insert_pos(t, e), e),
    decreases t.len(),
{
    if t.len() > 0 && t.last().index > e.index {
        lemma_insert_pos(t.drop_last(), e);
        assert(t.drop_last().insert(insert_pos(t.drop_last(), e), e).push(t.last())
            =~= t.insert(insert_pos(t, e), e));
    } else if t.len() > 0 {
        assert(t.push(e) =~= t.insert(t.len() as int, e));
    } else {
        assert(seq![e] =~= t.insert(0, e));
    }
}

/// A copy of `events`, stably sorted by timeline index.
fn sorted_by_index(events: &Vec<UserEvent>) -> (r: Vec<UserEvent>)
    ensures
        r@ == sort_events(events@),
{
    let mut r: Vec<UserEvent> = Vec::new();
    let mut i: usize = 0;
    while i < events.len()
        invariant
            i <= events@.len(),
            r@ == sort_events(events@.take(i as int)),
        decreases events@.len() - i,
    {
        let e = events[i].duplicate();
        let ghost t = r@;
        let mut p = r.len();
        assert(t.take(p as int) =~= t);
        while p > 0 && r[p - 1].index > e.index
            invariant
                p <= t.len(),
                r@ == t,
                insert_pos(t, e) == insert_pos(t.take(p as int), e),
            decreases p,
        {
            assert(t.take(p as int).drop_last() =~= t.take(p - 1));
            p = p - 1;
        }
        proof {
            if p > 0 {
                assert(t.take(p as int).last() == t[p - 1]);
            }
            lemma_insert_pos(t, e);
        }
        r.insert(p, e);
        assert(events@.take(i + 1).drop_last() =~= events@.take(i as int));
        i = i + 1;
    }
    assert(events@.take(i as int) =~= events@);
    r
}

/// The transitions of a sequence of events.
pub open spec fn transitions_of(s: Seq<UserEvent>) -> Seq<TransitionType> {
    s.map_values(|e: UserEvent| e.transition)
}

/// `s` without its `Joined` transitions.
pub open spec fn without_joined(s: Seq<TransitionType>) -> Seq<TransitionType>
    decreases s.len(),
{
    if s.len() == 0 {
        seq![]
    } else if s.last() == TransitionType::Joined {
        without_joined(s.drop_last())
    } else {
        without_joined(s.drop_last()).push(s.last())
    }
}

/// The transitions of one user in timeline order; a room creator's joins are left out.
pub open spec fn user_transitions(events: Seq<UserEvent>) -> Seq<TransitionType> {
    let ts = transitions_of(sort_events(events));
    if ts.contains(TransitionType::CreateRoom) { without_joined(ts) } else { ts }
}

/// The name shown for a group: the display name of its earliest event, else its user.
pub open spec fn group_display_name(g: GroupModel) -> Seq<char> {
    let sorted = sort_events(g.2);
    if sorted.len() > 0 { sorted[0].display_name@ } else { g.1@ }
}

/// Users aggregated by their canonical transition sequence, in order of first appearance.
pub open spec fn aggregate(g: Seq<GroupModel>) -> Seq<(Seq<TransitionType>, Seq<Seq<char>>)>
    decreases g.len(),
{
    if g.len() == 0 {
        seq![]
    } else {
        let prev = aggregate(g.drop_last());
        let c = canonical(user_transitions(g.last().2));
        let name = group_display_name(g.last());
        if exists|k: int| 0 <= k < prev.len() && (#[trigger] prev[k]).0 == c {
            let k = choose|k: int| 0 <= k < prev.len() && (#[trigger] prev[k]).0 == c;
            prev.update(k, (c, prev[k].1.push(name)))
        } else {
            prev.push((c, seq![name]))
        }
    }
}

/// No transition sequence is aggregated twice.
pub proof fn lemma_aggregate_distinct(g: Seq<GroupModel>)
    ensures
        forall|i: int, j: int| 0 <= i < j < aggregate(g).len() ==> (#[trigger] aggregate(g)[i]).0 != (#[trigger] aggregate(g)[j]).0,
    decreases g.len(),
{
    if g.len() > 0 {
        let d = g.drop_last();
        lemma_aggregate_distinct(d);
        let prev = aggregate(d);
        let c = canonical(user_transitions(g.last().2));
        let a = aggregate(g);
        if exists|k: int| 0 <= k < prev.len() && (#[trigger] prev[k]).0 == c {
            let k = choose|k: int| 0 <= k < prev.len() && (#[trigger] prev[k]).0 == c;
            assert forall|i: int, j: int| 0 <= i < j < a.len() implies (#[trigger] a[i]).0 != (#[trigger] a[j]).0 by {
                assert(a[i].0 == prev[i].0);
                assert(a[j].0 == prev[j].0);
            }
        } else {
            assert forall|i: int, j: int| 0 <= i < j < a.len() implies (#[trigger] a[i]).0 != (#[trigger] a[j]).0 by {
                assert(a[i] == prev[i]);
                if j < prev.len() {
                    assert(a[j] == prev[j]);
                }
            }
        }
    }
}

/// One sentence of the summary: the names, then what they did.
pub open spec fn summary_part(a: (Seq<TransitionType>, Seq<Seq<char>>), summary_length: nat) -> Seq<char> {
    name_list(a.1, summary_length) + " "@ + join(
        runs(a.0).map_values(|r: (TransitionType, usize)| describe(r.0, a.1.len(), r.1 as nat)), ", "@)
}

/// The summary of a map of user event groups.
pub open spec fn summary(g: Seq<GroupModel>, summary_length: nat) -> Seq<char> {
    join(aggregate(g).map_values(|a: (Seq<TransitionType>, Seq<Seq<char>>)| summary_part(a, summary_length)), ", "@)
}

/// Whether no two events share a timeline index.
pub open spec fn indices_distinct(s: Seq<UserEvent>) -> bool {
    forall|i: int, j: int| 0 <= i < j < s.len() ==> (#[trigger] s[i]).index != (#[trigger] s[j]).index
}

/// Whether the events are in timeline order.
pub open spec fn ascending_by_index(s: Seq<UserEvent>) -> bool {
    forall|i: int, j: int| 0 <= i < j < s.len() ==> (#[trigger] s[i]).index <= (#[trigger] s[j]).index
}

/// Whether two different events of the multiset never share an index.
spec fn index_determines(m: vstd::multiset::Multiset<UserEvent>) -> bool {
    forall|x: UserEvent, y: UserEvent| #![trigger m.count(x), m.count(y)]
        m.count(x) > 0 && m.count(y) > 0 && x.index == y.index ==> x == y
}

proof fn lemma_insert_by_index_sorted(t: Seq<UserEvent>, e: UserEvent)
    requires
        ascending_by_index(t),
    ensures
        ascending_by_index(insert_by_index(t, e)),
        insert_by_index(t, e).to_multiset() =~= t.to_multiset().insert(e),
    decreases t.len(),
{
    broadcast use vstd::seq_lib::group_to_multiset_ensures;
    if t.len() == 0 {
        assert(seq![e] =~= Seq::<UserEvent>::empty().push(e));
        assert(t =~= Seq::<UserEvent>::empty());
    } else if t.last().index > e.index {
        let d = t.drop_last();
        let r = insert_by_index(d, e);
        lemma_insert_by_index_sorted(d, e);
        assert(t =~= d.push(t.last()));
        assert forall|k: int| 0 <= k < r.len() implies (#[trigger] r[k]).index <= t.last().index by {
            assert(r.to_multiset().count(r[k]) > 0);
            if r[k] != e {
                assert(d.to_multiset().count(r[k]) > 0);
                assert(d.contains(r[k]));
                let q = choose|q: int| 0 <= q < d.len() && d[q] == r[k];
                assert(t[q] == r[k]);
            }
        }
        let r2 = r.push(t.last());
        assert forall|i: int, j: int| 0 <= i < j < r2.len() implies (#[trigger] r2[i]).index <= (#[trigger] r2[j]).index by {
            if j < r.len() {
                assert(r2[i] == r[i] && r2[j] == r[j]);
            } else {
                assert(r2[i] == r[i]);
            }
        }
    } else {
        let r2 = t.push(e);
        assert forall|i: int, j: int| 0 <= i < j < r2.len() implies (#[trigger] r2[i]).index <= (#[trigger] r2[j]).index by {
            if j < t.len() {
                assert(r2[i] == t[i] && r2[j] == t[j]);
            } else {
                assert(r2[i] == t[i]);
                if i < t.len() - 1 {
                    assert(t[i].index <= t[t.len() - 1].index);
                }
            }
        }
    }
}

proof fn lemma_sort_events_sorted(s: Seq<UserEvent>)
    ensures
        ascending_by_index(sort_events(s)),
        sort_events(s).to_multiset() =~= s.to_multiset(),
    decreases s.len(),
{
    broadcast use vstd::seq_lib::group_to_multiset_ensures;
    if s.len() > 0 {
        lemma_sort_events_sorted(s.drop_last());
        lemma_insert_by_index_sorted(sort_events(s.drop_last()), s.last());
        assert(s =~= s.drop_last().push(s.last()));
    }
}

/// Two sequences in timeline order with the same events, of which no two
/// different ones share an index, are equal.
proof fn lemma_sorted_same_events(a: Seq<UserEvent>, b: Seq<UserEvent>)
    requires
        ascending_by_index(a),
        ascending_by_index(b),
        a.to_multiset() =~= b.to_multiset(),
        index_determines(a.to_multiset()),
    ensures
        a == b,
    decreases a.len(),
{
    broadcast use vstd::seq_lib::group_to_multiset_ensures;
    assert(a.len() == a.to_multiset().len());
    assert(b.len() == b.to_multiset().len());
    if a.len() == 0 {
        assert(a =~= b);
    } else {
        let m = a.to_multiset();
        assert(a.contains(a[0]));
        assert(b.to_multiset().count(a[0]) > 0);
        assert(b.contains(a[0]));
        let j = choose|j: int| 0 <= j < b.len() && b[j] == a[0];
        assert(b.contains(b[0]));
        assert(m.count(b[0]) > 0);
        assert(a.contains(b[0]));
        let i = choose|i: int| 0 <= i < a.len() && a[i] == b[0];
        if i > 0 { assert(a[0].index <= a[i].index); }
        if j > 0 { assert(b[0].index <= b[j].index); }
        assert(m.count(a[0]) > 0);
        assert(a[0] == b[0]);
        let a1 = a.remove(0);
        let b1 = b.remove(0);
        assert(a1.to_multiset() =~= b1.to_multiset());
        assert(a1 =~= a.drop_first());
        assert(b1 =~= b.drop_first());
        assert forall|x: int, y: int| 0 <= x < y < a1.len() implies (#[trigger] a1[x]).index <= (#[trigger] a1[y]).index by {
            assert(a1[x] == a[x + 1] && a1[y] == a[y + 1]);
        }
        assert forall|x: int, y: int| 0 <= x < y < b1.len() implies (#[trigger] b1[x]).index <= (#[trigger] b1[y]).index by {
            assert(b1[x] == b[x + 1] && b1[y] == b[y + 1]);
        }
        let m1 = a1.to_multiset();
        assert forall|x: UserEvent, y: UserEvent| #![trigger m1.count(x), m1.count(y)]
            m1.count(x) > 0 && m1.count(y) > 0 && x.index == y.index implies x == y by {
            assert(m1 == m.remove(a[0]));
            assert(m.count(x) > 0 && m.count(y) > 0);
        }
        lemma_sorted_same_events(a1, b1);
        assert(a =~= seq![a[0]] + a1);
        assert(b =~= seq![b[0]] + b1);
    }
}

/// Sorting by timeline index ignores the order of events whose indices are
/// distinct.
proof fn lemma_sort_events_ignores_order(e1: Seq<UserEvent>, e2: Seq<UserEvent>)
    requires
        indices_distinct(e1),
        e1.to_multiset() =~= e2.to_multiset(),
    ensures
        sort_events(e1) == sort_events(e2),
{
    broadcast use vstd::seq_lib::group_to_multiset_ensures;
    lemma_sort_events_sorted(e1);
    lemma_sort_events_sorted(e2);
    let m = e1.to_multiset();
    assert forall|x: UserEvent, y: UserEvent| #![trigger m.count(x), m.count(y)]
        m.count(x) > 0 && m.count(y) > 0 && x.index == y.index implies x == y by {
        assert(e1.contains(x) && e1.contains(y));
        let p = choose|p: int| 0 <= p < e1.len() && e1[p] == x;
        let q = choose|q: int| 0 <= q < e1.len() && e1[q] == y;
        if p < q {
            assert(e1[p].index != e1[q].index);
        } else if q < p {
            assert(e1[q].index != e1[p].index);
        }
    }
    lemma_sorted_same_events(sort_events(e1), sort_events(e2));
}

/// The summary does not depend on the order in which each user's events are
/// held, as long as no user has two events at one timeline index.
pub proof fn lemma_summary_ignores_event_order(g1: Seq<GroupModel>, g2: Seq<GroupModel>, summary_length: nat)
    requires
        g1.len() == g2.len(),
        forall|i: int| 0 <= i < g1.len() ==> (#[trigger] g1[i]).1 == g2[i].1,
        forall|i: int| 0 <= i < g1.len() ==> (#[trigger] g1[i]).2.to_multiset() =~= g2[i].2.to_multiset(),
        forall|i: int| 0 <= i < g1.len() ==> indices_distinct(#[trigger] g1[i].2),
    ensures
        aggregate(g1) == aggregate(g2),
        summary(g1, summary_length) == summary(g2, summary_length),
    decreases g1.len(),
{
    if g1.len() > 0 {
        let n = g1.len() - 1;
        lemma_summary_ignores_event_order(g1.drop_last(), g2.drop_last(), summary_length);
        assert(g1.last() == g1[n] && g2.last() == g2[n]);
        lemma_sort_events_ignores_order(g1[n].2, g2[n].2);
        assert(user_transitions(g1.last().2) == user_transitions(g2.last().2));
        assert(group_display_name(g1.last()) == group_display_name(g2.last()));
    }
}

/// The canonical transitions of a group.
pub open spec fn canonical_of(gm: GroupModel) -> Seq<TransitionType> {
    canonical(user_transitions(gm.2))
}

/// The position of the first group whose canonical transitions are `c`, or -1.
pub open spec fn first_with(g: Seq<GroupModel>, c: Seq<TransitionType>) -> int
    decreases g.len(),
{
    if g.len() == 0 {
        -1
    } else {
        let p = first_with(g.drop_last(), c);
        if p >= 0 { p } else if canonical_of(g.last()) == c { g.len() - 1 } else { -1 }
    }
}

proof fn lemma_first_with(g: Seq<GroupModel>, c: Seq<TransitionType>)
    ensures
        first_with(g, c) >= 0 ==> first_with(g, c) < g.len() && canonical_of(g[first_with(g, c)]) == c
            && forall|k: int| 0 <= k < first_with(g, c) ==> canonical_of(#[trigger] g[k]) != c,
        first_with(g, c) < 0 ==> forall|k: int| 0 <= k < g.len() ==> canonical_of(#[trigger] g[k]) != c,
    decreases g.len(),
{
    if g.len() > 0 {
        let d = g.drop_last();
        lemma_first_with(d, c);
        assert forall|k: int| 0 <= k < d.len() implies d[k] == g[k] by {}
    }
}

proof fn lemma_aggregate_first_appearance(g: Seq<GroupModel>)
    ensures
        forall|k: int| 0 <= k < g.len() ==> exists|m: int| 0 <= m < aggregate(g).len() && (#[trigger] aggregate(g)[m]).0 == canonical_of(#[trigger] g[k]),
        forall|m: int| 0 <= m < aggregate(g).len() ==> 0 <= #[trigger] first_with(g, aggregate(g)[m].0) < g.len(),
        forall|i: int, j: int| 0 <= i < j < aggregate(g).len()
            ==> first_with(g, (#[trigger] aggregate(g)[i]).0) < first_with(g, (#[trigger] aggregate(g)[j]).0),
    decreases g.len(),
{
    if g.len() > 0 {
        let d = g.drop_last();
        let prev = aggregate(d);
        let a = aggregate(g);
        let c = canonical_of(g.last());
        lemma_aggregate_first_appearance(d);
        assert forall|k: int| 0 <= k < d.len() implies d[k] == g[k] by {}
        assert(canonical(user_transitions(g.last().2)) == c);
        assert forall|m: int| 0 <= m < prev.len() implies first_with(g, prev[m].0) == first_with(d, prev[m].0) by {}
        if exists|k: int| 0 <= k < prev.len() && (#[trigger] prev[k]).0 == c {
            let kk = choose|k: int| 0 <= k < prev.len() && (#[trigger] prev[k]).0 == c;
            assert(a == prev.update(kk, (c, prev[kk].1.push(group_display_name(g.last())))));
            assert forall|m: int| 0 <= m < a.len() implies (#[trigger] a[m]).0 == prev[m].0 by {}
            assert forall|k: int| 0 <= k < g.len() implies exists|m: int| 0 <= m < a.len() && (#[trigger] a[m]).0 == canonical_of(#[trigger] g[k]) by {
                if k < d.len() {
                    let m = choose|m: int| 0 <= m < prev.len() && (#[trigger] prev[m]).0 == canonical_of(d[k]);
                    assert(a[m].0 == canonical_of(g[k]));
                } else {
                    assert(a[kk].0 == canonical_of(g[k]));
                }
            }
            assert forall|i: int, j: int| 0 <= i < j < a.len()
                implies first_with(g, (#[trigger] a[i]).0) < first_with(g, (#[trigger] a[j]).0) by {
                assert(a[i].0 == prev[i].0 && a[j].0 == prev[j].0);
            }
        } else {
            assert(a == prev.push((c, seq![group_display_name(g.last())])));
            lemma_first_with(d, c);
            assert(first_with(d, c) < 0) by {
                if first_with(d, c) >= 0 {
                    let m = choose|m: int| 0 <= m < prev.len() && (#[trigger] prev[m]).0 == canonical_of(#[trigger] d[first_with(d, c)]);
                    assert(prev[m].0 == c);
                }
            }
            assert(first_with(g, c) == g.len() - 1);
            assert forall|k: int| 0 <= k < g.len() implies exists|m: int| 0 <= m < a.len() && (#[trigger] a[m]).0 == canonical_of(#[trigger] g[k]) by {
                if k < d.len() {
                    let m = choose|m: int| 0 <= m < prev.len() && (#[trigger] prev[m]).0 == canonical_of(d[k]);
                    assert(a[m].0 == canonical_of(g[k]));
                } else {
                    assert(a[prev.len() as int].0 == canonical_of(g[k]));
                }
            }
            assert forall|m: int| 0 <= m < a.len() implies 0 <= #[trigger] first_with(g, a[m].0) < g.len() by {
                if m < prev.len() {
                    assert(a[m] == prev[m]);
                }
            }
            assert forall|i: int, j: int| 0 <= i < j < a.len()
                implies first_with(g, (#[trigger] a[i]).0) < first_with(g, (#[trigger] a[j]).0) by {
                assert(a[i] == prev[i]);
                if j < prev.len() {
                    assert(a[j] == prev[j]);
                }
            }
        }
    }
}

/// The summary's clauses come in ascending order of the smallest key that has
/// their transitions: each clause's transitions first occur at the group with
/// the smallest such key, and those keys ascend clause by clause.
pub proof fn lemma_summary_clauses_follow_smallest_key(g: Seq<GroupModel>)
    requires
        keys_ascending(g),
    ensures
        forall|m: int| 0 <= m < aggregate(g).len() ==> 0 <= #[trigger] first_with(g, aggregate(g)[m].0) < g.len()
            && canonical_of(g[first_with(g, aggregate(g)[m].0)]) == aggregate(g)[m].0,
        forall|m: int, k: int| 0 <= m < aggregate(g).len() && 0 <= k < g.len()
            && canonical_of(#[trigger] g[k]) == (#[trigger] aggregate(g)[m]).0
            ==> g[first_with(g, aggregate(g)[m].0)].0 <= g[k].0,
        forall|i: int, j: int| 0 <= i < j < aggregate(g).len()
            ==> g[first_with(g, (#[trigger] aggregate(g)[i]).0)].0 < g[first_with(g, (#[trigger] aggregate(g)[j]).0)].0,
{
    lemma_aggregate_first_appearance(g);
    let a = aggregate(g);
    assert forall|m: int| 0 <= m < a.len() implies 0 <= #[trigger] first_with(g, a[m].0) < g.len()
        && canonical_of(g[first_with(g, a[m].0)]) == a[m].0 by {
        lemma_first_with(g, a[m].0);
    }
    assert forall|m: int, k: int| 0 <= m < a.len() && 0 <= k < g.len()
        && canonical_of(#[trigger] g[k]) == (#[trigger] a[m]).0
        implies g[first_with(g, a[m].0)].0 <= g[k].0 by {
        lemma_first_with(g, a[m].0);
        let p = first_with(g, a[m].0);
        if k < p {
            assert(canonical_of(g[k]) != a[m].0);
        } else if p < k {
            assert(g[p].0 < g[k].0);
        }
    }
    assert forall|i: int, j: int| 0 <= i < j < a.len()
        implies g[first_with(g, (#[trigger] a[i]).0)].0 < g[first_with(g, (#[trigger] a[j]).0)].0 by {
        let p = first_with(g, a[i].0);
        let q = first_with(g, a[j].0);
        assert(p < q);
        assert(g[p].0 < g[q].0);
    }
}

/// With no users, the summary is empty.
pub proof fn lemma_summary_of_nobody(summary_length: nat)
    ensures
        summary(Seq::<GroupModel>::empty(), summary_length) == Seq::<char>::empty(),
{
    assert(aggregate(Seq::<GroupModel>::empty()) =~= seq![]);
    assert(aggregate(Seq::<GroupModel>::empty()).map_values(|a: (Seq<TransitionType>, Seq<Seq<char>>)| summary_part(a, summary_length))
        =~= Seq::<Seq<char>>::empty());
}

fn same_transitions(a: &Vec<TransitionType>, b: &Vec<TransitionType>) -> (r: bool)
    ensures
        r == (a@ == b@),
{
    if a.len() != b.len() {
        return false;
    }
    let mut i: usize = 0;
    while i < a.len()
        invariant
            i <= a@.len() == b@.len(),
            forall|j: int| 0 <= j < i ==> a@[j] == b@[j],
        decreases a@.len() - i,
    {
        if a[i] != b[i] {
            return false;
        }
        i = i + 1;
    }
    assert(a@ =~= b@);
    true
}

fn user_transition_list(events: &Vec<UserEvent>) -> (r: Vec<TransitionType>)
    ensures
        r@ == user_transitions(events@),
{
    let sorted = sorted_by_index(events);
    let ghost ts = transitions_of(sorted@);
    let mut all: Vec<TransitionType> = Vec::new();
    let mut has_create = false;
    let mut i: usize = 0;
    while i < sorted.len()
        invariant
            i <= sorted@.len(),
            ts == transitions_of(sorted@),
            all@ == ts.take(i as int),
            has_create == ts.take(i as int).contains(TransitionType::CreateRoom),
        decreases sorted@.len() - i,
    {
        let t = sorted[i].transition;
        all.push(t);
        assert(ts.take(i + 1) =~= ts.take(i as int).push(t));
        if t == TransitionType::CreateRoom {
            assert(ts.take(i + 1)[i as int] == t);
            has_create = true;
        } else {
            assert(ts.take(i + 1).contains(TransitionType::CreateRoom) ==> ts.take(i as int).contains(TransitionType::CreateRoom)) by {
                if ts.take(i + 1).contains(TransitionType::CreateRoom) {
                    let j = choose|j: int| 0 <= j < i + 1 && #[trigger] ts.take(i + 1)[j] == TransitionType::CreateRoom;
                    assert(j != i as int);
                    assert(ts.take(i as int)[j] == TransitionType::CreateRoom);
                }
            }
        }
        i = i + 1;
    }
    assert(ts.take(i as int) =~= ts);
    if !has_create {
        return all;
    }
    let mut kept: Vec<TransitionType> = Vec::new();
    let mut j: usize = 0;
    while j < all.len()
        invariant
            j <= all@.len(),
            kept@ == without_joined(all@.take(j as int)),
        decreases all@.len() - j,
    {
        assert(all@.take(j + 1).drop_last() =~= all@.take(j as int));
        if all[j] != TransitionType::Joined {
            kept.push(all[j]);
        }
        j = j + 1;
    }
    assert(all@.take(j as int) =~= all@);
    kept
}

fn group_name(g: &UserEventGroup) -> (r: String)
    ensures
        r@ == group_display_name(g@),
{
    let sorted = sorted_by_index(&g.events);
    if sorted.len() > 0 {
        sorted[0].display_name.clone()
    } else {
        g.user_id.clone()
    }
}

/// The model of the aggregates built so far.
pub open spec fn agg_model(v: Seq<(Vec<TransitionType>, Vec<String>)>) -> Seq<(Seq<TransitionType>, Seq<Seq<char>>)> {
    v.map_values(|a: (Vec<TransitionType>, Vec<String>)| (a.0@, views(a.1@)))
}

/// Summarize all user transitions into a single string.
pub fn generate_summary(user_events: &UserEventGroups, summary_length: usize) -> (r: String)
    requires
        user_events.wf(),
    ensures
        r@ == summary(user_events@, summary_length as nat),
{
    let ghost g = user_events@;
    let mut aggregates: Vec<(Vec<TransitionType>, Vec<String>)> = Vec::new();
    let mut i: usize = 0;
    while i < user_events.groups.len()
        invariant
            i <= g.len(),
            g == user_events@,
            agg_model(aggregates@) == aggregate(g.take(i as int)),
        decreases g.len() - i,
    {
        let grp = &user_events.groups[i];
        assert(g[i as int] == grp@);
        let canonical_seq = canonicalize_transitions(user_transition_list(&grp.events).as_slice());
        let name = group_name(grp);
        let ghost prev = agg_model(aggregates@);
        let ghost gi = g.take(i + 1);
        assert(gi.drop_last() =~= g.take(i as int));
        assert(gi.last() == grp@);
        proof { lemma_aggregate_distinct(g.take(i as int)); }
        let mut k: usize = 0;
        let mut found = false;
        while k < aggregates.len() && !found
            invariant
                k <= aggregates@.len(),
                prev == agg_model(aggregates@),
                found ==> k < aggregates@.len() && prev[k as int].0 == canonical_seq@,
                forall|j: int| 0 <= j < k ==> (#[trigger] prev[j]).0 != canonical_seq@,
            decreases aggregates@.len() - k + (if found { 0int } else { 1int }),
        {
            assert(prev[k as int].0 == aggregates@[k as int].0@);
            if same_transitions(&aggregates[k].0, &canonical_seq) {
                found = true;
            } else {
                k = k + 1;
            }
        }
        if found {
            proof {
                let c = canonical_seq@;
                assert(prev[k as int].0 == c);
                let k2 = choose|k2: int| 0 <= k2 < prev.len() && (#[trigger] prev[k2]).0 == c;
                assert(k2 == k as int) by {
                    if k2 < k as int {
                        assert(prev[k2].0 != c);
                    } else if k2 > k as int {
                        assert(prev[k as int].0 != prev[k2].0);
                    }
                }
            }
            let (seq_k, mut names) = aggregates.remove(k);
            names.push(name);
            aggregates.insert(k, (seq_k, names));
            assert(views(names@) =~= prev[k as int].1.push(name@));
            assert(agg_model(aggregates@) =~= prev.update(k as int, (canonical_seq@, prev[k as int].1.push(name@))));
        } else {
            let mut names: Vec<String> = Vec::new();
            names.push(name);
            assert(views(names@) =~= seq![name@]);
            aggregates.push((canonical_seq, names));
            assert(agg_model(aggregates@) =~= prev.push((canonical_seq@, seq![name@])));
        }
        i = i + 1;
    }
    assert(g.take(i as int) =~= g);
    let ghost aggs = aggregate(g);
    let mut parts: Vec<String> = Vec::new();
    let mut a: usize = 0;
    while a < aggregates.len()
        invariant
            a <= aggregates@.len(),
            agg_model(aggregates@) == aggs,
            views(parts@) == aggs.take(a as int).map_values(
                |x: (Seq<TransitionType>, Seq<Seq<char>>)| summary_part(x, summary_length as nat)),
        decreases aggregates@.len() - a,
    {
        let names = &aggregates[a].1;
        let coalesced = coalesce_repeated_transitions(aggregates[a].0.as_slice());
        let ghost rs = runs(aggregates@[a as int].0@);
        let mut descs: Vec<String> = Vec::new();
        let mut d: usize = 0;
        while d < coalesced.len()
            invariant
                d <= coalesced@.len(),
                coalesced@ == rs,
                views(descs@) == rs.take(d as int).map_values(
                    |r: (TransitionType, usize)| describe(r.0, views(names@).len(), r.1 as nat)),
            decreases coalesced@.len() - d,
        {
            let (t, repeats) = coalesced[d];
            let text = describe_transition(t, names.len(), repeats);
            let ghost f = |r: (TransitionType, usize)| describe(r.0, views(names@).len(), r.1 as nat);
            assert(views(names@).len() == names@.len());
            assert(text@ == f(rs[d as int]));
            let ghost before = descs@;
            descs.push(text);
            assert(rs.take(d + 1) =~= rs.take(d as int).push(rs[d as int]));
            assert(views(descs@) =~= views(before).push(text@));
            assert(rs.take(d + 1).map_values(f) =~= rs.take(d as int).map_values(f).push(f(rs[d as int])));
            d = d + 1;
        }
        assert(rs.take(d as int) =~= rs);
        let mut part = format_name_list(names.as_slice(), summary_length);
        part.append(" ");
        let text = join_all(descs.as_slice(), ", ");
        part.append(text.as_str());
        assert(aggs[a as int] == (aggregates@[a as int].0@, views(names@)));
        let ghost fp = |x: (Seq<TransitionType>, Seq<Seq<char>>)| summary_part(x, summary_length as nat);
        assert(views(names@).len() == names@.len());
        assert(part@ == fp(aggs[a as int]));
        let ghost before = parts@;
        parts.push(part);
        assert(views(parts@) =~= views(before).push(part@));
        assert(aggs.take(a + 1) =~= aggs.take(a as int).push(aggs[a as int]));
        assert(aggs.take(a + 1).map_values(fp) =~= aggs.take(a as int).map_values(fp).push(fp(aggs[a as int])));
        a = a + 1;
    }
    assert(aggs.take(a as int) =~= aggs);
    join_all(parts.as_slice(), ", ")
}


// ---------------------------------------------------------------------------
// From timeline events to user events
// ---------------------------------------------------------------------------

/// The transition that a membership change stands for.
pub open spec fn membership_transition(change: MembershipChange) -> TransitionType {
    match change {
        MembershipChange::Joined => TransitionType::Joined,
        MembershipChange::Left => TransitionType::Left,
        MembershipChange::Banned => TransitionType::Banned,
        MembershipChange::Unbanned => TransitionType::Unbanned,
        MembershipChange::Kicked => TransitionType::Kicked,
        MembershipChange::Invited => TransitionType::Invited,
        MembershipChange::KickedAndBanned => TransitionType::Banned,
        MembershipChange::InvitationAccepted => TransitionType::Joined,
        MembershipChange::InvitationRejected => TransitionType::InviteReject,
        MembershipChange::InvitationRevoked => TransitionType::InviteWithdrawal,
        MembershipChange::Knocked => TransitionType::HiddenEvent,
        MembershipChange::KnockAccepted => TransitionType::Joined,
        MembershipChange::KnockRetracted => TransitionType::HiddenEvent,
        MembershipChange::NoChange => TransitionType::NoChange,
        MembershipChange::Error => TransitionType::NoChange,
        MembershipChange::NotImplemented => TransitionType::NoChange,
        MembershipChange::KnockDenied => TransitionType::HiddenEvent,
    }
}

/// Convert a membership change to a transition type.
pub fn get_transition_from_membership_change(change: &MembershipChange) -> (t: TransitionType)
    ensures
        t == membership_transition(*change),
{
    match change {
        MembershipChange::Joined => TransitionType::Joined,
        MembershipChange::Left => TransitionType::Left,
        MembershipChange::Banned => TransitionType::Banned,
        MembershipChange::Unbanned => TransitionType::Unbanned,
        MembershipChange::Kicked => TransitionType::Kicked,
        MembershipChange::Invited => TransitionType::Invited,
        MembershipChange::KickedAndBanned => TransitionType::Banned,
        MembershipChange::InvitationAccepted => TransitionType::Joined,
        MembershipChange::InvitationRejected => TransitionType::InviteReject,
        MembershipChange::InvitationRevoked => TransitionType::InviteWithdrawal,
        MembershipChange::Knocked => TransitionType::HiddenEvent,
        MembershipChange::KnockAccepted => TransitionType::Joined,
        MembershipChange::KnockRetracted => TransitionType::HiddenEvent,
        MembershipChange::NoChange => TransitionType::NoChange,
        MembershipChange::Error => TransitionType::NoChange,
        MembershipChange::NotImplemented => TransitionType::NoChange,
        MembershipChange::KnockDenied => TransitionType::HiddenEvent,
    }
}

/// The transition that another state event stands for: server ACLs, room creation,
/// custom events (hidden) and room configuration.
pub open spec fn other_state_transition(content: OtherStateKind) -> TransitionType {
    match content {
        OtherStateKind::RoomServerAcl => TransitionType::ServerAcl,
        OtherStateKind::RoomCreate { .. } => TransitionType::CreateRoom,
        OtherStateKind::Custom => TransitionType::HiddenEvent,
        _ => TransitionType::ConfigureRoom,
    }
}

/// Convert other room state events to a transition type.
pub fn get_transition_from_other_events(content: &OtherStateKind, _state_key: &str) -> (t: TransitionType)
    ensures
        t == other_state_transition(*content),
{
    match content {
        OtherStateKind::RoomServerAcl => TransitionType::ServerAcl,
        OtherStateKind::RoomPinnedEvents => TransitionType::ConfigureRoom,
        OtherStateKind::RoomName => TransitionType::ConfigureRoom,
        OtherStateKind::RoomTopic => TransitionType::ConfigureRoom,
        OtherStateKind::RoomAvatar => TransitionType::ConfigureRoom,
        OtherStateKind::RoomCanonicalAlias => TransitionType::ConfigureRoom,
        OtherStateKind::RoomCreate { .. } => TransitionType::CreateRoom,
        OtherStateKind::RoomEncryption => TransitionType::ConfigureRoom,
        OtherStateKind::RoomGuestAccess => TransitionType::ConfigureRoom,
        OtherStateKind::RoomHistoryVisibility => TransitionType::ConfigureRoom,
        OtherStateKind::RoomJoinRules => TransitionType::ConfigureRoom,
        OtherStateKind::RoomPowerLevels => TransitionType::ConfigureRoom,
        OtherStateKind::RoomThirdPartyInvite => TransitionType::ConfigureRoom,
        OtherStateKind::RoomTombstone => TransitionType::ConfigureRoom,
        OtherStateKind::RoomAliases => TransitionType::ConfigureRoom,
        OtherStateKind::SpaceChild => TransitionType::ConfigureRoom,
        OtherStateKind::SpaceParent => TransitionType::ConfigureRoom,
        OtherStateKind::PolicyRuleRoom => TransitionType::ConfigureRoom,
        OtherStateKind::PolicyRuleServer => TransitionType::ConfigureRoom,
        OtherStateKind::PolicyRuleUser => TransitionType::ConfigureRoom,
        OtherStateKind::Custom => TransitionType::HiddenEvent,
    }
}

/// The transition of a small state event (`NoChange` for any other event).
pub open spec fn content_transition(c: TimelineItemContent) -> TransitionType {
    match c {
        TimelineItemContent::MembershipChange { change, .. } => match change {
            Some(ch) => membership_transition(ch),
            None => TransitionType::NoChange,
        },
        TimelineItemContent::ProfileChange { avatar_url_changed, displayname_changed } =>
            if avatar_url_changed { TransitionType::ChangedAvatar }
            else if displayname_changed { TransitionType::ChangedName }
            else { TransitionType::NoChange },
        TimelineItemContent::OtherState { content, .. } => other_state_transition(content),
        TimelineItemContent::MsgLike(k) =>
            if k == MsgLikeKind::Redacted { TransitionType::MessageRemoved }
            else if k == MsgLikeKind::UnableToDecrypt { TransitionType::UnableToDecrypt }
            else { TransitionType::NoChange },
        TimelineItemContent::Other => TransitionType::NoChange,
    }
}

/// Every event that a summary can describe as a change (any transition but
/// `NoChange`) is a small state event, and so is every profile change: a
/// change of display name reads as "changed their name", one of avatar as
/// "changed their profile picture".
pub proof fn lemma_described_changes_are_small(c: TimelineItemContent)
    ensures
        content_transition(c) != TransitionType::NoChange ==> is_small_content(c),
        c is ProfileChange ==> is_small_content(c),
        c matches TimelineItemContent::ProfileChange { avatar_url_changed, displayname_changed }
            ==> (avatar_url_changed ==> content_transition(c) == TransitionType::ChangedAvatar)
                && (!avatar_url_changed && displayname_changed ==> content_transition(c) == TransitionType::ChangedName),
{
}

/// The display name that a membership event carries; none for other events.
pub open spec fn content_display_name(c: TimelineItemContent) -> Option<String> {
    match c {
        TimelineItemContent::MembershipChange { display_name, .. } => display_name,
        _ => None,
    }
}

/// Checks whether an event is a small state event that can be grouped, and returns
/// its transition type and the display name it carries.
pub fn is_small_state_event(event_tl_item: &EventTimelineItem) -> (r: (bool, TransitionType, Option<String>))
    ensures
        r.0 == is_small_content(event_tl_item.content),
        r.0 ==> r.1 == content_transition(event_tl_item.content),
        !r.0 ==> r.1 == TransitionType::NoChange,
        r.2 == content_display_name(event_tl_item.content),
{
    match &event_tl_item.content {
        TimelineItemContent::MembershipChange { change, display_name, .. } => {
            let t = match change {
                Some(ch) => get_transition_from_membership_change(ch),
                None => TransitionType::NoChange,
            };
            (true, t, copy_opt_string(display_name))
        },
        TimelineItemContent::ProfileChange { avatar_url_changed, displayname_changed } => {
            let t = if *avatar_url_changed {
                TransitionType::ChangedAvatar
            } else if *displayname_changed {
                TransitionType::ChangedName
            } else {
                TransitionType::NoChange
            };
            (true, t, None)
        },
        TimelineItemContent::OtherState { state_key, content } => {
            (true, get_transition_from_other_events(content, state_key.as_str()), None)
        },
        TimelineItemContent::MsgLike(k) => {
            if *k == MsgLikeKind::Poll {
                (true, TransitionType::NoChange, None)
            } else if *k == MsgLikeKind::Redacted {
                (true, TransitionType::MessageRemoved, None)
            } else if *k == MsgLikeKind::UnableToDecrypt {
                (true, TransitionType::UnableToDecrypt, None)
            } else {
                (false, TransitionType::NoChange, None)
            }
        },
        TimelineItemContent::Other => (false, TransitionType::NoChange, None),
    }
}

/// The `m.room.member` membership value of a membership change, if it is one of
/// join, leave, invite or ban.
pub open spec fn membership_value(c: TimelineItemContent) -> Option<Seq<char>> {
    match c {
        TimelineItemContent::MembershipChange { change, .. } => match change {
            Some(MembershipChange::Joined) => Some("join"@),
            Some(MembershipChange::Left) => Some("leave"@),
            Some(MembershipChange::Invited) => Some("invite"@),
            Some(MembershipChange::Banned) => Some("ban"@),
            _ => None,
        },
        _ => None,
    }
}

/// The state key of an event: the affected user of a membership change, the state
/// key of another state event, none otherwise.
pub open spec fn content_state_key(c: TimelineItemContent) -> Option<String> {
    match c {
        TimelineItemContent::MembershipChange { user_id, .. } => Some(user_id),
        TimelineItemContent::OtherState { state_key, .. } => Some(state_key),
        _ => None,
    }
}

/// The view of an optional string.
pub open spec fn opt_view(o: Option<String>) -> Option<Seq<char>> {
    match o {
        Some(s) => Some(s@),
        None => None,
    }
}

/// Whether `ue` is the user event made from `item` at timeline index `index`
/// under the name `user_name`.
pub open spec fn is_conversion(ue: UserEvent, item: EventTimelineItem, user_name: String, index: usize) -> bool {
    &&& ue.index == index
    &&& ue.display_name == user_name
    &&& ue.transition == (if is_small_content(item.content) { content_transition(item.content) } else { TransitionType::NoChange })
    &&& ue.is_redacted == (item.content == TimelineItemContent::MsgLike(MsgLikeKind::Redacted))
    &&& ue.should_show
    &&& ue.sender == item.sender
    &&& ue.state_key == content_state_key(item.content)
    &&& opt_view(ue.membership) == membership_value(item.content)
}

/// Convert a timeline event into the user event that summaries work on.
pub fn convert_to_timeline_event(event_item: EventTimelineItem, user_name: String, index: usize) -> (ue: UserEvent)
    ensures
        is_conversion(ue, event_item, user_name, index),
{
    let (state_key, membership) = match &event_item.content {
        TimelineItemContent::MembershipChange { user_id, change, .. } => {
            let m = match change {
                Some(MembershipChange::Joined) => Some(String::from_str("join")),
                Some(MembershipChange::Left) => Some(String::from_str("leave")),
                Some(MembershipChange::Invited) => Some(String::from_str("invite")),
                Some(MembershipChange::Banned) => Some(String::from_str("ban")),
                _ => None,
            };
            (Some(user_id.clone()), m)
        },
        TimelineItemContent::OtherState { state_key, .. } => (Some(state_key.clone()), None),
        _ => (None, None),
    };
    let (_is_small, transition, _name) = is_small_state_event(&event_item);
    let is_redacted = match &event_item.content {
        TimelineItemContent::MsgLike(k) => *k == MsgLikeKind::Redacted,
        _ => false,
    };
    UserEvent {
        index,
        display_name: user_name,
        transition,
        is_redacted,
        should_show: true,
        sender: event_item.sender.clone(),
        state_key,
        membership,
    }
}


// ---------------------------------------------------------------------------
// Incremental grouping of small state events while the timeline is drawn
// ---------------------------------------------------------------------------

/// The collapsible list that holds the events that created a room.
#[derive(Debug)]
pub struct CreationCollapsibleList {
    pub range: Range<usize>,
    pub opened: bool,
    pub username: String,
}

impl Default for CreationCollapsibleList {
    fn default() -> (r: Self)
        ensures
            r.range.start == 0 && r.range.end == 0,
            !r.opened,
            r.username@ == Seq::<char>::empty(),
    {
        CreationCollapsibleList { range: 0..0, opened: false, username: String::new() }
    }
}

/// The number of indices a range covers.
pub open spec fn range_len(r: Range<usize>) -> int {
    if r.start < r.end { r.end - r.start } else { 0 }
}

/// Whether `x` lies in the range.
pub open spec fn in_range(r: Range<usize>, x: int) -> bool {
    r.start <= x < r.end
}

/// The range `start..end`.
pub open spec fn range(start: usize, end: usize) -> Range<usize> {
    Range { start, end }
}

/// A group of small state events as a value: its range, whether it is open,
/// and the events of its users.
pub type SmallGroupModel = (Range<usize>, bool, Seq<GroupModel>);

pub open spec fn small_group_models(v: Seq<(Range<usize>, bool, UserEventGroups)>) -> Seq<SmallGroupModel> {
    v.map_values(|e: (Range<usize>, bool, UserEventGroups)| (e.0, e.1, e.2@))
}

pub open spec fn all_wf(v: Seq<(Range<usize>, bool, UserEventGroups)>) -> bool {
    forall|k: int| 0 <= k < v.len() ==> (#[trigger] v[k]).2.wf()
}

/// Whether some group covers `item`.
pub open spec fn is_covered(gs: Seq<SmallGroupModel>, item: usize) -> bool {
    exists|k: int| 0 <= k < gs.len() && in_range((#[trigger] gs[k]).0, item as int)
}

/// Whether group `r` takes the item: it starts at it, covers it, or starts right
/// after it while no group covers it.
pub open spec fn takes_item(r: Range<usize>, item: usize, covered: bool) -> bool {
    r.start == item || in_range(r, item as int) || (r.start == item + 1 && !covered)
}

pub open spec fn is_first_taker(gs: Seq<SmallGroupModel>, item: usize, k: int) -> bool {
    &&& 0 <= k < gs.len()
    &&& takes_item(gs[k].0, item, is_covered(gs, item))
    &&& forall|j: int| 0 <= j < k ==> !takes_item((#[trigger] gs[j]).0, item, is_covered(gs, item))
}

/// How an item that is not part of the room creation joins the groups: the first
/// group that takes it gets its event (a group starting right after it is extended
/// back to it); otherwise, if the next item is small too, a new group of two starts.
/// Returns the new groups and (show item, show fold button, expanded, range to redraw).
pub open spec fn place_in_groups(gs: Seq<SmallGroupModel>, item: usize, ev: UserEvent, next_small: bool)
    -> (Seq<SmallGroupModel>, (bool, bool, bool, Range<usize>))
{
    if exists|k: int| is_first_taker(gs, item, k) {
        let k = choose|k: int| is_first_taker(gs, item, k);
        let r = gs[k].0;
        let open = gs[k].1;
        let m = place_event(gs[k].2, ev);
        if r.start == item {
            (gs.update(k, (r, open, m)), (true, range_len(r) > 2, open, range(0, 0)))
        } else if in_range(r, item as int) {
            (gs.update(k, (r, open, m)), (open || range_len(r) <= 2, false, open, range(0, 0)))
        } else {
            let nr = range(item, r.end);
            (gs.update(k, (nr, open, m)), (open || range_len(nr) <= 2, false, false, nr))
        }
    } else if next_small {
        (gs.push((range(item, (item + 2) as usize), false, place_event(seq![], ev))),
            (false, false, false, range(item, (item + 2) as usize)))
    } else {
        (gs, (false, false, false, range(0, 0)))
    }
}

fn place_in_small_groups(
    groups: &mut Vec<(Range<usize>, bool, UserEventGroups)>,
    item_id: usize,
    user_event: UserEvent,
    next_small: bool,
) -> (r: (bool, bool, bool, Range<usize>))
    requires
        item_id + 2 <= usize::MAX,
        all_wf(old(groups)@),
    ensures
        all_wf(final(groups)@),
        (small_group_models(final(groups)@), r) == place_in_groups(small_group_models(old(groups)@), item_id, user_event, next_small),
{
    let ghost gs = small_group_models(groups@);
    let mut covered = false;
    let mut c: usize = 0;
    while c < groups.len()
        invariant
            c <= groups@.len(),
            gs == small_group_models(groups@),
            covered == exists|k: int| 0 <= k < c && in_range((#[trigger] gs[k]).0, item_id as int),
        decreases groups@.len() - c,
    {
        assert(gs[c as int].0 == groups@[c as int].0);
        if groups[c].0.start <= item_id && item_id < groups[c].0.end {
            covered = true;
        }
        c = c + 1;
    }
    assert(covered == is_covered(gs, item_id));
    let mut k: usize = 0;
    while k < groups.len()
        invariant
            k <= groups@.len(),
            gs == small_group_models(groups@),
            groups@ == old(groups)@,
            all_wf(groups@),
            item_id + 2 <= usize::MAX,
            covered == is_covered(gs, item_id),
            forall|j: int| 0 <= j < k ==> !takes_item((#[trigger] gs[j]).0, item_id, covered),
        decreases groups@.len() - k,
    {
        let start = groups[k].0.start;
        let end = groups[k].0.end;
        assert(gs[k as int].0 == groups@[k as int].0);
        if start == item_id || (start <= item_id && item_id < end) || (start == item_id + 1 && !covered) {
            proof {
                assert(is_first_taker(gs, item_id, k as int));
                let k2 = choose|k2: int| is_first_taker(gs, item_id, k2);
                assert(k2 == k as int) by {
                    if k2 < k as int {
                        assert(!takes_item(gs[k2].0, item_id, covered));
                    } else if k2 > k as int {
                        assert(takes_item(gs[k as int].0, item_id, covered));
                    }
                }
            }
            let (rg, is_open, mut map) = groups.remove(k);
            assert(map.wf());
            append_user_event_to_map(user_event, &mut map);
            let ghost m = map@;
            if start == item_id {
                let len = if start < end { end - start } else { 0 };
                groups.insert(k, (rg, is_open, map));
                assert(small_group_models(groups@) =~= gs.update(k as int, (gs[k as int].0, is_open, m)));
                assert forall|j: int| 0 <= j < groups@.len() implies (#[trigger] groups@[j]).2.wf() by {
                    if j != k as int { assert(groups@[j] == old(groups)@[j]); }
                }
                return (true, len > 2, is_open, 0..0);
            } else if start <= item_id && item_id < end {
                let len = end - start;
                groups.insert(k, (rg, is_open, map));
                assert(small_group_models(groups@) =~= gs.update(k as int, (gs[k as int].0, is_open, m)));
                assert forall|j: int| 0 <= j < groups@.len() implies (#[trigger] groups@[j]).2.wf() by {
                    if j != k as int { assert(groups@[j] == old(groups)@[j]); }
                }
                return (is_open || len <= 2, false, is_open, 0..0);
            } else {
                let len = if item_id < end { end - item_id } else { 0 };
                groups.insert(k, (item_id..end, is_open, map));
                assert(small_group_models(groups@) =~= gs.update(k as int, (range(item_id, end), is_open, m)));
                assert forall|j: int| 0 <= j < groups@.len() implies (#[trigger] groups@[j]).2.wf() by {
                    if j != k as int { assert(groups@[j] == old(groups)@[j]); }
                }
                return (is_open || len <= 2, false, false, item_id..end);
            }
        }
        k = k + 1;
    }
    assert(!exists|k: int| is_first_taker(gs, item_id, k));
    if next_small {
        let mut map = UserEventGroups::new();
        append_user_event_to_map(user_event, &mut map);
        let ghost m = map@;
        groups.push((item_id..(item_id + 2), false, map));
        assert(small_group_models(groups@) =~= gs.push((range(item_id, (item_id + 2) as usize), false, m)));
        assert(m == place_event(seq![], user_event));
        assert forall|j: int| 0 <= j < groups@.len() implies (#[trigger] groups@[j]).2.wf() by {
            if j < old(groups)@.len() { assert(groups@[j] == old(groups)@[j]); }
        }
        return (false, false, false, item_id..(item_id + 2));
    }
    (false, false, false, 0..0)
}


/// The name an event is shown under: the display name it carries, else `username`.
pub open spec fn name_for_event(c: TimelineItemContent, username: String) -> String {
    match content_display_name(c) {
        Some(n) => n,
        None => username,
    }
}

/// The value of an optional item reference.
pub open spec fn opt_item(o: Option<&TimelineItem>) -> Option<TimelineItem> {
    match o {
        Some(t) => Some(*t),
        None => None,
    }
}

/// Whether the event is the original (unredacted) creation event of the room.
pub open spec fn is_room_creation(e: EventTimelineItem) -> bool {
    e.content matches TimelineItemContent::OtherState { content: OtherStateKind::RoomCreate { original: true }, .. }
}

/// Dynamically updates small state groups as timeline items are processed, from the
/// highest item index downwards.
///
/// Returns whether to draw the item, whether to show the fold button on it,
/// whether its list is expanded, and the range of items to redraw.
pub fn update_small_state_groups_for_item(
    item_id: usize,
    username: String,
    current_item: &EventTimelineItem,
    previous_item: Option<&TimelineItem>,
    next_item: Option<&TimelineItem>,
    room_creation: &mut Option<(String, String)>,
    small_state_groups: &mut Vec<(Range<usize>, bool, UserEventGroups)>,
    creation_collapsible_list: &mut CreationCollapsibleList,
) -> (r: (bool, bool, bool, Range<usize>))
    requires
        item_id + 2 <= usize::MAX,
        all_wf(old(small_state_groups)@),
    ensures
        all_wf(final(small_state_groups)@),
        ({
            let ccl = *old(creation_collapsible_list);
            let fccl = *final(creation_collapsible_list);
            let gs = small_group_models(old(small_state_groups)@);
            let fgs = small_group_models(final(small_state_groups)@);
            let unchanged = *final(room_creation) == *old(room_creation) && fgs == gs && fccl == ccl;
            let content = current_item.content;
            if !is_small_content(content)
                || (!is_small_item(opt_item(previous_item)) && !is_small_item(opt_item(next_item))) {
                unchanged && r == (true, false, false, range(0, 0))
            } else if old(room_creation).is_none() && is_room_creation(*current_item) && current_item.event_id.is_some() {
                &&& *final(room_creation) == Some((current_item.sender, current_item.event_id.unwrap()))
                &&& fgs == gs
                &&& fccl.range == range(item_id, if ccl.range.end <= item_id { (item_id + 1) as usize } else { ccl.range.end })
                &&& fccl.opened == ccl.opened && fccl.username == ccl.username
                &&& r == (true, true, ccl.opened, range(item_id, (item_id + 1) as usize))
            } else {
                let name = name_for_event(content, username);
                let t = content_transition(content);
                &&& *final(room_creation) == *old(room_creation)
                &&& fccl.opened == ccl.opened && fccl.username == username
                &&& if item_id == ccl.range.start && range_len(ccl.range) > 0 {
                    fgs == gs && fccl.range == ccl.range && r == (true, true, ccl.opened, ccl.range)
                } else if (t == TransitionType::ConfigureRoom || t == TransitionType::Joined) && range_len(ccl.range) == 0 {
                    fgs == gs && fccl.range == ccl.range && r == (true, false, true, range(0, 0))
                } else if (t == TransitionType::ConfigureRoom || t == TransitionType::Joined) && ccl.range.end == item_id {
                    fgs == gs && fccl.range == range(ccl.range.start, (item_id + 1) as usize)
                        && r == (ccl.opened, false, ccl.opened, range(item_id, (item_id + 2) as usize))
                } else if (t == TransitionType::ConfigureRoom || t == TransitionType::Joined) && in_range(ccl.range, item_id as int) {
                    fgs == gs && fccl.range == ccl.range && r == (ccl.opened, false, ccl.opened, range(0, 0))
                } else {
                    &&& fccl.range == ccl.range
                    &&& exists|ue: UserEvent| is_conversion(ue, *current_item, name, item_id)
                        && (fgs, r) == place_in_groups(gs, item_id, ue, is_small_item(opt_item(next_item)))
                }
            }
        }),
{
    let (current_item_is_small_state, _transition, display_name) = is_small_state_event(current_item);
    if !current_item_is_small_state {
        return (true, false, false, 0..0);
    }
    let next_item_is_small_state = is_small_state(next_item);
    let previous_item_is_small_state = is_small_state(previous_item);
    if !previous_item_is_small_state && !next_item_is_small_state {
        return (true, false, false, 0..0);
    }
    if room_creation.is_none() {
        if let TimelineItemContent::OtherState { content: OtherStateKind::RoomCreate { original: true }, .. } = &current_item.content {
            if let Some(event_id) = &current_item.event_id {
                *room_creation = Some((current_item.sender.clone(), event_id.clone()));
                creation_collapsible_list.range.start = item_id;
                if creation_collapsible_list.range.end <= item_id {
                    creation_collapsible_list.range.end = item_id + 1;
                }
                return (true, true, creation_collapsible_list.opened, item_id..item_id + 1);
            }
        }
    }
    creation_collapsible_list.username = username.clone();
    let name = match display_name {
        Some(n) => n,
        None => username,
    };
    let ghost the_name = name;
    assert(the_name == name_for_event(current_item.content, username));
    let user_event = convert_to_timeline_event(current_item.duplicate(), name, item_id);
    let ghost ue = user_event;
    assert(user_event.transition == content_transition(current_item.content));
    let start = creation_collapsible_list.range.start;
    let end = creation_collapsible_list.range.end;
    let opened = creation_collapsible_list.opened;
    let len = if start < end { end - start } else { 0 };
    if item_id == start && len > 0 {
        return (true, true, opened, start..end);
    }
    if user_event.transition == TransitionType::ConfigureRoom || user_event.transition == TransitionType::Joined {
        if len == 0 {
            return (true, false, true, 0..0);
        }
        if end == item_id {
            creation_collapsible_list.range.end = item_id + 1;
            return (opened, false, opened, item_id..item_id + 2);
        }
        if start <= item_id && item_id < end {
            return (opened, false, opened, 0..0);
        }
    }
    let r = place_in_small_groups(small_state_groups, item_id, user_event, next_item_is_small_state);
    assert(is_conversion(ue, *current_item, the_name, item_id));
    assert(exists|u: UserEvent| is_conversion(u, *current_item, the_name, item_id)
        && (small_group_models(small_state_groups@), r) == place_in_groups(
            small_group_models(old(small_state_groups)@), item_id, u, is_small_item(opt_item(next_item))));
    r
}

} // verus!
