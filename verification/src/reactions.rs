//! Reactions under a message: the label of each reaction, the list of who
//! reacted, and the reaction that a click on a label toggles.

use vstd::prelude::*;
use crate::text::{join, chars_of, string_of_prefix, string_of_range, decimal, push_decimal, views};

verus! {

/// The first GitHub shortcode of the emoji that the text is, in `emojis`'s
/// table, if the text is an emoji that has one.
pub uninterp spec fn emoji_shortcode_of(s: Seq<char>) -> Option<Seq<char>>;

/// The emoji whose GitHub shortcode is the text, in `emojis`'s table, if any.
pub uninterp spec fn emoji_for_shortcode(s: Seq<char>) -> Option<Seq<char>>;

/// `emojis::get` followed by `Emoji::shortcode`: the first shortcode of the
/// emoji that `s` is, if any.
#[verifier::external_body]
fn emoji_shortcode(s: &str) -> (r: Option<String>)
    ensures
        match r {
            Some(c) => emoji_shortcode_of(s@) == Some(c@),
            None => emoji_shortcode_of(s@) is None,
        },
{
    emojis::get(s).and_then(|e| e.shortcode()).map(|c| c.to_string())
}

/// `emojis::get_by_shortcode` followed by `Emoji::as_str`: the emoji whose
/// shortcode is `s`, if any.
#[verifier::external_body]
fn emoji_by_shortcode(s: &str) -> (r: Option<String>)
    ensures
        match r {
            Some(e) => emoji_for_shortcode(s@) == Some(e@),
            None => emoji_for_shortcode(s@) is None,
        },
{
    emojis::get_by_shortcode(s).map(|e| e.as_str().to_string())
}

/// Names joined for reading: "Alice", "Alice and Bob", "Alice, Bob and Charlie".
pub open spec fn human_list(names: Seq<Seq<char>>) -> Seq<char> {
    if names.len() == 0 {
        Seq::empty()
    } else if names.len() == 1 {
        names[0]
    } else {
        join(names.drop_last(), ", "@) + " and "@ + names.last()
    }
}

pub open spec fn str_views(v: Seq<&str>) -> Seq<Seq<char>> {
    v.map_values(|s: &str| s@)
}

/// Converts a list of names into a human-readable string.
pub fn human_readable_list(names: Vec<&str>) -> (r: String)
    ensures
        r@ == human_list(str_views(names@)),
{
    let n = names.len();
    if n == 0 {
        return String::new();
    }
    if n == 1 {
        return String::from_str(names[0]);
    }
    let mut r = String::new();
    let mut i: usize = 0;
    while i < n - 1
        invariant
            n == names@.len(),
            n >= 2,
            i <= n - 1,
            r@ == join(str_views(names@).take(i as int), ", "@),
        decreases n - 1 - i,
    {
        let ghost before = str_views(names@).take(i as int);
        if i > 0 {
            r.append(", ");
        }
        r.append(names[i]);
        let ghost after = str_views(names@).take(i + 1);
        assert(after.drop_last() =~= before);
        if i == 0 {
            assert(r@ =~= after[0]);
        }
        i = i + 1;
    }
    assert(str_views(names@).take((n - 1) as int) =~= str_views(names@).drop_last());
    r.append(" and ");
    r.append(names[n - 1]);
    r
}

/// The label of a reaction: the shortcode of its first character's emoji
/// (which leaves out variant selectors), else the reaction as it is.
pub open spec fn reaction_label(raw: Seq<char>) -> Seq<char> {
    let key = if raw.len() > 0 { seq![raw[0]] } else { raw };
    match emoji_shortcode_of(key) {
        Some(c) => c,
        None => raw,
    }
}

/// A reaction as the list shows it: its label, how many reacted, and who.
pub fn reaction_entry(reaction_raw: &str, senders: Vec<&str>) -> (r: (String, usize, String))
    ensures
        r.0@ == reaction_label(reaction_raw@),
        r.1 == senders@.len(),
        r.2@ == human_list(str_views(senders@)),
{
    let chars = chars_of(reaction_raw);
    let key = if chars.len() > 0 {
        let k = string_of_prefix(chars.as_slice(), 1);
        assert(chars@.take(1) =~= seq![chars@[0]]);
        k
    } else {
        String::from_str(reaction_raw)
    };
    let label = match emoji_shortcode(key.as_str()) {
        Some(c) => c,
        None => String::from_str(reaction_raw),
    };
    let count = senders.len();
    (label, count, human_readable_list(senders))
}

/// The text of a reaction button up to its last space (the count follows
/// it); empty when it has no space.
pub open spec fn before_last_space(s: Seq<char>) -> Seq<char>
    decreases s.len(),
{
    if s.len() == 0 {
        Seq::empty()
    } else if s.last() == ' ' {
        s.drop_last()
    } else {
        before_last_space(s.drop_last())
    }
}

/// The reaction that a click on a button labelled `text` ("<shortcode>
/// <count>") toggles: the emoji of the shortcode, if there is one.
pub fn reaction_key_for_button(text: &str) -> (r: Option<String>)
    ensures
        match r {
            Some(k) => emoji_for_shortcode(before_last_space(text@)) == Some(k@),
            None => emoji_for_shortcode(before_last_space(text@)) is None,
        },
{
    let chars = chars_of(text);
    let mut j = chars.len();
    let mut found = false;
    assert(chars@.take(j as int) =~= chars@);
    while j > 0 && !found
        invariant
            j <= chars@.len(),
            chars@ == text@,
            !found ==> before_last_space(text@) == before_last_space(chars@.take(j as int)),
            found ==> before_last_space(text@) == chars@.take(j as int),
        decreases j + (if found { 0int } else { 1int }),
    {
        assert(chars@.take(j as int).last() == chars@[j - 1]);
        assert(chars@.take(j as int).drop_last() =~= chars@.take(j - 1));
        if chars[j - 1] == ' ' {
            found = true;
        }
        j = j - 1;
    }
    if !found {
        assert(chars@.take(0) =~= Seq::<char>::empty());
    }
    assert(before_last_space(text@) =~= chars@.take(j as int));
    let prefix = string_of_prefix(chars.as_slice(), j);
    emoji_by_shortcode(prefix.as_str())
}

// ---------------------------------------------------------------------------
// The reaction buttons under a message
// ---------------------------------------------------------------------------

/// A reaction button: the reaction, whether the user is among its senders,
/// and its text (the reaction, two spaces, the count).
#[derive(Debug, PartialEq, Eq)]
pub struct ReactionButton {
    pub reaction: String,
    pub includes_user: bool,
    pub text: String,
}

/// Whether `own` is among `senders`.
pub open spec fn has_sender(senders: Seq<Seq<char>>, own: Seq<char>) -> bool {
    senders.contains(own)
}

/// The buttons for the reactions of an event, in order: each reaction with
/// its senders.
pub fn reaction_buttons(reactions: &Vec<(String, Vec<String>)>, own_user_id: &str) -> (r: Vec<ReactionButton>)
    ensures
        r@.len() == reactions@.len(),
        forall|i: int| 0 <= i < r@.len() ==> {
            &&& (#[trigger] r@[i]).reaction@ == reactions@[i].0@
            &&& r@[i].includes_user == has_sender(views(reactions@[i].1@), own_user_id@)
            &&& r@[i].text@ == reactions@[i].0@ + "  "@ + decimal(reactions@[i].1@.len())
        },
{
    let own = String::from_str(own_user_id);
    let mut out: Vec<ReactionButton> = Vec::new();
    let mut i: usize = 0;
    while i < reactions.len()
        invariant
            i <= reactions@.len(),
            own@ == own_user_id@,
            out@.len() == i,
            forall|k: int| 0 <= k < i ==> {
                &&& (#[trigger] out@[k]).reaction@ == reactions@[k].0@
                &&& out@[k].includes_user == has_sender(views(reactions@[k].1@), own_user_id@)
                &&& out@[k].text@ == reactions@[k].0@ + "  "@ + decimal(reactions@[k].1@.len())
            },
        decreases reactions@.len() - i,
    {
        let senders = &reactions[i].1;
        let mut includes_user = false;
        let mut j: usize = 0;
        while j < senders.len()
            invariant
                j <= senders@.len(),
                own@ == own_user_id@,
                includes_user == views(senders@).take(j as int).contains(own_user_id@),
            decreases senders@.len() - j,
        {
            let ghost t0 = views(senders@).take(j as int);
            let ghost t1 = views(senders@).take(j + 1);
            assert(t1 =~= t0.push(senders@[j as int]@));
            if senders[j] == own {
                includes_user = true;
                assert(t1[j as int] == own_user_id@);
            }
            assert(t1.contains(own_user_id@) == (t0.contains(own_user_id@) || senders@[j as int]@ == own_user_id@)) by {
                if t1.contains(own_user_id@) {
                    let w = choose|w: int| 0 <= w < t1.len() && #[trigger] t1[w] == own_user_id@;
                    if w < j { assert(t0[w] == own_user_id@); }
                }
                if t0.contains(own_user_id@) {
                    let w = choose|w: int| 0 <= w < t0.len() && #[trigger] t0[w] == own_user_id@;
                    assert(t1[w] == own_user_id@);
                }
            }
            j = j + 1;
        }
        assert(views(senders@).take(j as int) =~= views(senders@));
        let mut text = reactions[i].0.clone();
        text.append("  ");
        push_decimal(&mut text, senders.len());
        out.push(ReactionButton { reaction: reactions[i].0.clone(), includes_user, text });
        i = i + 1;
    }
    out
}

/// A pointer event on a reaction button.
#[derive(Clone, Copy, Debug, PartialEq, Eq, Structural)]
pub enum ReactionHit {
    FingerDown,
    HoverIn,
    HoverOut,
    LongPress,
    /// The finger lifted: whether over the button, and whether as a primary tap.
    FingerUp { is_over: bool, primary_tap: bool },
    Scroll,
    Other,
}

/// What a pointer event on a reaction button does.
#[derive(Clone, Copy, Debug, PartialEq, Eq, Structural)]
pub enum ReactionHitEffect {
    /// Nothing.
    Ignore,
    /// The button takes the key focus.
    Focus,
    /// The tooltip with the senders is shown.
    ShowTooltip,
    /// The tooltip is hidden.
    HideTooltip,
    /// The reaction is toggled; the button is drawn highlighted (or not) at
    /// once, and the tooltip is hidden.
    Toggle { highlighted: bool },
}

/// What a pointer event does on the button of a reaction that includes the
/// user or not; `target_known` tells whether the list knows its room and event.
pub fn reaction_hit_effect(hit: ReactionHit, includes_user: bool, target_known: bool) -> (e: ReactionHitEffect)
    ensures
        e == match hit {
            ReactionHit::FingerDown => ReactionHitEffect::Focus,
            ReactionHit::HoverIn | ReactionHit::LongPress => ReactionHitEffect::ShowTooltip,
            ReactionHit::HoverOut | ReactionHit::Scroll => ReactionHitEffect::HideTooltip,
            ReactionHit::FingerUp { is_over, primary_tap } => if !is_over {
                ReactionHitEffect::HideTooltip
            } else if primary_tap && target_known {
                ReactionHitEffect::Toggle { highlighted: !includes_user }
            } else {
                ReactionHitEffect::Ignore
            },
            ReactionHit::Other => ReactionHitEffect::Ignore,
        },
{
    match hit {
        ReactionHit::FingerDown => ReactionHitEffect::Focus,
        ReactionHit::HoverIn | ReactionHit::LongPress => ReactionHitEffect::ShowTooltip,
        ReactionHit::HoverOut | ReactionHit::Scroll => ReactionHitEffect::HideTooltip,
        ReactionHit::FingerUp { is_over, primary_tap } => if !is_over {
            ReactionHitEffect::HideTooltip
        } else if primary_tap && target_known {
            ReactionHitEffect::Toggle { highlighted: !includes_user }
        } else {
            ReactionHitEffect::Ignore
        },
        ReactionHit::Other => ReactionHitEffect::Ignore,
    }
}

} // verus!
