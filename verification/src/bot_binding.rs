//! Binding bots to a room: the list of known bots, the labels of the
//! dropdowns, the user ID typed for a bot, and what each button does.

use vstd::prelude::*;
use crate::text::{views, trimmed, trim_str, chars_of, lex_lt, str_lt, lemma_lex_irreflexive, lemma_lex_total,
    lemma_lex_transitive};
use crate::ids::{parse_user_id, ruma_accepts_user_id};

verus! {

/// A bot bound to the room, with the remark the user keeps about it.
#[derive(Debug)]
pub struct RoomBotBinding {
    pub bot_user_id: String,
    pub remark: String,
}

// ---------------------------------------------------------------------------
// The list of known bots: sorted, each once
// ---------------------------------------------------------------------------

/// The position at which `x` goes into the sorted list `t`: after every
/// entry that comes before it.
pub open spec fn sorted_position(t: Seq<Seq<char>>, x: Seq<char>) -> int
    decreases t.len(),
{
    if t.len() == 0 {
        0
    } else if lex_lt(t.last(), x) {
        t.len() as int
    } else {
        sorted_position(t.drop_last(), x)
    }
}

/// `t` with `x` added in order, unless it is already there.
pub open spec fn insert_unique(t: Seq<Seq<char>>, x: Seq<char>) -> Seq<Seq<char>> {
    if t.contains(x) { t } else { t.insert(sorted_position(t, x), x) }
}

/// The entries of `s`, sorted in code-point order, each once.
pub open spec fn sorted_unique(s: Seq<Seq<char>>) -> Seq<Seq<char>>
    decreases s.len(),
{
    if s.len() == 0 { Seq::empty() } else { insert_unique(sorted_unique(s.drop_last()), s.last()) }
}

/// Whether the list is strictly ascending in code-point order.
pub open spec fn strictly_ascending(t: Seq<Seq<char>>) -> bool {
    forall|i: int, j: int| 0 <= i < j < t.len() ==> lex_lt(#[trigger] t[i], #[trigger] t[j])
}

proof fn lemma_sorted_position(t: Seq<Seq<char>>, x: Seq<char>)
    requires
        strictly_ascending(t),
        !t.contains(x),
    ensures
        0 <= sorted_position(t, x) <= t.len(),
        forall|i: int| 0 <= i < sorted_position(t, x) ==> lex_lt(#[trigger] t[i], x),
        forall|i: int| sorted_position(t, x) <= i < t.len() ==> lex_lt(x, #[trigger] t[i]),
    decreases t.len(),
{
    if t.len() > 0 {
        let d = t.drop_last();
        assert(strictly_ascending(d)) by {
            assert forall|i: int, j: int| 0 <= i < j < d.len() implies lex_lt(#[trigger] d[i], #[trigger] d[j]) by {
                assert(d[i] == t[i] && d[j] == t[j]);
            }
        }
        assert(!d.contains(x)) by {
            if d.contains(x) {
                let k = choose|k: int| 0 <= k < d.len() && d[k] == x;
                assert(t[k] == x);
            }
        }
        if lex_lt(t.last(), x) {
            assert forall|i: int| 0 <= i < t.len() implies lex_lt(#[trigger] t[i], x) by {
                if i < t.len() - 1 {
                    assert(lex_lt(t[i], t[t.len() - 1]));
                    lemma_lex_transitive(t[i], t.last(), x);
                }
            }
        } else {
            lemma_sorted_position(d, x);
            assert(t.last() != x) by {
                assert(t[t.len() - 1] == t.last());
            }
            lemma_lex_total(t.last(), x);
            assert forall|i: int| 0 <= i < sorted_position(t, x) implies lex_lt(#[trigger] t[i], x) by {
                assert(d[i] == t[i]);
            }
            assert forall|i: int| sorted_position(t, x) <= i < t.len() implies lex_lt(x, #[trigger] t[i]) by {
                if i < t.len() - 1 {
                    assert(d[i] == t[i]);
                }
            }
        }
    }
}

/// Adding an entry keeps the list strictly ascending, and the list then holds
/// exactly the entries it held, and the new one.
pub proof fn lemma_insert_unique(t: Seq<Seq<char>>, x: Seq<char>)
    requires
        strictly_ascending(t),
    ensures
        strictly_ascending(insert_unique(t, x)),
        forall|y: Seq<char>| insert_unique(t, x).contains(y) <==> (t.contains(y) || y == x),
{
    if !t.contains(x) {
        lemma_sorted_position(t, x);
        let p = sorted_position(t, x);
        let u = t.insert(p, x);
        assert forall|i: int, j: int| 0 <= i < j < u.len() implies lex_lt(#[trigger] u[i], #[trigger] u[j]) by {
            if j < p {
                assert(u[i] == t[i] && u[j] == t[j]);
            } else if j == p {
                assert(u[i] == t[i]);
            } else if i < p {
                assert(u[i] == t[i] && u[j] == t[j - 1]);
                lemma_lex_transitive(t[i], x, t[j - 1]);
            } else if i == p {
                assert(u[j] == t[j - 1]);
            } else {
                assert(u[i] == t[i - 1] && u[j] == t[j - 1]);
            }
        }
        assert forall|y: Seq<char>| u.contains(y) <==> (t.contains(y) || y == x) by {
            if u.contains(y) {
                let k = choose|k: int| 0 <= k < u.len() && u[k] == y;
                if k < p { assert(t[k] == y); } else if k > p { assert(t[k - 1] == y); }
            }
            if t.contains(y) {
                let k = choose|k: int| 0 <= k < t.len() && t[k] == y;
                if k < p { assert(u[k] == y); } else { assert(u[k + 1] == y); }
            }
            if y == x {
                assert(u[p] == y);
            }
        }
    }
}

/// The list of known bots is strictly ascending (so sorted and free of
/// duplicates) and holds exactly the given entries.
pub proof fn lemma_sorted_unique(s: Seq<Seq<char>>)
    ensures
        strictly_ascending(sorted_unique(s)),
        forall|y: Seq<char>| sorted_unique(s).contains(y) <==> s.contains(y),
    decreases s.len(),
{
    if s.len() > 0 {
        lemma_sorted_unique(s.drop_last());
        lemma_insert_unique(sorted_unique(s.drop_last()), s.last());
        assert forall|y: Seq<char>| sorted_unique(s).contains(y) <==> s.contains(y) by {
            if s.drop_last().contains(y) {
                let k = choose|k: int| 0 <= k < s.drop_last().len() && s.drop_last()[k] == y;
                assert(s[k] == y);
            }
            if s.contains(y) && y != s.last() {
                let k = choose|k: int| 0 <= k < s.len() && s[k] == y;
                assert(k < s.len() - 1);
                assert(s.drop_last()[k] == y);
            }
        }
    }
}

fn insert_unique_exec(t: &mut Vec<String>, x: String)
    requires
        strictly_ascending(views(old(t)@)),
    ensures
        views(final(t)@) == insert_unique(views(old(t)@), x@),
{
    let ghost tv = views(t@);
    let mut k: usize = 0;
    let mut found = false;
    while k < t.len() && !found
        invariant
            k <= t@.len(),
            tv == views(t@),
            found ==> k < t@.len() && t@[k as int]@ == x@,
            forall|j: int| 0 <= j < k ==> (#[trigger] t@[j])@ != x@,
        decreases t@.len() - k + (if found { 0int } else { 1int }),
    {
        if t[k] == x {
            found = true;
        } else {
            k = k + 1;
        }
    }
    if found {
        assert(tv[k as int] == x@);
        assert(tv.contains(x@));
        return;
    }
    assert(!tv.contains(x@)) by {
        if tv.contains(x@) {
            let j = choose|j: int| 0 <= j < tv.len() && tv[j] == x@;
            assert(t@[j]@ == x@);
        }
    }
    // Walk back from the end past every entry that does not come before `x`.
    let mut p = t.len();
    assert(tv.take(p as int) =~= tv);
    while p > 0 && !str_lt(&t[p - 1], &x)
        invariant
            p <= t@.len(),
            tv == views(t@),
            sorted_position(tv, x@) == sorted_position(tv.take(p as int), x@),
        decreases p,
    {
        assert(tv.take(p as int).last() == t@[p - 1]@);
        assert(tv.take(p as int).drop_last() =~= tv.take(p - 1));
        p = p - 1;
    }
    if p > 0 {
        assert(tv.take(p as int).last() == t@[p - 1]@);
    }
    let ghost xv = x@;
    t.insert(p, x);
    assert(views(t@) =~= tv.insert(p as int, xv));
}

/// The known bots, sorted in code-point order, each once: the given known
/// bots and every bot bound to any room.
pub fn merge_known_bots(known: &[String], all_bound: &[String]) -> (r: Vec<String>)
    ensures
        views(r@) == sorted_unique(views(known@) + views(all_bound@)),
{
    let ghost all = views(known@) + views(all_bound@);
    let mut r: Vec<String> = Vec::new();
    let mut i: usize = 0;
    assert(views(r@) =~= Seq::empty());
    assert(all.take(0) =~= Seq::empty());
    while i < known.len()
        invariant
            i <= known@.len(),
            all == views(known@) + views(all_bound@),
            views(r@) == sorted_unique(all.take(i as int)),
        decreases known@.len() - i,
    {
        proof { lemma_sorted_unique(all.take(i as int)); }
        let x = known[i].clone();
        assert(x@ == all[i as int]);
        insert_unique_exec(&mut r, x);
        assert(all.take(i + 1).drop_last() =~= all.take(i as int));
        i = i + 1;
    }
    let mut j: usize = 0;
    while j < all_bound.len()
        invariant
            j <= all_bound@.len(),
            all == views(known@) + views(all_bound@),
            views(r@) == sorted_unique(all.take(known@.len() + j)),
        decreases all_bound@.len() - j,
    {
        proof { lemma_sorted_unique(all.take(known@.len() + j)); }
        let x = all_bound[j].clone();
        assert(x@ == all[known@.len() + j]);
        insert_unique_exec(&mut r, x);
        assert(all.take(known@.len() + j + 1).drop_last() =~= all.take(known@.len() + j));
        j = j + 1;
    }
    let ghost i = known@.len() + j;
    assert(all.take(i as int) =~= all);
    r
}

// ---------------------------------------------------------------------------
// The modal
// ---------------------------------------------------------------------------

/// The form's values: positions in the two dropdowns, the user ID and the remark.
pub struct BotBindingForm {
    pub current_room_bots_index: usize,
    pub known_bots_index: usize,
    pub user_id: String,
    pub remark: String,
}

/// The bot-binding modal of a room.
pub struct BotBindingModal {
    pub room_id: Option<String>,
    /// Sorted, each once.
    pub known_bot_user_ids: Vec<String>,
    pub room_bound_bots: Vec<RoomBotBinding>,
}

pub open spec fn binding_ids(b: Seq<RoomBotBinding>) -> Seq<Seq<char>> {
    b.map_values(|x: RoomBotBinding| x.bot_user_id@)
}

/// The position of the first entry equal to `x`, if any.
pub open spec fn first_position(t: Seq<Seq<char>>, x: Seq<char>) -> Option<int>
    decreases t.len(),
{
    if t.len() == 0 {
        None
    } else {
        match first_position(t.drop_last(), x) {
            Some(k) => Some(k),
            None => if t.last() == x { Some(t.len() - 1) } else { None },
        }
    }
}

proof fn lemma_first_position(t: Seq<Seq<char>>, x: Seq<char>)
    ensures
        first_position(t, x) matches Some(k) ==> 0 <= k < t.len() && t[k] == x
            && forall|j: int| 0 <= j < k ==> t[j] != x,
        first_position(t, x) is None ==> !t.contains(x),
    decreases t.len(),
{
    if t.len() > 0 {
        lemma_first_position(t.drop_last(), x);
        assert forall|j: int| 0 <= j < t.len() - 1 implies t.drop_last()[j] == t[j] by {}
        if first_position(t, x) is None {
            assert(!t.contains(x)) by {
                if t.contains(x) {
                    let j = choose|j: int| 0 <= j < t.len() && t[j] == x;
                    if j < t.len() - 1 {
                        assert(t.drop_last()[j] == x);
                    }
                }
            }
        }
    }
}

fn position_of(t: &[String], x: &str) -> (r: Option<usize>)
    ensures
        match r {
            Some(k) => first_position(views(t@), x@) == Some(k as int) && k < t@.len() && k < usize::MAX,
            None => first_position(views(t@), x@) is None,
        },
{
    let target = String::from_str(x);
    let mut i: usize = 0;
    while i < t.len()
        invariant
            i <= t@.len(),
            target@ == x@,
            first_position(views(t@).take(i as int), x@) is None,
        decreases t@.len() - i,
    {
        assert(views(t@).take(i + 1).drop_last() =~= views(t@).take(i as int));
        if t[i] == target {
            proof { lemma_first_position_prefix(views(t@), x@, i + 1); }
            return Some(i);
        }
        i = i + 1;
    }
    assert(views(t@).take(i as int) =~= views(t@));
    None
}

proof fn lemma_first_position_prefix(t: Seq<Seq<char>>, x: Seq<char>, n: int)
    requires
        0 < n <= t.len(),
        first_position(t.take(n - 1), x) is None,
        t[n - 1] == x,
    ensures
        first_position(t, x) == Some(n - 1),
    decreases t.len(),
{
    assert(t.take(n).drop_last() =~= t.take(n - 1));
    if n < t.len() {
        assert(t.drop_last().take(n - 1) =~= t.take(n - 1));
        lemma_first_position_prefix(t.drop_last(), x, n);
    } else {
        assert(t.take(n) =~= t);
    }
}

fn binding_position(b: &[RoomBotBinding], x: &str) -> (r: Option<usize>)
    ensures
        match r {
            Some(k) => first_position(binding_ids(b@), x@) == Some(k as int) && k < b@.len() && k < usize::MAX,
            None => first_position(binding_ids(b@), x@) is None,
        },
{
    let target = String::from_str(x);
    let ghost t = binding_ids(b@);
    let mut i: usize = 0;
    while i < b.len()
        invariant
            i <= b@.len(),
            target@ == x@,
            t == binding_ids(b@),
            t.len() == b@.len(),
            first_position(t.take(i as int), x@) is None,
        decreases b@.len() - i,
    {
        assert(t.take(i + 1).drop_last() =~= t.take(i as int));
        assert(t[i as int] == b@[i as int].bot_user_id@);
        if b[i].bot_user_id == target {
            proof { lemma_first_position_prefix(t, x@, i + 1); }
            return Some(i);
        }
        i = i + 1;
    }
    assert(t.take(i as int) =~= t);
    None
}

/// The label of a bound bot: its ID, with its trimmed remark in brackets when there is one.
pub open spec fn binding_label(b: RoomBotBinding) -> Seq<char> {
    if trimmed(b.remark@).len() == 0 {
        b.bot_user_id@
    } else {
        b.bot_user_id@ + " ("@ + trimmed(b.remark@) + ")"@
    }
}

pub open spec fn binding_labels(b: Seq<RoomBotBinding>) -> Seq<Seq<char>> {
    b.map_values(|x: RoomBotBinding| binding_label(x))
}

/// How a typed bot user ID resolves.
pub enum BotUserIdResolution {
    /// Nothing was typed.
    EnterUserId,
    /// A bare localpart needs the signed-in user's server, which is unknown.
    CurrentUserUnavailable,
    /// The full ID that `ruma` refused.
    Invalid(String),
    /// The full user ID.
    Valid(String),
}

/// The full user ID for the typed text (trimmed): as typed when it starts
/// with `@`; with `@` added when it holds a colon; else `@localpart:server`
/// on the signed-in user's server.
pub open spec fn full_bot_user_id(t: Seq<char>, server: Option<Seq<char>>) -> Option<Seq<char>> {
    if t.len() > 0 && t[0] == '@' {
        Some(t)
    } else if t.contains(':') {
        Some(seq!['@'] + t)
    } else {
        match server {
            Some(s) => Some(seq!['@'] + t + seq![':'] + s),
            None => None,
        }
    }
}

fn contains_colon(s: &str) -> (r: bool)
    ensures
        r == s@.contains(':'),
{
    let c = chars_of(s);
    let mut i: usize = 0;
    while i < c.len()
        invariant
            i <= c@.len(),
            c@ == s@,
            forall|j: int| 0 <= j < i ==> c@[j] != ':',
        decreases c@.len() - i,
    {
        if c[i] == ':' {
            return true;
        }
        i = i + 1;
    }
    false
}

/// Resolves the typed bot user ID (see `full_bot_user_id`) and checks it
/// with `ruma`. `own_server` is the signed-in user's server, when known.
pub fn resolve_bot_user_id(raw: &str, own_server: Option<&str>) -> (r: BotUserIdResolution)
    ensures
        ({
            let t = trimmed(raw@);
            let sv = match own_server { Some(s) => Some(s@), None => None };
            if t.len() == 0 {
                r is EnterUserId
            } else {
                match full_bot_user_id(t, sv) {
                    None => r is CurrentUserUnavailable,
                    Some(f) => if ruma_accepts_user_id(f) {
                        r matches BotUserIdResolution::Valid(id) && id@ == f
                    } else {
                        r matches BotUserIdResolution::Invalid(id) && id@ == f
                    },
                }
            }
        }),
{
    let t = trim_str(raw);
    let tc = chars_of(t.as_str());
    if tc.len() == 0 {
        return BotUserIdResolution::EnterUserId;
    }
    let full = if tc[0] == '@' {
        t
    } else if contains_colon(t.as_str()) {
        let mut f = String::from_str("@");
        f.append(t.as_str());
        proof { reveal_strlit("@"); }
        assert(f@ =~= seq!['@'] + t@);
        f
    } else {
        match own_server {
            Some(s) => {
                let mut f = String::from_str("@");
                f.append(t.as_str());
                f.append(":");
                f.append(s);
                proof {
                    reveal_strlit("@");
                    reveal_strlit(":");
                }
                assert(f@ =~= seq!['@'] + t@ + seq![':'] + s@);
                f
            },
            None => return BotUserIdResolution::CurrentUserUnavailable,
        }
    };
    match parse_user_id(full.as_str()) {
        Ok(id) => BotUserIdResolution::Valid(id),
        Err(_) => BotUserIdResolution::Invalid(full),
    }
}

/// What a click on bind (or unbind) does.
pub enum BotBindingSubmit {
    /// Nothing: the modal has no room.
    NoRoom,
    /// The typed ID does not resolve; the status to show.
    Refused(BotUserIdResolution),
    /// Bind (or unbind) the bot in the room.
    SetBinding { room_id: String, bound: bool, bot_user_id: String },
}

/// What saving a remark does.
pub enum RemarkOutcome {
    /// Nothing: the modal has no room.
    NoRoom,
    /// The typed ID does not resolve; the status to show.
    Refused(BotUserIdResolution),
    /// The remark was saved; the bound-bots dropdown moves to that bot.
    RemarkSaved { current_room_bots_index: usize },
    /// The bot is not bound in this room, so it has no remark to set.
    RequiresAddedBot,
}

impl BotBindingModal {
    pub fn new() -> (r: BotBindingModal)
        ensures
            r.room_id is None,
            r.known_bot_user_ids@.len() == 0,
            r.room_bound_bots@.len() == 0,
    {
        BotBindingModal { room_id: None, known_bot_user_ids: Vec::new(), room_bound_bots: Vec::new() }
    }

    /// Opens the modal for a room: its bound bots, and the known bots merged
    /// with every bot bound anywhere, sorted, each once. Returns the form's
    /// first values: the first bound bot, when there is one, selected in both
    /// dropdowns.
    pub fn show(&mut self, room_id: String, room_bindings: Vec<RoomBotBinding>, known: &[String], all_bound: &[String]) -> (f: BotBindingForm)
        ensures
            final(self).room_id == Some(room_id),
            final(self).room_bound_bots@ == room_bindings@,
            views(final(self).known_bot_user_ids@) == sorted_unique(views(known@) + views(all_bound@)),
            f.current_room_bots_index == (if room_bindings@.len() == 0 { 0usize } else { 1usize }),
            room_bindings@.len() == 0 ==> f.known_bots_index == 0 && f.user_id@.len() == 0 && f.remark@.len() == 0,
            room_bindings@.len() > 0 ==> f.user_id@ == room_bindings@[0].bot_user_id@
                && f.remark@ == room_bindings@[0].remark@
                && f.known_bots_index == match first_position(views(final(self).known_bot_user_ids@), room_bindings@[0].bot_user_id@) {
                    Some(k) => (k + 1) as usize,
                    None => 0usize,
                },
    {
        let merged = merge_known_bots(known, all_bound);
        let form = if room_bindings.len() == 0 {
            BotBindingForm { current_room_bots_index: 0, known_bots_index: 0, user_id: String::new(), remark: String::new() }
        } else {
            let first = &room_bindings[0];
            let k = match position_of(merged.as_slice(), first.bot_user_id.as_str()) {
                Some(k) => k + 1,
                None => 0,
            };
            BotBindingForm {
                current_room_bots_index: 1,
                known_bots_index: k,
                user_id: first.bot_user_id.clone(),
                remark: first.remark.clone(),
            }
        };
        self.room_id = Some(room_id);
        self.known_bot_user_ids = merged;
        self.room_bound_bots = room_bindings;
        form
    }

    /// The labels of the known-bots dropdown: the "custom" entry, then each known bot.
    pub fn known_bot_labels(&self, custom_label: &str) -> (r: Vec<String>)
        ensures
            views(r@) == seq![custom_label@] + views(self.known_bot_user_ids@),
    {
        let mut labels: Vec<String> = Vec::new();
        labels.push(String::from_str(custom_label));
        let mut i: usize = 0;
        while i < self.known_bot_user_ids.len()
            invariant
                i <= self.known_bot_user_ids@.len(),
                views(labels@) == seq![custom_label@] + views(self.known_bot_user_ids@).take(i as int),
            decreases self.known_bot_user_ids@.len() - i,
        {
            let ghost before = views(labels@);
            labels.push(self.known_bot_user_ids[i].clone());
            assert(views(labels@) =~= before.push(self.known_bot_user_ids@[i as int]@));
            assert(views(self.known_bot_user_ids@).take(i + 1) =~= views(self.known_bot_user_ids@).take(i as int).push(self.known_bot_user_ids@[i as int]@));
            i = i + 1;
        }
        assert(views(self.known_bot_user_ids@).take(i as int) =~= views(self.known_bot_user_ids@));
        labels
    }

    /// The remark kept for a bot bound to the room, if it is bound.
    pub fn room_bot_remark(&self, bot_user_id: &str) -> (r: Option<String>)
        ensures
            match first_position(binding_ids(self.room_bound_bots@), bot_user_id@) {
                Some(k) => r matches Some(m) && m@ == self.room_bound_bots@[k].remark@,
                None => r is None,
            },
    {
        let target = String::from_str(bot_user_id);
        let ghost ids = binding_ids(self.room_bound_bots@);
        let mut i: usize = 0;
        while i < self.room_bound_bots.len()
            invariant
                i <= self.room_bound_bots@.len(),
                target@ == bot_user_id@,
                ids == binding_ids(self.room_bound_bots@),
                first_position(ids.take(i as int), bot_user_id@) is None,
            decreases self.room_bound_bots@.len() - i,
        {
            assert(ids.take(i + 1).drop_last() =~= ids.take(i as int));
            if self.room_bound_bots[i].bot_user_id == target {
                proof { lemma_first_position_prefix(ids, bot_user_id@, i + 1); }
                return Some(self.room_bound_bots[i].remark.clone());
            }
            i = i + 1;
        }
        assert(ids.take(i as int) =~= ids);
        None
    }

    /// The labels of the bound-bots dropdown: one per bound bot, or the
    /// "none" entry when no bot is bound.
    pub fn room_bound_bot_labels(&self, none_label: &str) -> (r: Vec<String>)
        ensures
            self.room_bound_bots@.len() == 0 ==> views(r@) == seq![none_label@],
            self.room_bound_bots@.len() > 0 ==> views(r@) == binding_labels(self.room_bound_bots@),
    {
        let mut labels: Vec<String> = Vec::new();
        if self.room_bound_bots.len() == 0 {
            labels.push(String::from_str(none_label));
            assert(views(labels@) =~= seq![none_label@]);
            return labels;
        }
        let mut i: usize = 0;
        while i < self.room_bound_bots.len()
            invariant
                i <= self.room_bound_bots@.len(),
                views(labels@) == binding_labels(self.room_bound_bots@.take(i as int)),
            decreases self.room_bound_bots@.len() - i,
        {
            let b = &self.room_bound_bots[i];
            let remark = trim_str(b.remark.as_str());
            let label = if remark.as_str().is_empty() {
                b.bot_user_id.clone()
            } else {
                let mut l = b.bot_user_id.clone();
                l.append(" (");
                l.append(remark.as_str());
                l.append(")");
                l
            };
            let ghost before = views(labels@);
            labels.push(label);
            assert(views(labels@) =~= before.push(binding_label(*b)));
            assert(binding_labels(self.room_bound_bots@.take(i + 1)) =~= binding_labels(self.room_bound_bots@.take(i as int)).push(binding_label(*b)));
            i = i + 1;
        }
        assert(self.room_bound_bots@.take(i as int) =~= self.room_bound_bots@);
        labels
    }

    /// The user ID and remark that a pick in the known-bots dropdown puts in
    /// the form: empty for the "custom" entry; the bot and its remark (empty
    /// when it is not bound here) for a bot; nothing past the end.
    pub fn known_bot_selected(&self, selected_item: usize) -> (r: Option<(String, String)>)
        ensures
            selected_item == 0 ==> (r matches Some(p) && p.0@.len() == 0 && p.1@.len() == 0),
            selected_item > self.known_bot_user_ids@.len() ==> r is None,
            0 < selected_item <= self.known_bot_user_ids@.len() ==> (r matches Some(p)
                && p.0@ == self.known_bot_user_ids@[selected_item - 1]@
                && p.1@ == match first_position(binding_ids(self.room_bound_bots@), self.known_bot_user_ids@[selected_item - 1]@) {
                    Some(k) => self.room_bound_bots@[k].remark@,
                    None => Seq::<char>::empty(),
                }),
    {
        if selected_item == 0 {
            return Some((String::new(), String::new()));
        }
        if selected_item > self.known_bot_user_ids.len() {
            return None;
        }
        let id = self.known_bot_user_ids[selected_item - 1].clone();
        let remark = match self.room_bot_remark(id.as_str()) {
            Some(m) => m,
            None => String::new(),
        };
        Some((id, remark))
    }

    /// What a pick in the bound-bots dropdown puts in the form: that bot, its
    /// remark, and its position in the known-bots dropdown (0 when it is not
    /// listed); nothing at position 0 or past the end.
    pub fn room_bot_selected(&self, selected_item: usize) -> (r: Option<(String, String, usize)>)
        ensures
            (selected_item == 0 || selected_item > self.room_bound_bots@.len()) ==> r is None,
            0 < selected_item <= self.room_bound_bots@.len() ==> (r matches Some(p)
                && p.0@ == self.room_bound_bots@[selected_item - 1].bot_user_id@
                && p.1@ == self.room_bound_bots@[selected_item - 1].remark@
                && p.2 == match first_position(views(self.known_bot_user_ids@), self.room_bound_bots@[selected_item - 1].bot_user_id@) {
                    Some(k) => (k + 1) as usize,
                    None => 0usize,
                }),
    {
        if selected_item == 0 || selected_item > self.room_bound_bots.len() {
            return None;
        }
        let b = &self.room_bound_bots[selected_item - 1];
        let k = match position_of(self.known_bot_user_ids.as_slice(), b.bot_user_id.as_str()) {
            Some(k) => k + 1,
            None => 0,
        };
        Some((b.bot_user_id.clone(), b.remark.clone(), k))
    }

    /// A click on "save remark" (or Enter in the remark field): the typed
    /// user ID is resolved as for binding; when that bot is bound in the
    /// room, its remark becomes the trimmed `remark` and the bound-bots
    /// dropdown moves to it (position + 1).
    pub fn save_remark(&mut self, raw_user_id: &str, remark: &str, own_server: Option<&str>) -> (r: RemarkOutcome)
        ensures
            final(self).room_id == old(self).room_id,
            final(self).known_bot_user_ids@ == old(self).known_bot_user_ids@,
            old(self).room_id is None ==> r is NoRoom && final(self).room_bound_bots@ == old(self).room_bound_bots@,
            old(self).room_id is Some ==> ({
                let t = trimmed(raw_user_id@);
                let sv = match own_server { Some(s) => Some(s@), None => None };
                let f = full_bot_user_id(t, sv);
                let old_b = old(self).room_bound_bots@;
                let new_b = final(self).room_bound_bots@;
                if t.len() == 0 {
                    r == RemarkOutcome::Refused(BotUserIdResolution::EnterUserId) && new_b == old_b
                } else if f is None {
                    r == RemarkOutcome::Refused(BotUserIdResolution::CurrentUserUnavailable) && new_b == old_b
                } else if !ruma_accepts_user_id(f->0) {
                    (r matches RemarkOutcome::Refused(BotUserIdResolution::Invalid(id)) && id@ == f->0) && new_b == old_b
                } else {
                    match first_position(binding_ids(old_b), f->0) {
                        None => r == RemarkOutcome::RequiresAddedBot && new_b == old_b,
                        Some(k) => r == (RemarkOutcome::RemarkSaved { current_room_bots_index: (k + 1) as usize })
                            && new_b.len() == old_b.len()
                            && (forall|j: int| 0 <= j < old_b.len() && j != k ==> new_b[j] == old_b[j])
                            && new_b[k].bot_user_id@ == old_b[k].bot_user_id@
                            && new_b[k].remark@ == trimmed(remark@),
                    }
                }
            }),
    {
        if self.room_id.is_none() {
            return RemarkOutcome::NoRoom;
        }
        let id = match resolve_bot_user_id(raw_user_id, own_server) {
            BotUserIdResolution::Valid(id) => id,
            other => return RemarkOutcome::Refused(other),
        };
        match binding_position(self.room_bound_bots.as_slice(), id.as_str()) {
            None => RemarkOutcome::RequiresAddedBot,
            Some(k) => {
                let b = RoomBotBinding { bot_user_id: id, remark: trim_str(remark) };
                proof { lemma_first_position(binding_ids(self.room_bound_bots@), b.bot_user_id@); }
                self.room_bound_bots.set(k, b);
                RemarkOutcome::RemarkSaved { current_room_bots_index: k + 1 }
            },
        }
    }

    /// What a click on bind (`bound`) or unbind does with the typed user ID.
    pub fn submit(&self, bound: bool, raw_user_id: &str, own_server: Option<&str>) -> (r: BotBindingSubmit)
        ensures
            self.room_id is None ==> r is NoRoom,
            self.room_id matches Some(room) ==> ({
                let t = trimmed(raw_user_id@);
                let sv = match own_server { Some(s) => Some(s@), None => None };
                let f = full_bot_user_id(t, sv);
                if t.len() == 0 {
                    r matches BotBindingSubmit::Refused(BotUserIdResolution::EnterUserId)
                } else if f is None {
                    r matches BotBindingSubmit::Refused(BotUserIdResolution::CurrentUserUnavailable)
                } else if ruma_accepts_user_id(f->0) {
                    r matches BotBindingSubmit::SetBinding { room_id, bound: b, bot_user_id }
                        && room_id == room && b == bound && bot_user_id@ == f->0
                } else {
                    r matches BotBindingSubmit::Refused(BotUserIdResolution::Invalid(id)) && id@ == f->0
                }
            }),
    {
        let room = match &self.room_id {
            Some(r) => r,
            None => return BotBindingSubmit::NoRoom,
        };
        match resolve_bot_user_id(raw_user_id, own_server) {
            BotUserIdResolution::Valid(id) => BotBindingSubmit::SetBinding { room_id: room.clone(), bound, bot_user_id: id },
            other => BotBindingSubmit::Refused(other),
        }
    }
}

} // verus!
