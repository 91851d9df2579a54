//! The rooms open as tabs of the desktop dock: which are open, the order in
//! which they were viewed, and which one is selected.

use vstd::prelude::*;
use crate::dock::{SelectedRoom, RoomModel, room_model, rooms_model, open_rooms_model, keys_distinct, key_index,
    map_get, map_insert, map_remove, lemma_rooms_model_keys, lemma_key_index, find_key};

verus! {

/// The open rooms (by tab ID), the viewing order (the last one most
/// recent), and the selected room.
#[derive(Debug)]
pub struct DockTabs {
    pub open_rooms: Vec<(u64, SelectedRoom)>,
    pub room_order: Vec<SelectedRoom>,
    pub selected: Option<SelectedRoom>,
}

/// Whether a room is not `r`.
pub open spec fn not_room(r: RoomModel) -> spec_fn(RoomModel) -> bool {
    |x: RoomModel| x != r
}

/// `order` without `r`, and `r` last: `r` was viewed most recently.
pub open spec fn marked_recent(order: Seq<RoomModel>, r: RoomModel) -> Seq<RoomModel> {
    order.filter(not_room(r)).push(r)
}

pub open spec fn opt_model(o: Option<SelectedRoom>) -> Option<RoomModel> {
    match o {
        Some(r) => Some(room_model(r)),
        None => None,
    }
}

/// What selecting a room in the rooms list does.
#[derive(Debug, PartialEq, Eq)]
pub enum FocusPlan {
    /// It is selected already: nothing.
    AlreadySelected,
    /// Its tab is open: that tab is selected.
    SelectOpenTab,
    /// A tab is made for it, after the selected room's tab (when there is a
    /// selected room) or after the home tab.
    CreateTab { after_tab: Option<u64> },
}

/// What a click on a tab's close button does.
#[derive(Debug)]
pub enum CloseOutcome {
    /// The tab is not an open room's: it is just closed.
    NotARoom,
    /// The room's tab is closed; this room (or the home tab) is selected next.
    Closed(Option<SelectedRoom>),
}

fn copy_room(r: &SelectedRoom) -> (c: SelectedRoom)
    ensures
        room_model(c) == room_model(*r),
{
    r.duplicate()
}

fn copy_opt_room(o: &Option<SelectedRoom>) -> (c: Option<SelectedRoom>)
    ensures
        opt_model(c) == opt_model(*o),
{
    match o {
        Some(r) => Some(r.duplicate()),
        None => None,
    }
}

/// `v` without the rooms equal to `r`.
fn remove_room(v: &mut Vec<SelectedRoom>, r: &SelectedRoom)
    ensures
        rooms_model(final(v)@) == rooms_model(old(v)@).filter(not_room(room_model(*r))),
{
    let ghost target = room_model(*r);
    let ghost orig = rooms_model(v@);
    let mut out: Vec<SelectedRoom> = Vec::new();
    let mut i: usize = 0;
    assert(orig.take(0).filter(not_room(target)) =~= Seq::<RoomModel>::empty());
    while i < v.len()
        invariant
            i <= v@.len(),
            orig == rooms_model(v@),
            target == room_model(*r),
            rooms_model(out@) == orig.take(i as int).filter(not_room(target)),
        decreases v@.len() - i,
    {
        let ghost before = rooms_model(out@);
        assert(orig.take(i + 1).drop_last() =~= orig.take(i as int));
        assert(orig.take(i + 1).last() == room_model(v@[i as int]));
        proof {
            orig.take(i as int).lemma_filter_push(orig[i as int], not_room(target));
        }
        assert(orig.take(i as int).push(orig[i as int]) =~= orig.take(i + 1));
        if !v[i].same_as(r) {
            out.push(v[i].duplicate());
            assert(rooms_model(out@) =~= before.push(room_model(v@[i as int])));
        }
        i = i + 1;
    }
    assert(orig.take(i as int) =~= orig);
    *v = out;
}

impl DockTabs {
    /// No open room.
    pub fn new() -> (r: DockTabs)
        ensures
            r.open_rooms@.len() == 0,
            r.room_order@.len() == 0,
            r.selected is None,
    {
        DockTabs { open_rooms: Vec::new(), room_order: Vec::new(), selected: None }
    }

    /// Selects a room's tab (or, with `None`, the home tab): the room
    /// becomes the most recently viewed one.
    pub fn select_room(&mut self, room: Option<SelectedRoom>)
        ensures
            opt_model(final(self).selected) == opt_model(room),
            rooms_model(final(self).room_order@) == match room {
                Some(r) => marked_recent(rooms_model(old(self).room_order@), room_model(r)),
                None => rooms_model(old(self).room_order@),
            },
            final(self).open_rooms@ == old(self).open_rooms@,
    {
        match room {
            Some(r) => {
                remove_room(&mut self.room_order, &r);
                let ghost before = rooms_model(self.room_order@);
                self.room_order.push(copy_room(&r));
                assert(rooms_model(self.room_order@) =~= before.push(room_model(r)));
                self.selected = Some(r);
            },
            None => {
                self.selected = None;
            },
        }
    }

    /// What selecting `room` in the rooms list does (see `FocusPlan`).
    pub fn focus_plan(&self, room: &SelectedRoom) -> (p: FocusPlan)
        requires
            keys_distinct(self.open_rooms@),
        ensures
            opt_model(self.selected) == Some(room_model(*room)) ==> (p is AlreadySelected),
            opt_model(self.selected) != Some(room_model(*room)) && key_index(self.open_rooms@, room.tab_id) >= 0
                ==> (p is SelectOpenTab),
            opt_model(self.selected) != Some(room_model(*room)) && key_index(self.open_rooms@, room.tab_id) < 0
                ==> p == (FocusPlan::CreateTab { after_tab: match self.selected { Some(s) => Some(s.tab_id), None => None } }),
    {
        if let Some(s) = &self.selected {
            if s.same_as(room) {
                return FocusPlan::AlreadySelected;
            }
        }
        if find_key(&self.open_rooms, room.tab_id).is_some() {
            return FocusPlan::SelectOpenTab;
        }
        FocusPlan::CreateTab { after_tab: match &self.selected { Some(s) => Some(s.tab_id), None => None } }
    }

    /// A tab was made for `room`: it is open, under its tab ID, and selected.
    pub fn tab_created(&mut self, room: SelectedRoom)
        requires
            keys_distinct(old(self).open_rooms@),
        ensures
            keys_distinct(final(self).open_rooms@),
            open_rooms_model(final(self).open_rooms@)
                == map_insert(open_rooms_model(old(self).open_rooms@), room.tab_id, room_model(room)),
            opt_model(final(self).selected) == Some(room_model(room)),
            rooms_model(final(self).room_order@) == marked_recent(rooms_model(old(self).room_order@), room_model(room)),
    {
        let k = room.tab_id;
        let copy = copy_room(&room);
        crate::dock::rooms_insert(&mut self.open_rooms, k, copy);
        self.select_room(Some(room));
    }

    /// A click on a tab: the home tab selects no room; an open room's tab
    /// selects that room; another tab changes nothing.
    pub fn tab_pressed(&mut self, tab_id: u64, home_tab: u64)
        requires
            keys_distinct(old(self).open_rooms@),
        ensures
            final(self).open_rooms@ == old(self).open_rooms@,
            tab_id == home_tab ==> final(self).selected is None
                && rooms_model(final(self).room_order@) == rooms_model(old(self).room_order@),
            tab_id != home_tab ==> match map_get(open_rooms_model(old(self).open_rooms@), tab_id) {
                Some(r) => opt_model(final(self).selected) == Some(r)
                    && rooms_model(final(self).room_order@) == marked_recent(rooms_model(old(self).room_order@), r),
                None => opt_model(final(self).selected) == opt_model(old(self).selected)
                    && rooms_model(final(self).room_order@) == rooms_model(old(self).room_order@),
            },
    {
        if tab_id == home_tab {
            self.select_room(None);
            return;
        }
        proof { lemma_rooms_model_keys(self.open_rooms@, tab_id); lemma_key_index(self.open_rooms@, tab_id); }
        match find_key(&self.open_rooms, tab_id) {
            Some(i) => {
                let r = copy_room(&self.open_rooms[i].1);
                proof {
                    assert(open_rooms_model(self.open_rooms@)[i as int] == (tab_id, room_model(self.open_rooms@[i as int].1)));
                }
                self.select_room(Some(r));
            },
            None => {},
        }
    }

    /// A click on a tab's close button: the room leaves the open rooms and
    /// the viewing order; when it was selected, the most recently viewed room
    /// left (or, with none left, the home tab) is selected next, else the
    /// selection stays.
    pub fn close_tab(&mut self, tab_id: u64) -> (r: CloseOutcome)
        requires
            keys_distinct(old(self).open_rooms@),
        ensures
            keys_distinct(final(self).open_rooms@),
            match map_get(open_rooms_model(old(self).open_rooms@), tab_id) {
                None => r is NotARoom && final(self).open_rooms@ == old(self).open_rooms@
                    && rooms_model(final(self).room_order@) == rooms_model(old(self).room_order@)
                    && opt_model(final(self).selected) == opt_model(old(self).selected),
                Some(closed) => {
                    let order = rooms_model(old(self).room_order@).filter(not_room(closed));
                    let next = if opt_model(old(self).selected) == Some(closed) {
                        if order.len() > 0 { Some(order.last()) } else { None }
                    } else {
                        opt_model(old(self).selected)
                    };
                    &&& r matches CloseOutcome::Closed(n) && opt_model(n) == next
                    &&& open_rooms_model(final(self).open_rooms@) == map_remove(open_rooms_model(old(self).open_rooms@), tab_id)
                    &&& opt_model(final(self).selected) == next
                    &&& rooms_model(final(self).room_order@) == match next {
                        Some(n) => marked_recent(order, n),
                        None => order,
                    }
                },
            },
    {
        proof { lemma_rooms_model_keys(self.open_rooms@, tab_id); lemma_key_index(self.open_rooms@, tab_id); }
        let found = find_key(&self.open_rooms, tab_id);
        let k = match found {
            Some(k) => k,
            None => return CloseOutcome::NotARoom,
        };
        proof {
            lemma_key_index(self.open_rooms@, tab_id);
            assert(open_rooms_model(self.open_rooms@)[k as int] == (tab_id, room_model(self.open_rooms@[k as int].1)));
        }
        let closed = copy_room(&self.open_rooms[k].1);
        remove_room(&mut self.room_order, &closed);
        let is_active = match &self.selected {
            Some(s) => s.same_as(&closed),
            None => false,
        };
        let next = if is_active {
            let n = self.room_order.len();
            if n > 0 { Some(copy_room(&self.room_order[n - 1])) } else { None }
        } else {
            copy_opt_room(&self.selected)
        };
        let ghost before = self.open_rooms@;
        self.open_rooms.remove(k);
        proof {
            lemma_rooms_model_keys(before, tab_id);
            assert(open_rooms_model(self.open_rooms@) =~= open_rooms_model(before).remove(k as int));
            assert forall|a: int, b: int| 0 <= a < b < self.open_rooms@.len()
                implies (#[trigger] self.open_rooms@[a]).0 != (#[trigger] self.open_rooms@[b]).0 by {
                let a2 = if a < k { a } else { a + 1 };
                let b2 = if b < k { b } else { b + 1 };
                assert(self.open_rooms@[a] == before[a2] && self.open_rooms@[b] == before[b2]);
            }
        }
        let result = copy_opt_room(&next);
        self.select_room(next);
        CloseOutcome::Closed(result)
    }

    /// Closes every tab: nothing is open, viewed or selected.
    pub fn close_all(&mut self)
        ensures
            final(self).open_rooms@.len() == 0,
            final(self).room_order@.len() == 0,
            final(self).selected is None,
    {
        self.open_rooms.clear();
        self.room_order.clear();
        self.selected = None;
    }
}

/// Selecting a room makes it the most recently viewed one, and leaves it in
/// the viewing order once.
pub proof fn lemma_selected_room_is_most_recent(order: Seq<RoomModel>, r: RoomModel)
    ensures
        marked_recent(order, r).last() == r,
        forall|i: int| 0 <= i < marked_recent(order, r).len() - 1 ==> #[trigger] marked_recent(order, r)[i] != r,
{
    let f = order.filter(not_room(r));
    assert forall|i: int| 0 <= i < marked_recent(order, r).len() - 1 implies #[trigger] marked_recent(order, r)[i] != r by {
        assert(marked_recent(order, r)[i] == f[i]);
        assert(f.contains(f[i]));
        order.lemma_filter_contains_rev(not_room(r), f[i]);
    }
}

proof fn lemma_filter_keeps_no_duplicates(s: Seq<RoomModel>, p: spec_fn(RoomModel) -> bool)
    requires
        s.no_duplicates(),
    ensures
        s.filter(p).no_duplicates(),
    decreases s.len(),
{
    if s.len() > 0 {
        let d = s.drop_last();
        assert(d.no_duplicates()) by {
            assert forall|i: int, j: int| 0 <= i < d.len() && 0 <= j < d.len() && i != j implies d[i] != d[j] by {
                assert(d[i] == s[i] && d[j] == s[j]);
            }
        }
        lemma_filter_keeps_no_duplicates(d, p);
        assert(d.push(s.last()) =~= s);
        d.lemma_filter_push(s.last(), p);
        if p(s.last()) {
            let f = d.filter(p);
            assert(!f.contains(s.last())) by {
                if f.contains(s.last()) {
                    d.lemma_filter_contains_rev(p, s.last());
                    let w = choose|w: int| 0 <= w < d.len() && d[w] == s.last();
                    assert(s[w] == s[s.len() - 1]);
                }
            }
            let g = f.push(s.last());
            assert forall|i: int, j: int| 0 <= i < g.len() && 0 <= j < g.len() && i != j implies g[i] != g[j] by {
                if i < f.len() && j < f.len() {
                } else if i < f.len() {
                    assert(f.contains(f[i]));
                } else {
                    assert(f.contains(f[j]));
                }
            }
        }
    }
}

/// Viewing keeps every room at most once in the viewing order.
pub proof fn lemma_viewing_keeps_rooms_once(order: Seq<RoomModel>, r: RoomModel)
    requires
        order.no_duplicates(),
    ensures
        marked_recent(order, r).no_duplicates(),
{
    let f = order.filter(not_room(r));
    lemma_filter_keeps_no_duplicates(order, not_room(r));
    assert(!f.contains(r)) by {
        if f.contains(r) {
            order.lemma_filter_contains_rev(not_room(r), r);
        }
    }
    let m = marked_recent(order, r);
    assert forall|i: int, j: int| 0 <= i < m.len() && 0 <= j < m.len() && i != j implies m[i] != m[j] by {
        if i < f.len() && j < f.len() {
            assert(m[i] == f[i] && m[j] == f[j]);
        } else if i < f.len() {
            assert(m[i] == f[i]);
            assert(f.contains(f[i]));
        } else {
            assert(m[j] == f[j]);
            assert(f.contains(f[j]));
        }
    }
}

} // verus!
