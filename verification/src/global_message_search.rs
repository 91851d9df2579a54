//! Global message search: grouping of search hits by room, the status line, and
//! the state of the results list.

use vstd::prelude::*;
use crate::text::{decimal, push_decimal, push_decimal_u64, chars_of, char_is_whitespace, is_white, string_of_prefix,
    truncated, truncate_for_display, views, copy_opt_string, lex_lt, str_lt};

verus! {

/// One message found by a search over all rooms.
#[derive(Clone, Debug, PartialEq, Eq)]
pub struct GlobalSearchHit {
    pub event_id: String,
    pub room_id: String,
    pub sender_user_id: String,
    pub sender_display_name: Option<String>,
    pub body: String,
    /// Milliseconds since the Unix epoch.
    pub timestamp: u64,
}

/// A single render-list entry: a room's section header, or one of its hits.
#[derive(Clone, Debug, PartialEq, Eq)]
pub enum RenderItem {
    Header { room_id: String, count: usize },
    Hit { hit_index: usize },
}

// ---------------------------------------------------------------------------
// Sections
// ---------------------------------------------------------------------------

/// The hits bucketed by room: each room (with the ID of its first hit) and the
/// indices of its hits, rooms in order of first appearance.
pub open spec fn buckets(h: Seq<GlobalSearchHit>) -> Seq<(String, Seq<usize>)>
    decreases h.len(),
{
    if h.len() == 0 {
        seq![]
    } else {
        let b = buckets(h.drop_last());
        let i = (h.len() - 1) as usize;
        let r = h.last().room_id;
        if exists|k: int| 0 <= k < b.len() && (#[trigger] b[k]).0@ == r@ {
            let k = choose|k: int| 0 <= k < b.len() && (#[trigger] b[k]).0@ == r@;
            b.update(k, (b[k].0, b[k].1.push(i)))
        } else {
            b.push((r, seq![i]))
        }
    }
}

pub proof fn lemma_buckets_distinct(h: Seq<GlobalSearchHit>)
    ensures
        forall|i: int, j: int| 0 <= i < j < buckets(h).len() ==> (#[trigger] buckets(h)[i]).0@ != (#[trigger] buckets(h)[j]).0@,
    decreases h.len(),
{
    if h.len() > 0 {
        let d = h.drop_last();
        lemma_buckets_distinct(d);
        let b = buckets(d);
        let r = h.last().room_id;
        let nb = buckets(h);
        if exists|k: int| 0 <= k < b.len() && (#[trigger] b[k]).0@ == r@ {
            assert forall|i: int, j: int| 0 <= i < j < nb.len() implies (#[trigger] nb[i]).0@ != (#[trigger] nb[j]).0@ by {
                assert(nb[i].0 == b[i].0 && nb[j].0 == b[j].0);
            }
        } else {
            assert forall|i: int, j: int| 0 <= i < j < nb.len() implies (#[trigger] nb[i]).0@ != (#[trigger] nb[j]).0@ by {
                assert(nb[i] == b[i]);
                if j < b.len() { assert(nb[j] == b[j]); }
            }
        }
    }
}

/// The most recent timestamp among the given hits (0 when there are none).
pub open spec fn recent(h: Seq<GlobalSearchHit>, idx: Seq<usize>) -> u64
    decreases idx.len(),
{
    if idx.len() == 0 {
        0
    } else {
        let m = recent(h, idx.drop_last());
        let t = h[idx.last() as int].timestamp;
        if idx.len() == 1 || t > m { t } else { m }
    }
}

/// A section of the results: the room, the indices of its hits, their latest timestamp.
pub type Section = (String, Seq<usize>, u64);

/// Whether section `a` comes before section `b`: more recent first, then by room ID.
pub open spec fn comes_before(a: Section, b: Section) -> bool {
    a.2 > b.2 || (a.2 == b.2 && lex_lt(a.0@, b.0@))
}

/// Insertion of `x` into `t`, after every section that does not come after it.
pub open spec fn insert_section(t: Seq<Section>, x: Section) -> Seq<Section>
    decreases t.len(),
{
    if t.len() == 0 {
        seq![x]
    } else if comes_before(x, t.last()) {
        insert_section(t.drop_last(), x).push(t.last())
    } else {
        t.push(x)
    }
}

/// The sections in display order.
pub open spec fn sort_sections(s: Seq<Section>) -> Seq<Section>
    decreases s.len(),
{
    if s.len() == 0 { seq![] } else { insert_section(sort_sections(s.drop_last()), s.last()) }
}

/// The sections of the hits, in display order.
pub open spec fn sections(h: Seq<GlobalSearchHit>) -> Seq<Section> {
    sort_sections(buckets(h).map_values(|b: (String, Seq<usize>)| (b.0, b.1, recent(h, b.1))))
}

/// The render items of one section: its header, then its hits.
pub open spec fn section_items(s: Section) -> Seq<RenderItem> {
    seq![RenderItem::Header { room_id: s.0, count: s.1.len() as usize }]
        + s.1.map_values(|i: usize| RenderItem::Hit { hit_index: i })
}

/// The render items of all sections, in order.
pub open spec fn flatten_sections(s: Seq<Section>) -> Seq<RenderItem>
    decreases s.len(),
{
    if s.len() == 0 { seq![] } else { flatten_sections(s.drop_last()) + section_items(s.last()) }
}

spec fn section_insert_pos(t: Seq<Section>, x: Section) -> int
    decreases t.len(),
{
    if t.len() == 0 { 0 } else if comes_before(x, t.last()) { section_insert_pos(t.drop_last(), x) } else { t.len() as int }
}

proof fn lemma_section_insert_pos(t: Seq<Section>, x: Section)
    ensures
        0 <= section_insert_pos(t, x) <= t.len(),
        insert_section(t, x) == t.insert(section_insert_pos(t, x), x),
    decreases t.len(),
{
    if t.len() > 0 && comes_before(x, t.last()) {
        lemma_section_insert_pos(t.drop_last(), x);
        assert(t.drop_last().insert(section_insert_pos(t.drop_last(), x), x).push(t.last())
            =~= t.insert(section_insert_pos(t, x), x));
    } else if t.len() > 0 {
        assert(t.push(x) =~= t.insert(t.len() as int, x));
    } else {
        assert(seq![x] =~= t.insert(0, x));
    }
}

// ---------------------------------------------------------------------------
// What the sections are: one per room, each hit in exactly one, most recent first
// ---------------------------------------------------------------------------

/// The room IDs of a list of buckets.
pub open spec fn bucket_rooms(b: Seq<(String, Seq<usize>)>) -> Seq<Seq<char>> {
    b.map_values(|x: (String, Seq<usize>)| x.0@)
}

/// Whether hit `i` is listed in one of the buckets.
pub open spec fn in_bucket(b: Seq<(String, Seq<usize>)>, i: int) -> bool {
    exists|k: int, q: int| 0 <= k < b.len() && 0 <= q < b[k].1.len() && (#[trigger] b[k].1[q]) == i
}

/// Whether hit `i` is listed in one of the sections.
pub open spec fn in_section(t: Seq<Section>, i: int) -> bool {
    exists|j: int, q: int| 0 <= j < t.len() && 0 <= q < t[j].1.len() && (#[trigger] t[j].1[q]) == i
}

proof fn lemma_buckets_shape(h: Seq<GlobalSearchHit>)
    requires
        h.len() <= usize::MAX,
    ensures
        forall|k: int, q: int| 0 <= k < buckets(h).len() && 0 <= q < buckets(h)[k].1.len() ==>
            (#[trigger] buckets(h)[k].1[q]) < h.len() && h[buckets(h)[k].1[q] as int].room_id@ == buckets(h)[k].0@,
        forall|k: int, q1: int, q2: int| 0 <= k < buckets(h).len() && 0 <= q1 < q2 < buckets(h)[k].1.len() ==>
            (#[trigger] buckets(h)[k].1[q1]) < (#[trigger] buckets(h)[k].1[q2]),
        forall|k: int| 0 <= k < buckets(h).len() ==> (#[trigger] buckets(h)[k]).1.len() > 0,
        forall|i: int| 0 <= i < h.len() ==> #[trigger] in_bucket(buckets(h), i),
        bucket_rooms(buckets(h)).to_set() == room_ids(h),
    decreases h.len(),
{
    if h.len() == 0 {
        assert(bucket_rooms(buckets(h)) =~= Seq::empty());
        assert(h.map_values(|x: GlobalSearchHit| x.room_id@) =~= Seq::empty());
        assert(bucket_rooms(buckets(h)).to_set() =~= room_ids(h));
    } else {
        let d = h.drop_last();
        lemma_buckets_shape(d);
        let b = buckets(d);
        let nb = buckets(h);
        let i = (h.len() - 1) as usize;
        let r = h.last().room_id;
        assert(forall|x: int| 0 <= x < d.len() ==> h[x] == d[x]);
        assert(h.map_values(|x: GlobalSearchHit| x.room_id@) =~= d.map_values(|x: GlobalSearchHit| x.room_id@).push(r@));
        d.map_values(|x: GlobalSearchHit| x.room_id@).lemma_push_to_set_commute(r@);
        if exists|k: int| 0 <= k < b.len() && (#[trigger] b[k]).0@ == r@ {
            let k = choose|k: int| 0 <= k < b.len() && (#[trigger] b[k]).0@ == r@;
            assert(nb == b.update(k, (b[k].0, b[k].1.push(i))));
            assert forall|k2: int, q: int| 0 <= k2 < nb.len() && 0 <= q < nb[k2].1.len() implies
                (#[trigger] nb[k2].1[q]) < h.len() && h[nb[k2].1[q] as int].room_id@ == nb[k2].0@ by {
                if k2 == k {
                    assert(nb[k2].0 == b[k].0);
                    if q < b[k].1.len() {
                        assert(nb[k2].1[q] == b[k].1[q]);
                        assert(h[b[k].1[q] as int] == d[b[k].1[q] as int]);
                    } else {
                        assert(nb[k2].1[q] == i);
                    }
                } else {
                    assert(nb[k2] == b[k2]);
                    assert(h[b[k2].1[q] as int] == d[b[k2].1[q] as int]);
                }
            }
            assert forall|k2: int, q1: int, q2: int| 0 <= k2 < nb.len() && 0 <= q1 < q2 < nb[k2].1.len() implies
                (#[trigger] nb[k2].1[q1]) < (#[trigger] nb[k2].1[q2]) by {
                if k2 == k {
                    assert(nb[k2].1[q1] == b[k].1[q1]);
                    if q2 < b[k].1.len() {
                        assert(nb[k2].1[q2] == b[k].1[q2]);
                    } else {
                        assert(nb[k2].1[q2] == i);
                        assert(b[k].1[q1] < d.len());
                    }
                } else {
                    assert(nb[k2] == b[k2]);
                }
            }
            assert forall|k2: int| 0 <= k2 < nb.len() implies (#[trigger] nb[k2]).1.len() > 0 by {
                if k2 != k {
                    assert(nb[k2] == b[k2]);
                }
            }
            assert forall|x: int| 0 <= x < h.len() implies #[trigger] in_bucket(nb, x) by {
                if x < d.len() {
                    assert(in_bucket(b, x));
                    let (k2, q) = choose|k2: int, q: int| 0 <= k2 < b.len() && 0 <= q < b[k2].1.len() && (#[trigger] b[k2].1[q]) == x;
                    assert(nb[k2].1[q] == b[k2].1[q]);
                } else {
                    assert(nb[k].1[b[k].1.len() as int] == x);
                }
            }
            assert(bucket_rooms(nb) =~= bucket_rooms(b));
            assert(bucket_rooms(b)[k] == r@);
            assert(room_ids(h) =~= room_ids(d));
        } else {
            assert(nb == b.push((r, seq![i])));
            assert forall|k2: int, q: int| 0 <= k2 < nb.len() && 0 <= q < nb[k2].1.len() implies
                (#[trigger] nb[k2].1[q]) < h.len() && h[nb[k2].1[q] as int].room_id@ == nb[k2].0@ by {
                if k2 < b.len() {
                    assert(nb[k2] == b[k2]);
                    assert(h[b[k2].1[q] as int] == d[b[k2].1[q] as int]);
                }
            }
            assert forall|k2: int, q1: int, q2: int| 0 <= k2 < nb.len() && 0 <= q1 < q2 < nb[k2].1.len() implies
                (#[trigger] nb[k2].1[q1]) < (#[trigger] nb[k2].1[q2]) by {
                assert(nb[k2] == b[k2]);
            }
            assert forall|k2: int| 0 <= k2 < nb.len() implies (#[trigger] nb[k2]).1.len() > 0 by {
                if k2 < b.len() {
                    assert(nb[k2] == b[k2]);
                }
            }
            assert forall|x: int| 0 <= x < h.len() implies #[trigger] in_bucket(nb, x) by {
                if x < d.len() {
                    assert(in_bucket(b, x));
                    let (k2, q) = choose|k2: int, q: int| 0 <= k2 < b.len() && 0 <= q < b[k2].1.len() && (#[trigger] b[k2].1[q]) == x;
                    assert(nb[k2] == b[k2]);
                } else {
                    assert(nb[b.len() as int].1[0] == x);
                }
            }
            assert(bucket_rooms(nb) =~= bucket_rooms(b).push(r@));
            bucket_rooms(b).lemma_push_to_set_commute(r@);
        }
    }
}

/// Whether the sections are in order of their latest hit, most recent first.
pub open spec fn by_recency(t: Seq<Section>) -> bool {
    forall|j: int, k: int| 0 <= j < k < t.len() ==> (#[trigger] t[j]).2 >= (#[trigger] t[k]).2
}

/// Whether no two sections belong to the same room.
pub open spec fn rooms_distinct(t: Seq<Section>) -> bool {
    forall|j: int, k: int| 0 <= j < k < t.len() ==> (#[trigger] t[j]).0@ != (#[trigger] t[k]).0@
}

proof fn lemma_sort_sections(s: Seq<Section>)
    requires
        rooms_distinct(s),
    ensures
        sort_sections(s).len() == s.len(),
        forall|x: Section| sort_sections(s).contains(x) <==> s.contains(x),
        rooms_distinct(sort_sections(s)),
        by_recency(sort_sections(s)),
    decreases s.len(),
{
    if s.len() > 0 {
        let d = s.drop_last();
        let x = s.last();
        assert(rooms_distinct(d)) by {
            assert forall|j: int, k: int| 0 <= j < k < d.len() implies (#[trigger] d[j]).0@ != (#[trigger] d[k]).0@ by {
                assert(d[j] == s[j] && d[k] == s[k]);
            }
        }
        lemma_sort_sections(d);
        let t = sort_sections(d);
        lemma_section_insert_pos(t, x);
        let p = section_insert_pos(t, x);
        let u = sort_sections(s);
        assert(u == t.insert(p, x));
        assert forall|y: Section| u.contains(y) <==> s.contains(y) by {
            if u.contains(y) {
                let j = choose|j: int| 0 <= j < u.len() && u[j] == y;
                if j < p {
                    assert(t[j] == y && t.contains(y));
                } else if j > p {
                    assert(t[j - 1] == y && t.contains(y));
                }
                if y != x {
                    assert(t.contains(y));
                    assert(d.contains(y));
                    let m = choose|m: int| 0 <= m < d.len() && d[m] == y;
                    assert(d[m] == s[m]);
                } else {
                    assert(s[s.len() - 1] == y);
                }
            }
            if s.contains(y) {
                let m = choose|m: int| 0 <= m < s.len() && s[m] == y;
                if m == s.len() - 1 {
                    assert(u[p] == y);
                } else {
                    assert(d[m] == s[m]);
                    assert(d.contains(y));
                    assert(t.contains(y));
                    let j = choose|j: int| 0 <= j < t.len() && t[j] == y;
                    if j < p { assert(u[j] == y); } else { assert(u[j + 1] == y); }
                }
            }
        }
        // The new section's room is not among the others.
        assert forall|j: int| 0 <= j < t.len() implies (#[trigger] t[j]).0@ != x.0@ by {
            assert(t.contains(t[j]));
            assert(d.contains(t[j]));
            let m = choose|m: int| 0 <= m < d.len() && d[m] == t[j];
            assert(d[m] == s[m]);
        }
        assert forall|j: int, k: int| 0 <= j < k < u.len() implies (#[trigger] u[j]).0@ != (#[trigger] u[k]).0@ by {
            if k < p {
                assert(u[j] == t[j] && u[k] == t[k]);
            } else if k == p {
                assert(u[j] == t[j]);
            } else if j < p {
                assert(u[j] == t[j] && u[k] == t[k - 1]);
            } else if j == p {
                assert(u[k] == t[k - 1]);
            } else {
                assert(u[j] == t[j - 1] && u[k] == t[k - 1]);
            }
        }
        lemma_insert_section_by_recency(t, x);
    }
}

proof fn lemma_insert_section_by_recency(t: Seq<Section>, x: Section)
    requires
        by_recency(t),
    ensures
        by_recency(insert_section(t, x)),
        forall|j: int| 0 <= j < insert_section(t, x).len() ==>
            (#[trigger] insert_section(t, x)[j]).2 >= (if t.len() > 0 && t.last().2 < x.2 { t.last().2 } else { x.2 }),
    decreases t.len(),
{
    if t.len() == 0 {
    } else if comes_before(x, t.last()) {
        let d = t.drop_last();
        assert(by_recency(d)) by {
            assert forall|j: int, k: int| 0 <= j < k < d.len() implies (#[trigger] d[j]).2 >= (#[trigger] d[k]).2 by {
                assert(d[j] == t[j] && d[k] == t[k]);
            }
        }
        lemma_insert_section_by_recency(d, x);
        let w = insert_section(d, x);
        assert(forall|j: int| 0 <= j < d.len() ==> (#[trigger] d[j]).2 >= t.last().2) by {
            assert forall|j: int| 0 <= j < d.len() implies (#[trigger] d[j]).2 >= t.last().2 by {
                assert(d[j] == t[j]);
            }
        }
        assert(forall|j: int| 0 <= j < w.len() ==> (#[trigger] w[j]).2 >= t.last().2);
        assert(insert_section(t, x) == w.push(t.last()));
    } else {
        assert(insert_section(t, x) == t.push(x));
        assert forall|j: int| 0 <= j < t.len() implies (#[trigger] t[j]).2 >= x.2 by {
            if j < t.len() - 1 {
                assert(t[j].2 >= t[t.len() - 1].2);
            }
        }
    }
}

proof fn lemma_recent_is_latest(h: Seq<GlobalSearchHit>, idx: Seq<usize>)
    requires
        idx.len() > 0,
        forall|q: int| 0 <= q < idx.len() ==> (#[trigger] idx[q]) < h.len(),
    ensures
        forall|q: int| 0 <= q < idx.len() ==> h[(#[trigger] idx[q]) as int].timestamp <= recent(h, idx),
        exists|q: int| 0 <= q < idx.len() && h[(#[trigger] idx[q]) as int].timestamp == recent(h, idx),
    decreases idx.len(),
{
    let d = idx.drop_last();
    if idx.len() == 1 {
        assert(h[idx[0] as int].timestamp == recent(h, idx));
    } else {
        lemma_recent_is_latest(h, d);
        assert forall|q: int| 0 <= q < idx.len() implies h[(#[trigger] idx[q]) as int].timestamp <= recent(h, idx) by {
            if q < d.len() {
                assert(d[q] == idx[q]);
            }
        }
        if h[idx.last() as int].timestamp > recent(h, d) {
            assert(h[idx[idx.len() - 1] as int].timestamp == recent(h, idx));
        } else {
            let q = choose|q: int| 0 <= q < d.len() && h[(#[trigger] d[q]) as int].timestamp == recent(h, d);
            assert(idx[q] == d[q]);
        }
    }
}

/// Whether one of the section's hits has the section's time.
pub open spec fn holds_latest(h: Seq<GlobalSearchHit>, sec: Section) -> bool {
    exists|q: int| 0 <= q < sec.1.len() && h[(#[trigger] sec.1[q]) as int].timestamp == sec.2
}

proof fn lemma_section_is_bucket(h: Seq<GlobalSearchHit>, j: int) -> (k: int)
    requires
        0 <= j < sections(h).len(),
        h.len() <= usize::MAX,
    ensures
        0 <= k < buckets(h).len(),
        sections(h)[j] == (buckets(h)[k].0, buckets(h)[k].1, recent(h, buckets(h)[k].1)),
        buckets(h)[k].1.len() > 0,
        forall|q: int| 0 <= q < buckets(h)[k].1.len() ==> (#[trigger] buckets(h)[k].1[q]) < h.len(),
{
    let b = buckets(h);
    lemma_buckets_shape(h);
    lemma_buckets_distinct(h);
    let m = b.map_values(|x: (String, Seq<usize>)| (x.0, x.1, recent(h, x.1)));
    assert(rooms_distinct(m)) by {
        assert forall|j1: int, k1: int| 0 <= j1 < k1 < m.len() implies (#[trigger] m[j1]).0@ != (#[trigger] m[k1]).0@ by {
            assert(m[j1].0 == b[j1].0 && m[k1].0 == b[k1].0);
        }
    }
    lemma_sort_sections(m);
    let ss = sections(h);
    assert(ss.contains(ss[j]));
    assert(m.contains(ss[j]));
    let k = choose|k: int| 0 <= k < m.len() && m[k] == ss[j];
    assert forall|q: int| 0 <= q < b[k].1.len() implies (#[trigger] b[k].1[q]) < h.len() by {
        assert(h[b[k].1[q] as int].room_id@ == b[k].0@);
    }
    k
}

/// The sections of the search results: there is one per room the hits
/// belong to, no two for one room, and each is non-empty; each hit is in the
/// section of its own room, in exactly one place, and a section keeps its hits
/// in their original order; a section's time is that of its latest hit, and the
/// most recent section comes first.
pub proof fn lemma_sections_group_hits(h: Seq<GlobalSearchHit>)
    requires
        h.len() <= usize::MAX,
    ensures
        sections(h).len() == room_ids(h).len(),
        rooms_distinct(sections(h)),
        by_recency(sections(h)),
        forall|j: int| 0 <= j < sections(h).len() ==> (#[trigger] sections(h)[j]).1.len() > 0,
        forall|j: int, q: int| 0 <= j < sections(h).len() && 0 <= q < sections(h)[j].1.len() ==>
            (#[trigger] sections(h)[j].1[q]) < h.len() && h[sections(h)[j].1[q] as int].room_id@ == sections(h)[j].0@,
        forall|j: int, q1: int, q2: int| 0 <= j < sections(h).len() && 0 <= q1 < q2 < sections(h)[j].1.len() ==>
            (#[trigger] sections(h)[j].1[q1]) < (#[trigger] sections(h)[j].1[q2]),
        forall|i: int| 0 <= i < h.len() ==> #[trigger] in_section(sections(h), i),
        forall|j: int, q: int| 0 <= j < sections(h).len() && 0 <= q < sections(h)[j].1.len() ==>
            h[(#[trigger] sections(h)[j].1[q]) as int].timestamp <= sections(h)[j].2,
        forall|j: int| 0 <= j < sections(h).len() ==> #[trigger] holds_latest(h, sections(h)[j]),
{
    let b = buckets(h);
    lemma_buckets_shape(h);
    lemma_buckets_distinct(h);
    let m = b.map_values(|x: (String, Seq<usize>)| (x.0, x.1, recent(h, x.1)));
    assert(rooms_distinct(m)) by {
        assert forall|j: int, k: int| 0 <= j < k < m.len() implies (#[trigger] m[j]).0@ != (#[trigger] m[k]).0@ by {
            assert(m[j].0 == b[j].0 && m[k].0 == b[k].0);
        }
    }
    lemma_sort_sections(m);
    let ss = sections(h);
    assert(ss == sort_sections(m));
    // Each section is one of the buckets, with its latest time.
    assert forall|j: int| 0 <= j < ss.len() implies (#[trigger] ss[j]).1.len() > 0 by {
        lemma_section_is_bucket(h, j);
    }
    assert forall|j: int, q: int| 0 <= j < ss.len() && 0 <= q < ss[j].1.len() implies
        (#[trigger] ss[j].1[q]) < h.len() && h[ss[j].1[q] as int].room_id@ == ss[j].0@ by {
        let k = lemma_section_is_bucket(h, j);
        assert(b[k].1[q] == ss[j].1[q]);
    }
    assert forall|j: int, q1: int, q2: int| 0 <= j < ss.len() && 0 <= q1 < q2 < ss[j].1.len() implies
        (#[trigger] ss[j].1[q1]) < (#[trigger] ss[j].1[q2]) by {
        let k = lemma_section_is_bucket(h, j);
        assert(b[k].1[q1] == ss[j].1[q1] && b[k].1[q2] == ss[j].1[q2]);
    }
    assert forall|i: int| 0 <= i < h.len() implies #[trigger] in_section(ss, i) by {
        assert(in_bucket(b, i));
        let (k, q) = choose|k: int, q: int| 0 <= k < b.len() && 0 <= q < b[k].1.len() && (#[trigger] b[k].1[q]) == i;
        assert(m.contains(m[k]));
        assert(ss.contains(m[k]));
        let j = choose|j: int| 0 <= j < ss.len() && ss[j] == m[k];
        assert(ss[j].1[q] == i);
    }
    assert forall|j: int, q: int| 0 <= j < ss.len() && 0 <= q < ss[j].1.len() implies
        h[(#[trigger] ss[j].1[q]) as int].timestamp <= ss[j].2 by {
        let k = lemma_section_is_bucket(h, j);
        lemma_recent_is_latest(h, b[k].1);
        assert(b[k].1[q] == ss[j].1[q]);
    }
    assert forall|j: int| 0 <= j < ss.len() implies #[trigger] holds_latest(h, ss[j]) by {
        let k = lemma_section_is_bucket(h, j);
        lemma_recent_is_latest(h, b[k].1);
        let q = choose|q: int| 0 <= q < b[k].1.len() && h[(#[trigger] b[k].1[q]) as int].timestamp == recent(h, b[k].1);
        assert(ss[j].1[q] == b[k].1[q]);
        assert(h[ss[j].1[q] as int].timestamp == ss[j].2);
    }
    // One section per room.
    assert(bucket_rooms(b).no_duplicates()) by {
        assert forall|j: int, k: int| 0 <= j < bucket_rooms(b).len() && 0 <= k < bucket_rooms(b).len() && j != k
            implies bucket_rooms(b)[j] != bucket_rooms(b)[k] by {
            if j < k { assert(b[j].0@ != b[k].0@); } else { assert(b[k].0@ != b[j].0@); }
        }
    }
    bucket_rooms(b).unique_seq_to_set();
}

fn section_before(a: &(String, Vec<usize>, u64), b: &(String, Vec<usize>, u64)) -> (r: bool)
    ensures
        r == comes_before((a.0, a.1@, a.2), (b.0, b.1@, b.2)),
{
    a.2 > b.2 || (a.2 == b.2 && str_lt(&a.0, &b.0))
}

pub open spec fn section_models(v: Seq<(String, Vec<usize>, u64)>) -> Seq<Section> {
    v.map_values(|s: (String, Vec<usize>, u64)| (s.0, s.1@, s.2))
}

fn copy_indices(v: &Vec<usize>) -> (r: Vec<usize>)
    ensures
        r@ == v@,
{
    let mut r: Vec<usize> = Vec::new();
    let mut i: usize = 0;
    while i < v.len()
        invariant
            i <= v@.len(),
            r@ == v@.take(i as int),
        decreases v@.len() - i,
    {
        r.push(v[i]);
        assert(v@.take(i + 1) =~= v@.take(i as int).push(v@[i as int]));
        i = i + 1;
    }
    assert(v@.take(i as int) =~= v@);
    r
}

/// Group hits by room, sort sections by most-recent hit timestamp (descending,
/// then by room ID), and flatten into a render list. Hits within each section
/// keep their original order.
pub fn build_render_items(hits: &[GlobalSearchHit]) -> (r: Vec<RenderItem>)
    ensures
        r@ == flatten_sections(sections(hits@)),
{
    let ghost h = hits@;
    // Bucket the hits by room, preserving the incoming order.
    let mut bk: Vec<(String, Vec<usize>)> = Vec::new();
    let mut i: usize = 0;
    while i < hits.len()
        invariant
            i <= h.len(),
            h == hits@,
            bk@.map_values(|b: (String, Vec<usize>)| (b.0, b.1@)) == buckets(h.take(i as int)),
            forall|j: int, q: int| 0 <= j < bk@.len() && 0 <= q < bk@[j].1@.len() ==> (#[trigger] bk@[j].1@[q]) < i,
        decreases h.len() - i,
    {
        let ghost prev = bk@.map_values(|b: (String, Vec<usize>)| (b.0, b.1@));
        let ghost t = h.take(i + 1);
        assert(t.drop_last() =~= h.take(i as int));
        assert(t.last() == h[i as int]);
        proof { lemma_buckets_distinct(h.take(i as int)); }
        let mut k: usize = 0;
        let mut found = false;
        while k < bk.len() && !found
            invariant
                k <= bk@.len(),
                prev == bk@.map_values(|b: (String, Vec<usize>)| (b.0, b.1@)),
                found ==> k < bk@.len() && prev[k as int].0@ == hits@[i as int].room_id@,
                forall|j: int| 0 <= j < k ==> (#[trigger] prev[j]).0@ != hits@[i as int].room_id@,
                i < hits@.len(),
            decreases bk@.len() - k + (if found { 0int } else { 1int }),
        {
            assert(prev[k as int].0 == bk@[k as int].0);
            if bk[k].0 == hits[i].room_id {
                found = true;
            } else {
                k = k + 1;
            }
        }
        if found {
            proof {
                let r = hits@[i as int].room_id;
                let k2 = choose|k2: int| 0 <= k2 < prev.len() && (#[trigger] prev[k2]).0@ == r@;
                assert(k2 == k as int) by {
                    if k2 < k as int { assert(prev[k2].0@ != r@); }
                    if k2 > k as int { assert(prev[k as int].0@ != prev[k2].0@); }
                }
            }
            let ghost bk0 = bk@;
            let (room, mut idx) = bk.remove(k);
            idx.push(i);
            bk.insert(k, (room, idx));
            assert forall|j: int, q: int| 0 <= j < bk@.len() && 0 <= q < bk@[j].1@.len() implies (#[trigger] bk@[j].1@[q]) < i + 1 by {
                if j != k as int {
                    assert(bk@[j] == bk0[j]);
                } else if q < bk0[j].1@.len() {
                    assert(bk@[j].1@[q] == bk0[j].1@[q]);
                }
            }
            assert(bk@.map_values(|b: (String, Vec<usize>)| (b.0, b.1@)) =~= prev.update(k as int, (prev[k as int].0, prev[k as int].1.push(i))));
        } else {
            let ghost bk0 = bk@;
            let mut idx: Vec<usize> = Vec::new();
            idx.push(i);
            bk.push((hits[i].room_id.clone(), idx));
            assert forall|j: int, q: int| 0 <= j < bk@.len() && 0 <= q < bk@[j].1@.len() implies (#[trigger] bk@[j].1@[q]) < i + 1 by {
                if j < bk0.len() {
                    assert(bk@[j] == bk0[j]);
                }
            }
            assert(bk@.map_values(|b: (String, Vec<usize>)| (b.0, b.1@)) =~= prev.push((hits@[i as int].room_id, seq![i])));
        }
        i = i + 1;
    }
    assert(h.take(i as int) =~= h);
    let ghost bs = buckets(h);
    let ghost secs = bs.map_values(|b: (String, Seq<usize>)| (b.0, b.1, recent(h, b.1)));
    // Compute each section's latest timestamp and sort the sections.
    let mut sorted: Vec<(String, Vec<usize>, u64)> = Vec::new();
    let mut b: usize = 0;
    while b < bk.len()
        invariant
            b <= bk@.len(),
            h == hits@,
            bk@.map_values(|x: (String, Vec<usize>)| (x.0, x.1@)) == bs,
            secs == bs.map_values(|x: (String, Seq<usize>)| (x.0, x.1, recent(h, x.1))),
            section_models(sorted@) == sort_sections(secs.take(b as int)),
            forall|j: int, q: int| 0 <= j < bk@.len() && 0 <= q < bk@[j].1@.len() ==> (#[trigger] bk@[j].1@[q]) < h.len(),
        decreases bk@.len() - b,
    {
        let idx = &bk[b].1;
        assert(bs[b as int] == (bk@[b as int].0, idx@));
        let mut latest: u64 = 0;
        let mut q: usize = 0;
        while q < idx.len()
            invariant
                q <= idx@.len(),
                h == hits@,
                forall|q2: int| 0 <= q2 < idx@.len() ==> (#[trigger] idx@[q2]) < h.len(),
                latest == recent(h, idx@.take(q as int)),
            decreases idx@.len() - q,
        {
            assert(idx@.take(q + 1).drop_last() =~= idx@.take(q as int));
            assert(idx@.take(q + 1).last() == idx@[q as int]);
            let t = hits[idx[q]].timestamp;
            if q == 0 || t > latest {
                latest = t;
            }
            q = q + 1;
        }
        assert(idx@.take(q as int) =~= idx@);
        let x = (bk[b].0.clone(), copy_indices(idx), latest);
        let ghost xm = (x.0, x.1@, x.2);
        assert(xm == secs[b as int]);
        let ghost t = section_models(sorted@);
        let mut p = sorted.len();
        assert(t.take(p as int) =~= t);
        while p > 0 && section_before(&x, &sorted[p - 1])
            invariant
                p <= t.len(),
                section_models(sorted@) == t,
                xm == (x.0, x.1@, x.2),
                section_insert_pos(t, xm) == section_insert_pos(t.take(p as int), xm),
            decreases p,
        {
            assert(t[p - 1] == (sorted@[p - 1].0, sorted@[p - 1].1@, sorted@[p - 1].2));
            assert(t.take(p as int).drop_last() =~= t.take(p - 1));
            assert(t.take(p as int).last() == t[p - 1]);
            p = p - 1;
        }
        proof {
            if p > 0 {
                assert(t[p - 1] == (sorted@[p - 1].0, sorted@[p - 1].1@, sorted@[p - 1].2));
                assert(t.take(p as int).last() == t[p - 1]);
            }
            lemma_section_insert_pos(t, xm);
        }
        sorted.insert(p, x);
        assert(section_models(sorted@) =~= t.insert(p as int, xm));
        assert(secs.take(b + 1).drop_last() =~= secs.take(b as int));
        assert(secs.take(b + 1).last() == secs[b as int]);
        b = b + 1;
    }
    assert(secs.take(b as int) =~= secs);
    // Flatten into the render plan.
    let ghost ss = sections(h);
    assert(section_models(sorted@) == ss);
    let mut out: Vec<RenderItem> = Vec::new();
    let mut s: usize = 0;
    while s < sorted.len()
        invariant
            s <= sorted@.len(),
            section_models(sorted@) == ss,
            out@ == flatten_sections(ss.take(s as int)),
        decreases sorted@.len() - s,
    {
        let sec = &sorted[s];
        assert(ss[s as int] == (sec.0, sec.1@, sec.2));
        let ghost before = out@;
        out.push(RenderItem::Header { room_id: sec.0.clone(), count: sec.1.len() });
        let mut q: usize = 0;
        while q < sec.1.len()
            invariant
                q <= sec.1@.len(),
                out@ == before + seq![RenderItem::Header { room_id: sec.0, count: sec.1@.len() as usize }]
                    + sec.1@.take(q as int).map_values(|i: usize| RenderItem::Hit { hit_index: i }),
            decreases sec.1@.len() - q,
        {
            out.push(RenderItem::Hit { hit_index: sec.1[q] });
            assert(sec.1@.take(q + 1) =~= sec.1@.take(q as int).push(sec.1@[q as int]));
            assert(sec.1@.take(q + 1).map_values(|i: usize| RenderItem::Hit { hit_index: i })
                =~= sec.1@.take(q as int).map_values(|i: usize| RenderItem::Hit { hit_index: i }).push(RenderItem::Hit { hit_index: sec.1@[q as int] }));
            q = q + 1;
        }
        assert(sec.1@.take(q as int) =~= sec.1@);
        assert(ss.take(s + 1).drop_last() =~= ss.take(s as int));
        assert(ss.take(s + 1).last() == ss[s as int]);
        assert(out@ =~= flatten_sections(ss.take(s + 1)));
        s = s + 1;
    }
    assert(ss.take(s as int) =~= ss);
    out
}

// ---------------------------------------------------------------------------
// Counting rooms
// ---------------------------------------------------------------------------

/// The IDs of the rooms that the hits belong to.
pub open spec fn room_ids(h: Seq<GlobalSearchHit>) -> Set<Seq<char>> {
    h.map_values(|x: GlobalSearchHit| x.room_id@).to_set()
}

/// Distinct-room count across the hit list.
pub fn group_count(hits: &[GlobalSearchHit]) -> (n: usize)
    ensures
        n == room_ids(hits@).len(),
{
    let ghost h = hits@;
    let mut seen: Vec<String> = Vec::new();
    let mut i: usize = 0;
    assert(h.take(0).map_values(|x: GlobalSearchHit| x.room_id@) =~= seq![]);
    assert(views(seen@) =~= seq![]);
    assert(views(seen@).to_set() =~= Set::empty());
    while i < hits.len()
        invariant
            i <= h.len(),
            h == hits@,
            views(seen@).no_duplicates(),
            views(seen@).to_set() == room_ids(h.take(i as int)),
        decreases h.len() - i,
    {
        let mut k: usize = 0;
        let mut found = false;
        while k < seen.len() && !found
            invariant
                k <= seen@.len(),
                i < hits@.len(),
                found ==> k < seen@.len() && seen@[k as int]@ == hits@[i as int].room_id@,
                forall|j: int| 0 <= j < k ==> (#[trigger] seen@[j])@ != hits@[i as int].room_id@,
            decreases seen@.len() - k + (if found { 0int } else { 1int }),
        {
            if seen[k] == hits[i].room_id {
                found = true;
            } else {
                k = k + 1;
            }
        }
        let ghost r = hits@[i as int].room_id@;
        let ghost before = views(seen@);
        assert(h.take(i + 1).map_values(|x: GlobalSearchHit| x.room_id@)
            =~= h.take(i as int).map_values(|x: GlobalSearchHit| x.room_id@).push(r));
        proof { h.take(i as int).map_values(|x: GlobalSearchHit| x.room_id@).lemma_push_to_set_commute(r); }
        assert(room_ids(h.take(i + 1)) == room_ids(h.take(i as int)).insert(r));
        if found {
            assert(before[k as int] == r);
            assert(room_ids(h.take(i + 1)) =~= room_ids(h.take(i as int)));
        } else {
            assert(!before.contains(r)) by {
                if before.contains(r) {
                    let j = choose|j: int| 0 <= j < before.len() && before[j] == r;
                    assert(seen@[j]@ == r);
                }
            }
            seen.push(hits[i].room_id.clone());
            assert(views(seen@) =~= before.push(r));
            proof { before.lemma_push_to_set_commute(r); }
        }
        i = i + 1;
    }
    assert(h.take(i as int) =~= h);
    proof { views(seen@).unique_seq_to_set(); }
    seen.len()
}

// ---------------------------------------------------------------------------
// Text of a result row and of a section header
// ---------------------------------------------------------------------------

/// The longest message preview, in characters, before it is cut.
pub const BODY_PREVIEW_MAX: usize = 140;

/// The body with each line break replaced by a space.
pub open spec fn spaced(s: Seq<char>) -> Seq<char> {
    s.map_values(|c: char| if c == '\n' { ' ' } else { c })
}

/// The position of the last whitespace character of `s`, or -1 when it has none.
pub open spec fn last_white_index(s: Seq<char>) -> int
    decreases s.len(),
{
    if s.len() == 0 {
        -1
    } else if is_white(s.last()) {
        s.len() - 1
    } else {
        last_white_index(s.drop_last())
    }
}

/// The preview of a message body: line breaks become spaces; a body longer than
/// the limit keeps its first characters up to the last whitespace among them
/// (all of them when there is none), followed by `…`.
pub open spec fn body_preview(body: Seq<char>) -> Seq<char> {
    let t = spaced(body);
    if t.len() <= BODY_PREVIEW_MAX {
        t
    } else {
        let head = t.take(BODY_PREVIEW_MAX as int);
        let w = last_white_index(head);
        (if w >= 0 { head.take(w) } else { head }) + "…"@
    }
}

/// Truncate a message body for display in a result row preview.
pub fn truncate_body(body: &str) -> (r: String)
    ensures
        r@ == body_preview(body@),
{
    let chars = chars_of(body);
    let mut t: Vec<char> = Vec::new();
    let mut i: usize = 0;
    while i < chars.len()
        invariant
            i <= chars@.len(),
            chars@ == body@,
            t@ == spaced(body@).take(i as int),
        decreases chars@.len() - i,
    {
        let c = chars[i];
        if c == '\n' {
            t.push(' ');
        } else {
            t.push(c);
        }
        assert(spaced(body@).take(i + 1) =~= spaced(body@).take(i as int).push(spaced(body@)[i as int]));
        i = i + 1;
    }
    assert(spaced(body@).take(i as int) =~= spaced(body@));
    if t.len() <= BODY_PREVIEW_MAX {
        return string_of_prefix(t.as_slice(), t.len());
    }
    let ghost head = t@.take(BODY_PREVIEW_MAX as int);
    let mut j: usize = BODY_PREVIEW_MAX;
    let mut found = false;
    assert(head.take(BODY_PREVIEW_MAX as int) =~= head);
    while j > 0 && !found
        invariant
            j <= BODY_PREVIEW_MAX,
            t@.len() > BODY_PREVIEW_MAX,
            head == t@.take(BODY_PREVIEW_MAX as int),
            !found ==> last_white_index(head) == last_white_index(head.take(j as int)),
            found ==> j < BODY_PREVIEW_MAX && last_white_index(head) == j,
        decreases j + (if found { 0int } else { 1int }),
    {
        assert(head.take(j as int).last() == t@[j - 1]);
        assert(head.take(j as int).drop_last() =~= head.take(j - 1));
        if char_is_whitespace(t[j - 1]) {
            found = true;
        }
        j = j - 1;
    }
    let cut = if found { j } else { BODY_PREVIEW_MAX };
    assert(head.take(cut as int) =~= t@.take(cut as int));
    let mut r = string_of_prefix(t.as_slice(), cut);
    r.append("…");
    r
}

proof fn lemma_last_white_index_bounds(s: Seq<char>)
    ensures
        -1 <= last_white_index(s) < s.len(),
    decreases s.len(),
{
    if s.len() > 0 {
        lemma_last_white_index_bounds(s.drop_last());
    }
}

/// A preview is never longer than the limit plus the ellipsis; a body that
/// was cut ends in `…`, and a body within the limit is kept whole, with its
/// line breaks turned into spaces.
pub proof fn lemma_body_preview_bounds(body: Seq<char>)
    ensures
        body_preview(body).len() <= BODY_PREVIEW_MAX + 1,
        spaced(body).len() > BODY_PREVIEW_MAX ==> body_preview(body).last() == '\u{2026}',
        spaced(body).len() <= BODY_PREVIEW_MAX ==> body_preview(body) == spaced(body),
{
    reveal_strlit("…");
    let t = spaced(body);
    if t.len() > BODY_PREVIEW_MAX {
        lemma_last_white_index_bounds(t.take(BODY_PREVIEW_MAX as int));
    }
}

/// The hit-count text of a section header.
pub open spec fn match_count_text(n: nat) -> Seq<char> {
    if n == 1 { "1 match"@ } else { decimal(n) + " matches"@ }
}

fn count_text(hit_count: usize) -> (r: String)
    ensures
        r@ == match_count_text(hit_count as nat),
{
    if hit_count == 1 {
        String::from_str("1 match")
    } else {
        let mut r = String::new();
        push_decimal(&mut r, hit_count);
        r.append(" matches");
        assert(r@ =~= decimal(hit_count as nat) + " matches"@);
        r
    }
}

/// A room's section header: its display name and how many hits it holds.
pub struct GlobalSearchSectionHeader {
    pub room_name: String,
    pub hit_count: String,
}

impl GlobalSearchSectionHeader {
    pub fn new() -> (r: GlobalSearchSectionHeader)
        ensures
            r.room_name@ == Seq::<char>::empty(),
            r.hit_count@ == Seq::<char>::empty(),
    {
        GlobalSearchSectionHeader { room_name: String::new(), hit_count: String::new() }
    }

    /// Shows the room's display name and its hit count.
    pub fn set_header(&mut self, room_display: &str, hit_count: usize)
        ensures
            final(self).room_name@ == room_display@,
            final(self).hit_count@ == match_count_text(hit_count as nat),
    {
        self.room_name = String::from_str(room_display);
        self.hit_count = count_text(hit_count);
    }
}

/// The name shown for a sender: the display name when there is one, else the user ID.
pub open spec fn sender_text(hit: GlobalSearchHit) -> Seq<char> {
    match hit.sender_display_name {
        Some(n) => n@,
        None => hit.sender_user_id@,
    }
}

/// One result row: the event it leads to, and the texts it shows.
pub struct GlobalSearchHitRow {
    pub event_id: Option<String>,
    pub room_id: Option<String>,
    pub sender: String,
    pub timestamp: String,
    pub body: String,
}

impl GlobalSearchHitRow {
    /// A row that is bound to no hit yet.
    pub fn new() -> (r: GlobalSearchHitRow)
        ensures
            r.event_id is None,
            r.room_id is None,
            r.sender@ == Seq::<char>::empty(),
            r.timestamp@ == Seq::<char>::empty(),
            r.body@ == Seq::<char>::empty(),
    {
        GlobalSearchHitRow {
            event_id: None,
            room_id: None,
            sender: String::new(),
            timestamp: String::new(),
            body: String::new(),
        }
    }

    /// Binds the row to `hit`; `timestamp_text` is the hit's time as the
    /// caller formats it.
    pub fn set_hit(&mut self, hit: &GlobalSearchHit, timestamp_text: &str)
        ensures
            final(self).event_id == Some(hit.event_id),
            final(self).room_id == Some(hit.room_id),
            final(self).sender@ == sender_text(*hit),
            final(self).timestamp@ == timestamp_text@,
            final(self).body@ == body_preview(hit.body@),
    {
        self.event_id = Some(hit.event_id.clone());
        self.room_id = Some(hit.room_id.clone());
        self.sender = match &hit.sender_display_name {
            Some(n) => n.clone(),
            None => hit.sender_user_id.clone(),
        };
        self.timestamp = String::from_str(timestamp_text);
        self.body = truncate_body(hit.body.as_str());
    }
}

/// The name shown for a room: its cached display name, unless that is missing,
/// empty or the placeholder `Empty`; else the room ID.
pub open spec fn room_display(room_id: Seq<char>, cached: Option<Seq<char>>) -> Seq<char> {
    match cached {
        Some(n) => if n.len() > 0 && n != "Empty"@ { n } else { room_id },
        None => room_id,
    }
}

/// The name to show for a room, from the display name that the rooms list has
/// cached for it, if any.
pub fn resolve_room_display(room_id: &str, cached_name: Option<&str>) -> (r: String)
    ensures
        r@ == room_display(room_id@, match cached_name { Some(n) => Some(n@), None => None }),
{
    match cached_name {
        Some(n) => {
            let name = String::from_str(n);
            let placeholder = String::from_str("Empty");
            if !n.is_empty() && !(name == placeholder) {
                return name;
            }
            String::from_str(room_id)
        },
        None => String::from_str(room_id),
    }
}

// ---------------------------------------------------------------------------
// The search widget's state
// ---------------------------------------------------------------------------

/// Status of the global search. Drives the visible affordances (status line,
/// results list, load-more button).
pub enum Status {
    /// No query has been searched yet. Everything hidden.
    Idle,
    /// A search is in flight.
    Loading { query: String },
    /// Results received and the hit list is non-empty.
    Results { total: u64, has_more: bool },
    /// Search succeeded but produced zero hits.
    Empty,
    /// Request failed.
    Failed { error: String },
}

/// What the widget shows: the status line and which parts are visible.
pub struct SearchDisplay {
    pub status_text: String,
    pub status_visible: bool,
    pub results_visible: bool,
    pub load_more_visible: bool,
}

/// The length of a query or error shown in the status line, in characters.
pub const STATUS_QUERY_MAX: usize = 40;

/// The status line.
pub open spec fn status_line(st: Status, hits: Seq<GlobalSearchHit>, last_query: Seq<char>) -> Seq<char> {
    match st {
        Status::Idle => Seq::empty(),
        Status::Loading { query } =>
            "Searching for \u{201C}"@ + truncated(query@, STATUS_QUERY_MAX as nat) + "\u{201D}\u{2026}"@,
        Status::Empty =>
            "No messages match \u{201C}"@ + truncated(last_query, STATUS_QUERY_MAX as nat) + "\u{201D}."@,
        Status::Results { total, has_more } =>
            if has_more {
                "Showing "@ + decimal(hits.len()) + " of "@ + decimal(total as nat) + " matches in "@
                    + decimal(room_ids(hits).len()) + " room(s)"@
            } else if total == 1 {
                "1 match"@
            } else {
                decimal(total as nat) + " matches in "@ + decimal(room_ids(hits).len()) + " room(s)"@
            },
        Status::Failed { error } => "Search failed: "@ + error@,
    }
}

/// Whether the results list is visible.
pub open spec fn results_shown(st: Status, hits: Seq<GlobalSearchHit>) -> bool {
    match st {
        Status::Idle => false,
        Status::Loading { .. } => hits.len() > 0,
        Status::Empty => false,
        Status::Results { .. } => true,
        Status::Failed { .. } => hits.len() > 0,
    }
}

/// Whether the load-more button is visible.
pub open spec fn load_more_shown(st: Status) -> bool {
    match st {
        Status::Results { has_more, .. } => has_more,
        _ => false,
    }
}

/// The total shown for a page of results: the server's count, but never less
/// than the hits at hand.
pub open spec fn shown_total(total_count: u64, hit_count: nat) -> u64 {
    if total_count >= hit_count { total_count } else { hit_count as u64 }
}

/// The state of the global message search.
pub struct GlobalMessageSearch {
    hits: Vec<GlobalSearchHit>,
    /// Flattened render plan, rebuilt whenever `hits` changes.
    render_items: Vec<RenderItem>,
    status: Status,
    next_batch: Option<String>,
    /// The query string of the last completed (or in-flight) search.
    last_query: String,
    /// The first item the results list shows (its scroll position).
    first_visible: usize,
}

impl GlobalMessageSearch {
    #[verifier::type_invariant]
    spec fn items_follow_hits(self) -> bool {
        self.render_items@ == flatten_sections(sections(self.hits@))
    }

    /// The hits at hand.
    pub closed spec fn hit_list(self) -> Seq<GlobalSearchHit> {
        self.hits@
    }

    /// The current status.
    pub closed spec fn status_of(self) -> Status {
        self.status
    }

    /// The pagination token.
    pub closed spec fn next_batch_of(self) -> Option<String> {
        self.next_batch
    }

    /// The last query.
    pub closed spec fn last_query_of(self) -> Seq<char> {
        self.last_query@
    }

    /// The first item the results list shows.
    pub closed spec fn first_visible_of(self) -> usize {
        self.first_visible
    }

    /// The idle state: no hits, no query.
    pub fn new() -> (r: GlobalMessageSearch)
        ensures
            r.hit_list() == Seq::<GlobalSearchHit>::empty(),
            r.status_of() is Idle,
            r.next_batch_of() is None,
            r.last_query_of() == Seq::<char>::empty(),
            r.first_visible_of() == 0,
    {
        let r = GlobalMessageSearch {
            hits: Vec::new(),
            render_items: Vec::new(),
            status: Status::Idle,
            next_batch: None,
            last_query: String::new(),
            first_visible: 0,
        };
        assert(r.hits@ =~= Seq::empty());
        assert(sections(r.hits@) =~= Seq::empty()) by {
            assert(buckets(r.hits@) =~= Seq::empty());
        }
        r
    }

    /// Marks a search as in flight; the results at hand stay.
    pub fn set_loading(&mut self, query: String)
        ensures
            final(self).status_of() == (Status::Loading { query }),
            final(self).last_query_of() == query@,
            final(self).hit_list() == old(self).hit_list(),
            final(self).next_batch_of() == old(self).next_batch_of(),
            final(self).first_visible_of() == old(self).first_visible_of(),
    {
        proof { use_type_invariant(&*self); }
        let q = query.clone();
        self.status = Status::Loading { query };
        self.last_query = q;
    }

    /// Replaces the results with a freshly arrived first page.
    pub fn set_results(&mut self, query: String, hits: Vec<GlobalSearchHit>, total_count: u64, next_batch: Option<String>)
        ensures
            final(self).last_query_of() == query@,
            final(self).hit_list() == hits@,
            final(self).next_batch_of() == next_batch,
            final(self).status_of() == (if hits@.len() == 0 {
                Status::Empty
            } else {
                Status::Results { total: shown_total(total_count, hits@.len()), has_more: next_batch is Some }
            }),
            final(self).first_visible_of() == 0,
    {
        let items = build_render_items(hits.as_slice());
        let n = hits.len() as u64;
        let status = if hits.len() == 0 {
            Status::Empty
        } else {
            Status::Results {
                total: if total_count >= n { total_count } else { n },
                has_more: next_batch.is_some(),
            }
        };
        *self = GlobalMessageSearch { hits, render_items: items, status, next_batch, last_query: query, first_visible: 0 };
    }

    /// Appends a follow-up page of results. With no hits at all the search
    /// is empty; otherwise it has results. The list keeps its position.
    pub fn append_results(&mut self, hits: Vec<GlobalSearchHit>, total_count: u64, next_batch: Option<String>)
        ensures
            final(self).hit_list() == old(self).hit_list() + hits@,
            final(self).next_batch_of() == next_batch,
            final(self).last_query_of() == old(self).last_query_of(),
            final(self).status_of() == (if old(self).hit_list().len() + hits@.len() == 0 {
                Status::Empty
            } else {
                Status::Results {
                    total: shown_total(total_count, old(self).hit_list().len() + hits@.len()),
                    has_more: next_batch is Some,
                }
            }),
            final(self).first_visible_of() == old(self).first_visible_of(),
    {
        let mut current = GlobalMessageSearch::new();
        std::mem::swap(&mut current, self);
        let GlobalMessageSearch { hits: mut all, last_query: q, first_visible, .. } = current;
        let mut more = hits;
        all.append(&mut more);
        let items = build_render_items(all.as_slice());
        let n = all.len() as u64;
        let status = if all.len() == 0 {
            Status::Empty
        } else {
            Status::Results {
                total: if total_count >= n { total_count } else { n },
                has_more: next_batch.is_some(),
            }
        };
        *self = GlobalMessageSearch { hits: all, render_items: items, status, next_batch, last_query: q, first_visible };
    }

    /// The results list was scrolled so that `first` is its first item.
    pub fn scrolled_to(&mut self, first: usize)
        ensures
            final(self).first_visible_of() == first,
            final(self).hit_list() == old(self).hit_list(),
            final(self).status_of() == old(self).status_of(),
            final(self).next_batch_of() == old(self).next_batch_of(),
            final(self).last_query_of() == old(self).last_query_of(),
    {
        proof { use_type_invariant(&*self); }
        self.first_visible = first;
    }

    /// The first item the results list shows.
    pub fn first_visible(&self) -> (r: usize)
        ensures
            r == self.first_visible_of(),
    {
        self.first_visible
    }

    /// Surfaces a failed request.
    pub fn set_error(&mut self, error: String)
        ensures
            final(self).status_of() == (Status::Failed { error }),
            final(self).hit_list() == old(self).hit_list(),
            final(self).next_batch_of() == old(self).next_batch_of(),
            final(self).last_query_of() == old(self).last_query_of(),
            final(self).first_visible_of() == old(self).first_visible_of(),
    {
        proof { use_type_invariant(&*self); }
        self.status = Status::Failed { error };
    }

    /// Resets to the idle state; the list keeps its position.
    pub fn clear(&mut self)
        ensures
            final(self).hit_list() == Seq::<GlobalSearchHit>::empty(),
            final(self).status_of() is Idle,
            final(self).next_batch_of() is None,
            final(self).last_query_of() == Seq::<char>::empty(),
            final(self).first_visible_of() == old(self).first_visible_of(),
    {
        let first = self.first_visible;
        *self = GlobalMessageSearch::new();
        proof { use_type_invariant(&*self); }
        self.first_visible = first;
    }

    /// The current pagination token, if any.
    pub fn next_batch(&self) -> (r: Option<&str>)
        ensures
            r is Some == self.next_batch_of() is Some,
            r is Some ==> r->0@ == self.next_batch_of()->0@,
    {
        match &self.next_batch {
            Some(t) => Some(t.as_str()),
            None => None,
        }
    }

    /// The query string that produced the current results.
    pub fn last_query(&self) -> (r: &str)
        ensures
            r@ == self.last_query_of(),
    {
        self.last_query.as_str()
    }

    /// The hits at hand.
    pub fn hits(&self) -> (r: &[GlobalSearchHit])
        ensures
            r@ == self.hit_list(),
    {
        self.hits.as_slice()
    }

    /// The render plan of the hits at hand.
    pub fn render_items(&self) -> (r: &[RenderItem])
        ensures
            r@ == flatten_sections(sections(self.hit_list())),
    {
        proof { use_type_invariant(self); }
        self.render_items.as_slice()
    }

    /// What the widget shows in its current state.
    pub fn refresh_display(&self) -> (d: SearchDisplay)
        ensures
            d.status_text@ == status_line(self.status_of(), self.hit_list(), self.last_query_of()),
            d.status_visible == !(self.status_of() is Idle),
            d.results_visible == results_shown(self.status_of(), self.hit_list()),
            d.load_more_visible == load_more_shown(self.status_of()),
    {
        match &self.status {
            Status::Idle => SearchDisplay {
                status_text: String::new(),
                status_visible: false,
                results_visible: false,
                load_more_visible: false,
            },
            Status::Loading { query } => {
                let mut t = String::from_str("Searching for \u{201C}");
                let q = truncate_for_display(query.as_str(), STATUS_QUERY_MAX);
                t.append(q.as_str());
                t.append("\u{201D}\u{2026}");
                SearchDisplay { status_text: t, status_visible: true, results_visible: self.hits.len() > 0, load_more_visible: false }
            },
            Status::Empty => {
                let mut t = String::from_str("No messages match \u{201C}");
                let q = truncate_for_display(self.last_query.as_str(), STATUS_QUERY_MAX);
                t.append(q.as_str());
                t.append("\u{201D}.");
                SearchDisplay { status_text: t, status_visible: true, results_visible: false, load_more_visible: false }
            },
            Status::Results { total, has_more } => {
                let by_room = group_count(self.hits.as_slice());
                let t = if *has_more {
                    let mut t = String::from_str("Showing ");
                    push_decimal(&mut t, self.hits.len());
                    t.append(" of ");
                    push_decimal_u64(&mut t, *total);
                    t.append(" matches in ");
                    push_decimal(&mut t, by_room);
                    t.append(" room(s)");
                    t
                } else if *total == 1 {
                    String::from_str("1 match")
                } else {
                    let mut t = String::new();
                    push_decimal_u64(&mut t, *total);
                    t.append(" matches in ");
                    push_decimal(&mut t, by_room);
                    t.append(" room(s)");
                    t
                };
                SearchDisplay { status_text: t, status_visible: true, results_visible: true, load_more_visible: *has_more }
            },
            Status::Failed { error } => {
                let mut t = String::from_str("Search failed: ");
                t.append(error.as_str());
                SearchDisplay { status_text: t, status_visible: true, results_visible: self.hits.len() > 0, load_more_visible: false }
            },
        }
    }
}

} // verus!
