//! Link previews under a message: which links get a preview, how many are
//! shown before "show more", and the cache of fetched previews.

use vstd::prelude::*;
use crate::text::{push_decimal, decimal, chars_of};

verus! {

/// Links to these domains (or their subdomains, or any host ending so) get no preview.
pub open spec fn skipped_host(host: Seq<char>) -> bool {
    host.len() >= 9 && (host.subrange(host.len() - 9, host.len() as int) == "matrix.to"@
        || host.subrange(host.len() - 9, host.len() as int) == "matrix.io"@)
}

/// The links that get a preview, in order: those whose host is not skipped,
/// each once.
pub open spec fn accepted(links: Seq<(Seq<char>, Option<Seq<char>>)>) -> Seq<Seq<char>>
    decreases links.len(),
{
    if links.len() == 0 {
        Seq::empty()
    } else {
        let p = accepted(links.drop_last());
        let l = links.last();
        if (l.1 matches Some(h) && skipped_host(h)) || p.contains(l.0) { p } else { p.push(l.0) }
    }
}

pub open spec fn link_views(links: Seq<(String, Option<String>)>) -> Seq<(Seq<char>, Option<Seq<char>>)> {
    links.map_values(|l: (String, Option<String>)| (l.0@, match l.1 { Some(h) => Some(h@), None => None }))
}

pub open spec fn str_views(v: Seq<String>) -> Seq<Seq<char>> {
    v.map_values(|s: String| s@)
}

fn ends_with_chars(s: &Vec<char>, suffix: &str) -> (r: bool)
    ensures
        r == (s@.len() >= suffix@.len() && s@.subrange(s@.len() - suffix@.len(), s@.len() as int) == suffix@),
{
    let t = chars_of(suffix);
    if t.len() > s.len() {
        return false;
    }
    let end = s.len();
    let off = end - t.len();
    let mut i: usize = 0;
    while i < t.len()
        invariant
            i <= t@.len(),
            t@ == suffix@,
            end == s@.len(),
            off + t@.len() == end,
            forall|k: int| 0 <= k < i ==> s@[off + k] == t@[k],
        decreases t@.len() - i,
    {
        if s[off + i] != t[i] {
            assert(s@.subrange(off as int, s@.len() as int)[i as int] != suffix@[i as int]);
            return false;
        }
        i = i + 1;
    }
    assert(s@.subrange(off as int, s@.len() as int) =~= suffix@);
    true
}

fn contains_str(v: &Vec<String>, x: &String) -> (r: bool)
    ensures
        r == str_views(v@).contains(x@),
{
    let mut i: usize = 0;
    while i < v.len()
        invariant
            i <= v@.len(),
            forall|k: int| 0 <= k < i ==> v@[k]@ != x@,
        decreases v@.len() - i,
    {
        if v[i] == *x {
            assert(str_views(v@)[i as int] == x@);
            return true;
        }
        i = i + 1;
    }
    assert forall|k: int| 0 <= k < str_views(v@).len() implies str_views(v@)[k] != x@ by {
        assert(str_views(v@)[k] == v@[k]@);
    }
    false
}

/// The links (each with its host, if it has one) that get a preview: those
/// not pointing at `matrix.to` or `matrix.io`, each once, in order.
pub fn accepted_links(links: &Vec<(String, Option<String>)>) -> (r: Vec<String>)
    ensures
        str_views(r@) == accepted(link_views(links@)),
{
    let ghost lv = link_views(links@);
    let mut out: Vec<String> = Vec::new();
    let mut i: usize = 0;
    assert(lv.take(0) =~= Seq::<(Seq<char>, Option<Seq<char>>)>::empty());
    assert(str_views(out@) =~= Seq::<Seq<char>>::empty());
    while i < links.len()
        invariant
            i <= links@.len(),
            lv == link_views(links@),
            str_views(out@) == accepted(lv.take(i as int)),
        decreases links@.len() - i,
    {
        assert(lv.take(i + 1).drop_last() =~= lv.take(i as int));
        assert(lv.take(i + 1).last() == lv[i as int]);
        let skip = match &links[i].1 {
            Some(h) => {
                let hc = chars_of(h.as_str());
                ends_with_chars(&hc, "matrix.to") || ends_with_chars(&hc, "matrix.io")
            },
            None => false,
        };
        proof {
            reveal_strlit("matrix.to");
            reveal_strlit("matrix.io");
        }
        if !skip && !contains_str(&out, &links[i].0) {
            let ghost before = str_views(out@);
            out.push(links[i].0.clone());
            assert(str_views(out@) =~= before.push(links@[i as int].0@));
        }
        i = i + 1;
    }
    assert(lv.take(i as int) =~= lv);
    out
}

/// The previews shown before "show more".
pub const MAX_DEFAULT_VISIBLE_PREVIEWS: usize = 2;

/// The previews under one message: the links shown, whether all of them
/// are, and how many are hidden otherwise.
#[derive(Debug)]
pub struct LinkPreviewList {
    pub links: Vec<String>,
    pub is_expanded: bool,
    pub num_hidden_links: usize,
}

/// The collapse buttons: hidden when no link is hidden; else "show N more
/// links" while collapsed, and the collapse button while expanded.
#[derive(Debug, PartialEq, Eq)]
pub enum CollapseButtons {
    Hidden,
    ShowMore(String),
    ShowLess,
}

impl LinkPreviewList {
    /// No previews.
    pub fn new() -> (r: LinkPreviewList)
        ensures
            r.links@.len() == 0,
            !r.is_expanded,
            r.num_hidden_links == 0,
    {
        LinkPreviewList { links: Vec::new(), is_expanded: false, num_hidden_links: 0 }
    }

    /// Shows previews for `accepted` links: when they differ from those shown,
    /// they replace them, collapsed, with all but the first two hidden.
    /// Returns whether they differed.
    pub fn populate(&mut self, accepted: Vec<String>) -> (changed: bool)
        ensures
            changed == (str_views(old(self).links@) != str_views(accepted@)),
            changed ==> str_views(final(self).links@) == str_views(accepted@) && !final(self).is_expanded
                && final(self).num_hidden_links == (if accepted@.len() > MAX_DEFAULT_VISIBLE_PREVIEWS {
                    (accepted@.len() - MAX_DEFAULT_VISIBLE_PREVIEWS) as usize
                } else {
                    0usize
                }),
            !changed ==> str_views(final(self).links@) == str_views(old(self).links@)
                && final(self).is_expanded == old(self).is_expanded
                && final(self).num_hidden_links == old(self).num_hidden_links,
    {
        let mut same = self.links.len() == accepted.len();
        if !same {
            assert(str_views(self.links@).len() != str_views(accepted@).len());
        }
        let mut i: usize = 0;
        while same && i < accepted.len()
            invariant
                i <= accepted@.len(),
                same ==> self.links@.len() == accepted@.len(),
                same ==> forall|k: int| 0 <= k < i ==> self.links@[k]@ == accepted@[k]@,
                !same ==> str_views(self.links@) != str_views(accepted@),
            decreases accepted@.len() - i + (if same { 1int } else { 0int }),
        {
            if self.links[i] != accepted[i] {
                same = false;
                assert(str_views(self.links@)[i as int] != str_views(accepted@)[i as int]);
            } else {
                i = i + 1;
            }
        }
        if same {
            assert(str_views(self.links@) =~= str_views(accepted@));
            return false;
        }
        let n = accepted.len();
        self.links = accepted;
        self.is_expanded = false;
        self.num_hidden_links = if n > MAX_DEFAULT_VISIBLE_PREVIEWS { n - MAX_DEFAULT_VISIBLE_PREVIEWS } else { 0 };
        true
    }

    /// A click on "show more" or "show less".
    pub fn toggle_expanded(&mut self)
        ensures
            final(self).is_expanded == !old(self).is_expanded,
            final(self).links@ == old(self).links@,
            final(self).num_hidden_links == old(self).num_hidden_links,
    {
        self.is_expanded = !self.is_expanded;
    }

    /// How many previews are drawn: all when expanded, else at most two.
    pub fn visible_count(&self) -> (n: usize)
        ensures
            n == (if self.is_expanded || self.links@.len() <= MAX_DEFAULT_VISIBLE_PREVIEWS {
                self.links@.len() as usize
            } else {
                MAX_DEFAULT_VISIBLE_PREVIEWS
            }),
    {
        if self.is_expanded || self.links.len() <= MAX_DEFAULT_VISIBLE_PREVIEWS {
            self.links.len()
        } else {
            MAX_DEFAULT_VISIBLE_PREVIEWS
        }
    }

    /// The collapse buttons.
    pub fn collapse_buttons(&self) -> (b: CollapseButtons)
        ensures
            self.num_hidden_links == 0 ==> b == CollapseButtons::Hidden,
            self.num_hidden_links > 0 && self.is_expanded ==> b == CollapseButtons::ShowLess,
            self.num_hidden_links > 0 && !self.is_expanded ==> (b matches CollapseButtons::ShowMore(t)
                && t@ == "Show "@ + decimal(self.num_hidden_links as nat) + " more links"@),
    {
        if self.num_hidden_links == 0 {
            CollapseButtons::Hidden
        } else if self.is_expanded {
            CollapseButtons::ShowLess
        } else {
            let mut t = String::from_str("Show ");
            push_decimal(&mut t, self.num_hidden_links);
            t.append(" more links");
            CollapseButtons::ShowMore(t)
        }
    }

    /// Clears the previews.
    pub fn clear(&mut self)
        ensures
            final(self).links@.len() == 0,
            !final(self).is_expanded,
            final(self).num_hidden_links == 0,
    {
        self.links.clear();
        self.is_expanded = false;
        self.num_hidden_links = 0;
    }
}

// ---------------------------------------------------------------------------
// The cache of fetched previews
// ---------------------------------------------------------------------------

/// Once the cache holds more entries than this, old ones are dropped before
/// a lookup.
pub const MAX_CACHE_ENTRIES_BEFORE_CLEANUP: usize = 100;
/// The age (in seconds) past which a cached entry is dropped.
pub const CACHE_ENTRY_MAX_AGE_SECS: u64 = 3600;

/// Where the preview of a link stands.
#[derive(Debug)]
pub enum LinkPreviewCacheEntry<D> {
    Requested,
    LoadedLinkPreview(D),
    Failed,
}

/// A cached preview: its link, where it stands, when it last changed (in
/// seconds on the app's clock), and the request that fills it.
#[derive(Debug)]
pub struct TimestampedCacheEntry<D> {
    pub url: String,
    pub entry: LinkPreviewCacheEntry<D>,
    pub timestamp: u64,
    pub request: u64,
}

/// The cache: its entries (one per link) and the number of the next request.
#[derive(Debug)]
pub struct LinkPreviewCache<D> {
    pub entries: Vec<TimestampedCacheEntry<D>>,
    pub next_request: u64,
}

/// No link is cached twice, and every request number is below the next one
/// (so no two entries wait for the same request).
pub open spec fn cache_wf<D>(entries: Seq<TimestampedCacheEntry<D>>, next_request: u64) -> bool {
    &&& forall|i: int, j: int| 0 <= i < j < entries.len() ==> (#[trigger] entries[i]).url@ != (#[trigger] entries[j]).url@
    &&& forall|i: int, j: int| 0 <= i < j < entries.len() ==> (#[trigger] entries[i]).request != (#[trigger] entries[j]).request
    &&& forall|i: int| 0 <= i < entries.len() ==> (#[trigger] entries[i]).request < next_request
}

/// How old an entry is at `now` (zero for a time before it).
pub open spec fn age(now: u64, timestamp: u64) -> u64 {
    if now >= timestamp { (now - timestamp) as u64 } else { 0 }
}

/// The entries whose fate a predicate decides, kept in order.
pub open spec fn kept<D>(entries: Seq<TimestampedCacheEntry<D>>, keep: spec_fn(TimestampedCacheEntry<D>) -> bool) -> Seq<TimestampedCacheEntry<D>>
    decreases entries.len(),
{
    if entries.len() == 0 {
        Seq::empty()
    } else {
        let p = kept(entries.drop_last(), keep);
        if keep(entries.last()) { p.push(entries.last()) } else { p }
    }
}

/// Whether an entry is younger than `max_age` at `now`.
pub open spec fn is_young<D>(now: u64, max_age: u64) -> spec_fn(TimestampedCacheEntry<D>) -> bool {
    |e: TimestampedCacheEntry<D>| age(now, e.timestamp) < max_age
}

/// Whether an entry holds a fetched preview.
pub open spec fn is_loaded<D>() -> spec_fn(TimestampedCacheEntry<D>) -> bool {
    |e: TimestampedCacheEntry<D>| e.entry is LoadedLinkPreview
}

/// Whether an entry caches `url`.
pub open spec fn caches<D>(e: TimestampedCacheEntry<D>, url: Seq<char>) -> bool {
    e.url@ == url
}

proof fn lemma_kept_from<D>(entries: Seq<TimestampedCacheEntry<D>>, keep: spec_fn(TimestampedCacheEntry<D>) -> bool)
    ensures
        kept(entries, keep).len() <= entries.len(),
        forall|i: int| 0 <= i < kept(entries, keep).len() ==> exists|j: int| 0 <= j < entries.len()
            && #[trigger] kept(entries, keep)[i] == entries[j],
        forall|i: int, k: int| 0 <= i < k < kept(entries, keep).len() ==> exists|a: int, b: int| 0 <= a < b < entries.len()
            && #[trigger] kept(entries, keep)[i] == entries[a] && #[trigger] kept(entries, keep)[k] == entries[b],
    decreases entries.len(),
{
    if entries.len() > 0 {
        let d = entries.drop_last();
        lemma_kept_from(d, keep);
        let p = kept(d, keep);
        let r = kept(entries, keep);
        assert forall|i: int| 0 <= i < r.len() implies exists|j: int| 0 <= j < entries.len() && #[trigger] r[i] == entries[j] by {
            if i < p.len() {
                assert(r[i] == p[i]);
                let j = choose|j: int| 0 <= j < d.len() && p[i] == d[j];
                assert(entries[j] == d[j]);
            } else {
                assert(r[i] == entries[entries.len() - 1]);
            }
        }
        assert forall|i: int, k: int| 0 <= i < k < r.len() implies exists|a: int, b: int| 0 <= a < b < entries.len()
            && #[trigger] r[i] == entries[a] && #[trigger] r[k] == entries[b] by {
            if k < p.len() {
                assert(r[i] == p[i] && r[k] == p[k]);
                let (a, b) = choose|a: int, b: int| 0 <= a < b < d.len() && p[i] == d[a] && p[k] == d[b];
                assert(entries[a] == d[a] && entries[b] == d[b]);
            } else {
                assert(r[i] == p[i]);
                assert(r[k] == entries[entries.len() - 1]);
                let a = choose|a: int| 0 <= a < d.len() && p[i] == d[a];
                assert(entries[a] == d[a]);
            }
        }
    }
}

proof fn lemma_kept_wf<D>(entries: Seq<TimestampedCacheEntry<D>>, keep: spec_fn(TimestampedCacheEntry<D>) -> bool, next_request: u64)
    requires
        cache_wf(entries, next_request),
    ensures
        cache_wf(kept(entries, keep), next_request),
{
    lemma_kept_from(entries, keep);
    let r = kept(entries, keep);
    assert forall|i: int, k: int| 0 <= i < k < r.len() implies (#[trigger] r[i]).url@ != (#[trigger] r[k]).url@
        && r[i].request != r[k].request by {
        let (a, b) = choose|a: int, b: int| 0 <= a < b < entries.len() && r[i] == entries[a] && r[k] == entries[b];
    }
    assert forall|i: int| 0 <= i < r.len() implies (#[trigger] r[i]).request < next_request by {
        let j = choose|j: int| 0 <= j < entries.len() && r[i] == entries[j];
    }
}

/// The entries that a lookup at `now` searches: those of the cache, less
/// the old ones when the cache holds too many.
pub open spec fn before_lookup<D>(entries: Seq<TimestampedCacheEntry<D>>, now: u64) -> Seq<TimestampedCacheEntry<D>> {
    if entries.len() > MAX_CACHE_ENTRIES_BEFORE_CLEANUP {
        kept(entries, is_young(now, CACHE_ENTRY_MAX_AGE_SECS))
    } else {
        entries
    }
}

/// What a lookup of `url` at `now` does to a cache (`entries`, `next`),
/// giving (`entries2`, `next2`) and the result `r`: when the entries left by
/// the cleanup hold the link, they stay and its position is returned with no
/// request; else a new `Requested` entry is appended and request `next` sent.
pub open spec fn lookup_is<D>(entries: Seq<TimestampedCacheEntry<D>>, next: u64, url: Seq<char>, now: u64,
    entries2: Seq<TimestampedCacheEntry<D>>, next2: u64, r: (usize, Option<u64>)) -> bool
{
    let base = before_lookup(entries, now);
    if exists|i: int| 0 <= i < base.len() && caches(#[trigger] base[i], url) {
        &&& entries2 == base
        &&& r.0 < base.len() && base[r.0 as int].url@ == url
        &&& r.1 is None
        &&& next2 == next
    } else {
        &&& entries2.len() == base.len() + 1
        &&& entries2.take(base.len() as int) == base
        &&& r.0 == base.len()
        &&& entries2[r.0 as int].url@ == url
        &&& entries2[r.0 as int].entry is Requested
        &&& entries2[r.0 as int].timestamp == now
        &&& entries2[r.0 as int].request == next
        &&& r.1 == Some(next)
        &&& next2 == next + 1
    }
}

proof fn lemma_kept_keeps<D>(entries: Seq<TimestampedCacheEntry<D>>, keep: spec_fn(TimestampedCacheEntry<D>) -> bool, i: int)
    requires
        0 <= i < entries.len(),
        keep(entries[i]),
    ensures
        exists|k: int| 0 <= k < kept(entries, keep).len() && #[trigger] kept(entries, keep)[k] == entries[i],
    decreases entries.len(),
{
    let d = entries.drop_last();
    let p = kept(d, keep);
    if i < d.len() {
        assert(d[i] == entries[i]);
        lemma_kept_keeps(d, keep, i);
        let k = choose|k: int| 0 <= k < p.len() && #[trigger] p[k] == d[i];
        assert(kept(entries, keep)[k] == p[k]);
    } else {
        assert(kept(entries, keep)[p.len() as int] == entries[i]);
    }
}

/// A link that a lookup left in the cache is found again by the next lookup,
/// with no second request, as long as the cleanup before it keeps the link's
/// entry: the cache holds no more than the cleanup threshold, or the entry
/// is younger than the maximum age by then.
pub proof fn lemma_second_lookup_sends_nothing<D>(
    e0: Seq<TimestampedCacheEntry<D>>, n0: u64, url: Seq<char>, now1: u64,
    e1: Seq<TimestampedCacheEntry<D>>, n1: u64, r1: (usize, Option<u64>), now2: u64,
    e2: Seq<TimestampedCacheEntry<D>>, n2: u64, r2: (usize, Option<u64>),
)
    requires
        lookup_is(e0, n0, url, now1, e1, n1, r1),
        lookup_is(e1, n1, url, now2, e2, n2, r2),
        e1.len() <= MAX_CACHE_ENTRIES_BEFORE_CLEANUP || age(now2, e1[r1.0 as int].timestamp) < CACHE_ENTRY_MAX_AGE_SECS,
    ensures
        r2.1 is None,
        n2 == n1,
        e2[r2.0 as int].url@ == url,
{
    let base1 = before_lookup(e0, now1);
    assert(r1.0 < e1.len() && e1[r1.0 as int].url@ == url) by {
        if exists|i: int| 0 <= i < base1.len() && caches(#[trigger] base1[i], url) {
            assert(e1 == base1);
        }
    }
    let base2 = before_lookup(e1, now2);
    if e1.len() > MAX_CACHE_ENTRIES_BEFORE_CLEANUP {
        let keep = is_young::<D>(now2, CACHE_ENTRY_MAX_AGE_SECS);
        assert(keep(e1[r1.0 as int]));
        lemma_kept_keeps(e1, keep, r1.0 as int);
        let k = choose|k: int| 0 <= k < kept(e1, keep).len() && #[trigger] kept(e1, keep)[k] == e1[r1.0 as int];
        assert(caches(base2[k], url));
    } else {
        assert(caches(base2[r1.0 as int], url));
    }
}

impl<D> LinkPreviewCache<D> {
    /// An empty cache.
    pub fn new() -> (r: LinkPreviewCache<D>)
        ensures
            r.entries@.len() == 0,
            r.next_request == 0,
            cache_wf(r.entries@, r.next_request),
    {
        LinkPreviewCache { entries: Vec::new(), next_request: 0 }
    }

    /// Keeps the entries that `keep_young` (else `keep_loaded`) selects.
    fn retain_entries(&mut self, young_mode: bool, now: u64, max_age: u64)
        requires
            cache_wf(old(self).entries@, old(self).next_request),
        ensures
            final(self).entries@ == kept(old(self).entries@, if young_mode { is_young(now, max_age) } else { is_loaded() }),
            final(self).next_request == old(self).next_request,
            cache_wf(final(self).entries@, final(self).next_request),
    {
        let ghost keep: spec_fn(TimestampedCacheEntry<D>) -> bool = if young_mode { is_young(now, max_age) } else { is_loaded() };
        let ghost orig = self.entries@;
        let n = self.entries.len();
        let mut rest: Vec<TimestampedCacheEntry<D>> = Vec::new();
        std::mem::swap(&mut rest, &mut self.entries);
        let mut out: Vec<TimestampedCacheEntry<D>> = Vec::new();
        let mut k: usize = 0;
        assert(orig.take(0) =~= Seq::<TimestampedCacheEntry<D>>::empty());
        assert(rest@ =~= orig.skip(0));
        while rest.len() > 0
            invariant
                k <= orig.len(),
                orig.len() == n,
                rest@ == orig.skip(k as int),
                out@ == kept(orig.take(k as int), keep),
                keep == (if young_mode { is_young::<D>(now, max_age) } else { is_loaded::<D>() }),
            decreases rest@.len(),
        {
            let e = rest.remove(0);
            assert(orig.take(k + 1).drop_last() =~= orig.take(k as int));
            assert(orig.take(k + 1).last() == orig[k as int]);
            assert(e == orig[k as int]);
            let keep_it = if young_mode {
                let a = if now >= e.timestamp { now - e.timestamp } else { 0 };
                a < max_age
            } else {
                match &e.entry {
                    LinkPreviewCacheEntry::LoadedLinkPreview(_) => true,
                    _ => false,
                }
            };
            assert(keep_it == keep(e));
            if keep_it {
                out.push(e);
            }
            assert(rest@ =~= orig.skip(k + 1));
            k = k + 1;
        }
        assert(orig.take(k as int) =~= orig);
        self.entries = out;
        proof { lemma_kept_wf(orig, keep, self.next_request); }
    }

    /// Drops the entries that are `max_age` seconds old or older at `now`.
    pub fn cleanup_old_entries(&mut self, now: u64, max_age: u64)
        requires
            cache_wf(old(self).entries@, old(self).next_request),
        ensures
            final(self).entries@ == kept(old(self).entries@, is_young(now, max_age)),
            final(self).next_request == old(self).next_request,
            cache_wf(final(self).entries@, final(self).next_request),
    {
        self.retain_entries(true, now, max_age);
    }

    /// Drops every entry that is still requested or has failed, so that
    /// those links are fetched again (when the app is back online).
    pub fn clear_all_pending_and_failed_requests(&mut self)
        requires
            cache_wf(old(self).entries@, old(self).next_request),
        ensures
            final(self).entries@ == kept(old(self).entries@, is_loaded()),
            final(self).next_request == old(self).next_request,
            cache_wf(final(self).entries@, final(self).next_request),
    {
        self.retain_entries(false, 0, 0);
    }

    fn position(&self, url: &str) -> (r: Option<usize>)
        ensures
            match r {
                Some(k) => k < self.entries@.len() && self.entries@[k as int].url@ == url@,
                None => forall|i: int| 0 <= i < self.entries@.len() ==> !caches(#[trigger] self.entries@[i], url@),
            },
    {
        let target = String::from_str(url);
        let mut i: usize = 0;
        while i < self.entries.len()
            invariant
                i <= self.entries@.len(),
                target@ == url@,
                forall|j: int| 0 <= j < i ==> !caches(#[trigger] self.entries@[j], url@),
            decreases self.entries@.len() - i,
        {
            if self.entries[i].url == target {
                return Some(i);
            }
            i = i + 1;
        }
        None
    }

    /// Looks a link up, at `now`: when the cache holds too many entries, the
    /// old ones go first. A cached link gives its entry's position; another
    /// gets a new entry, requested at `now` under a new request number, which
    /// is returned so that the fetch can be sent.
    pub fn get_or_fetch_link_preview(&mut self, url: &str, now: u64) -> (r: (usize, Option<u64>))
        requires
            cache_wf(old(self).entries@, old(self).next_request),
            old(self).next_request < u64::MAX,
        ensures
            lookup_is(old(self).entries@, old(self).next_request, url@, now,
                final(self).entries@, final(self).next_request, r),
            cache_wf(final(self).entries@, final(self).next_request),
    {
        let ghost base = before_lookup(old(self).entries@, now);
        if self.entries.len() > MAX_CACHE_ENTRIES_BEFORE_CLEANUP {
            self.cleanup_old_entries(now, CACHE_ENTRY_MAX_AGE_SECS);
        }
        assert(self.entries@ == base);
        match self.position(url) {
            Some(k) => {
                assert(caches(self.entries@[k as int], url@));
                assert(exists|i: int| 0 <= i < base.len() && caches(#[trigger] base[i], url@));
                (k, None)
            },
            None => {
                let id = self.next_request;
                let pos = self.entries.len();
                let ghost before = self.entries@;
                assert(!exists|i: int| 0 <= i < before.len() && caches(#[trigger] before[i], url@));
                self.entries.push(TimestampedCacheEntry { url: String::from_str(url), entry: LinkPreviewCacheEntry::Requested, timestamp: now, request: id });
                self.next_request = id + 1;
                assert(self.entries@.take(before.len() as int) =~= before);
                proof {
                    let e = self.entries@;
                    assert forall|i: int, j: int| 0 <= i < j < e.len() implies (#[trigger] e[i]).url@ != (#[trigger] e[j]).url@
                        && e[i].request != e[j].request by {
                        if j == e.len() - 1 {
                            assert(e[i] == before[i]);
                            assert(!caches(before[i], url@));
                        } else {
                            assert(e[i] == before[i] && e[j] == before[j]);
                        }
                    }
                    assert forall|i: int| 0 <= i < e.len() implies (#[trigger] e[i]).request < self.next_request by {
                        if i < before.len() { assert(e[i] == before[i]); }
                    }
                }
                assert(self.entries@[pos as int].url@ == url@);
                assert(self.entries@[pos as int].entry is Requested);
                assert(self.entries@.len() == before.len() + 1);
                (pos, Some(id))
            },
        }
    }

    /// The fetch of request `request` ended at `now`, with the preview
    /// (`Some`) or failed: the entry waiting for it, if it is still cached,
    /// takes the outcome and the time. Returns whether one did.
    pub fn insert_into_cache(&mut self, request: u64, preview: Option<D>, now: u64) -> (found: bool)
        requires
            cache_wf(old(self).entries@, old(self).next_request),
        ensures
            cache_wf(final(self).entries@, final(self).next_request),
            final(self).next_request == old(self).next_request,
            final(self).entries@.len() == old(self).entries@.len(),
            found == exists|i: int| 0 <= i < old(self).entries@.len() && (#[trigger] old(self).entries@[i]).request == request,
            forall|i: int| 0 <= i < old(self).entries@.len() ==> {
                let o = #[trigger] old(self).entries@[i];
                let f = final(self).entries@[i];
                if o.request == request {
                    f.url == o.url && f.request == o.request && f.timestamp == now
                        && match preview {
                            Some(d) => f.entry == LinkPreviewCacheEntry::LoadedLinkPreview(d),
                            None => f.entry is Failed,
                        }
                } else {
                    f == o
                }
            },
    {
        let mut i: usize = 0;
        while i < self.entries.len()
            invariant
                i <= self.entries@.len(),
                self.entries@ == old(self).entries@,
                self.next_request == old(self).next_request,
                cache_wf(old(self).entries@, old(self).next_request),
                forall|j: int| 0 <= j < i ==> (#[trigger] self.entries@[j]).request != request,
            decreases self.entries@.len() - i,
        {
            if self.entries[i].request == request {
                let ghost before = self.entries@;
                let old_entry = self.entries.remove(i);
                assert(old_entry == before[i as int]);
                let ghost old_url = old_entry.url;
                let entry = match preview {
                    Some(d) => LinkPreviewCacheEntry::LoadedLinkPreview(d),
                    None => LinkPreviewCacheEntry::Failed,
                };
                self.entries.insert(i, TimestampedCacheEntry { url: old_entry.url, entry, timestamp: now, request });
                proof {
                    let e = self.entries@;
                    assert(e[i as int].url == old_url && e[i as int].request == before[i as int].request);
                    assert forall|j: int| 0 <= j < e.len() && j != i implies e[j] == before[j] by {}
                    assert forall|a: int, b: int| 0 <= a < b < e.len() implies (#[trigger] e[a]).url@ != (#[trigger] e[b]).url@
                        && e[a].request != e[b].request by {
                        assert(e[a].url@ == before[a].url@ && e[b].url@ == before[b].url@);
                        assert(e[a].request == before[a].request && e[b].request == before[b].request);
                    }
                    assert forall|j: int| 0 <= j < e.len() implies (#[trigger] e[j]).request < self.next_request by {
                        assert(e[j].request == before[j].request);
                    }
                    assert forall|j: int| 0 <= j < before.len() && before[j].request == request implies j == i by {
                        if j != i {
                            if j < i { assert(before[j].request != before[i as int].request); }
                            else { assert(before[i as int].request != before[j].request); }
                        }
                    }
                }
                return true;
            }
            i = i + 1;
        }
        false
    }
}

proof fn lemma_kept_satisfies<D>(entries: Seq<TimestampedCacheEntry<D>>, keep: spec_fn(TimestampedCacheEntry<D>) -> bool)
    ensures
        forall|i: int| 0 <= i < kept(entries, keep).len() ==> keep(#[trigger] kept(entries, keep)[i]),
    decreases entries.len(),
{
    if entries.len() > 0 {
        lemma_kept_satisfies(entries.drop_last(), keep);
        let p = kept(entries.drop_last(), keep);
        let r = kept(entries, keep);
        assert forall|i: int| 0 <= i < r.len() implies keep(#[trigger] r[i]) by {
            if i < p.len() { assert(r[i] == p[i]); }
        }
    }
}

/// After a cleanup at `now`, every cached entry is younger than `max_age`.
pub proof fn lemma_cleanup_keeps_only_young<D>(entries: Seq<TimestampedCacheEntry<D>>, now: u64, max_age: u64)
    ensures
        forall|i: int| 0 <= i < kept(entries, is_young(now, max_age)).len()
            ==> age(now, (#[trigger] kept(entries, is_young(now, max_age))[i]).timestamp) < max_age,
{
    lemma_kept_satisfies(entries, is_young(now, max_age));
}

/// After clearing pending and failed requests, every cached entry holds a
/// fetched preview.
pub proof fn lemma_clearing_keeps_only_loaded<D>(entries: Seq<TimestampedCacheEntry<D>>)
    ensures
        forall|i: int| 0 <= i < kept(entries, is_loaded()).len()
            ==> (#[trigger] kept(entries, is_loaded::<D>())[i]).entry is LoadedLinkPreview,
{
    lemma_kept_satisfies(entries, is_loaded::<D>());
}

} // verus!
