//! The public room directory: entry text shown on a single line.

use vstd::prelude::*;
use crate::text::{is_white, trimmed, chars_of, char_is_whitespace, push_char, trim_str, trim_chars, decimal, push_decimal_u64, views, remove_all_equal};

verus! {

/// The text with each run of whitespace turned into one space.
pub open spec fn squash_white(s: Seq<char>) -> Seq<char>
    decreases s.len(),
{
    if s.len() == 0 {
        Seq::empty()
    } else {
        let p = squash_white(s.drop_last());
        if is_white(s.last()) {
            if s.len() >= 2 && is_white(s[s.len() - 2]) { p } else { p.push(' ') }
        } else {
            p.push(s.last())
        }
    }
}

/// Collapses a text onto one line: each run of whitespace (line breaks
/// included) becomes one space, and the ends are trimmed.
pub fn collapse_to_single_line(s: &str) -> (r: String)
    ensures
        r@ == trimmed(squash_white(s@)),
{
    let chars = chars_of(s);
    let mut out = String::new();
    let mut prev_ws = false;
    let mut i: usize = 0;
    while i < chars.len()
        invariant
            i <= chars@.len(),
            chars@ == s@,
            out@ == squash_white(chars@.take(i as int)),
            prev_ws == (i > 0 && is_white(chars@[i - 1])),
        decreases chars@.len() - i,
    {
        let c = chars[i];
        assert(chars@.take(i + 1).drop_last() =~= chars@.take(i as int));
        assert(chars@.take(i + 1).last() == c);
        if i > 0 {
            assert(chars@.take(i + 1)[i - 1] == chars@[i - 1]);
        }
        if char_is_whitespace(c) {
            if !prev_ws {
                push_char(&mut out, ' ');
            }
            prev_ws = true;
        } else {
            push_char(&mut out, c);
            prev_ws = false;
        }
        i = i + 1;
    }
    assert(chars@.take(i as int) =~= s@);
    trim_str(out.as_str())
}

// ---------------------------------------------------------------------------
// The directory screen
// ---------------------------------------------------------------------------

/// The rooms fetched per page.
pub const PAGE_LIMIT: u64 = 20;

/// A room of the public directory.
#[derive(Debug)]
pub struct DirectoryEntry {
    pub room_id: String,
    pub display_name: String,
    pub topic: Option<String>,
    pub canonical_alias: Option<String>,
    pub num_joined_members: u64,
}

/// A request for a page of the directory.
#[derive(Debug, PartialEq, Eq)]
pub struct FetchRequest {
    pub search_term: String,
    /// Where the page starts: `None` for the first page.
    pub since: Option<String>,
    pub limit: u64,
    pub query_id: u64,
}

/// The state of the directory screen.
#[derive(Debug)]
pub struct DirectoryScreen {
    pub query_id: u64,
    pub search_text: String,
    pub rooms: Vec<DirectoryEntry>,
    pub next_batch: Option<String>,
    pub is_loading: bool,
    pub needs_initial_fetch: bool,
    pub last_error: Option<String>,
    /// Rooms whose join request is under way.
    pub pending_joins: Vec<String>,
    /// Rooms joined from this screen.
    pub joined_rooms: Vec<String>,
    /// The search text typed, while the pause before searching runs.
    pub pending_search_text: String,
}

/// What one row of the list shows.
#[derive(Debug, PartialEq, Eq)]
pub enum DirectoryRow {
    /// The only row when nothing was found.
    Status(&'static str),
    /// The room at this position.
    Room(usize),
    /// The row after the rooms while more may come.
    Loading,
}

/// The texts of a room's row.
#[derive(Debug, PartialEq, Eq)]
pub struct EntryView {
    pub name: String,
    pub topic: String,
    pub meta: String,
    pub button_text: &'static str,
    pub button_enabled: bool,
}

/// The list's rows: the status row alone when no room was found and nothing
/// loads; else the rooms, then a loading row while more may come.
pub open spec fn row_count(n: nat, has_more: bool, loading: bool) -> nat {
    if n == 0 && !loading { 1 } else { n + if has_more { 1nat } else { 0nat } }
}

/// The texts of a room's row: its name, its topic on one line, its alias
/// (if any) and member count, and the join button.
pub open spec fn entry_view_is(e: DirectoryEntry, is_joining: bool, is_joined: bool, v: EntryView) -> bool {
    &&& v.name@ == e.display_name@
    &&& v.topic@ == match e.topic { Some(t) => trimmed(squash_white(t@)), None => Seq::empty() }
    &&& v.meta@ == (match e.canonical_alias { Some(a) => a@ + "  \u{b7}  "@, None => Seq::empty() })
        + decimal(e.num_joined_members as nat) + " members"@
    &&& (v.button_text@, v.button_enabled) == (if is_joined {
        ("Joined"@, false)
    } else if is_joining {
        ("Joining\u{2026}"@, false)
    } else {
        ("Join"@, true)
    })
}

/// The texts of a room's row.
pub fn entry_view(e: &DirectoryEntry, is_joining: bool, is_joined: bool) -> (v: EntryView)
    ensures
        entry_view_is(*e, is_joining, is_joined, v),
{
    let topic = match &e.topic {
        Some(t) => collapse_to_single_line(t.as_str()),
        None => String::new(),
    };
    let mut meta = String::new();
    match &e.canonical_alias {
        Some(a) => {
            meta.append(a.as_str());
            meta.append("  \u{b7}  ");
        },
        None => {},
    }
    push_decimal_u64(&mut meta, e.num_joined_members);
    meta.append(" members");
    let (button_text, button_enabled) = if is_joined {
        ("Joined", false)
    } else if is_joining {
        ("Joining\u{2026}", false)
    } else {
        ("Join", true)
    };
    EntryView { name: e.display_name.clone(), topic, meta, button_text, button_enabled }
}

fn contains_id(v: &Vec<String>, id: &str) -> (r: bool)
    ensures
        r == views(v@).contains(id@),
{
    let target = String::from_str(id);
    let mut i: usize = 0;
    while i < v.len()
        invariant
            i <= v@.len(),
            target@ == id@,
            forall|j: int| 0 <= j < i ==> v@[j]@ != id@,
        decreases v@.len() - i,
    {
        if v[i] == target {
            assert(views(v@)[i as int] == id@);
            return true;
        }
        i = i + 1;
    }
    assert forall|j: int| 0 <= j < views(v@).len() implies views(v@)[j] != id@ by {
        assert(views(v@)[j] == v@[j]@);
    }
    false
}

impl DirectoryScreen {
    /// A screen that has fetched nothing yet.
    pub fn new() -> (r: DirectoryScreen)
        ensures
            r.query_id == 0,
            r.search_text@.len() == 0,
            r.rooms@.len() == 0,
            r.next_batch is None,
            !r.is_loading,
            r.needs_initial_fetch,
            r.last_error is None,
            r.pending_joins@.len() == 0,
            r.joined_rooms@.len() == 0,
            r.pending_search_text@.len() == 0,
    {
        DirectoryScreen {
            query_id: 0,
            search_text: String::new(),
            rooms: Vec::new(),
            next_batch: None,
            is_loading: false,
            needs_initial_fetch: true,
            last_error: None,
            pending_joins: Vec::new(),
            joined_rooms: Vec::new(),
            pending_search_text: String::new(),
        }
    }

    /// Fetches a page (the first page, or the one after `next_batch`),
    /// unless a fetch is under way.
    pub fn submit_fetch(&mut self, is_first_page: bool) -> (r: Option<FetchRequest>)
        ensures
            old(self).is_loading ==> r is None && final(self).is_loading,
            !old(self).is_loading ==> final(self).is_loading && (r matches Some(q)
                && q.search_term@ == old(self).search_text@
                && q.since == (if is_first_page { None } else { old(self).next_batch })
                && q.limit == PAGE_LIMIT && q.query_id == old(self).query_id),
            final(self).query_id == old(self).query_id,
            final(self).search_text == old(self).search_text,
            final(self).rooms@ == old(self).rooms@,
            final(self).next_batch == old(self).next_batch,
            final(self).last_error == old(self).last_error,
            final(self).pending_joins@ == old(self).pending_joins@,
            final(self).joined_rooms@ == old(self).joined_rooms@,
            final(self).needs_initial_fetch == old(self).needs_initial_fetch,
            final(self).pending_search_text == old(self).pending_search_text,
    {
        if self.is_loading {
            return None;
        }
        self.is_loading = true;
        let since = if is_first_page {
            None
        } else {
            match &self.next_batch {
                Some(b) => Some(b.clone()),
                None => None,
            }
        };
        Some(FetchRequest { search_term: self.search_text.clone(), since, limit: PAGE_LIMIT, query_id: self.query_id })
    }

    /// Starts a new search for `text`: a new query (older answers are then
    /// ignored), no rooms, no error, and the first page requested.
    pub fn start_fresh_query(&mut self, text: String) -> (r: FetchRequest)
        ensures
            final(self).search_text == text,
            final(self).query_id == old(self).query_id.wrapping_add(1),
            final(self).rooms@.len() == 0,
            final(self).next_batch is None,
            final(self).last_error is None,
            final(self).is_loading,
            r.search_term@ == text@ && r.since is None && r.limit == PAGE_LIMIT && r.query_id == final(self).query_id,
            final(self).pending_joins@ == old(self).pending_joins@,
            final(self).joined_rooms@ == old(self).joined_rooms@,
            final(self).needs_initial_fetch == old(self).needs_initial_fetch,
            final(self).pending_search_text == old(self).pending_search_text,
    {
        self.search_text = text;
        self.query_id = self.query_id.wrapping_add(1);
        self.rooms.clear();
        self.next_batch = None;
        self.last_error = None;
        self.is_loading = true;
        FetchRequest { search_term: self.search_text.clone(), since: None, limit: PAGE_LIMIT, query_id: self.query_id }
    }

    /// A page arrived for query `query_id`: answers to older queries are
    /// ignored; a first page replaces the rooms, a later one extends them.
    pub fn page_received(&mut self, query_id: u64, is_first_page: bool, rooms: Vec<DirectoryEntry>, next_batch: Option<String>)
        ensures
            query_id != old(self).query_id ==> final(self).rooms@ == old(self).rooms@
                && final(self).is_loading == old(self).is_loading
                && final(self).next_batch == old(self).next_batch
                && final(self).last_error == old(self).last_error,
            query_id == old(self).query_id ==> !final(self).is_loading
                && final(self).rooms@ == (if is_first_page { rooms@ } else { old(self).rooms@ + rooms@ })
                && final(self).next_batch == next_batch
                && final(self).last_error is None,
            final(self).query_id == old(self).query_id,
            final(self).search_text == old(self).search_text,
            final(self).pending_joins@ == old(self).pending_joins@,
            final(self).joined_rooms@ == old(self).joined_rooms@,
    {
        if query_id != self.query_id {
            return;
        }
        self.is_loading = false;
        if is_first_page {
            self.rooms.clear();
        }
        let mut rooms = rooms;
        self.rooms.append(&mut rooms);
        self.next_batch = next_batch;
        self.last_error = None;
    }

    /// Fetching a page for query `query_id` failed with `error`.
    pub fn page_failed(&mut self, query_id: u64, error: String)
        ensures
            query_id != old(self).query_id ==> final(self).is_loading == old(self).is_loading
                && final(self).last_error == old(self).last_error,
            query_id == old(self).query_id ==> !final(self).is_loading && final(self).last_error == Some(error),
            final(self).rooms@ == old(self).rooms@,
            final(self).next_batch == old(self).next_batch,
            final(self).query_id == old(self).query_id,
            final(self).search_text == old(self).search_text,
            final(self).pending_joins@ == old(self).pending_joins@,
            final(self).joined_rooms@ == old(self).joined_rooms@,
    {
        if query_id != self.query_id {
            return;
        }
        self.is_loading = false;
        self.last_error = Some(error);
    }

    /// A click on a room's "join": the request goes out unless one is under
    /// way or the room was joined already. Returns whether it goes out.
    pub fn join_clicked(&mut self, room_id: &str) -> (send: bool)
        ensures
            send == (!views(old(self).pending_joins@).contains(room_id@) && !views(old(self).joined_rooms@).contains(room_id@)),
            views(final(self).pending_joins@) == (if send { views(old(self).pending_joins@).push(room_id@) } else { views(old(self).pending_joins@) }),
            final(self).joined_rooms@ == old(self).joined_rooms@,
            final(self).rooms@ == old(self).rooms@,
            final(self).query_id == old(self).query_id,
    {
        if contains_id(&self.pending_joins, room_id) || contains_id(&self.joined_rooms, room_id) {
            return false;
        }
        let ghost before = views(self.pending_joins@);
        self.pending_joins.push(String::from_str(room_id));
        assert(views(self.pending_joins@) =~= before.push(room_id@));
        true
    }

    /// The result of a join request: the room leaves the pending joins and,
    /// when it was pending and joined, becomes joined.
    pub fn join_result(&mut self, room_id: &str, joined: bool)
        ensures
            views(final(self).pending_joins@) == views(old(self).pending_joins@).filter(|x: Seq<char>| x != room_id@),
            views(final(self).joined_rooms@) == (if joined && views(old(self).pending_joins@).contains(room_id@) {
                views(old(self).joined_rooms@).push(room_id@)
            } else {
                views(old(self).joined_rooms@)
            }),
            final(self).rooms@ == old(self).rooms@,
            final(self).query_id == old(self).query_id,
    {
        let was_pending = remove_all_equal(&mut self.pending_joins, room_id);
        if was_pending && joined {
            let ghost before = views(self.joined_rooms@);
            self.joined_rooms.push(String::from_str(room_id));
            assert(views(self.joined_rooms@) =~= before.push(room_id@));
        }
    }

    /// The search text changed: it waits for the pause to run out.
    pub fn search_changed(&mut self, text: String)
        ensures
            final(self).pending_search_text == text,
            final(self).search_text == old(self).search_text,
            final(self).query_id == old(self).query_id,
            final(self).is_loading == old(self).is_loading,
    {
        self.pending_search_text = text;
    }

    /// The pause after typing ran out: the typed text is searched, unless it
    /// is what was searched last.
    pub fn debounce_fired(&mut self) -> (r: Option<FetchRequest>)
        ensures
            final(self).pending_search_text@.len() == 0,
            old(self).pending_search_text@ == old(self).search_text@ ==> r is None
                && final(self).query_id == old(self).query_id && final(self).search_text == old(self).search_text,
            old(self).pending_search_text@ != old(self).search_text@ ==> (r matches Some(q)
                && q.search_term@ == old(self).pending_search_text@ && q.since is None
                && q.query_id == final(self).query_id)
                && final(self).query_id == old(self).query_id.wrapping_add(1)
                && final(self).search_text == old(self).pending_search_text
                && final(self).rooms@.len() == 0,
    {
        let mut pending = String::new();
        std::mem::swap(&mut pending, &mut self.pending_search_text);
        if pending == self.search_text {
            return None;
        }
        Some(self.start_fresh_query(pending))
    }

    /// The search was submitted with Enter: it runs at once.
    pub fn search_submitted(&mut self, text: String) -> (r: FetchRequest)
        ensures
            final(self).pending_search_text@.len() == 0,
            final(self).search_text == text,
            final(self).query_id == old(self).query_id.wrapping_add(1),
            final(self).rooms@.len() == 0,
            r.search_term@ == text@ && r.since is None && r.query_id == final(self).query_id,
    {
        self.pending_search_text = String::new();
        self.start_fresh_query(text)
    }

    /// The list was scrolled (`at_end`: to its end): the next page is
    /// fetched when there is one and nothing loads.
    pub fn scrolled(&mut self, at_end: bool) -> (r: Option<FetchRequest>)
        ensures
            (old(self).next_batch is Some && !old(self).is_loading && at_end) ==> (r matches Some(q)
                && q.since == old(self).next_batch && q.search_term@ == old(self).search_text@
                && q.query_id == old(self).query_id) && final(self).is_loading,
            !(old(self).next_batch is Some && !old(self).is_loading && at_end) ==> r is None
                && final(self).is_loading == old(self).is_loading,
            final(self).rooms@ == old(self).rooms@,
            final(self).query_id == old(self).query_id,
    {
        if self.next_batch.is_some() && !self.is_loading && at_end {
            return self.submit_fetch(false);
        }
        None
    }

    /// Before the first draw, the first search (for everything) runs once.
    pub fn before_draw(&mut self) -> (r: Option<FetchRequest>)
        ensures
            !final(self).needs_initial_fetch,
            old(self).needs_initial_fetch ==> (r matches Some(q) && q.search_term@.len() == 0 && q.since is None)
                && final(self).search_text@.len() == 0 && final(self).query_id == old(self).query_id.wrapping_add(1),
            !old(self).needs_initial_fetch ==> r is None && final(self).query_id == old(self).query_id,
    {
        if !self.needs_initial_fetch {
            return None;
        }
        self.needs_initial_fetch = false;
        Some(self.start_fresh_query(String::new()))
    }

    /// The number of rows of the list.
    pub fn row_count(&self) -> (n: usize)
        requires
            self.rooms@.len() < usize::MAX,
        ensures
            n == row_count(self.rooms@.len(), self.next_batch is Some || self.is_loading, self.is_loading),
    {
        let n = self.rooms.len();
        let has_more = self.next_batch.is_some() || self.is_loading;
        if n == 0 && !self.is_loading {
            1
        } else if has_more {
            n + 1
        } else {
            n
        }
    }

    /// What the row at `index` shows, if anything.
    pub fn row(&self, index: usize) -> (r: Option<DirectoryRow>)
        ensures
            ({
                let n = self.rooms@.len();
                let has_more = self.next_batch is Some || self.is_loading;
                if n == 0 && !self.is_loading && index == 0 {
                    r matches Some(DirectoryRow::Status(m))
                        && m@ == (if trimmed(self.search_text@).len() == 0 { "No public rooms found."@ } else { "No rooms match your search."@ })
                } else if index < n {
                    r == Some(DirectoryRow::Room(index))
                } else if has_more && index == n {
                    r == Some(DirectoryRow::Loading)
                } else {
                    r is None
                }
            }),
    {
        let n = self.rooms.len();
        let has_more = self.next_batch.is_some() || self.is_loading;
        if n == 0 && !self.is_loading && index == 0 {
            let m = if trim_chars(self.search_text.as_str()).len() == 0 {
                "No public rooms found."
            } else {
                "No rooms match your search."
            };
            Some(DirectoryRow::Status(m))
        } else if index < n {
            Some(DirectoryRow::Room(index))
        } else if has_more && index == n {
            Some(DirectoryRow::Loading)
        } else {
            None
        }
    }
}

/// A new search leaves every answer to an earlier one unheeded: pages and
/// failures carry the query they answer, and the new query's number differs
/// from the last one's.
pub proof fn lemma_fresh_query_differs(query_id: u64)
    ensures
        query_id.wrapping_add(1) != query_id,
{
}

} // verus!
