//! The event-source view: the raw JSON of an event, turned into HTML with
//! its keys, strings, numbers, literals and punctuation in colour, and the
//! indentation kept.

use vstd::prelude::*;
use crate::text::{is_white, chars_of, char_is_whitespace, push_char, string_of_range};

verus! {

pub const COLOR_PUNCTUATION: &'static str = "#6A737D";
pub const COLOR_KEY: &'static str = "#22863A";
pub const COLOR_STRING: &'static str = "#032F62";
pub const COLOR_NUMBER: &'static str = "#005CC5";
pub const COLOR_LITERAL: &'static str = "#D73A49";
/// The colour of the blank characters that indent a line.
pub const COLOR_INDENT: &'static str = "#F7F9FC";

// ---------------------------------------------------------------------------
// HTML escaping
// ---------------------------------------------------------------------------

/// The escape of one character in an HTML text node.
pub open spec fn escape_char(c: char) -> Seq<char> {
    if c == '&' {
        "&amp;"@
    } else if c == '<' {
        "&lt;"@
    } else if c == '>' {
        "&gt;"@
    } else {
        seq![c]
    }
}

/// A text escaped for an HTML text node: `&`, `<` and `>` become entities,
/// every other character stays.
pub open spec fn escaped(s: Seq<char>) -> Seq<char>
    decreases s.len(),
{
    if s.len() == 0 {
        Seq::empty()
    } else {
        escaped(s.drop_last()) + escape_char(s.last())
    }
}

/// `htmlize::escape_text`: replaces each `&`, `<` and `>` by `&amp;`, `&lt;`
/// and `&gt;`, and keeps every other character.
#[verifier::external_body]
fn escape_text(s: &str) -> (r: String)
    ensures
        r@ == escaped(s@),
{
    htmlize::escape_text(s).into_owned()
}

// ---------------------------------------------------------------------------
// The tokens of the JSON text
// ---------------------------------------------------------------------------

pub open spec fn is_digit(c: char) -> bool {
    '0' <= c && c <= '9'
}

/// The characters that continue a number.
pub open spec fn is_number_char(c: char) -> bool {
    is_digit(c) || c == '.' || c == 'e' || c == 'E' || c == '+' || c == '-'
}

pub open spec fn is_punct(c: char) -> bool {
    c == '{' || c == '}' || c == '[' || c == ']' || c == ':' || c == ','
}

/// The end of a string token whose body starts at `j`: just after its closing
/// quote, or the end of the text when it has none. A backslash escapes the
/// character after it.
pub open spec fn string_end(s: Seq<char>, j: int, escaping: bool) -> int
    decreases s.len() - j,
{
    if j < 0 || j >= s.len() {
        s.len() as int
    } else if escaping {
        string_end(s, j + 1, false)
    } else if s[j] == '\\' {
        string_end(s, j + 1, true)
    } else if s[j] == '"' {
        j + 1
    } else {
        string_end(s, j + 1, false)
    }
}

/// The first position from `j` on that holds no whitespace.
pub open spec fn skip_white(s: Seq<char>, j: int) -> int
    decreases s.len() - j,
{
    if 0 <= j < s.len() && is_white(s[j]) { skip_white(s, j + 1) } else { j }
}

/// The first position from `j` on that does not continue a number.
pub open spec fn number_end(s: Seq<char>, j: int) -> int
    decreases s.len() - j,
{
    if 0 <= j < s.len() && is_number_char(s[j]) { number_end(s, j + 1) } else { j }
}

/// The first position from `j` on that holds no space.
pub open spec fn spaces_end(s: Seq<char>, j: int) -> int
    decreases s.len() - j,
{
    if 0 <= j < s.len() && s[j] == ' ' { spaces_end(s, j + 1) } else { j }
}

/// Whether `needle` stands in `s` at `i`.
pub open spec fn starts_with_at(s: Seq<char>, i: int, needle: Seq<char>) -> bool {
    needle.len() == 0 || (0 <= i && i + needle.len() <= s.len() && s.subrange(i, i + needle.len()) == needle)
}

/// A token in colour.
pub open spec fn colored(color: Seq<char>, token: Seq<char>) -> Seq<char> {
    "<font color=\""@ + color + "\">"@ + escaped(token) + "</font>"@
}

/// `width` blank characters that survive the trimming of a line's start.
pub open spec fn indent(width: nat) -> Seq<char> {
    if width == 0 {
        Seq::empty()
    } else {
        "<font color=\""@ + COLOR_INDENT@ + "\">"@ + Seq::new(width, |k: int| '\u{2800}') + "</font>"@
    }
}

/// The HTML of the token at `i` (while `at_start` says whether only
/// indentation precedes it on its line), where the next token starts, and
/// whether it starts a line.
pub open spec fn token_at(s: Seq<char>, i: int, at_start: bool) -> (Seq<char>, int, bool) {
    let c = s[i];
    if c == '"' {
        let e = string_end(s, i + 1, false);
        let j = skip_white(s, e);
        let color = if j < s.len() && s[j] == ':' { COLOR_KEY@ } else { COLOR_STRING@ };
        (colored(color, s.subrange(i, e)), e, false)
    } else if c == '-' || is_digit(c) {
        let e = number_end(s, i + 1);
        (colored(COLOR_NUMBER@, s.subrange(i, e)), e, false)
    } else if c == 't' && starts_with_at(s, i, "true"@) {
        (colored(COLOR_LITERAL@, "true"@), i + 4, false)
    } else if c == 'f' && starts_with_at(s, i, "false"@) {
        (colored(COLOR_LITERAL@, "false"@), i + 5, false)
    } else if c == 'n' && starts_with_at(s, i, "null"@) {
        (colored(COLOR_LITERAL@, "null"@), i + 4, false)
    } else if is_punct(c) {
        (colored(COLOR_PUNCTUATION@, seq![c]), i + 1, false)
    } else if c == '\n' {
        ("<br>"@, i + 1, true)
    } else if c == ' ' {
        if at_start {
            let e = spaces_end(s, i);
            (indent(((e - i) * 2) as nat), e, true)
        } else {
            ("&nbsp;"@, i + 1, false)
        }
    } else if c == '\t' {
        (if at_start { indent(8) } else { "&nbsp;&nbsp;&nbsp;&nbsp;"@ }, i + 1, at_start)
    } else if is_white(c) {
        (escaped(seq![c]), i + 1, at_start)
    } else {
        (escaped(seq![c]), i + 1, false)
    }
}

proof fn lemma_scans_bounded(s: Seq<char>, j: int, escaping: bool)
    requires
        0 <= j <= s.len(),
    ensures
        j <= string_end(s, j, escaping) <= s.len(),
        j <= skip_white(s, j) <= s.len(),
        j <= number_end(s, j) <= s.len(),
        j <= spaces_end(s, j) <= s.len(),
    decreases s.len() - j,
{
    if j < s.len() {
        lemma_scans_bounded(s, j + 1, true);
        lemma_scans_bounded(s, j + 1, false);
    }
}

pub proof fn lemma_token_advances(s: Seq<char>, i: int, at_start: bool)
    requires
        0 <= i < s.len(),
    ensures
        i < token_at(s, i, at_start).1 <= s.len(),
{
    reveal_strlit("true");
    reveal_strlit("false");
    reveal_strlit("null");
    lemma_scans_bounded(s, i + 1, false);
    lemma_scans_bounded(s, i, false);
}

/// The HTML of the text from position `i` on.
pub open spec fn html_from(s: Seq<char>, i: int, at_start: bool) -> Seq<char>
    decreases s.len() - i,
{
    if i < 0 || i >= s.len() {
        Seq::empty()
    } else {
        proof {
            lemma_token_advances(s, i, at_start);
        }
        let t = token_at(s, i, at_start);
        t.0 + html_from(s, t.1, t.2)
    }
}

/// The HTML of an event's JSON source.
pub open spec fn event_source_html(json: Seq<char>) -> Seq<char> {
    html_from(json, 0, true)
}

// ---------------------------------------------------------------------------
// Rendering
// ---------------------------------------------------------------------------

/// Appends `token` in the given colour.
fn push_colored_html(out: &mut String, color: &str, token: &str)
    ensures
        final(out)@ == old(out)@ + colored(color@, token@),
{
    out.append("<font color=\"");
    out.append(color);
    out.append("\">");
    let e = escape_text(token);
    out.append(e.as_str());
    out.append("</font>");
    assert(final(out)@ =~= old(out)@ + colored(color@, token@));
}

/// Appends `width` blank characters of indentation (nothing when `width` is 0).
fn push_indent_html(out: &mut String, width: usize)
    ensures
        final(out)@ == old(out)@ + indent(width as nat),
{
    if width == 0 {
        assert(old(out)@ + indent(0) =~= old(out)@);
        return;
    }
    out.append("<font color=\"");
    out.append(COLOR_INDENT);
    out.append("\">");
    let ghost before = out@;
    let mut k: usize = 0;
    while k < width
        invariant
            k <= width,
            out@ == before + Seq::new(k as nat, |x: int| '\u{2800}'),
        decreases width - k,
    {
        push_char(out, '\u{2800}');
        assert(Seq::new((k + 1) as nat, |x: int| '\u{2800}') =~= Seq::new(k as nat, |x: int| '\u{2800}').push('\u{2800}'));
        k = k + 1;
    }
    out.append("</font>");
    assert(final(out)@ =~= old(out)@ + indent(width as nat));
}

/// Whether `needle` stands in `chars` at `start`.
fn starts_with_chars(chars: &[char], start: usize, needle: &str) -> (r: bool)
    ensures
        r == starts_with_at(chars@, start as int, needle@),
{
    let n = chars_of(needle);
    let mut k: usize = 0;
    while k < n.len()
        invariant
            k <= n@.len(),
            n@ == needle@,
            forall|x: int| 0 <= x < k ==> start + x < chars@.len() && #[trigger] chars@[start + x] == n@[x],
        decreases n@.len() - k,
    {
        if start >= chars.len() || k >= chars.len() - start {
            return false;
        }
        if chars[start + k] != n[k] {
            proof {
                if start + needle@.len() <= chars@.len() {
                    assert(chars@.subrange(start as int, start + needle@.len())[k as int] == chars@[start + k]);
                }
            }
            return false;
        }
        k = k + 1;
    }
    if n.len() > 0 {
        assert(start + n@.len() <= chars@.len()) by {
            assert(chars@[start + (n@.len() - 1)] == n@[n@.len() - 1]);
        }
        assert forall|x: int| 0 <= x < needle@.len() implies
            #[trigger] chars@.subrange(start as int, start + needle@.len())[x] == needle@[x] by {
            assert(chars@[start + x] == n@[x]);
        }
        assert(chars@.subrange(start as int, start + needle@.len()) =~= needle@);
    }
    true
}

fn is_number_char_exec(c: char) -> (r: bool)
    ensures
        r == is_number_char(c),
{
    ('0' <= c && c <= '9') || c == '.' || c == 'e' || c == 'E' || c == '+' || c == '-'
}

/// Appends the HTML of the token at `i`; returns where the next token starts
/// and whether it starts a line.
fn push_token_html(out: &mut String, chars: &[char], i: usize, at_start: bool) -> (r: (usize, bool))
    requires
        i < chars@.len(),
        chars@.len() <= usize::MAX / 2,
    ensures
        final(out)@ == old(out)@ + token_at(chars@, i as int, at_start).0,
        r.0 as int == token_at(chars@, i as int, at_start).1,
        r.1 == token_at(chars@, i as int, at_start).2,
{
    let ghost s = chars@;
    let len = chars.len();
    let c = chars[i];
    proof {
        reveal_strlit("true");
        reveal_strlit("false");
        reveal_strlit("null");
    }
    if c == '"' {
        let mut k = i + 1;
        let mut escaping = false;
        let mut done = false;
        while k < len && !done
            invariant
                i < k <= len,
                len == s.len(),
                s == chars@,
                string_end(s, i + 1, false) == (if done { k as int } else { string_end(s, k as int, escaping) }),
            decreases len - k,
        {
            let ch = chars[k];
            if escaping {
                escaping = false;
            } else if ch == '\\' {
                escaping = true;
            } else if ch == '"' {
                done = true;
            }
            k = k + 1;
        }
        let token = string_of_range(chars, i, k);
        let mut j = k;
        while j < len && char_is_whitespace(chars[j])
            invariant
                k <= j <= len,
                len == s.len(),
                s == chars@,
                skip_white(s, k as int) == skip_white(s, j as int),
            decreases len - j,
        {
            j = j + 1;
        }
        let color = if j < len && chars[j] == ':' { COLOR_KEY } else { COLOR_STRING };
        push_colored_html(out, color, token.as_str());
        (k, false)
    } else if c == '-' || ('0' <= c && c <= '9') {
        let mut k = i + 1;
        while k < len && is_number_char_exec(chars[k])
            invariant
                i < k <= len,
                len == s.len(),
                s == chars@,
                number_end(s, i + 1) == number_end(s, k as int),
            decreases len - k,
        {
            k = k + 1;
        }
        let token = string_of_range(chars, i, k);
        push_colored_html(out, COLOR_NUMBER, token.as_str());
        (k, false)
    } else if c == 't' && starts_with_chars(chars, i, "true") {
        push_colored_html(out, COLOR_LITERAL, "true");
        (i + 4, false)
    } else if c == 'f' && starts_with_chars(chars, i, "false") {
        push_colored_html(out, COLOR_LITERAL, "false");
        (i + 5, false)
    } else if c == 'n' && starts_with_chars(chars, i, "null") {
        push_colored_html(out, COLOR_LITERAL, "null");
        (i + 4, false)
    } else if c == '{' || c == '}' || c == '[' || c == ']' || c == ':' || c == ',' {
        let token = string_of_range(chars, i, i + 1);
        assert(token@ =~= seq![c]);
        push_colored_html(out, COLOR_PUNCTUATION, token.as_str());
        (i + 1, false)
    } else if c == '\n' {
        out.append("<br>");
        (i + 1, true)
    } else if c == ' ' {
        if at_start {
            let mut k = i;
            while k < len && chars[k] == ' '
                invariant
                    i <= k <= len,
                    len == s.len(),
                    s == chars@,
                    spaces_end(s, i as int) == spaces_end(s, k as int),
                decreases len - k,
            {
                k = k + 1;
            }
            push_indent_html(out, (k - i) * 2);
            (k, true)
        } else {
            out.append("&nbsp;");
            (i + 1, false)
        }
    } else if c == '\t' {
        if at_start {
            push_indent_html(out, 8);
        } else {
            out.append("&nbsp;&nbsp;&nbsp;&nbsp;");
        }
        (i + 1, at_start)
    } else {
        let token = string_of_range(chars, i, i + 1);
        assert(token@ =~= seq![c]);
        let e = escape_text(token.as_str());
        out.append(e.as_str());
        if char_is_whitespace(c) {
            (i + 1, at_start)
        } else {
            (i + 1, false)
        }
    }
}

/// The HTML of an event's JSON source, with each token in its colour: keys
/// (strings followed by `:`), other strings, numbers, the literals `true`,
/// `false` and `null`, and punctuation. Line breaks become `<br>`; the spaces
/// and tabs that indent a line become blank characters that the HTML view
/// keeps; other text is escaped. The text's length is that of a string in
/// memory, which is far below the bound.
pub fn format_event_source_html(json: &str) -> (r: String)
    requires
        json@.len() <= usize::MAX / 2,
    ensures
        r@ == event_source_html(json@),
{
    let chars = chars_of(json);
    let mut out = String::new();
    let mut i: usize = 0;
    let mut at_line_start = true;
    assert(out@ + html_from(chars@, 0, true) =~= html_from(chars@, 0, true));
    while i < chars.len()
        invariant
            i <= chars@.len(),
            chars@ == json@,
            json@.len() <= usize::MAX / 2,
            out@ + html_from(chars@, i as int, at_line_start) == html_from(chars@, 0, true),
        decreases chars@.len() - i,
    {
        let ghost before = out@;
        let ghost t = token_at(chars@, i as int, at_line_start);
        proof {
            lemma_token_advances(chars@, i as int, at_line_start);
        }
        assert(html_from(chars@, i as int, at_line_start) == t.0 + html_from(chars@, t.1, t.2));
        let (next, st) = push_token_html(&mut out, chars.as_slice(), i, at_line_start);
        assert(out@ + html_from(chars@, next as int, st) =~= before + html_from(chars@, i as int, at_line_start));
        i = next;
        at_line_start = st;
    }
    assert(out@ + html_from(chars@, i as int, at_line_start) =~= out@);
    out
}

/// Escaped text holds no angle bracket, so no text of an event can open or
/// close a tag of the view.
pub proof fn lemma_escaped_has_no_angle_brackets(s: Seq<char>)
    ensures
        forall|x: int| 0 <= x < escaped(s).len() ==> #[trigger] escaped(s)[x] != '<' && escaped(s)[x] != '>',
    decreases s.len(),
{
    reveal_strlit("&amp;");
    reveal_strlit("&lt;");
    reveal_strlit("&gt;");
    if s.len() > 0 {
        lemma_escaped_has_no_angle_brackets(s.drop_last());
        let a = escaped(s.drop_last());
        let b = escape_char(s.last());
        assert forall|x: int| 0 <= x < escaped(s).len() implies #[trigger] escaped(s)[x] != '<' && escaped(s)[x] != '>' by {
            if x < a.len() {
                assert(escaped(s)[x] == a[x]);
            } else {
                assert(escaped(s)[x] == b[x - a.len()]);
            }
        }
    }
}

// ---------------------------------------------------------------------------
// The modal
// ---------------------------------------------------------------------------

/// Whether `r` puts `text` on the clipboard and confirms it with `message`.
pub open spec fn copies(r: Option<(String, &'static str)>, text: Seq<char>, message: Seq<char>) -> bool {
    match r {
        Some(p) => p.0@ == text && p.1@ == message,
        None => false,
    }
}

/// The copy buttons of the modal.
pub enum CopyButton {
    RoomId,
    EventId,
    Source,
}

/// What the event-source modal holds: the room, the event and its JSON.
pub struct EventSourceModal {
    pub room_id: Option<String>,
    pub event_id: Option<String>,
    pub original_json: Option<String>,
}

impl EventSourceModal {
    /// A modal that shows nothing yet.
    pub fn new() -> (r: EventSourceModal)
        ensures
            r.room_id is None,
            r.event_id is None,
            r.original_json is None,
    {
        EventSourceModal { room_id: None, event_id: None, original_json: None }
    }

    /// Shows the modal with the given event details and JSON source.
    pub fn show(&mut self, room_id: String, event_id: Option<String>, original_json: Option<String>)
        ensures
            final(self).room_id == Some(room_id),
            final(self).event_id == event_id,
            final(self).original_json == original_json,
    {
        self.room_id = Some(room_id);
        self.event_id = event_id;
        self.original_json = original_json;
    }

    /// What a click on a copy button puts on the clipboard, and the
    /// notification that confirms it; nothing when the modal lacks that value.
    pub fn copy_payload(&self, button: CopyButton) -> (r: Option<(String, &'static str)>)
        ensures
            match button {
                CopyButton::RoomId => match self.room_id {
                    Some(v) => copies(r, v@, "Copied Room ID to clipboard."@),
                    None => r is None,
                },
                CopyButton::EventId => match self.event_id {
                    Some(v) => copies(r, v@, "Copied Event ID to clipboard."@),
                    None => r is None,
                },
                CopyButton::Source => match self.original_json {
                    Some(v) => copies(r, v@, "Copied event source to clipboard."@),
                    None => r is None,
                },
            },
    {
        match button {
            CopyButton::RoomId => match &self.room_id {
                Some(v) => Some((v.clone(), "Copied Room ID to clipboard.")),
                None => None,
            },
            CopyButton::EventId => match &self.event_id {
                Some(v) => Some((v.clone(), "Copied Event ID to clipboard.")),
                None => None,
            },
            CopyButton::Source => match &self.original_json {
                Some(v) => Some((v.clone(), "Copied event source to clipboard.")),
                None => None,
            },
        }
    }
}

} // verus!
