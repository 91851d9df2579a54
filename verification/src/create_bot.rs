//! Creating a bot account: the username rule and the request.

use vstd::prelude::*;
use crate::text::{trimmed, trim_str, chars_of};

verus! {

/// The characters a bot username may hold: lowercase ASCII letters, digits
/// and underscores.
pub open spec fn is_bot_char(c: char) -> bool {
    ('a' <= c && c <= 'z') || ('0' <= c && c <= '9') || c == '_'
}

/// Whether a username is non-empty and made of lowercase ASCII letters,
/// digits and underscores only. (Every byte of a character outside ASCII is
/// outside these, so checking characters checks bytes.)
pub open spec fn valid_bot_username(s: Seq<char>) -> bool {
    s.len() > 0 && forall|i: int| 0 <= i < s.len() ==> #[trigger] is_bot_char(s[i])
}

pub fn is_valid_bot_username(username: &str) -> (r: bool)
    ensures
        r == valid_bot_username(username@),
{
    let chars = chars_of(username);
    if chars.len() == 0 {
        return false;
    }
    let mut i: usize = 0;
    while i < chars.len()
        invariant
            i <= chars@.len(),
            chars@ == username@,
            forall|k: int| 0 <= k < i ==> #[trigger] is_bot_char(chars@[k]),
        decreases chars@.len() - i,
    {
        let c = chars[i];
        if !(('a' <= c && c <= 'z') || ('0' <= c && c <= '9') || c == '_') {
            assert(!is_bot_char(username@[i as int]));
            return false;
        }
        i = i + 1;
    }
    true
}

/// A request to create a bot.
#[derive(Debug)]
pub struct CreateBotRequest {
    pub username: String,
    pub display_name: String,
    pub system_prompt: Option<String>,
}

/// The error shown for a username that breaks the rule.
pub const INVALID_USERNAME_MESSAGE: &'static str = "Username must use lowercase letters, digits, or underscores.";

/// The request that the form describes (each input trimmed): refused when the
/// username breaks the rule; the display name defaults to the username, and a
/// blank prompt is left out.
pub fn build_create_bot_request(username: &str, display_name: &str, prompt: &str) -> (r: Result<CreateBotRequest, &'static str>)
    ensures
        r is Ok <==> valid_bot_username(trimmed(username@)),
        r matches Err(m) ==> m@ == INVALID_USERNAME_MESSAGE@,
        r matches Ok(q) ==> q.username@ == trimmed(username@)
            && q.display_name@ == (if trimmed(display_name@).len() == 0 { trimmed(username@) } else { trimmed(display_name@) })
            && (q.system_prompt matches Some(p) ==> p@ == trimmed(prompt@) && p@.len() > 0)
            && (q.system_prompt is None <==> trimmed(prompt@).len() == 0),
{
    let u = trim_str(username);
    if !is_valid_bot_username(u.as_str()) {
        return Err(INVALID_USERNAME_MESSAGE);
    }
    let d = trim_str(display_name);
    let p = trim_str(prompt);
    let display = if d.as_str().is_empty() { u.clone() } else { d };
    let system_prompt = if p.as_str().is_empty() { None } else { Some(p) };
    Ok(CreateBotRequest { username: u, display_name: display, system_prompt })
}

/// The text of the dialog that creates a bot in a room.
pub fn create_bot_body(room_label: &str) -> (r: String)
    ensures
        r@ == "Robrix will send `/createbot` to BotFather in "@ + room_label@
            + ". The bot becomes available immediately after octos creates it."@,
{
    let mut r = String::from_str("Robrix will send `/createbot` to BotFather in ");
    r.append(room_label);
    r.append(". The bot becomes available immediately after octos creates it.");
    r
}

/// Whether the error under the form is cleared: it is once any input
/// changes while it shows.
pub fn clears_error(showing_error: bool, any_input_changed: bool) -> (r: bool)
    ensures
        r == (showing_error && any_input_changed),
{
    showing_error && any_input_changed
}

} // verus!
