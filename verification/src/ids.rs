//! Matrix identifiers and addresses, checked by `ruma`.

use vstd::prelude::*;
use crate::text::views;
use ruma::matrix_uri::MatrixId;

verus! {

/// `ruma`'s verdict on a text as a user ID: nothing when it accepts the
/// text, else the message of its error (whose `Display` gives a fixed text
/// for each kind of fault, so the message depends on the text alone).
pub uninterp spec fn ruma_user_id_error(s: Seq<char>) -> Option<Seq<char>>;

/// Whether `ruma` accepts the text as a user ID (`@localpart:server`).
pub open spec fn ruma_accepts_user_id(s: Seq<char>) -> bool {
    ruma_user_id_error(s) is None
}

/// `ruma::UserId::parse`: the user ID, whose text is the input, when `ruma`
/// accepts it, else the message of `ruma`'s error. `ruma` checks the leading
/// `@`, the colon, the server name and the localpart; an accepted ID
/// therefore starts with `@` and holds a colon.
#[verifier::external_body]
pub(crate) fn parse_user_id(s: &str) -> (r: Result<String, String>)
    ensures
        r is Ok <==> ruma_accepts_user_id(s@),
        r matches Ok(u) ==> u@ == s@,
        r matches Err(m) ==> ruma_user_id_error(s@) == Some(m@),
        r is Ok ==> s@.len() > 0 && s@[0] == '@' && s@.contains(':'),
{
    match ruma::UserId::parse(s) {
        Ok(u) => Ok(u.as_str().to_string()),
        Err(e) => Err(e.to_string()),
    }
}

/// `ruma::OwnedEventId::try_from`: the event ID, whose text is the input, when
/// `ruma` accepts it. Text without a colon is accepted exactly when it starts with `$`.
#[verifier::external_body]
pub(crate) fn parse_event_id(s: &str) -> (r: Option<String>)
    ensures
        r matches Some(e) ==> e@ == s@,
        !s@.contains(':') ==> (r is Some <==> (s@.len() > 0 && s@[0] == '$')),
{
    match ruma::OwnedEventId::try_from(s) {
        Ok(e) => Some(e.as_str().to_string()),
        Err(_) => None,
    }
}

/// `ruma`'s verdict on a text as a room ID or alias: nothing when it
/// accepts the text, else the message of its error.
pub uninterp spec fn ruma_room_or_alias_id_error(s: Seq<char>) -> Option<Seq<char>>;

/// Whether `ruma` accepts the text as a room ID (`!…`) or a room alias (`#…`).
pub open spec fn ruma_accepts_room_or_alias_id(s: Seq<char>) -> bool {
    ruma_room_or_alias_id_error(s) is None
}

/// `ruma::OwnedRoomOrAliasId::try_from`: the room ID or alias, whose text is
/// the input, when `ruma` accepts it, else the message of `ruma`'s error.
#[verifier::external_body]
pub(crate) fn parse_room_or_alias_id(s: &str) -> (r: Result<String, String>)
    ensures
        r is Ok <==> ruma_accepts_room_or_alias_id(s@),
        r matches Ok(id) ==> id@ == s@,
        r matches Err(m) ==> ruma_room_or_alias_id_error(s@) == Some(m@),
{
    match ruma::OwnedRoomOrAliasId::try_from(s) {
        Ok(id) => Ok(id.as_str().to_string()),
        Err(e) => Err(e.to_string()),
    }
}

/// What a Matrix URI points at.
#[derive(Clone, Copy, Debug, PartialEq, Eq, Structural)]
pub enum UriTargetKind {
    Room,
    RoomAlias,
    User,
    /// An event, in a room given by its ID or alias.
    Event,
    Other,
}

/// What `ruma::MatrixToUri::parse` finds in a `https://matrix.to` link: the
/// kind of target, the room ID or alias (for a room, an alias or an event;
/// the user ID for a user), and the `via` servers.
pub uninterp spec fn matrix_to_uri(s: Seq<char>) -> Option<(UriTargetKind, Seq<char>, Seq<Seq<char>>)>;

/// What `ruma::MatrixUri::parse` finds in a `matrix:` URI, as for `matrix_to_uri`.
pub uninterp spec fn matrix_scheme_uri(s: Seq<char>) -> Option<(UriTargetKind, Seq<char>, Seq<Seq<char>>)>;

/// The target of a parsed URI, as plain values.
pub open spec fn uri_view(r: Option<(UriTargetKind, String, Vec<String>)>) -> Option<(UriTargetKind, Seq<char>, Seq<Seq<char>>)> {
    match r {
        Some(t) => Some((t.0, t.1@, views(t.2@))),
        None => None,
    }
}

/// `ruma::MatrixToUri::parse`, with its target and `via` servers converted
/// to text; `None` when the link does not parse.
#[verifier::external_body]
pub(crate) fn parse_matrix_to_uri(s: &str) -> (r: Option<(UriTargetKind, String, Vec<String>)>)
    ensures
        uri_view(r) == matrix_to_uri(s@),
{
    let uri = ruma::MatrixToUri::parse(s).ok()?;
    let via = uri.via().iter().map(|v| v.to_string()).collect();
    let (kind, id) = match uri.id() {
        MatrixId::Room(r) => (UriTargetKind::Room, r.to_string()),
        MatrixId::RoomAlias(a) => (UriTargetKind::RoomAlias, a.to_string()),
        MatrixId::User(u) => (UriTargetKind::User, u.to_string()),
        MatrixId::Event(r, _) => (UriTargetKind::Event, r.to_string()),
        _ => (UriTargetKind::Other, String::new()),
    };
    Some((kind, id, via))
}

/// `ruma::MatrixUri::parse`, with its target and `via` servers converted to
/// text; `None` when the URI does not parse.
#[verifier::external_body]
pub(crate) fn parse_matrix_scheme_uri(s: &str) -> (r: Option<(UriTargetKind, String, Vec<String>)>)
    ensures
        uri_view(r) == matrix_scheme_uri(s@),
{
    let uri = ruma::MatrixUri::parse(s).ok()?;
    let via = uri.via().iter().map(|v| v.to_string()).collect();
    let (kind, id) = match uri.id() {
        MatrixId::Room(r) => (UriTargetKind::Room, r.to_string()),
        MatrixId::RoomAlias(a) => (UriTargetKind::RoomAlias, a.to_string()),
        MatrixId::User(u) => (UriTargetKind::User, u.to_string()),
        MatrixId::Event(r, _) => (UriTargetKind::Event, r.to_string()),
        _ => (UriTargetKind::Other, String::new()),
    };
    Some((kind, id, via))
}

} // verus!
