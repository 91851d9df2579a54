//! The banner over a room's composer while a failed message holds up its send
//! queue.

use vstd::prelude::*;

verus! {

/// The message that failed to send: where it belongs (`K`, the timeline it
/// is in), its ID, the text of its error and whether sending it again may work.
pub struct BlockedSend<K> {
    pub timeline_kind: K,
    pub timeline_event_id: String,
    pub error_text: String,
    pub retryable: bool,
}

/// What the banner's widgets do after an update.
#[derive(Debug, PartialEq, Eq)]
pub enum BannerUpdate {
    /// Nothing changed, so the widgets are left as they are.
    Unchanged,
    /// No send is blocked: the banner hides.
    Hide,
    /// The banner shows the reason, with the retry button when it may help.
    Show { reason_text: String, retry_visible: bool },
}

/// The banner: the blocked send it shows, if any.
pub struct FailedSendBanner<K> {
    pub blocked: Option<BlockedSend<K>>,
}

/// The reason line for a blocked send.
pub open spec fn reason_text(error_text: Seq<char>) -> Seq<char> {
    "Couldn't send an earlier message: "@ + error_text
}

/// Whether an update shows what is shown already: nothing twice, or the same
/// message with the same error (`same_error`: the error is the very one shown).
pub open spec fn same_blocked<K>(shown: Option<BlockedSend<K>>, new: Option<BlockedSend<K>>, same_error: bool) -> bool {
    match (shown, new) {
        (None, None) => true,
        (Some(s), Some(n)) => s.timeline_event_id@ == n.timeline_event_id@ && same_error,
        _ => false,
    }
}

impl<K> FailedSendBanner<K> {
    /// A hidden banner.
    pub fn new() -> (r: FailedSendBanner<K>)
        ensures
            r.blocked is None,
    {
        FailedSendBanner { blocked: None }
    }

    /// Shows the banner for `blocked`, or hides it for none. This runs on
    /// every timeline update, so when nothing changed the widgets are left
    /// alone. `same_error` tells whether the new error is the very one shown
    /// (the same shared error value).
    pub fn show_or_hide(&mut self, blocked: Option<BlockedSend<K>>, same_error: bool) -> (u: BannerUpdate)
        ensures
            same_blocked(old(self).blocked, blocked, same_error) ==> u is Unchanged && final(self).blocked == old(self).blocked,
            !same_blocked(old(self).blocked, blocked, same_error) ==> match blocked {
                None => u is Hide && final(self).blocked is None,
                Some(b) => (u matches BannerUpdate::Show { reason_text: t, retry_visible }
                    && t@ == reason_text(b.error_text@) && retry_visible == b.retryable)
                    && final(self).blocked == Some(b),
            },
    {
        let is_same = match (&self.blocked, &blocked) {
            (None, None) => true,
            (Some(shown), Some(new)) => shown.timeline_event_id == new.timeline_event_id && same_error,
            _ => false,
        };
        if is_same {
            return BannerUpdate::Unchanged;
        }
        match blocked {
            None => {
                self.blocked = None;
                BannerUpdate::Hide
            },
            Some(b) => {
                let mut t = String::from_str("Couldn't send an earlier message: ");
                t.append(b.error_text.as_str());
                let retry_visible = b.retryable;
                self.blocked = Some(b);
                BannerUpdate::Show { reason_text: t, retry_visible }
            },
        }
    }
}

} // verus!
