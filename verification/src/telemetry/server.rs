//! The invite link that the control plane hands out once it is known.

use vstd::prelude::*;

verus! {

/// Holds the bot's invite link from the moment it is known.
///
/// The tracker is one value with one owner. Whoever wants several holders
/// to see the same link shares the tracker itself; it cannot be copied.
#[derive(Debug)]
pub struct InviteTracker {
    inner: Option<String>,
}

impl View for InviteTracker {
    type V = Option<Seq<char>>;

    closed spec fn view(&self) -> Option<Seq<char>> {
        match self.inner {
            Some(url) => Some(url@),
            None => None,
        }
    }
}

impl InviteTracker {
    /// A tracker that has no link yet.
    pub fn new() -> (tracker: Self)
        ensures
            tracker@.is_none(),
    {
        InviteTracker { inner: None }
    }

    /// Stores the link, replacing an earlier one.
    pub fn set(&mut self, url: String)
        ensures
            final(self)@ == Some(url@),
    {
        self.inner = Some(url);
    }

    /// The link, if one was stored.
    pub fn get(&self) -> (url: Option<String>)
        ensures
            url.is_some() == self@.is_some(),
            url.is_some() ==> url.unwrap()@ == self@.unwrap(),
    {
        match &self.inner {
            Some(url) => Some(url.clone()),
            None => None,
        }
    }
}

impl Default for InviteTracker {
    fn default() -> (tracker: Self)
        ensures
            tracker@.is_none(),
    {
        InviteTracker::new()
    }
}

} // verus!
