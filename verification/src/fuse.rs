//! A one-shot resettable timer ("fuse"): armed with a deadline, cleared
//! when the awaited event arrives, fired when the deadline passes first.
//! It drives both keepalive-probe timeouts and the graceful-leave delay.

use vstd::prelude::*;

verus! {

/// A fuse either holds a deadline (armed) or nothing (empty).
pub struct Fuse {
    pub deadline: Option<u64>,
}

impl Fuse {
    /// An empty fuse: never fires.
    pub fn empty() -> (r: Fuse)
        ensures
            r.deadline is None,
    {
        Fuse { deadline: None }
    }

    /// Arms (or re-arms) the fuse to fire at `deadline`.
    pub fn arm(&mut self, deadline: u64)
        ensures
            final(self).deadline == Some(deadline),
    {
        self.deadline = Some(deadline);
    }

    /// Clears the fuse; it no longer fires.
    pub fn clear(&mut self)
        ensures
            final(self).deadline is None,
    {
        self.deadline = None;
    }

    /// Is the fuse armed?
    pub fn is_armed(&self) -> (r: bool)
        ensures
            r == (self.deadline is Some),
    {
        self.deadline.is_some()
    }

    /// Has the fuse fired: armed, and its deadline has passed?
    pub fn expired(&self, now: u64) -> (r: bool)
        ensures
            r == (self.deadline is Some && now >= self.deadline->0),
    {
        match self.deadline {
            Some(d) => now >= d,
            None => false,
        }
    }

}

} // verus!
