//! The after-stream message store: notes viewers leave for the
//! streamer, listed in the order they arrived.

use vstd::prelude::*;

verus! {

/// One stored message.
pub struct AfterStream {
    pub id: u32,
    pub channel: Option<String>,
    pub added_at_ms: i64,
    pub user: String,
    pub text: String,
}

/// The in-memory after-stream store.
pub struct AfterStreams {
    pub entries: Vec<AfterStream>,
    pub next_id: u32,
}

impl AfterStreams {
    /// Ids are unique and grow with position, so listing in storage
    /// order is listing in arrival order.
    pub open spec fn wf(self) -> bool {
        &&& forall|i: int, j: int|
            0 <= i < j < self.entries@.len() ==> self.entries@[i].id < self.entries@[j].id
        &&& forall|i: int| 0 <= i < self.entries@.len() ==> self.entries@[i].id < self.next_id
    }

    pub fn new() -> (r: AfterStreams)
        ensures
            r.wf(),
            r.entries@.len() == 0,
    {
        AfterStreams { entries: Vec::new(), next_id: 0 }
    }

    /// Appends a message; it receives the next id. A full store (all
    /// ids used) refuses the message.
    pub fn push(&mut self, channel: Option<String>, user: String, text: String, added_at_ms: i64)
        -> (r: Option<u32>)
        requires
            old(self).wf(),
        ensures
            final(self).wf(),
            (match r {
                Some(id) => {
                    &&& old(self).next_id < u32::MAX
                    &&& id == old(self).next_id
                    &&& final(self).next_id == old(self).next_id + 1
                    &&& final(self).entries@.len() == old(self).entries@.len() + 1
                    &&& forall|k: int|
                        0 <= k < old(self).entries@.len() ==> final(self).entries@[k] == old(
                            self,
                        ).entries@[k]
                    &&& final(self).entries@.last().id == id
                    &&& final(self).entries@.last().user == user
                    &&& final(self).entries@.last().text == text
                    &&& final(self).entries@.last().added_at_ms == added_at_ms
                },
                None => {
                    &&& old(self).next_id == u32::MAX
                    &&& final(self).next_id == old(self).next_id
                    &&& final(self).entries@ == old(self).entries@
                },
            }),
    {
        if self.next_id == u32::MAX {
            return None;
        }
        let id = self.next_id;
        self.next_id = self.next_id + 1;
        self.entries.push(AfterStream { id, channel, added_at_ms, user, text });
        Some(id)
    }

    /// Deletes the message with the given id; says whether one was
    /// there.
    pub fn delete(&mut self, id: u32) -> (r: bool)
        requires
            old(self).wf(),
        ensures
            final(self).wf(),
            r == (exists|k: int|
                0 <= k < old(self).entries@.len() && (#[trigger] old(self).entries@[k]).id == id),
            !r ==> final(self).entries@ == old(self).entries@,
            r ==> final(self).entries@.len() == old(self).entries@.len() - 1,
            forall|k: int|
                0 <= k < final(self).entries@.len() ==> (#[trigger] final(self).entries@[k]).id
                    != id,
    {
        let mut i: usize = 0;
        while i < self.entries.len()
            invariant
                0 <= i <= self.entries@.len(),
                *self == *old(self),
                old(self).wf(),
                forall|k: int| 0 <= k < i ==> (#[trigger] self.entries@[k]).id != id,
            decreases self.entries@.len() - i,
        {
            if self.entries[i].id == id {
                let _ = self.entries.remove(i);
                proof {
                    assert forall|k: int|
                        0 <= k < self.entries@.len() implies (#[trigger] self.entries@[k]).id
                        != id by {
                        if k >= i {
                            assert(self.entries@[k] == old(self).entries@[k + 1]);
                            assert(old(self).entries@[i as int].id < old(self).entries@[k
                                + 1].id);
                        }
                    }
                }
                return true;
            }
            i = i + 1;
        }
        false
    }

    /// All stored messages, in arrival order.
    pub fn list(&self) -> (r: &Vec<AfterStream>)
        ensures
            r@ == self.entries@,
    {
        &self.entries
    }
}

} // verus!
