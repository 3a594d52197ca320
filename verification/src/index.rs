//! An in-memory model of the content index capability the pipeline consumes:
//! a paginated, cursor-based read interface over an immutable store, newest
//! record first. Tests substitute any index they like by building one here.

use vstd::prelude::*;

use crate::records::{IndexSlot, Record, RecordEntry, RecordId};

verus! {

/// The position a cursor stands for: the newest record for `None`, otherwise
/// the record whose index-internal sequence number the cursor carries.
/// Sequence numbers run newest-highest: the record at position `p` of `slots`
/// has sequence number `slots.len() - 1 - p`.
pub open spec fn cursor_pos(slots: Seq<IndexSlot>, cursor: Option<u64>) -> int {
    match cursor {
        None => 0,
        Some(c) => slots.len() - 1 - c,
    }
}

/// Whether a cursor points into the store.
pub open spec fn cursor_valid(slots: Seq<IndexSlot>, cursor: Option<u64>) -> bool {
    match cursor {
        None => true,
        Some(c) => c < slots.len(),
    }
}

/// Where a page starting at `start` with `count` requested records ends.
pub open spec fn page_end(slots: Seq<IndexSlot>, start: int, count: int) -> int {
    if start + count <= slots.len() {
        start + count
    } else {
        slots.len() as int
    }
}

/// The cursor that addresses position `pos`, or the exhaustion sentinel when
/// no record remains there.
pub open spec fn cursor_at(slots: Seq<IndexSlot>, pos: int) -> Option<u64> {
    if pos < slots.len() {
        Some((slots.len() - 1 - pos) as u64)
    } else {
        None
    }
}

/// The read-only content index, newest record first.
pub struct IndexModel {
    slots: Vec<IndexSlot>,
}

impl View for IndexModel {
    type V = Seq<IndexSlot>;

    closed spec fn view(&self) -> Seq<IndexSlot> {
        self.slots@
    }
}

impl IndexModel {
    /// Identifiers name at most one slot each.
    pub open spec fn wf(&self) -> bool {
        forall|i: int, j: int|
            0 <= i < j < self@.len() ==> self@[i].id != self@[j].id
    }

    /// An empty index.
    pub fn new() -> (r: IndexModel)
        ensures
            r.wf(),
            r@ == Seq::<IndexSlot>::empty(),
    {
        let r = IndexModel { slots: Vec::new() };
        proof {
            assert(r@ =~= Seq::<IndexSlot>::empty());
        }
        r
    }

    /// Appends a slot older than everything held. Refused (and the index left
    /// unchanged) when the identifier is already taken.
    pub fn push_slot(&mut self, slot: IndexSlot) -> (r: bool)
        requires
            old(self).wf(),
        ensures
            final(self).wf(),
            r == (forall|i: int| 0 <= i < old(self)@.len() ==> old(self)@[i].id != slot.id),
            r ==> final(self)@ == old(self)@.push(slot),
            !r ==> final(self)@ == old(self)@,
    {
        let n = self.slots.len();
        let mut i: usize = 0;
        while i < n
            invariant
                self.wf(),
                n == self@.len(),
                0 <= i <= n,
                self@ == old(self)@,
                forall|j: int| 0 <= j < i ==> self@[j].id != slot.id,
            decreases n - i,
        {
            if self.slots[i].id == slot.id {
                return false;
            }
            i += 1;
        }
        self.slots.push(slot);
        true
    }

    /// How many records the index holds. This is the explicit total-count
    /// probe the progress display is sized with.
    pub fn count(&self) -> (r: usize)
        ensures
            r == self@.len(),
    {
        self.slots.len()
    }

    /// One page of identifiers, walking strictly backward from newest to
    /// oldest. `cursor = None` requests the newest page. The returned older
    /// cursor is the input of the next call; `None` signals exhaustion. The
    /// newer cursor points back toward the newest record and is unused by the
    /// export.
    pub fn latest_page(&self, count: usize, cursor: Option<u64>) -> (r: (
        Vec<RecordId>,
        Option<u64>,
        Option<u64>,
    ))
        requires
            count >= 1,
            cursor_valid(self@, cursor),
        ensures
            ({
                let start = cursor_pos(self@, cursor);
                let end = page_end(self@, start, count as int);
                &&& r.0@.len() == end - start
                &&& forall|k: int| 0 <= k < end - start ==> r.0@[k] == self@[start + k].id
                &&& r.1 == cursor_at(self@, end)
                &&& r.2 == (if start > 0 {
                    Some((self@.len() - start) as u64)
                } else {
                    None
                })
            }),
    {
        let n = self.slots.len();
        let start: usize = match cursor {
            None => 0,
            Some(c) => n - 1 - (c as usize),
        };
        let end: usize = if count <= n - start {
            start + count
        } else {
            n
        };
        let mut ids: Vec<RecordId> = Vec::new();
        let mut p: usize = start;
        while p < end
            invariant
                n == self@.len(),
                start <= p <= end <= n,
                ids@.len() == p - start,
                forall|k: int| 0 <= k < p - start ==> ids@[k] == self@[start + k].id,
            decreases end - p,
        {
            ids.push(self.slots[p].id);
            p += 1;
        }
        let older: Option<u64> = if end < n {
            Some((n - 1 - end) as u64)
        } else {
            None
        };
        let newer: Option<u64> = if start > 0 {
            Some((n - start) as u64)
        } else {
            None
        };
        (ids, older, newer)
    }

    /// The record stored under an identifier, when the index holds both the
    /// slot and its content.
    pub fn record_by_id(&self, id: RecordId) -> (r: Option<&Record>)
        requires
            self.wf(),
        ensures
            forall|i: int|
                0 <= i < self@.len() && self@[i].id == id ==> (r is Some <==> self@[i].record
                    is Some) && (r is Some ==> *r->0 == self@[i].record->0),
            (forall|i: int| 0 <= i < self@.len() ==> self@[i].id != id) ==> r is None,
    {
        let n = self.slots.len();
        let mut i: usize = 0;
        while i < n
            invariant
                self.wf(),
                n == self@.len(),
                0 <= i <= n,
                forall|j: int| 0 <= j < i ==> self@[j].id != id,
            decreases n - i,
        {
            if self.slots[i].id == id {
                return self.slots[i].record.as_ref();
            }
            i += 1;
        }
        None
    }

    /// The timestamp entry stored under an identifier, when the index holds
    /// both the slot and its entry.
    pub fn entry_by_id(&self, id: RecordId) -> (r: Option<RecordEntry>)
        requires
            self.wf(),
        ensures
            forall|i: int|
                0 <= i < self@.len() && self@[i].id == id ==> r == self@[i].entry,
            (forall|i: int| 0 <= i < self@.len() ==> self@[i].id != id) ==> r is None,
    {
        let n = self.slots.len();
        let mut i: usize = 0;
        while i < n
            invariant
                self.wf(),
                n == self@.len(),
                0 <= i <= n,
                forall|j: int| 0 <= j < i ==> self@[j].id != id,
            decreases n - i,
        {
            if self.slots[i].id == id {
                return self.slots[i].entry;
            }
            i += 1;
        }
        None
    }
}

} // verus!
