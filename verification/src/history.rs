//! The history buffer: a bounded FIFO of the most recent packet records,
//! with the two read-only filtered views the display needs.

use vstd::prelude::*;
use crate::addr::{spec_flow_key, FlowKey};
use crate::bounded::fifo_push;
use crate::record::{PacketUpdate, RecordView};
use crate::text::{contains_lower, search_matches};

verus! {

/// The record belongs to the conversation under the key.
pub open spec fn flow_matches(r: RecordView, k: FlowKey) -> bool {
    spec_flow_key(r.source, r.destination) == k
}

/// Default capacity of the history buffer.
pub const DEFAULT_HISTORY_CAP: usize = 50;

/// Bounded FIFO of recent records; the oldest is evicted at capacity.
pub struct HistoryBuffer {
    items: Vec<PacketUpdate>,
    cap: usize,
}

impl View for HistoryBuffer {
    type V = Seq<RecordView>;

    closed spec fn view(&self) -> Seq<RecordView> {
        self.items@.map_values(|r: PacketUpdate| r@)
    }
}

impl HistoryBuffer {
    /// The configured capacity.
    pub closed spec fn cap(self) -> int {
        self.cap as int
    }

    /// Never more records than the capacity allows.
    pub open spec fn wf(self) -> bool {
        self@.len() <= self.cap() && self.cap() >= 1
    }

    pub fn new(cap: usize) -> (r: HistoryBuffer)
        requires
            cap >= 1,
        ensures
            r@ == Seq::<RecordView>::empty(),
            r.cap() == cap as int,
            r.wf(),
    {
        let h = HistoryBuffer { items: Vec::new(), cap };
        proof {
            assert(h@ =~= Seq::<RecordView>::empty());
        }
        h
    }

    pub fn len(&self) -> (r: usize)
        ensures
            r as int == self@.len(),
    {
        self.items.len()
    }

    pub fn get(&self, i: usize) -> (r: &PacketUpdate)
        requires
            i < self@.len(),
        ensures
            r@ == self@[i as int],
    {
        &self.items[i]
    }

    /// Appends a record, evicting the oldest once the capacity is passed.
    pub fn push(&mut self, r: PacketUpdate)
        requires
            old(self).wf(),
        ensures
            final(self)@ == fifo_push(old(self)@, r@, old(self).cap()),
            final(self).cap() == old(self).cap(),
            final(self).wf(),
    {
        if self.items.len() == self.cap {
            let _evicted = self.items.remove(0);
            proof {
                assert(self.items@.map_values(|x: PacketUpdate| x@) =~= old(self)@.skip(1));
            }
        }
        let ghost mid = self.items@.map_values(|x: PacketUpdate| x@);
        self.items.push(r);
        proof {
            assert(self.items@.map_values(|x: PacketUpdate| x@) =~= mid.push(r@));
        }
    }

    /// Forgets every record.
    pub fn clear(&mut self)
        ensures
            final(self)@ == Seq::<RecordView>::empty(),
            final(self).cap() == old(self).cap(),
            old(self).wf() ==> final(self).wf(),
    {
        self.items.clear();
        proof {
            assert(self@ =~= Seq::<RecordView>::empty());
        }
    }

    /// The positions, in arrival order, of the records of one flow.
    pub fn filter_by_flow(&self, k: FlowKey) -> (idx: Vec<usize>)
        ensures
            forall|p: int|
                0 <= p < idx@.len() ==> (#[trigger] idx@[p] as int) < self@.len() && flow_matches(
                    self@[idx@[p] as int],
                    k,
                ),
            forall|p: int, q: int| 0 <= p < q < idx@.len() ==> idx@[p] < idx@[q],
            forall|j: int|
                0 <= j < self@.len() && flow_matches(#[trigger] self@[j], k) ==> idx@.contains(
                    j as usize,
                ),
    {
        let mut idx: Vec<usize> = Vec::new();
        let mut i: usize = 0;
        while i < self.items.len()
            invariant
                i <= self@.len(),
                self@.len() == self.items@.len(),
                forall|p: int|
                    0 <= p < idx@.len() ==> (#[trigger] idx@[p] as int) < i && flow_matches(
                        self@[idx@[p] as int],
                        k,
                    ),
                forall|p: int, q: int| 0 <= p < q < idx@.len() ==> idx@[p] < idx@[q],
                forall|j: int|
                    0 <= j < i && flow_matches(#[trigger] self@[j], k) ==> idx@.contains(
                        j as usize,
                    ),
            decreases self.items@.len() - i,
        {
            let r = &self.items[i];
            proof {
                assert(r@ == self@[i as int]);
            }
            if crate::addr::flow_key(r.source, r.destination) == k {
                let ghost before = idx@;
                idx.push(i);
                proof {
                    assert(idx@ == before.push(i as usize));
                    assert(idx@[idx@.len() - 1] == i as usize);
                    assert forall|j: int|
                        0 <= j < i + 1 && flow_matches(#[trigger] self@[j], k) implies idx@
                        .contains(j as usize) by {
                        if j < i {
                            let w = choose|p: int|
                                0 <= p < before.len() && before[p] == j as usize;
                            assert(idx@[w] == j as usize);
                        } else {
                            assert(idx@[idx@.len() - 1] == j as usize);
                        }
                    }
                }
            }
            i = i + 1;
        }
        idx
    }

    /// The positions, in arrival order, of the records whose summary
    /// matches the query, case-insensitively.
    pub fn filter_by_search(&self, query: &Vec<u8>) -> (idx: Vec<usize>)
        ensures
            forall|p: int|
                0 <= p < idx@.len() ==> (#[trigger] idx@[p] as int) < self@.len()
                    && search_matches(self@[idx@[p] as int].summary, query@),
            forall|p: int, q: int| 0 <= p < q < idx@.len() ==> idx@[p] < idx@[q],
            forall|j: int|
                0 <= j < self@.len() && search_matches(#[trigger] self@[j].summary, query@)
                    ==> idx@.contains(j as usize),
    {
        let mut idx: Vec<usize> = Vec::new();
        let mut i: usize = 0;
        while i < self.items.len()
            invariant
                i <= self@.len(),
                self@.len() == self.items@.len(),
                forall|p: int|
                    0 <= p < idx@.len() ==> (#[trigger] idx@[p] as int) < i && search_matches(
                        self@[idx@[p] as int].summary,
                        query@,
                    ),
                forall|p: int, q: int| 0 <= p < q < idx@.len() ==> idx@[p] < idx@[q],
                forall|j: int|
                    0 <= j < i && search_matches(#[trigger] self@[j].summary, query@)
                        ==> idx@.contains(j as usize),
            decreases self.items@.len() - i,
        {
            let r = &self.items[i];
            proof {
                assert(r@ == self@[i as int]);
            }
            if contains_lower(&r.summary, query) {
                let ghost before = idx@;
                idx.push(i);
                proof {
                    assert(idx@ == before.push(i as usize));
                    assert(idx@[idx@.len() - 1] == i as usize);
                    assert forall|j: int|
                        0 <= j < i + 1 && search_matches(#[trigger] self@[j].summary, query@)
                        implies idx@.contains(j as usize) by {
                        if j < i {
                            let w = choose|p: int|
                                0 <= p < before.len() && before[p] == j as usize;
                            assert(idx@[w] == j as usize);
                        } else {
                            assert(idx@[idx@.len() - 1] == j as usize);
                        }
                    }
                }
            }
            i = i + 1;
        }
        idx
    }

    /// The most recent record of one flow, if any: the inspector's target.
    pub fn last_matching_flow(&self, k: FlowKey) -> (r: Option<usize>)
        ensures
            match r {
                Some(i) => {
                    &&& (i as int) < self@.len()
                    &&& flow_matches(self@[i as int], k)
                    &&& forall|j: int| i < j < self@.len() ==> !flow_matches(#[trigger] self@[j], k)
                },
                None => forall|j: int|
                    0 <= j < self@.len() ==> !flow_matches(#[trigger] self@[j], k),
            },
    {
        let mut i: usize = self.items.len();
        while i > 0
            invariant
                i <= self@.len(),
                self@.len() == self.items@.len(),
                forall|j: int| i <= j < self@.len() ==> !flow_matches(#[trigger] self@[j], k),
            decreases i,
        {
            i = i - 1;
            let r = &self.items[i];
            proof {
                assert(r@ == self@[i as int]);
            }
            if crate::addr::flow_key(r.source, r.destination) == k {
                return Some(i);
            }
        }
        None
    }
}

} // verus!
