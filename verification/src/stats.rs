//! The conversation aggregator: a count per flow key, listed in a
//! stable, sorted order — lexicographic on the key's textual form —
//! so that selection by identity survives reorderings.

use vstd::prelude::*;
use crate::addr::{
    addr_num_u32, key_num, key_text, lemma_key_num_injective, flow_key_text, FlowKey,
};
use crate::text::{lemma_lex_irreflexive, lemma_lex_total, lemma_lex_transitive, lex_less, lex_lt};

verus! {

/// One conversation: its key and how many records it has absorbed.
#[derive(Clone, Copy, PartialEq, Eq, Structural, Debug)]
pub struct Conversation {
    pub key: FlowKey,
    pub count: u64,
}

/// Strict display order on keys: lexicographic on the textual form,
/// with the numeric value of the address pair as a tie-break.
pub open spec fn key_lt(a: FlowKey, b: FlowKey) -> bool {
    ||| lex_lt(key_text(a), key_text(b))
    ||| (key_text(a) == key_text(b) && key_num(a) < key_num(b))
}

pub proof fn lemma_key_lt_irreflexive(a: FlowKey)
    ensures
        !key_lt(a, a),
{
    lemma_lex_irreflexive(key_text(a));
}

/// Of two distinct keys, exactly one comes first in display order.
pub proof fn lemma_key_lt_total(a: FlowKey, b: FlowKey)
    requires
        a != b,
    ensures
        key_lt(a, b) != key_lt(b, a),
{
    if key_text(a) == key_text(b) {
        lemma_lex_irreflexive(key_text(a));
        if key_num(a) == key_num(b) {
            lemma_key_num_injective(a, b);
        }
    } else {
        lemma_lex_total(key_text(a), key_text(b));
    }
}

pub proof fn lemma_key_lt_transitive(a: FlowKey, b: FlowKey, c: FlowKey)
    requires
        key_lt(a, b),
        key_lt(b, c),
    ensures
        key_lt(a, c),
{
    if lex_lt(key_text(a), key_text(b)) && lex_lt(key_text(b), key_text(c)) {
        lemma_lex_transitive(key_text(a), key_text(b), key_text(c));
    }
}

/// Listing order: strictly ascending keys.
pub open spec fn stats_sorted(s: Seq<Conversation>) -> bool {
    forall|i: int, j: int| 0 <= i < j < s.len() ==> key_lt(#[trigger] s[i].key, #[trigger] s[j].key)
}

/// The key appears in the listing.
pub open spec fn has_key(s: Seq<Conversation>, k: FlowKey) -> bool {
    exists|i: int| 0 <= i < s.len() && #[trigger] s[i].key == k
}

/// The count recorded for a key, zero where the key is absent.
pub open spec fn spec_count(s: Seq<Conversation>, k: FlowKey) -> u64
    decreases s.len(),
{
    if s.len() == 0 {
        0
    } else if s[0].key == k {
        s[0].count
    } else {
        spec_count(s.skip(1), k)
    }
}

/// A count bumped by one, saturating at the integer's ceiling.
pub open spec fn inc64(c: u64) -> u64 {
    if c == u64::MAX {
        c
    } else {
        (c + 1) as u64
    }
}

/// In a sorted listing all keys are distinct.
pub proof fn lemma_sorted_unique(s: Seq<Conversation>)
    requires
        stats_sorted(s),
    ensures
        forall|i: int, j: int|
            0 <= i < s.len() && 0 <= j < s.len() && i != j ==> #[trigger] s[i].key
                != #[trigger] s[j].key,
{
    assert forall|i: int, j: int|
        0 <= i < s.len() && 0 <= j < s.len() && i != j implies #[trigger] s[i].key
        != #[trigger] s[j].key by {
        if s[i].key == s[j].key {
            lemma_key_lt_irreflexive(s[i].key);
        }
    }
}

/// The count of a key is the count at its first occurrence.
pub proof fn lemma_count_at(s: Seq<Conversation>, k: FlowKey, i: int)
    requires
        0 <= i < s.len(),
        s[i].key == k,
        forall|j: int| 0 <= j < i ==> #[trigger] s[j].key != k,
    ensures
        spec_count(s, k) == s[i].count,
        has_key(s, k),
    decreases i,
{
    if i > 0 {
        assert(s.skip(1)[i - 1] == s[i]);
        assert forall|j: int| 0 <= j < i - 1 implies #[trigger] s.skip(1)[j].key != k by {
            assert(s.skip(1)[j] == s[j + 1]);
        }
        lemma_count_at(s.skip(1), k, i - 1);
    }
}

/// An absent key counts zero.
pub proof fn lemma_count_absent(s: Seq<Conversation>, k: FlowKey)
    requires
        forall|j: int| 0 <= j < s.len() ==> #[trigger] s[j].key != k,
    ensures
        spec_count(s, k) == 0,
        !has_key(s, k),
    decreases s.len(),
{
    if s.len() > 0 {
        assert forall|j: int| 0 <= j < s.len() - 1 implies #[trigger] s.skip(1)[j].key != k by {
            assert(s.skip(1)[j] == s[j + 1]);
        }
        lemma_count_absent(s.skip(1), k);
    }
}

/// Display order decided byte-wise on the textual forms.
pub fn key_less(a: FlowKey, b: FlowKey) -> (r: bool)
    ensures
        r == key_lt(a, b),
{
    let ta = flow_key_text(a);
    let tb = flow_key_text(b);
    if lex_less(&ta, &tb) {
        true
    } else if lex_less(&tb, &ta) {
        false
    } else {
        proof {
            if key_text(a) != key_text(b) {
                lemma_lex_total(key_text(a), key_text(b));
            }
        }
        key_num_u64(a) < key_num_u64(b)
    }
}

pub fn key_num_u64(k: FlowKey) -> (r: u64)
    ensures
        r as int == key_num(k),
{
    (addr_num_u32(k.lo) as u64) * 0x100000000 + (addr_num_u32(k.hi) as u64)
}

/// The conversation set: monotone between explicit clears, listed sorted.
pub struct ConversationStats {
    items: Vec<Conversation>,
}

impl View for ConversationStats {
    type V = Seq<Conversation>;

    closed spec fn view(&self) -> Seq<Conversation> {
        self.items@
    }
}

impl ConversationStats {
    /// The listing is sorted in display order.
    pub open spec fn wf(self) -> bool {
        stats_sorted(self@)
    }

    pub fn new() -> (r: ConversationStats)
        ensures
            r@ == Seq::<Conversation>::empty(),
            r.wf(),
    {
        ConversationStats { items: Vec::new() }
    }

    pub fn len(&self) -> (r: usize)
        ensures
            r as int == self@.len(),
    {
        self.items.len()
    }

    pub fn get(&self, i: usize) -> (r: Conversation)
        requires
            i < self@.len(),
        ensures
            r == self@[i as int],
    {
        self.items[i]
    }

    /// The full listing, in display order.
    pub fn list(&self) -> (r: Vec<Conversation>)
        ensures
            r@ == self@,
    {
        let mut out: Vec<Conversation> = Vec::new();
        let mut i: usize = 0;
        while i < self.items.len()
            invariant
                i <= self.items@.len(),
                out@ == self.items@.take(i as int),
            decreases self.items@.len() - i,
        {
            out.push(self.items[i]);
            proof {
                assert(self.items@.take(i as int).push(self.items@[i as int]) =~= self.items@.take(
                    i + 1,
                ));
            }
            i = i + 1;
        }
        proof {
            assert(self.items@.take(self.items@.len() as int) =~= self.items@);
        }
        out
    }

    /// Forgets every conversation.
    pub fn clear(&mut self)
        ensures
            final(self)@ == Seq::<Conversation>::empty(),
            final(self).wf(),
    {
        self.items.clear();
    }

    /// Counts one more record for the key, inserting it at count one
    /// where absent; the listing stays sorted and every other key keeps
    /// its count and its presence.
    pub fn record(&mut self, k: FlowKey) -> (n: u64)
        requires
            old(self).wf(),
        ensures
            final(self).wf(),
            n == inc64(spec_count(old(self)@, k)),
            spec_count(final(self)@, k) == n,
            has_key(final(self)@, k),
            forall|k2: FlowKey|
                k2 != k ==> spec_count(final(self)@, k2) == spec_count(old(self)@, k2),
            forall|k2: FlowKey| k2 != k ==> has_key(final(self)@, k2) == has_key(old(self)@, k2),
            final(self)@.len() == old(self)@.len() + (if has_key(old(self)@, k) {
                0int
            } else {
                1int
            }),
    {
        let ghost s0 = self.items@;
        let mut idx: usize = 0;
        loop
            invariant
                self.items@ == s0,
                stats_sorted(s0),
                idx <= s0.len(),
                forall|p: int| 0 <= p < idx ==> key_lt(#[trigger] s0[p].key, k),
            ensures
                self.items@ == s0,
                idx <= s0.len(),
                forall|p: int| 0 <= p < idx ==> key_lt(#[trigger] s0[p].key, k),
                idx < s0.len() ==> (s0[idx as int].key == k || key_lt(k, s0[idx as int].key)),
            decreases s0.len() - idx,
        {
            if idx == self.items.len() {
                break ;
            }
            let c = self.items[idx];
            if c.key == k {
                break ;
            }
            if key_less(c.key, k) {
                idx = idx + 1;
            } else {
                proof {
                    lemma_key_lt_total(c.key, k);
                }
                break ;
            }
        }
        proof {
            lemma_sorted_unique(s0);
            assert forall|j: int| 0 <= j < idx implies #[trigger] s0[j].key != k by {
                if s0[j].key == k {
                    lemma_key_lt_irreflexive(k);
                }
            }
        }
        if idx < self.items.len() && self.items[idx].key == k {
            // Present: bump its count in place.
            let c = self.items[idx];
            let bumped: u64 = if c.count == u64::MAX {
                c.count
            } else {
                c.count + 1
            };
            self.items.set(idx, Conversation { key: k, count: bumped });
            proof {
                let s1 = self.items@;
                lemma_count_at(s0, k, idx as int);
                lemma_count_at(s1, k, idx as int);
                assert(stats_sorted(s1));
                lemma_record_frame_update(s0, s1, k, idx as int);
            }
            bumped
        } else {
            // Absent: insert at the sorted position.
            proof {
                assert forall|j: int| 0 <= j < s0.len() implies #[trigger] s0[j].key != k by {
                    if s0[j].key == k {
                        assert(j >= idx);
                        assert(idx < s0.len());
                        assert(s0[idx as int].key != k);
                        assert(j > idx);
                        assert(key_lt(k, s0[idx as int].key));
                        assert(key_lt(s0[idx as int].key, s0[j].key));
                        lemma_key_lt_transitive(k, s0[idx as int].key, s0[j].key);
                        lemma_key_lt_irreflexive(k);
                    }
                }
                lemma_count_absent(s0, k);
            }
            self.items.insert(idx, Conversation { key: k, count: 1 });
            proof {
                let s1 = self.items@;
                assert forall|i: int, j: int| 0 <= i < j < s1.len() implies key_lt(
                    #[trigger] s1[i].key,
                    #[trigger] s1[j].key,
                ) by {
                    lemma_insert_sorted_step(s0, s1, k, idx as int, i, j);
                }
                lemma_count_at(s1, k, idx as int);
                lemma_record_frame_insert(s0, s1, k, idx as int);
            }
            1
        }
    }
}

/// After an in-place update at the key's position, every other key keeps
/// its count and presence.
proof fn lemma_record_frame_update(s0: Seq<Conversation>, s1: Seq<Conversation>, k: FlowKey, idx: int)
    requires
        0 <= idx < s0.len(),
        s1.len() == s0.len(),
        s0[idx].key == k,
        s1[idx].key == k,
        forall|j: int| 0 <= j < s0.len() && j != idx ==> s1[j] == s0[j],
    ensures
        forall|k2: FlowKey| k2 != k ==> spec_count(s1, k2) == spec_count(s0, k2),
        forall|k2: FlowKey| k2 != k ==> has_key(s1, k2) == has_key(s0, k2),
{
    assert forall|k2: FlowKey| k2 != k implies spec_count(s1, k2) == spec_count(s0, k2) && has_key(
        s1,
        k2,
    ) == has_key(s0, k2) by {
        assert forall|j: int| 0 <= j < s0.len() implies #[trigger] agree_on(s0, s1, k2, j) by {
            if j != idx {
                assert(s1[j] == s0[j]);
            }
        }
        lemma_frame_pointwise(s0, s1, k2);
    }
}

/// The listings carry the same entry wherever either carries the key.
spec fn agree_on(s0: Seq<Conversation>, s1: Seq<Conversation>, k2: FlowKey, j: int) -> bool {
    (s0[j].key == k2 || s1[j].key == k2) ==> s1[j] == s0[j]
}

/// Two listings that carry the same entries for a key agree on it.
proof fn lemma_frame_pointwise(s0: Seq<Conversation>, s1: Seq<Conversation>, k2: FlowKey)
    requires
        s1.len() == s0.len(),
        forall|j: int| 0 <= j < s0.len() ==> #[trigger] agree_on(s0, s1, k2, j),
    ensures
        spec_count(s1, k2) == spec_count(s0, k2),
        has_key(s1, k2) == has_key(s0, k2),
    decreases s0.len(),
{
    assert(agree_on(s0, s1, k2, 0) || s0.len() == 0);
    if s0.len() > 0 {
        assert forall|j: int|
            0 <= j < s0.skip(1).len() implies #[trigger] agree_on(s0.skip(1), s1.skip(1), k2, j) by {
            assert(agree_on(s0, s1, k2, j + 1));
            assert(s0.skip(1)[j] == s0[j + 1]);
            assert(s1.skip(1)[j] == s1[j + 1]);
        }
        lemma_frame_pointwise(s0.skip(1), s1.skip(1), k2);
        if has_key(s0, k2) {
            let w = choose|i: int| 0 <= i < s0.len() && #[trigger] s0[i].key == k2;
            if w == 0 {
                assert(s1[0] == s0[0]);
            } else {
                assert(s0.skip(1)[w - 1].key == k2);
                assert(has_key(s0.skip(1), k2));
            }
        }
        if has_key(s1, k2) {
            let w = choose|i: int| 0 <= i < s1.len() && #[trigger] s1[i].key == k2;
            if w == 0 {
                assert(s1[0] == s0[0]);
            } else {
                assert(s1.skip(1)[w - 1].key == k2);
                assert(has_key(s1.skip(1), k2));
            }
        }
    }
}

/// One step of the sortedness proof after inserting a fresh key.
proof fn lemma_insert_sorted_step(
    s0: Seq<Conversation>,
    s1: Seq<Conversation>,
    k: FlowKey,
    idx: int,
    i: int,
    j: int,
)
    requires
        stats_sorted(s0),
        0 <= idx <= s0.len(),
        s1 == s0.insert(idx, Conversation { key: k, count: 1 }),
        forall|p: int| 0 <= p < idx ==> key_lt(#[trigger] s0[p].key, k),
        idx < s0.len() ==> key_lt(k, s0[idx].key),
        0 <= i < j < s1.len(),
    ensures
        key_lt(s1[i].key, s1[j].key),
{
    if i < idx && j == idx {
    } else if i == idx && j > idx {
        if j - 1 > idx {
            lemma_key_lt_transitive(k, s0[idx].key, s0[j - 1].key);
        }
    } else if i < idx && j > idx {
        assert(s1[i] == s0[i]);
        assert(s1[j] == s0[j - 1]);
        if j - 1 > i {
            assert(key_lt(s0[i].key, s0[j - 1].key));
        }
        if j - 1 == idx {
            lemma_key_lt_transitive(s0[i].key, k, s0[idx].key);
        }
    }
}

/// After inserting a fresh key, every other key keeps its count and
/// presence.
proof fn lemma_record_frame_insert(s0: Seq<Conversation>, s1: Seq<Conversation>, k: FlowKey, idx: int)
    requires
        0 <= idx <= s0.len(),
        s1 == s0.insert(idx, Conversation { key: k, count: 1 }),
        forall|j: int| 0 <= j < s0.len() ==> #[trigger] s0[j].key != k || j >= idx,
    ensures
        forall|k2: FlowKey| k2 != k ==> spec_count(s1, k2) == spec_count(s0, k2),
        forall|k2: FlowKey| k2 != k ==> has_key(s1, k2) == has_key(s0, k2),
    decreases idx,
{
    if idx == 0 {
        assert(s1[0].key == k);
        assert(s1.skip(1) =~= s0);
        assert forall|k2: FlowKey| k2 != k implies spec_count(s1, k2) == spec_count(s0, k2)
            && has_key(s1, k2) == has_key(s0, k2) by {
            if has_key(s1, k2) {
                let w = choose|i: int| 0 <= i < s1.len() && #[trigger] s1[i].key == k2;
                assert(w > 0);
                assert(s0[w - 1].key == k2);
            }
            if has_key(s0, k2) {
                let w = choose|i: int| 0 <= i < s0.len() && #[trigger] s0[i].key == k2;
                assert(s1[w + 1].key == k2);
            }
        }
    } else {
        assert(s1[0] == s0[0]);
        assert(s1.skip(1) =~= s0.skip(1).insert(idx - 1, Conversation { key: k, count: 1 }));
        assert forall|j: int|
            0 <= j < s0.skip(1).len() implies #[trigger] s0.skip(1)[j].key != k || j >= idx
            - 1 by {
            assert(s0.skip(1)[j] == s0[j + 1]);
        }
        lemma_record_frame_insert(s0.skip(1), s1.skip(1), k, idx - 1);
        assert forall|k2: FlowKey| k2 != k implies spec_count(s1, k2) == spec_count(s0, k2)
            && has_key(s1, k2) == has_key(s0, k2) by {
            assert(spec_count(s1.skip(1), k2) == spec_count(s0.skip(1), k2));
            if has_key(s1, k2) {
                let w = choose|i: int| 0 <= i < s1.len() && #[trigger] s1[i].key == k2;
                if w > 0 {
                    assert(s1.skip(1)[w - 1].key == k2);
                    assert(has_key(s1.skip(1), k2));
                    assert(has_key(s0.skip(1), k2));
                    let v = choose|i: int|
                        0 <= i < s0.skip(1).len() && #[trigger] s0.skip(1)[i].key == k2;
                    assert(s0[v + 1].key == k2);
                }
            }
            if has_key(s0, k2) {
                let w = choose|i: int| 0 <= i < s0.len() && #[trigger] s0[i].key == k2;
                if w > 0 {
                    assert(s0.skip(1)[w - 1].key == k2);
                    assert(has_key(s0.skip(1), k2));
                    assert(has_key(s1.skip(1), k2));
                    let v = choose|i: int|
                        0 <= i < s1.skip(1).len() && #[trigger] s1.skip(1)[i].key == k2;
                    assert(s1[v + 1].key == k2);
                }
            }
        }
    }
}

/// The listing is determined by its content alone: two sorted listings
/// that agree on which keys are present and on every key's count are the
/// same listing, whatever the order of insertions that built them. In
/// particular a selected key's identity is unaffected when unrelated
/// conversations appear, though its position may shift.
pub proof fn lemma_listing_deterministic(a: Seq<Conversation>, b: Seq<Conversation>)
    requires
        stats_sorted(a),
        stats_sorted(b),
        forall|k: FlowKey| has_key(a, k) == has_key(b, k),
        forall|k: FlowKey| spec_count(a, k) == spec_count(b, k),
    ensures
        a == b,
    decreases a.len(),
{
    lemma_sorted_unique(a);
    lemma_sorted_unique(b);
    if a.len() == 0 {
        if b.len() > 0 {
            assert(has_key(b, b[0].key));
            assert(!has_key(a, b[0].key));
        }
        assert(a =~= b);
    } else if b.len() == 0 {
        assert(has_key(a, a[0].key));
        assert(!has_key(b, a[0].key));
    } else {
        let ka = a[0].key;
        let kb = b[0].key;
        assert(has_key(a, ka));
        assert(has_key(b, kb));
        if ka != kb {
            let i = choose|i: int| 0 <= i < b.len() && #[trigger] b[i].key == ka;
            let j = choose|j: int| 0 <= j < a.len() && #[trigger] a[j].key == kb;
            assert(i > 0 && j > 0);
            assert(key_lt(kb, ka));
            assert(key_lt(ka, kb));
            lemma_key_lt_total(ka, kb);
        }
        assert(a[0].count == spec_count(a, ka));
        assert(b[0].count == spec_count(b, ka));
        assert(a[0] == b[0]);
        assert(stats_sorted(a.skip(1))) by {
            assert forall|i: int, j: int| 0 <= i < j < a.skip(1).len() implies key_lt(
                #[trigger] a.skip(1)[i].key,
                #[trigger] a.skip(1)[j].key,
            ) by {
                assert(a.skip(1)[i] == a[i + 1]);
                assert(a.skip(1)[j] == a[j + 1]);
            }
        }
        assert(stats_sorted(b.skip(1))) by {
            assert forall|i: int, j: int| 0 <= i < j < b.skip(1).len() implies key_lt(
                #[trigger] b.skip(1)[i].key,
                #[trigger] b.skip(1)[j].key,
            ) by {
                assert(b.skip(1)[i] == b[i + 1]);
                assert(b.skip(1)[j] == b[j + 1]);
            }
        }
        assert forall|k: FlowKey|
            has_key(a.skip(1), k) == has_key(b.skip(1), k) && spec_count(a.skip(1), k)
                == spec_count(b.skip(1), k) by {
            lemma_head_tail_content(a, k);
            lemma_head_tail_content(b, k);
            if k == ka {
                assert(!has_key(a.skip(1), k)) by {
                    if has_key(a.skip(1), k) {
                        let w = choose|i: int|
                            0 <= i < a.skip(1).len() && #[trigger] a.skip(1)[i].key == k;
                        assert(a[w + 1].key == k);
                    }
                }
                assert(!has_key(b.skip(1), k)) by {
                    if has_key(b.skip(1), k) {
                        let w = choose|i: int|
                            0 <= i < b.skip(1).len() && #[trigger] b.skip(1)[i].key == k;
                        assert(b[w + 1].key == k);
                    }
                }
                lemma_count_absent_from_no_key(a.skip(1), k);
                lemma_count_absent_from_no_key(b.skip(1), k);
            }
        }
        lemma_listing_deterministic(a.skip(1), b.skip(1));
        assert(a =~= b) by {
            assert(a.skip(1) =~= b.skip(1));
            assert(a.len() == b.len());
            assert forall|i: int| 0 <= i < a.len() implies a[i] == b[i] by {
                if i > 0 {
                    assert(a.skip(1)[i - 1] == b.skip(1)[i - 1]);
                }
            }
        }
    }
}

/// Presence and count of a key in a listing, related to its tail.
proof fn lemma_head_tail_content(s: Seq<Conversation>, k: FlowKey)
    requires
        s.len() > 0,
    ensures
        s[0].key != k ==> has_key(s, k) == has_key(s.skip(1), k),
        s[0].key != k ==> spec_count(s, k) == spec_count(s.skip(1), k),
{
    if s[0].key != k {
        if has_key(s, k) {
            let w = choose|i: int| 0 <= i < s.len() && #[trigger] s[i].key == k;
            assert(w > 0);
            assert(s.skip(1)[w - 1].key == k);
        }
        if has_key(s.skip(1), k) {
            let w = choose|i: int| 0 <= i < s.skip(1).len() && #[trigger] s.skip(1)[i].key == k;
            assert(s[w + 1].key == k);
        }
    }
}

/// A key no entry carries counts zero.
proof fn lemma_count_absent_from_no_key(s: Seq<Conversation>, k: FlowKey)
    requires
        !has_key(s, k),
    ensures
        spec_count(s, k) == 0,
{
    assert forall|j: int| 0 <= j < s.len() implies #[trigger] s[j].key != k by {
        if s[j].key == k {
            assert(has_key(s, k));
        }
    }
    lemma_count_absent(s, k);
}

} // verus!
