//! The application state and the selection / search state machine: one
//! explicit value holding every piece of display state, updated by
//! "apply an incoming record", "advance the activity tick", and "handle
//! one user command".

use vstd::prelude::*;
use crate::activity::ActivitySeries;
use crate::addr::{key_text, spec_flow_key, FlowKey};
use crate::bounded::fifo_push;
use crate::history::HistoryBuffer;
use crate::record::PacketUpdate;
use crate::stats::{has_key, inc64, spec_count, Conversation, ConversationStats};
use crate::text::{contains_lower, search_matches};

verus! {

/// One discrete user command, edge-triggered; the four editing commands
/// are meaningful while searching, the rest while browsing.
#[derive(Clone, Copy, PartialEq, Eq, Structural, Debug)]
pub enum Command {
    Quit,
    ToggleSearch,
    ClearAll,
    MoveUp,
    MoveDown,
    AppendChar(u8),
    Backspace,
    Confirm,
    Cancel,
}

/// Position of the first conversation under the key, or none.
pub open spec fn find_key(s: Seq<Conversation>, k: FlowKey) -> int
    decreases s.len(),
{
    if s.len() == 0 {
        -1
    } else if s[0].key == k {
        0
    } else {
        let r = find_key(s.skip(1), k);
        if r < 0 {
            -1
        } else {
            r + 1
        }
    }
}

/// `find_key` names the first occurrence.
pub proof fn lemma_find_key_at(s: Seq<Conversation>, k: FlowKey, i: int)
    requires
        0 <= i < s.len(),
        s[i].key == k,
        forall|j: int| 0 <= j < i ==> #[trigger] s[j].key != k,
    ensures
        find_key(s, k) == i,
    decreases i,
{
    if i > 0 {
        assert(s.skip(1)[i - 1] == s[i]);
        assert forall|j: int| 0 <= j < i - 1 implies #[trigger] s.skip(1)[j].key != k by {
            assert(s.skip(1)[j] == s[j + 1]);
        }
        lemma_find_key_at(s.skip(1), k, i - 1);
    }
}

/// Where no conversation carries the key, `find_key` reports none.
pub proof fn lemma_find_key_absent(s: Seq<Conversation>, k: FlowKey)
    requires
        forall|j: int| 0 <= j < s.len() ==> #[trigger] s[j].key != k,
    ensures
        find_key(s, k) == -1,
    decreases s.len(),
{
    if s.len() > 0 {
        assert forall|j: int| 0 <= j < s.skip(1).len() implies #[trigger] s.skip(1)[j].key != k by {
            assert(s.skip(1)[j] == s[j + 1]);
        }
        lemma_find_key_absent(s.skip(1), k);
    }
}

/// Re-resolves a selected key to its position in the visible listing.
pub fn resolve_position(visible: &Vec<Conversation>, k: FlowKey) -> (r: Option<usize>)
    ensures
        match r {
            Some(i) => find_key(visible@, k) == i as int,
            None => find_key(visible@, k) == -1,
        },
{
    let mut i: usize = 0;
    while i < visible.len()
        invariant
            i <= visible@.len(),
            forall|j: int| 0 <= j < i ==> #[trigger] visible@[j].key != k,
        decreases visible@.len() - i,
    {
        if visible[i].key == k {
            proof {
                lemma_find_key_at(visible@, k, i as int);
            }
            return Some(i);
        }
        i = i + 1;
    }
    proof {
        lemma_find_key_absent(visible@, k);
    }
    None
}

/// Where navigation moves from a selection, with wraparound: one past the
/// last wraps to the first and one before the first wraps to the last;
/// with no resolvable selection it starts at the first entry.
pub open spec fn step_target(len: int, at: int, down: bool) -> int {
    if at < 0 {
        0
    } else if down {
        if at >= len - 1 {
            0
        } else {
            at + 1
        }
    } else {
        if at == 0 {
            len - 1
        } else {
            at - 1
        }
    }
}

/// The selection after one navigation step through the visible listing.
pub open spec fn spec_step_selection(
    visible: Seq<Conversation>,
    sel: Option<FlowKey>,
    down: bool,
) -> Option<FlowKey> {
    if visible.len() == 0 {
        sel
    } else {
        let at = match sel {
            Some(k) => find_key(visible, k),
            None => -1,
        };
        Some(visible[step_target(visible.len() as int, at, down)].key)
    }
}

/// One navigation step: selection moves by identity through the visible
/// listing, wrapping at both ends; an empty listing leaves it unchanged.
pub fn step_selection(visible: &Vec<Conversation>, sel: &Option<FlowKey>, down: bool) -> (r: Option<
    FlowKey,
>)
    ensures
        r == spec_step_selection(visible@, *sel, down),
{
    if visible.len() == 0 {
        return *sel;
    }
    let at: Option<usize> = match sel {
        Some(k) => resolve_position(visible, *k),
        None => None,
    };
    proof {
        lemma_find_key_bounds(visible@, *sel);
    }
    let t: usize = match at {
        Some(i) => {
            if down {
                if i >= visible.len() - 1 {
                    0
                } else {
                    i + 1
                }
            } else {
                if i == 0 {
                    visible.len() - 1
                } else {
                    i - 1
                }
            }
        },
        None => 0,
    };
    Some(visible[t].key)
}

/// `find_key` stays within the listing.
proof fn lemma_find_key_bounds(s: Seq<Conversation>, sel: Option<FlowKey>)
    ensures
        match sel {
            Some(k) => -1 <= find_key(s, k) < s.len(),
            None => true,
        },
    decreases s.len(),
{
    if s.len() > 0 && sel is Some {
        lemma_find_key_bounds(s.skip(1), sel);
    }
}

/// The whole display state: aggregation, history, activity, and the
/// selection / search state machine, reset only by explicit commands.
pub struct AppState {
    pub conversations: ConversationStats,
    pub history: HistoryBuffer,
    pub activity: ActivitySeries,
    pub selected_flow: Option<FlowKey>,
    pub searching: bool,
    pub query: Vec<u8>,
    pub pending: u64,
}

impl AppState {
    pub open spec fn wf(self) -> bool {
        self.conversations.wf() && self.history.wf() && self.activity.wf()
    }

    /// The conversations the sidebar currently shows: those whose textual
    /// key matches the query, case-insensitively, in listing order.
    pub open spec fn visible(self) -> Seq<Conversation> {
        self.conversations@.filter(
            |c: Conversation| search_matches(key_text(c.key), self.query@),
        )
    }

    pub fn new(history_cap: usize, activity_cap: usize) -> (r: AppState)
        requires
            history_cap >= 1,
            activity_cap >= 1,
        ensures
            r.wf(),
            r.conversations@ == Seq::<Conversation>::empty(),
            r.history@ == Seq::<crate::record::RecordView>::empty(),
            r.activity@ == Seq::<u64>::empty(),
            r.history.cap() == history_cap as int,
            r.activity.cap() == activity_cap as int,
            r.selected_flow is None,
            !r.searching,
            r.query@ == Seq::<u8>::empty(),
            r.pending == 0,
    {
        AppState {
            conversations: ConversationStats::new(),
            history: HistoryBuffer::new(history_cap),
            activity: ActivitySeries::new(activity_cap),
            selected_flow: None,
            searching: false,
            query: Vec::new(),
            pending: 0,
        }
    }

    /// Applies one incoming record: counts it under its canonical key,
    /// appends it to the history, and notes it for the current activity
    /// bucket. Selection and search state are untouched.
    pub fn apply_record(&mut self, r: PacketUpdate) -> (n: u64)
        requires
            old(self).wf(),
        ensures
            final(self).wf(),
            ({
                let k = spec_flow_key(r@.source, r@.destination);
                &&& n == inc64(spec_count(old(self).conversations@, k))
                &&& spec_count(final(self).conversations@, k) == n
                &&& has_key(final(self).conversations@, k)
                &&& forall|k2: FlowKey|
                    k2 != k ==> spec_count(final(self).conversations@, k2) == spec_count(
                        old(self).conversations@,
                        k2,
                    )
                &&& forall|k2: FlowKey|
                    k2 != k ==> has_key(final(self).conversations@, k2) == has_key(
                        old(self).conversations@,
                        k2,
                    )
            }),
            final(self).history@ == fifo_push(old(self).history@, r@, old(self).history.cap()),
            final(self).history.cap() == old(self).history.cap(),
            final(self).activity@ == old(self).activity@,
            final(self).activity.cap() == old(self).activity.cap(),
            final(self).pending == inc64(old(self).pending),
            final(self).selected_flow == old(self).selected_flow,
            final(self).searching == old(self).searching,
            final(self).query@ == old(self).query@,
    {
        let k = r.flow();
        let n = self.conversations.record(k);
        self.history.push(r);
        self.pending = if self.pending == u64::MAX {
            self.pending
        } else {
            self.pending + 1
        };
        n
    }

    /// Closes the current activity bucket: the records counted since the
    /// last tick become one bucket, and the count starts over.
    pub fn on_tick(&mut self)
        requires
            old(self).wf(),
        ensures
            final(self).wf(),
            final(self).activity@ == fifo_push(
                old(self).activity@,
                old(self).pending,
                old(self).activity.cap(),
            ),
            final(self).activity.cap() == old(self).activity.cap(),
            final(self).pending == 0,
            final(self).conversations@ == old(self).conversations@,
            final(self).history@ == old(self).history@,
            final(self).history.cap() == old(self).history.cap(),
            final(self).selected_flow == old(self).selected_flow,
            final(self).searching == old(self).searching,
            final(self).query@ == old(self).query@,
    {
        let c = self.pending;
        self.activity.tick(c);
        self.pending = 0;
    }

    /// The sidebar listing: conversations whose key text matches the
    /// query, case-insensitively, keeping the sorted listing order.
    pub fn visible_conversations(&self) -> (r: Vec<Conversation>)
        ensures
            r@ == self.visible(),
    {
        let mut out: Vec<Conversation> = Vec::new();
        let all = self.conversations.list();
        let mut i: usize = 0;
        proof {
            broadcast use vstd::seq::Seq::lemma_filter_push;

            assert(all@.take(0) =~= Seq::<Conversation>::empty());
        }
        while i < all.len()
            invariant
                i <= all@.len(),
                all@ == self.conversations@,
                out@ == all@.take(i as int).filter(
                    |c: Conversation| search_matches(key_text(c.key), self.query@),
                ),
            decreases all@.len() - i,
        {
            let c = all[i];
            let kt = crate::addr::flow_key_text(c.key);
            proof {
                broadcast use vstd::seq::Seq::lemma_filter_push;

                assert(all@.take(i as int).push(all@[i as int]) =~= all@.take(i + 1));
            }
            if contains_lower(&kt, &self.query) {
                out.push(c);
            }
            i = i + 1;
        }
        proof {
            assert(all@.take(all@.len() as int) =~= all@);
        }
        out
    }

    /// Handles one discrete user command, returning whether the
    /// application should quit. While browsing: quit, toggling into
    /// search (with a fresh query), clearing all aggregation state
    /// together with the selection, and wraparound navigation by
    /// identity. While searching: appending a query byte or erasing
    /// one, confirming (the query stays as the active filter), or
    /// cancelling (the query and the selection are both reset). A
    /// command outside its mode does nothing.
    pub fn handle_command(&mut self, cmd: Command) -> (quit: bool)
        requires
            old(self).wf(),
        ensures
            final(self).wf(),
            quit == (cmd == Command::Quit && !old(self).searching),
            final(self).activity@ == old(self).activity@,
            final(self).activity.cap() == old(self).activity.cap(),
            final(self).history.cap() == old(self).history.cap(),
            final(self).pending == old(self).pending,
            final(self).searching == (if old(self).searching {
                !(cmd == Command::Confirm || cmd == Command::Cancel)
            } else {
                cmd == Command::ToggleSearch
            }),
            final(self).query@ == (if old(self).searching {
                match cmd {
                    Command::AppendChar(c) => old(self).query@.push(c),
                    Command::Backspace => if old(self).query@.len() > 0 {
                        old(self).query@.drop_last()
                    } else {
                        old(self).query@
                    },
                    Command::Cancel => Seq::<u8>::empty(),
                    _ => old(self).query@,
                }
            } else if cmd == Command::ToggleSearch {
                Seq::<u8>::empty()
            } else {
                old(self).query@
            }),
            final(self).conversations@ == (if !old(self).searching && cmd == Command::ClearAll {
                Seq::<Conversation>::empty()
            } else {
                old(self).conversations@
            }),
            final(self).history@ == (if !old(self).searching && cmd == Command::ClearAll {
                Seq::<crate::record::RecordView>::empty()
            } else {
                old(self).history@
            }),
            final(self).selected_flow == (if old(self).searching {
                if cmd == Command::Cancel {
                    None::<FlowKey>
                } else {
                    old(self).selected_flow
                }
            } else {
                match cmd {
                    Command::ClearAll => None::<FlowKey>,
                    Command::MoveUp => spec_step_selection(
                        old(self).visible(),
                        old(self).selected_flow,
                        false,
                    ),
                    Command::MoveDown => spec_step_selection(
                        old(self).visible(),
                        old(self).selected_flow,
                        true,
                    ),
                    _ => old(self).selected_flow,
                }
            }),
    {
        if self.searching {
            match cmd {
                Command::Confirm => {
                    self.searching = false;
                },
                Command::Cancel => {
                    self.searching = false;
                    self.query.clear();
                    self.selected_flow = None;
                },
                Command::Backspace => {
                    let _popped = self.query.pop();
                },
                Command::AppendChar(c) => {
                    self.query.push(c);
                },
                _ => {},
            }
            false
        } else {
            match cmd {
                Command::Quit => true,
                Command::ToggleSearch => {
                    self.searching = true;
                    self.query.clear();
                    false
                },
                Command::ClearAll => {
                    self.conversations.clear();
                    self.history.clear();
                    self.selected_flow = None;
                    false
                },
                Command::MoveUp => {
                    let vis = self.visible_conversations();
                    self.selected_flow = step_selection(&vis, &self.selected_flow, false);
                    false
                },
                Command::MoveDown => {
                    let vis = self.visible_conversations();
                    self.selected_flow = step_selection(&vis, &self.selected_flow, true);
                    false
                },
                _ => false,
            }
        }
    }

    /// The feed's view of the history: the selected flow's records when
    /// a selection exists, otherwise the search matches when a query is
    /// active, otherwise everything — the two filters are mutually
    /// exclusive, selection taking precedence.
    pub fn feed_indices(&self) -> (idx: Vec<usize>)
        ensures
            match self.selected_flow {
                Some(k) => {
                    &&& forall|p: int|
                        0 <= p < idx@.len() ==> (#[trigger] idx@[p] as int) < self.history@.len()
                            && crate::history::flow_matches(self.history@[idx@[p] as int], k)
                    &&& forall|j: int|
                        0 <= j < self.history@.len() && crate::history::flow_matches(
                            #[trigger] self.history@[j],
                            k,
                        ) ==> idx@.contains(j as usize)
                },
                None => if self.query@.len() > 0 {
                    &&& forall|p: int|
                        0 <= p < idx@.len() ==> (#[trigger] idx@[p] as int) < self.history@.len()
                            && search_matches(self.history@[idx@[p] as int].summary, self.query@)
                    &&& forall|j: int|
                        0 <= j < self.history@.len() && search_matches(
                            #[trigger] self.history@[j].summary,
                            self.query@,
                        ) ==> idx@.contains(j as usize)
                } else {
                    idx@.len() == self.history@.len() && forall|p: int|
                        0 <= p < idx@.len() ==> (#[trigger] idx@[p] as int) == p
                },
            },
            forall|p: int, q: int| 0 <= p < q < idx@.len() ==> idx@[p] < idx@[q],
    {
        match &self.selected_flow {
            Some(k) => self.history.filter_by_flow(*k),
            None => {
                if self.query.len() > 0 {
                    self.history.filter_by_search(&self.query)
                } else {
                    let n = self.history.len();
                    let mut idx: Vec<usize> = Vec::new();
                    let mut i: usize = 0;
                    while i < n
                        invariant
                            i <= n,
                            idx@.len() == i,
                            forall|p: int| 0 <= p < i ==> (#[trigger] idx@[p] as int) == p,
                        decreases n - i,
                    {
                        idx.push(i);
                        i = i + 1;
                    }
                    idx
                }
            },
        }
    }

    /// The inspector's target: the most recent history entry of the
    /// selected flow, if there is a selection and such an entry.
    pub fn inspect_target(&self) -> (r: Option<usize>)
        ensures
            match self.selected_flow {
                None => r is None,
                Some(k) => match r {
                    Some(i) => {
                        &&& (i as int) < self.history@.len()
                        &&& crate::history::flow_matches(self.history@[i as int], k)
                        &&& forall|j: int|
                            i < j < self.history@.len() ==> !crate::history::flow_matches(
                                #[trigger] self.history@[j],
                                k,
                            )
                    },
                    None => forall|j: int|
                        0 <= j < self.history@.len() ==> !crate::history::flow_matches(
                            #[trigger] self.history@[j],
                            k,
                        ),
                },
            },
    {
        match &self.selected_flow {
            None => None,
            Some(k) => self.history.last_matching_flow(*k),
        }
    }
}

} // verus!
