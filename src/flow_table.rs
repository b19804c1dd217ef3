//! Flow membership with timeout-based eviction.
//!
//! The table maps each admitted flow to the time it was last seen. Times are
//! plain tick counts handed in by the caller, so every operation is a
//! function of its arguments; sharing a table between threads is left to the
//! caller, who can split flows over several tables by hash.
use vstd::prelude::*;
use crate::flow::Flow;

verus! {

/// Whether an entry last seen at `ts` is older than `timeout` at `now`.
pub open spec fn expired(ts: u64, now: u64, timeout: u64) -> bool {
    now as int - ts as int > timeout as int
}

/// The entries of `m` that survive a prune at `now`.
pub open spec fn pruned(m: Map<Flow, u64>, now: u64, timeout: u64) -> Map<Flow, u64> {
    Map::new(|f: Flow| m.contains_key(f) && !expired(m[f], now, timeout), |f: Flow| m[f])
}

/// A table of admitted flows and the time each was last seen.
pub struct FlowTable {
    entries: Vec<(Flow, u64)>,
    timeout: u64,
    contents: Ghost<Map<Flow, u64>>,
}

impl View for FlowTable {
    type V = Map<Flow, u64>;

    closed spec fn view(&self) -> Map<Flow, u64> {
        self.contents@
    }
}

impl FlowTable {
    /// The configured eviction timeout.
    pub closed spec fn spec_timeout(&self) -> u64 {
        self.timeout
    }

    /// Entries are unique by flow and are exactly the contents.
    pub closed spec fn wf(&self) -> bool {
        &&& forall|i: int, j: int|
            0 <= i < j < self.entries@.len() ==> #[trigger] self.entries@[i].0
                != #[trigger] self.entries@[j].0
        &&& forall|i: int|
            0 <= i < self.entries@.len() ==> self.contents@.contains_key(
                #[trigger] self.entries@[i].0,
            ) && self.contents@[self.entries@[i].0] == self.entries@[i].1
        &&& forall|f: Flow|
            #[trigger] self.contents@.contains_key(f) ==> exists|i: int|
                0 <= i < self.entries@.len() && #[trigger] self.entries@[i].0 == f
    }

    /// An empty table whose entries expire after `timeout` ticks.
    pub fn new(timeout: u64) -> (r: FlowTable)
        ensures
            r.wf(),
            r@ == Map::<Flow, u64>::empty(),
            r.spec_timeout() == timeout,
    {
        FlowTable { entries: Vec::new(), timeout, contents: Ghost(Map::empty()) }
    }

    /// The configured eviction timeout.
    pub fn timeout(&self) -> (r: u64)
        ensures
            r == self.spec_timeout(),
    {
        self.timeout
    }

    /// The number of flows in the table.
    pub fn len(&self) -> (r: usize)
        requires
            self.wf(),
        ensures
            r == self@.len(),
    {
        proof {
            self.lemma_len();
        }
        self.entries.len()
    }

    proof fn lemma_len(&self)
        requires
            self.wf(),
        ensures
            self@.len() == self.entries@.len(),
            self@.dom().finite(),
    {
        let keys = self.entries@.map_values(|e: (Flow, u64)| e.0);
        assert(keys.no_duplicates()) by {
            assert forall|i: int, j: int| 0 <= i < keys.len() && 0 <= j < keys.len() && i != j
                implies keys[i] != keys[j] by {
                if i < j {
                    assert(self.entries@[i].0 != self.entries@[j].0);
                } else {
                    assert(self.entries@[j].0 != self.entries@[i].0);
                }
            }
        }
        assert(self@.dom() =~= keys.to_set()) by {
            assert forall|f: Flow| self@.dom().contains(f) implies keys.to_set().contains(f) by {
                let i = choose|i: int| 0 <= i < self.entries@.len() && self.entries@[i].0 == f;
                assert(keys[i] == f);
            }
        }
        keys.unique_seq_to_set();
    }

    fn find(&self, flow: &Flow) -> (r: Option<usize>)
        requires
            self.wf(),
        ensures
            match r {
                Some(i) => i < self.entries@.len() && self.entries@[i as int].0 == *flow,
                None => !self@.contains_key(*flow),
            },
    {
        let mut i: usize = 0;
        while i < self.entries.len()
            invariant
                i <= self.entries@.len(),
                forall|j: int| 0 <= j < i ==> self.entries@[j].0 != *flow,
            decreases self.entries@.len() - i,
        {
            if self.entries[i].0 == *flow {
                return Some(i);
            }
            i = i + 1;
        }
        None
    }

    /// Whether `flow` is in the table.
    pub fn contains(&self, flow: &Flow) -> (r: bool)
        requires
            self.wf(),
        ensures
            r == self@.contains_key(*flow),
    {
        self.find(flow).is_some()
    }

    /// The time `flow` was last seen, if it is in the table.
    pub fn last_seen(&self, flow: &Flow) -> (r: Option<u64>)
        requires
            self.wf(),
        ensures
            r == (if self@.contains_key(*flow) { Some(self@[*flow]) } else { None::<u64> }),
    {
        match self.find(flow) {
            Some(i) => Some(self.entries[i].1),
            None => None,
        }
    }

    /// If `flow` is present, stamps it with `now` and returns true; otherwise
    /// leaves the table as it is and returns false.
    pub fn check_and_refresh(&mut self, flow: &Flow, now: u64) -> (r: bool)
        requires
            old(self).wf(),
        ensures
            final(self).wf(),
            final(self).spec_timeout() == old(self).spec_timeout(),
            r == old(self)@.contains_key(*flow),
            final(self)@ == (if r { old(self)@.insert(*flow, now) } else { old(self)@ }),
    {
        match self.find(flow) {
            Some(i) => {
                self.set_at(i, now);
                true
            },
            None => false,
        }
    }

    fn set_at(&mut self, i: usize, now: u64)
        requires
            old(self).wf(),
            i < old(self).entries@.len(),
        ensures
            final(self).wf(),
            final(self).timeout == old(self).timeout,
            final(self)@ == old(self)@.insert(old(self).entries@[i as int].0, now),
    {
        let flow = self.entries[i].0;
        self.entries.set(i, (flow, now));
        self.contents = Ghost(self.contents@.insert(flow, now));
        assert forall|f: Flow| #[trigger] self.contents@.contains_key(f) implies exists|j: int|
            0 <= j < self.entries@.len() && #[trigger] self.entries@[j].0 == f by {
            if f != flow {
                assert(old(self).contents@.contains_key(f));
                let j = choose|j: int| 0 <= j < old(self).entries@.len() && old(self).entries@[j].0 == f;
                assert(self.entries@[j].0 == f);
            } else {
                assert(self.entries@[i as int].0 == f);
            }
        }
    }

    /// Stamps `flow` with `now`, adding it if it is not yet present.
    pub fn insert(&mut self, flow: Flow, now: u64)
        requires
            old(self).wf(),
        ensures
            final(self).wf(),
            final(self).spec_timeout() == old(self).spec_timeout(),
            final(self)@ == old(self)@.insert(flow, now),
    {
        match self.find(&flow) {
            Some(i) => self.set_at(i, now),
            None => {
                let ghost n = self.entries@.len();
                self.entries.push((flow, now));
                self.contents = Ghost(self.contents@.insert(flow, now));
                assert(self.entries@[n as int].0 == flow);
                assert forall|i: int, j: int|
                    0 <= i < j < self.entries@.len() implies #[trigger] self.entries@[i].0
                        != #[trigger] self.entries@[j].0 by {
                    if j == n && self.entries@[i].0 == flow {
                        assert(old(self).contents@.contains_key(flow));
                    }
                }
                assert forall|f: Flow| #[trigger] self.contents@.contains_key(f) implies exists|j: int|
                    0 <= j < self.entries@.len() && #[trigger] self.entries@[j].0 == f by {
                    if f != flow {
                        let j = choose|j: int| 0 <= j < old(self).entries@.len() && old(self).entries@[j].0 == f;
                        assert(self.entries@[j].0 == f);
                    }
                }
            },
        }
    }

    /// Removes every entry last seen more than the timeout before `now`.
    pub fn prune(&mut self, now: u64)
        requires
            old(self).wf(),
        ensures
            final(self).wf(),
            final(self).spec_timeout() == old(self).spec_timeout(),
            final(self)@ == pruned(old(self)@, now, old(self).spec_timeout()),
    {
        let timeout = self.timeout;
        let ghost target = pruned(self@, now, timeout);
        let kept = fresh_entries(&self.entries, now, timeout);
        proof {
            lemma_fresh_entries_hold(old(self).entries@, old(self).contents@, kept@, now, timeout);
        }
        self.entries = kept;
        self.contents = Ghost(target);
        assert(self.entries@ == kept@);
        assert(self.contents@ == pruned(old(self).contents@, now, timeout));
    }
}

proof fn lemma_fresh_entries_hold(
    entries: Seq<(Flow, u64)>,
    m: Map<Flow, u64>,
    kept: Seq<(Flow, u64)>,
    now: u64,
    timeout: u64,
)
    requires
        forall|i: int|
            0 <= i < entries.len() ==> m.contains_key(#[trigger] entries[i].0) && m[entries[i].0]
                == entries[i].1,
        forall|f: Flow|
            #[trigger] m.contains_key(f) ==> exists|i: int|
                0 <= i < entries.len() && #[trigger] entries[i].0 == f,
        forall|a: int| 0 <= a < kept.len() ==> entries.contains(#[trigger] kept[a]),
        forall|a: int| 0 <= a < kept.len() ==> !expired(#[trigger] kept[a].1, now, timeout),
        forall|i: int|
            0 <= i < entries.len() && !expired(#[trigger] entries[i].1, now, timeout)
                ==> kept.contains(entries[i]),
    ensures
        forall|i: int|
            0 <= i < kept.len() ==> pruned(m, now, timeout).contains_key(#[trigger] kept[i].0)
                && pruned(m, now, timeout)[kept[i].0] == kept[i].1,
        forall|f: Flow|
            #[trigger] pruned(m, now, timeout).contains_key(f) ==> exists|a: int|
                0 <= a < kept.len() && #[trigger] kept[a].0 == f,
{
    let target = pruned(m, now, timeout);
    assert forall|i: int| 0 <= i < kept.len() implies target.contains_key(#[trigger] kept[i].0)
        && target[kept[i].0] == kept[i].1 by {
        assert(entries.contains(kept[i]));
        let j = choose|j: int| 0 <= j < entries.len() && entries[j] == kept[i];
        assert(m.contains_key(entries[j].0));
        assert(!expired(kept[i].1, now, timeout));
    }
    assert forall|f: Flow| #[trigger] target.contains_key(f) implies exists|a: int|
        0 <= a < kept.len() && #[trigger] kept[a].0 == f by {
        assert(m.contains_key(f));
        let j = choose|j: int| 0 <= j < entries.len() && entries[j].0 == f;
        assert(m[f] == entries[j].1);
        assert(kept.contains(entries[j]));
        let a = choose|a: int| 0 <= a < kept.len() && kept[a] == entries[j];
        assert(kept[a].0 == f);
    }
}

/// The entries that are not expired at `now`, in their order.
fn fresh_entries(entries: &Vec<(Flow, u64)>, now: u64, timeout: u64) -> (kept: Vec<(Flow, u64)>)
    requires
        forall|i: int, j: int|
            0 <= i < j < entries@.len() ==> #[trigger] entries@[i].0 != #[trigger] entries@[j].0,
    ensures
        forall|a: int, b: int|
            0 <= a < b < kept@.len() ==> #[trigger] kept@[a].0 != #[trigger] kept@[b].0,
        forall|a: int| 0 <= a < kept@.len() ==> entries@.contains(#[trigger] kept@[a]),
        forall|a: int| 0 <= a < kept@.len() ==> !expired(#[trigger] kept@[a].1, now, timeout),
        forall|i: int|
            0 <= i < entries@.len() && !expired(#[trigger] entries@[i].1, now, timeout)
                ==> kept@.contains(entries@[i]),
{
    let mut kept: Vec<(Flow, u64)> = Vec::new();
    let ghost mut src: Seq<int> = Seq::empty();
    let mut k: usize = 0;
    while k < entries.len()
        invariant
            forall|i: int, j: int|
                0 <= i < j < entries@.len() ==> #[trigger] entries@[i].0 != #[trigger] entries@[j].0,
            k <= entries@.len(),
            src.len() == kept@.len(),
            forall|a: int, b: int| 0 <= a < b < src.len() ==> #[trigger] src[a] < #[trigger] src[b],
            forall|a: int|
                0 <= a < src.len() ==> 0 <= #[trigger] src[a] < k && entries@[src[a]] == kept@[a],
            forall|a: int| 0 <= a < kept@.len() ==> !expired(#[trigger] kept@[a].1, now, timeout),
            forall|i: int|
                0 <= i < k && !expired(#[trigger] entries@[i].1, now, timeout) ==> exists|a: int|
                    0 <= a < kept@.len() && #[trigger] kept@[a] == entries@[i],
        decreases entries@.len() - k,
    {
        let e = entries[k];
        let stale = now > e.1 && now - e.1 > timeout;
        if !stale {
            let ghost before = kept@;
            kept.push(e);
            proof {
                src = src.push(k as int);
            }
            assert forall|i: int| 0 <= i < k + 1 && !expired(#[trigger] entries@[i].1, now, timeout)
                implies exists|a: int| 0 <= a < kept@.len() && #[trigger] kept@[a] == entries@[i] by {
                if i < k {
                    let a = choose|a: int| 0 <= a < before.len() && before[a] == entries@[i];
                    assert(kept@[a] == entries@[i]);
                } else {
                    assert(kept@[before.len() as int] == entries@[i]);
                }
            }
        }
        k = k + 1;
    }
    assert forall|a: int, b: int|
        0 <= a < b < kept@.len() implies #[trigger] kept@[a].0 != #[trigger] kept@[b].0 by {
        assert(src[a] < src[b]);
        assert(entries@[src[a]].0 != entries@[src[b]].0);
    }
    assert forall|a: int| 0 <= a < kept@.len() implies entries@.contains(#[trigger] kept@[a]) by {
        assert(entries@[src[a]] == kept@[a]);
    }
    kept
}

/// An admitted flow stays in the table through any prune within the timeout
/// of its last stamp, so a lookup then finds it; a prune more than the
/// timeout after that stamp removes it.
pub proof fn lemma_admission_window(
    m: Map<Flow, u64>,
    f: Flow,
    t0: u64,
    t1: u64,
    t2: u64,
    timeout: u64,
)
    ensures
        m.insert(f, t0).contains_key(f),
        t1 as int - t0 as int <= timeout as int ==> pruned(m.insert(f, t0), t1, timeout).contains_key(f),
        t2 as int - t0 as int > timeout as int ==> !pruned(m.insert(f, t0), t2, timeout).contains_key(f),
{
}

} // verus!
