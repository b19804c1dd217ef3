//! The on-disk record format of accepted packets, and the bounded cache of
//! open per-flow files that decides which file to open and which to close.
//!
//! A flow's file is a stream of records, each an 8-byte little-endian
//! length followed by exactly that many payload bytes.
use vstd::prelude::*;
use vstd::slice::{slice_subrange, slice_to_vec};
use std::collections::hash_map::RandomState;
use std::num::NonZeroUsize;
use lru::LruCache;
use crate::flow::Flow;
use crate::packet::{pow256, lemma_pow256_mono};

verus! {

/// Length of the length prefix of a record.
pub const RECORD_PREFIX_LEN: usize = 8;

/// How many files the packet store keeps open unless told otherwise.
pub const DEFAULT_OPEN_FILES: usize = 1000;

/// The `k` low bytes of `v`, least significant first.
pub open spec fn le_bytes(v: nat, k: nat) -> Seq<u8>
    decreases k,
{
    if k == 0 {
        Seq::empty()
    } else {
        seq![(v % 256) as u8] + le_bytes(v / 256, (k - 1) as nat)
    }
}

/// The unsigned integer whose bytes, least significant first, are `s`.
pub open spec fn le_value(s: Seq<u8>) -> nat
    decreases s.len(),
{
    if s.len() == 0 { 0 } else { s[0] as nat + 256 * le_value(s.drop_first()) }
}

/// The record of one payload.
pub open spec fn record_of(p: Seq<u8>) -> Seq<u8> {
    le_bytes(p.len(), 8) + p
}

/// The records of several payloads, one after the other.
pub open spec fn records_of(ps: Seq<Seq<u8>>) -> Seq<u8>
    decreases ps.len(),
{
    if ps.len() == 0 { Seq::empty() } else { record_of(ps[0]) + records_of(ps.drop_first()) }
}

/// The payloads that a stream of records holds: read a length, then that
/// many bytes, until the stream ends. `None` when it ends inside a record.
pub open spec fn decode_stream(s: Seq<u8>) -> Option<Seq<Seq<u8>>>
    decreases s.len(),
{
    if s.len() == 0 {
        Some(Seq::empty())
    } else if s.len() < 8 {
        None
    } else {
        let n = le_value(s.subrange(0, 8)) as int;
        if 8 + n > s.len() {
            None
        } else {
            match decode_stream(s.subrange(8 + n, s.len() as int)) {
                Some(rest) => Some(seq![s.subrange(8, 8 + n)] + rest),
                None => None,
            }
        }
    }
}

proof fn lemma_le_round_trip(v: nat, k: nat)
    requires
        v < pow256(k),
    ensures
        le_bytes(v, k).len() == k,
        le_value(le_bytes(v, k)) == v,
    decreases k,
{
    if k > 0 {
        let p = pow256((k - 1) as nat);
        assert(v / 256 < p) by (nonlinear_arith)
            requires
                v < 256 * p,
        ;
        lemma_le_round_trip(v / 256, (k - 1) as nat);
        let s = le_bytes(v, k);
        assert(s.drop_first() =~= le_bytes(v / 256, (k - 1) as nat));
        assert(v == (v % 256) + 256 * (v / 256)) by (nonlinear_arith);
    }
}

/// Reading a stream made of the records of some payloads gives back exactly
/// those payloads, in order.
pub proof fn lemma_records_round_trip(ps: Seq<Seq<u8>>)
    requires
        forall|i: int| 0 <= i < ps.len() ==> (#[trigger] ps[i]).len() < 0x1_0000_0000_0000_0000int,
    ensures
        decode_stream(records_of(ps)) == Some(ps),
    decreases ps.len(),
{
    if ps.len() == 0 {
        assert(records_of(ps) =~= Seq::<u8>::empty());
    } else {
        let p = ps[0];
        let rest = ps.drop_first();
        assert forall|i: int| 0 <= i < rest.len() implies (#[trigger] rest[i]).len()
            < 0x1_0000_0000_0000_0000int by {
            assert(rest[i] == ps[i + 1]);
        }
        lemma_records_round_trip(rest);
        reveal_with_fuel(pow256, 9);
        lemma_le_round_trip(p.len(), 8);
        let s = records_of(ps);
        let n = p.len() as int;
        assert(s.subrange(0, 8) =~= le_bytes(p.len(), 8));
        assert(s.subrange(8, 8 + n) =~= p);
        assert(s.subrange(8 + n, s.len() as int) =~= records_of(rest));
        assert(seq![p] + rest =~= ps);
    }
}

proof fn lemma_le_bytes_len(v: nat, k: nat)
    ensures
        le_bytes(v, k).len() == k,
    decreases k,
{
    if k > 0 {
        lemma_le_bytes_len(v / 256, (k - 1) as nat);
    }
}

/// The record of `payload`: its length as 8 little-endian bytes, then the
/// bytes themselves.
pub fn encode_record(payload: &[u8]) -> (r: Vec<u8>)
    ensures
        r@ == record_of(payload@),
        r@.len() == RECORD_PREFIX_LEN + payload@.len(),
{
    proof {
        lemma_le_bytes_len(payload@.len(), 8);
    }
    let len = payload.len();
    let mut out: Vec<u8> = Vec::new();
    let mut v: u64 = len as u64;
    let mut i: usize = 0;
    while i < RECORD_PREFIX_LEN
        invariant
            i <= 8,
            len == payload@.len(),
            out@ + le_bytes(v as nat, (8 - i) as nat) == le_bytes(len as nat, 8),
        decreases 8 - i,
    {
        let ghost before = out@;
        let ghost rest = le_bytes((v / 256) as nat, (8 - i - 1) as nat);
        out.push((v % 256) as u8);
        assert(before + le_bytes(v as nat, (8 - i) as nat) =~= out@ + rest);
        v = v / 256;
        i = i + 1;
    }
    assert(out@ =~= le_bytes(len as nat, 8));
    let mut j: usize = 0;
    while j < len
        invariant
            j <= len,
            len == payload@.len(),
            out@ == le_bytes(len as nat, 8) + payload@.subrange(0, j as int),
        decreases len - j,
    {
        out.push(payload[j]);
        assert(payload@.subrange(0, j + 1) =~= payload@.subrange(0, j as int).push(payload@[j as int]));
        j = j + 1;
    }
    assert(payload@.subrange(0, len as int) =~= payload@);
    out
}

/// Reads the little-endian 64-bit length at `i`.
fn read_len(bytes: &[u8], i: usize) -> (r: u64)
    requires
        i + 8 <= bytes@.len(),
    ensures
        r == le_value(bytes@.subrange(i as int, i + 8)),
{
    proof {
        reveal_with_fuel(pow256, 9);
    }
    let n = bytes.len();
    let mut acc: u64 = 0;
    let mut j: usize = 8;
    while j > 0
        invariant
            j <= 8,
            n == bytes@.len(),
            i + 8 <= bytes@.len(),
            acc == le_value(bytes@.subrange(i + j, i + 8)),
            acc < pow256((8 - j) as nat),
            pow256(8) == 0x1_0000_0000_0000_0000int,
        decreases j,
    {
        proof {
            lemma_pow256_mono((8 - j + 1) as nat, 8);
            let s = bytes@.subrange(i + j - 1, i + 8);
            assert(s.drop_first() =~= bytes@.subrange(i + j, i + 8));
        }
        acc = acc * 256 + bytes[i + j - 1] as u64;
        j = j - 1;
    }
    acc
}

/// The payloads held by one record after another.
pub open spec fn payloads_view(v: Seq<Vec<u8>>) -> Seq<Seq<u8>> {
    v.map_values(|x: Vec<u8>| x@)
}

/// Reads a stream of records back into payloads; `None` when the stream
/// ends inside a record.
pub fn decode_records(bytes: &[u8]) -> (r: Option<Vec<Vec<u8>>>)
    ensures
        match r {
            Some(v) => decode_stream(bytes@) == Some(payloads_view(v@)),
            None => decode_stream(bytes@) is None,
        },
{
    let len = bytes.len();
    let mut out: Vec<Vec<u8>> = Vec::new();
    let mut pos: usize = 0;
    proof {
        assert(bytes@.subrange(0, len as int) =~= bytes@);
        match decode_stream(bytes@) {
            Some(t) => {
                assert(payloads_view(out@) + t =~= t);
            },
            None => {},
        }
    }
    while pos < len
        invariant
            pos <= len,
            len == bytes@.len(),
            decode_stream(bytes@) == match decode_stream(bytes@.subrange(pos as int, len as int)) {
                Some(t) => Some(payloads_view(out@) + t),
                None => None::<Seq<Seq<u8>>>,
            },
        decreases len - pos,
    {
        let ghost s = bytes@.subrange(pos as int, len as int);
        if len - pos < RECORD_PREFIX_LEN {
            return None;
        }
        let n = read_len(bytes, pos);
        assert(s.subrange(0, 8) =~= bytes@.subrange(pos as int, pos + 8));
        if n > (len - pos - RECORD_PREFIX_LEN) as u64 {
            return None;
        }
        let start = pos + RECORD_PREFIX_LEN;
        let end = start + n as usize;
        let record = slice_to_vec(slice_subrange(bytes, start, end));
        proof {
            assert(s.subrange(8, 8 + n) =~= record@);
            assert(s.subrange(8 + n, s.len() as int) =~= bytes@.subrange(end as int, len as int));
        }
        let ghost before = out@;
        out.push(record);
        proof {
            assert(payloads_view(out@) =~= payloads_view(before).push(record@));
            match decode_stream(bytes@.subrange(end as int, len as int)) {
                Some(t) => {
                    assert(payloads_view(before) + (seq![record@] + t) =~= payloads_view(out@) + t);
                },
                None => {},
            }
        }
        pos = end;
    }
    proof {
        assert(bytes@.subrange(pos as int, len as int) =~= Seq::<u8>::empty());
        assert(payloads_view(out@) + Seq::<Seq<u8>>::empty() =~= payloads_view(out@));
    }
    Some(out)
}

/// `lru::LruCache`, held opaque; its keys are described by `lru_order`.
#[verifier::external_type_specification]
#[verifier::external_body]
#[verifier::reject_recursive_types(K)]
#[verifier::reject_recursive_types(V)]
#[verifier::reject_recursive_types(S)]
pub struct ExLruCache<K, V, S>(lru::LruCache<K, V, S>);

/// The keys of an LRU cache, least recently used first.
pub uninterp spec fn lru_order(c: LruCache<Flow, (), RandomState>) -> Seq<Flow>;

/// The capacity an LRU cache was made with.
pub uninterp spec fn lru_capacity(c: LruCache<Flow, (), RandomState>) -> nat;

/// Relies on `lru::LruCache::with_hasher`: an empty cache of capacity `cap`.
#[verifier::external_body]
fn lru_new(cap: usize) -> (r: LruCache<Flow, (), RandomState>)
    requires
        cap > 0,
    ensures
        lru_order(r) == Seq::<Flow>::empty(),
        lru_capacity(r) == cap,
{
    LruCache::with_hasher(NonZeroUsize::new(cap).unwrap(), RandomState::new())
}

/// Relies on `lru::LruCache::contains`: whether the key is cached, without
/// changing the order.
#[verifier::external_body]
fn lru_contains(c: &LruCache<Flow, (), RandomState>, k: &Flow) -> (r: bool)
    ensures
        r == lru_order(*c).contains(*k),
{
    c.contains(k)
}

/// Relies on `lru::LruCache::push`: a cached key moves to the most recent
/// end and is handed back; a new key is added at the most recent end, and
/// when the cache is full the least recently used key leaves and is handed
/// back.
#[verifier::external_body]
fn lru_push(c: &mut LruCache<Flow, (), RandomState>, k: Flow) -> (r: Option<Flow>)
    ensures
        lru_capacity(*final(c)) == lru_capacity(*old(c)),
        if lru_order(*old(c)).contains(k) {
            r == Some(k) && lru_order(*final(c)) == lru_order(*old(c)).remove_value(k).push(k)
        } else if lru_order(*old(c)).len() == lru_capacity(*old(c)) {
            r == Some(lru_order(*old(c))[0]) && lru_order(*final(c)) == lru_order(
                *old(c),
            ).drop_first().push(k)
        } else {
            r == None::<Flow> && lru_order(*final(c)) == lru_order(*old(c)).push(k)
        },
{
    c.push(k, ()).map(|e| e.0)
}

/// What the packet store must do before appending a record for a flow.
#[derive(Clone, Copy, Debug, PartialEq, Eq, Structural)]
pub struct CacheAction {
    /// The flow's file is not open and must be opened for appending.
    pub open: bool,
    /// The file of this flow must be closed to make room.
    pub close: Option<Flow>,
}

/// The flows whose files are open, with a bound on how many there are.
pub struct OpenFileCache {
    files: LruCache<Flow, (), RandomState>,
}

impl View for OpenFileCache {
    type V = Seq<Flow>;

    /// The flows with an open file, least recently used first.
    closed spec fn view(&self) -> Seq<Flow> {
        lru_order(self.files)
    }
}

impl OpenFileCache {
    /// The most files that may be open at once.
    pub closed spec fn spec_capacity(&self) -> nat {
        lru_capacity(self.files)
    }

    /// Each flow appears once, and no more flows than the capacity.
    pub open spec fn wf(&self) -> bool {
        &&& self@.no_duplicates()
        &&& self@.len() <= self.spec_capacity()
        &&& self.spec_capacity() > 0
    }

    /// A cache with no open file that keeps at most `capacity` open.
    pub fn new(capacity: usize) -> (r: OpenFileCache)
        requires
            capacity > 0,
        ensures
            r.wf(),
            r@ == Seq::<Flow>::empty(),
            r.spec_capacity() == capacity,
    {
        OpenFileCache { files: lru_new(capacity) }
    }

    /// Whether the file of `flow` is open.
    pub fn contains(&self, flow: &Flow) -> (r: bool)
        ensures
            r == self@.contains(*flow),
    {
        lru_contains(&self.files, flow)
    }

    /// Makes `flow` the most recently used, and says whether its file must
    /// be opened and which file must be closed first. The number of open
    /// files never exceeds the capacity.
    pub fn touch(&mut self, flow: Flow) -> (r: CacheAction)
        requires
            old(self).wf(),
        ensures
            final(self).wf(),
            final(self).spec_capacity() == old(self).spec_capacity(),
            final(self)@.len() <= final(self).spec_capacity(),
            if old(self)@.contains(flow) {
                r == (CacheAction { open: false, close: None })
                    && final(self)@ == old(self)@.remove_value(flow).push(flow)
            } else if old(self)@.len() == old(self).spec_capacity() {
                r == (CacheAction { open: true, close: Some(old(self)@[0]) })
                    && final(self)@ == old(self)@.drop_first().push(flow)
            } else {
                r == (CacheAction { open: true, close: None }) && final(self)@ == old(self)@.push(flow)
            },
    {
        let cached = lru_contains(&self.files, &flow);
        let ghost before = self@;
        let evicted = lru_push(&mut self.files, flow);
        proof {
            if before.contains(flow) {
                let i = before.index_of_first(flow);
                before.index_of_first_ensures(flow);
                let rest = before.remove(i.unwrap());
                assert(rest.no_duplicates()) by {
                    assert forall|a: int, b: int| 0 <= a < rest.len() && 0 <= b < rest.len() && a != b
                        implies rest[a] != rest[b] by {
                        let ia = if a < i.unwrap() { a } else { a + 1 };
                        let ib = if b < i.unwrap() { b } else { b + 1 };
                        assert(rest[a] == before[ia]);
                        assert(rest[b] == before[ib]);
                    }
                }
                assert(!rest.contains(flow)) by {
                    if rest.contains(flow) {
                        let a = choose|a: int| 0 <= a < rest.len() && rest[a] == flow;
                        let ia = if a < i.unwrap() { a } else { a + 1 };
                        assert(before[ia] == flow);
                    }
                }
            } else if before.len() == self.spec_capacity() {
                let rest = before.drop_first();
                assert(rest.no_duplicates()) by {
                    assert forall|a: int, b: int| 0 <= a < rest.len() && 0 <= b < rest.len() && a != b
                        implies rest[a] != rest[b] by {
                        assert(rest[a] == before[a + 1]);
                        assert(rest[b] == before[b + 1]);
                    }
                }
                assert(!rest.contains(flow)) by {
                    if rest.contains(flow) {
                        let a = choose|a: int| 0 <= a < rest.len() && rest[a] == flow;
                        assert(before[a + 1] == flow);
                    }
                }
            }
        }
        if cached {
            CacheAction { open: false, close: None }
        } else {
            CacheAction { open: true, close: evicted }
        }
    }
}

} // verus!
