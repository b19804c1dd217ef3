//! Aggregation of the extended statistics that each port reports into
//! totals of what reached the NIC, what reached software and what reached
//! the workers.
use vstd::prelude::*;
use indexmap::IndexMap;
use std::collections::hash_map::RandomState;
use crate::filter::QueueType;
use crate::flow::{hex_char, hex_str};

verus! {

/// Preamble and start frame delimiter, in bytes.
pub const PSFD_SIZE: u64 = 8;
/// Interpacket gap, in bytes.
pub const IPG_SIZE: u64 = 12;
/// Frame checksum, in bytes.
pub const FCS_SIZE: u64 = 4;

/// `indexmap::IndexMap`, held opaque; its entries are described by
/// `stat_entries`.
#[verifier::external_type_specification]
#[verifier::external_body]
#[verifier::reject_recursive_types(K)]
#[verifier::reject_recursive_types(V)]
#[verifier::reject_recursive_types(S)]
pub struct ExIndexMap<K, V, S>(indexmap::IndexMap<K, V, S>);

/// The labelled counters that a port statistics map holds.
pub uninterp spec fn stat_entries(m: IndexMap<String, u64, RandomState>) -> Map<Seq<char>, u64>;

/// Relies on `indexmap::IndexMap::get`: the value stored under the label,
/// if there is one.
#[verifier::external_body]
fn stat_get(m: &IndexMap<String, u64, RandomState>, label: &str) -> (r: Option<u64>)
    ensures
        r == lookup(stat_entries(*m), label@),
{
    m.get(label).copied()
}

/// The value under `label`, if there is one.
pub open spec fn lookup(m: Map<Seq<char>, u64>, label: Seq<char>) -> Option<u64> {
    if m.contains_key(label) { Some(m[label]) } else { None }
}

/// The value, or zero when absent.
pub open spec fn or_zero(o: Option<u64>) -> u64 {
    match o {
        Some(v) => v,
        None => 0,
    }
}

/// The decimal digits of `n`.
pub open spec fn decimal(n: nat) -> Seq<char>
    decreases n,
{
    if n < 10 { seq![hex_char(n)] } else { decimal(n / 10).push(hex_char(n % 10)) }
}

/// The label of a per-queue counter: `rx_q`, the queue id, then `suffix`.
pub open spec fn queue_label(q: u16, suffix: Seq<char>) -> Seq<char> {
    "rx_q"@ + decimal(q as nat) + suffix
}

fn push_decimal(s: &mut String, n: u16)
    ensures
        final(s)@ == old(s)@ + decimal(n as nat),
    decreases n,
{
    if n >= 10 {
        push_decimal(s, n / 10);
    }
    s.append(hex_str((n % 10) as u8));
    assert(old(s)@ + decimal(n as nat) =~= s@);
}

fn queue_label_string(q: u16, suffix: &str) -> (r: String)
    ensures
        r@ == queue_label(q, suffix@),
{
    let mut s = String::from_str("rx_q");
    push_decimal(&mut s, q);
    s.append(suffix);
    assert(s@ =~= queue_label(q, suffix@));
    s
}

/// Why the statistics of a port could not be aggregated.
#[derive(Clone, Copy, Debug, PartialEq, Eq, Structural)]
pub enum StatsError {
    /// The byte counter of the sink queue is missing.
    MissingSinkBytes,
    /// The packet counter of the sink queue is missing.
    MissingSinkPackets,
    /// The counter of packets dropped for lack of buffers is missing.
    MissingMissedErrors,
    /// The sink queue counted more than the port received.
    Inconsistent,
    /// A total does not fit in 64 bits.
    Overflow,
}

/// One port's sample: its counters and its receive queues.
pub struct PortSample {
    pub stats: IndexMap<String, u64>,
    pub queues: Vec<(u16, QueueType)>,
}

/// The counters one port contributes.
#[derive(Clone, Copy, Debug, PartialEq, Eq, Structural)]
pub struct PortCounts {
    pub ingress_bytes: u64,
    pub ingress_pkts: u64,
    pub good_bytes: u64,
    pub good_pkts: u64,
    pub process_bytes: u64,
    pub process_pkts: u64,
    pub hw_dropped_pkts: u64,
    pub sw_dropped_pkts: u64,
}

/// The last sink queue among `qs`, if any.
pub open spec fn sink_queue(qs: Seq<(u16, QueueType)>) -> Option<u16>
    decreases qs.len(),
{
    if qs.len() == 0 {
        None
    } else if qs.last().1 == QueueType::Sink {
        Some(qs.last().0)
    } else {
        sink_queue(qs.drop_last())
    }
}

/// What one port contributes: missing NIC counters count as zero; what the
/// sink queue took is not counted as processed.
pub open spec fn port_counts(m: Map<Seq<char>, u64>, sink: Option<u16>) -> Result<PortCounts, StatsError> {
    let good_bytes = or_zero(lookup(m, "rx_good_bytes"@));
    let good_pkts = or_zero(lookup(m, "rx_good_packets"@));
    let sink_bytes = match sink {
        None => Some(0u64),
        Some(q) => lookup(m, queue_label(q, "_bytes"@)),
    };
    let sink_pkts = match sink {
        None => Some(0u64),
        Some(q) => lookup(m, queue_label(q, "_packets"@)),
    };
    if sink_bytes is None {
        Err(StatsError::MissingSinkBytes)
    } else if sink_bytes.unwrap() > good_bytes {
        Err(StatsError::Inconsistent)
    } else if sink_pkts is None {
        Err(StatsError::MissingSinkPackets)
    } else if sink_pkts.unwrap() > good_pkts {
        Err(StatsError::Inconsistent)
    } else if lookup(m, "rx_missed_errors"@) is None {
        Err(StatsError::MissingMissedErrors)
    } else {
        Ok(PortCounts {
            ingress_bytes: or_zero(lookup(m, "rx_phy_bytes"@)),
            ingress_pkts: or_zero(lookup(m, "rx_phy_packets"@)),
            good_bytes,
            good_pkts,
            process_bytes: (good_bytes - sink_bytes.unwrap()) as u64,
            process_pkts: (good_pkts - sink_pkts.unwrap()) as u64,
            hw_dropped_pkts: or_zero(lookup(m, "rx_phy_discard_packets"@)),
            sw_dropped_pkts: lookup(m, "rx_missed_errors"@).unwrap(),
        })
    }
}

/// The contribution of each port, or the error of the first port that has one.
pub open spec fn all_counts(ports: Seq<PortSample>) -> Result<Seq<PortCounts>, StatsError>
    decreases ports.len(),
{
    if ports.len() == 0 {
        Ok(Seq::empty())
    } else {
        match all_counts(ports.drop_last()) {
            Err(e) => Err(e),
            Ok(prefix) => match port_counts(
                stat_entries(ports.last().stats),
                sink_queue(ports.last().queues@),
            ) {
                Err(e) => Err(e),
                Ok(c) => Ok(prefix.push(c)),
            },
        }
    }
}

/// Field `k` of a port's counters, in declaration order.
pub open spec fn field(c: PortCounts, k: int) -> u64 {
    if k == 0 { c.ingress_bytes } else if k == 1 { c.ingress_pkts } else if k == 2 { c.good_bytes }
    else if k == 3 { c.good_pkts } else if k == 4 { c.process_bytes } else if k == 5 { c.process_pkts }
    else if k == 6 { c.hw_dropped_pkts } else { c.sw_dropped_pkts }
}

/// The sum of field `k` over all ports.
pub open spec fn sum_field(cs: Seq<PortCounts>, k: int) -> int
    decreases cs.len(),
{
    if cs.len() == 0 { 0 } else { sum_field(cs.drop_last(), k) + field(cs.last(), k) }
}

/// Aggregate statistics at the time of collection.
#[derive(Clone, Copy, Debug, PartialEq, Eq, Structural)]
pub struct AggRxStats {
    pub ingress_bits: u64,
    pub ingress_pkts: u64,
    pub good_bits: u64,
    pub good_pkts: u64,
    pub process_bits: u64,
    pub process_pkts: u64,
    pub hw_dropped_pkts: u64,
    pub sw_dropped_pkts: u64,
}

/// Bits on the wire for `bytes` bytes in `pkts` frames with `overhead`
/// bytes of framing each.
pub open spec fn wire_bits(bytes: int, pkts: int, overhead: int) -> int {
    (bytes + overhead * pkts) * 8
}

/// The aggregate of the ports' counters; `None` when a total does not fit.
pub open spec fn aggregate(cs: Seq<PortCounts>) -> Option<AggRxStats> {
    let s = |k: int| sum_field(cs, k);
    let ingress_bits = wire_bits(s(0), s(1), (PSFD_SIZE + IPG_SIZE) as int);
    let good_bits = wire_bits(s(2), s(3), (PSFD_SIZE + IPG_SIZE + FCS_SIZE) as int);
    let process_bits = wire_bits(s(4), s(5), (PSFD_SIZE + IPG_SIZE + FCS_SIZE) as int);
    if (forall|k: int| 0 <= k < 8 ==> #[trigger] sum_field(cs, k) <= u64::MAX) && ingress_bits
        <= u64::MAX && good_bits <= u64::MAX && process_bits <= u64::MAX {
        Some(AggRxStats {
            ingress_bits: ingress_bits as u64,
            ingress_pkts: s(1) as u64,
            good_bits: good_bits as u64,
            good_pkts: s(3) as u64,
            process_bits: process_bits as u64,
            process_pkts: s(5) as u64,
            hw_dropped_pkts: s(6) as u64,
            sw_dropped_pkts: s(7) as u64,
        })
    } else {
        None
    }
}

/// What `collect` returns for these ports.
pub open spec fn collected(ports: Seq<PortSample>) -> Result<AggRxStats, StatsError> {
    match all_counts(ports) {
        Err(e) => Err(e),
        Ok(cs) => match aggregate(cs) {
            Some(a) => Ok(a),
            None => Err(StatsError::Overflow),
        },
    }
}

fn find_sink(queues: &Vec<(u16, QueueType)>) -> (r: Option<u16>)
    ensures
        r == sink_queue(queues@),
{
    let mut sink: Option<u16> = None;
    let mut i: usize = 0;
    while i < queues.len()
        invariant
            i <= queues@.len(),
            sink == sink_queue(queues@.subrange(0, i as int)),
        decreases queues@.len() - i,
    {
        assert(queues@.subrange(0, i + 1).drop_last() =~= queues@.subrange(0, i as int));
        if queues[i].1 == QueueType::Sink {
            sink = Some(queues[i].0);
        }
        i = i + 1;
    }
    assert(queues@.subrange(0, i as int) =~= queues@);
    sink
}

impl PortCounts {
    /// The contribution of one port with statistics `stats` and last sink
    /// queue `sink`.
    pub fn from_stats(stats: &IndexMap<String, u64>, sink: Option<u16>) -> (r: Result<PortCounts, StatsError>)
        ensures
            r == port_counts(stat_entries(*stats), sink),
    {
        let good_bytes = match stat_get(stats, "rx_good_bytes") {
            Some(v) => v,
            None => 0,
        };
        let good_pkts = match stat_get(stats, "rx_good_packets") {
            Some(v) => v,
            None => 0,
        };
        let sink_bytes = match sink {
            None => 0,
            Some(q) => match stat_get(stats, queue_label_string(q, "_bytes").as_str()) {
                Some(v) => v,
                None => return Err(StatsError::MissingSinkBytes),
            },
        };
        if sink_bytes > good_bytes {
            return Err(StatsError::Inconsistent);
        }
        let sink_pkts = match sink {
            None => 0,
            Some(q) => match stat_get(stats, queue_label_string(q, "_packets").as_str()) {
                Some(v) => v,
                None => return Err(StatsError::MissingSinkPackets),
            },
        };
        if sink_pkts > good_pkts {
            return Err(StatsError::Inconsistent);
        }
        let sw_dropped_pkts = match stat_get(stats, "rx_missed_errors") {
            Some(v) => v,
            None => return Err(StatsError::MissingMissedErrors),
        };
        Ok(PortCounts {
            ingress_bytes: match stat_get(stats, "rx_phy_bytes") {
                Some(v) => v,
                None => 0,
            },
            ingress_pkts: match stat_get(stats, "rx_phy_packets") {
                Some(v) => v,
                None => 0,
            },
            good_bytes,
            good_pkts,
            process_bytes: good_bytes - sink_bytes,
            process_pkts: good_pkts - sink_pkts,
            hw_dropped_pkts: match stat_get(stats, "rx_phy_discard_packets") {
                Some(v) => v,
                None => 0,
            },
            sw_dropped_pkts,
        })
    }

    /// Adds two ports' counters field by field; `None` when a sum does not
    /// fit.
    pub fn checked_add(&self, o: &PortCounts) -> (r: Option<PortCounts>)
        ensures
            match r {
                Some(t) => forall|k: int| 0 <= k < 8 ==> #[trigger] field(t, k) == field(*self, k) + field(*o, k),
                None => exists|k: int| 0 <= k < 8 && #[trigger] field(*self, k) + field(*o, k) > u64::MAX,
            },
    {
        if self.ingress_bytes > u64::MAX - o.ingress_bytes {
            assert(field(*self, 0) + field(*o, 0) > u64::MAX);
            return None;
        }
        if self.ingress_pkts > u64::MAX - o.ingress_pkts {
            assert(field(*self, 1) + field(*o, 1) > u64::MAX);
            return None;
        }
        if self.good_bytes > u64::MAX - o.good_bytes {
            assert(field(*self, 2) + field(*o, 2) > u64::MAX);
            return None;
        }
        if self.good_pkts > u64::MAX - o.good_pkts {
            assert(field(*self, 3) + field(*o, 3) > u64::MAX);
            return None;
        }
        if self.process_bytes > u64::MAX - o.process_bytes {
            assert(field(*self, 4) + field(*o, 4) > u64::MAX);
            return None;
        }
        if self.process_pkts > u64::MAX - o.process_pkts {
            assert(field(*self, 5) + field(*o, 5) > u64::MAX);
            return None;
        }
        if self.hw_dropped_pkts > u64::MAX - o.hw_dropped_pkts {
            assert(field(*self, 6) + field(*o, 6) > u64::MAX);
            return None;
        }
        if self.sw_dropped_pkts > u64::MAX - o.sw_dropped_pkts {
            assert(field(*self, 7) + field(*o, 7) > u64::MAX);
            return None;
        }
        Some(PortCounts {
            ingress_bytes: self.ingress_bytes + o.ingress_bytes,
            ingress_pkts: self.ingress_pkts + o.ingress_pkts,
            good_bytes: self.good_bytes + o.good_bytes,
            good_pkts: self.good_pkts + o.good_pkts,
            process_bytes: self.process_bytes + o.process_bytes,
            process_pkts: self.process_pkts + o.process_pkts,
            hw_dropped_pkts: self.hw_dropped_pkts + o.hw_dropped_pkts,
            sw_dropped_pkts: self.sw_dropped_pkts + o.sw_dropped_pkts,
        })
    }
}

proof fn lemma_sum_prefix_le(cs: Seq<PortCounts>, i: int, k: int)
    requires
        0 <= i <= cs.len(),
    ensures
        sum_field(cs.subrange(0, i), k) <= sum_field(cs, k),
    decreases cs.len() - i,
{
    if i < cs.len() {
        lemma_sum_prefix_le(cs, i + 1, k);
        assert(cs.subrange(0, i + 1).drop_last() =~= cs.subrange(0, i));
    } else {
        assert(cs.subrange(0, i) =~= cs);
    }
}

fn all_port_counts(ports: &Vec<PortSample>) -> (r: Result<Vec<PortCounts>, StatsError>)
    ensures
        match r {
            Ok(v) => all_counts(ports@) == Ok::<Seq<PortCounts>, StatsError>(v@),
            Err(e) => all_counts(ports@) == Err::<Seq<PortCounts>, StatsError>(e),
        },
{
    let mut out: Vec<PortCounts> = Vec::new();
    let mut i: usize = 0;
    while i < ports.len()
        invariant
            i <= ports@.len(),
            all_counts(ports@.subrange(0, i as int)) == Ok::<Seq<PortCounts>, StatsError>(out@),
        decreases ports@.len() - i,
    {
        let ghost pre = ports@.subrange(0, i + 1);
        assert(pre.drop_last() =~= ports@.subrange(0, i as int));
        let sink = find_sink(&ports[i].queues);
        match PortCounts::from_stats(&ports[i].stats, sink) {
            Ok(c) => out.push(c),
            Err(e) => {
                proof {
                    lemma_all_counts_err_extends(ports@, i as int + 1, e);
                }
                return Err(e);
            },
        }
        i = i + 1;
    }
    assert(ports@.subrange(0, i as int) =~= ports@);
    Ok(out)
}

proof fn lemma_all_counts_err_extends(ports: Seq<PortSample>, i: int, e: StatsError)
    requires
        0 <= i <= ports.len(),
        all_counts(ports.subrange(0, i)) == Err::<Seq<PortCounts>, StatsError>(e),
    ensures
        all_counts(ports) == Err::<Seq<PortCounts>, StatsError>(e),
    decreases ports.len() - i,
{
    if i < ports.len() {
        assert(ports.subrange(0, i + 1).drop_last() =~= ports.subrange(0, i));
        lemma_all_counts_err_extends(ports, i + 1, e);
    } else {
        assert(ports.subrange(0, i) =~= ports);
    }
}

fn wire_bits_of(bytes: u64, pkts: u64, overhead: u64) -> (r: Option<u64>)
    requires
        overhead <= 24,
    ensures
        r == (if wire_bits(bytes as int, pkts as int, overhead as int) <= u64::MAX {
            Some(wire_bits(bytes as int, pkts as int, overhead as int) as u64)
        } else {
            None::<u64>
        }),
{
    let framing = match pkts.checked_mul(overhead) {
        Some(v) => v,
        None => {
            assert(overhead * pkts > u64::MAX) by (nonlinear_arith)
                requires
                    pkts * overhead > u64::MAX,
            ;
            return None;
        },
    };
    assert(framing == overhead * pkts) by (nonlinear_arith)
        requires
            framing == pkts * overhead,
    ;
    let total = match bytes.checked_add(framing) {
        Some(v) => v,
        None => return None,
    };
    total.checked_mul(8)
}

impl AggRxStats {
    /// Aggregates the samples of all ports. Fails with the first port's
    /// error, or with `Overflow` when a total does not fit in 64 bits.
    pub fn collect(ports: &Vec<PortSample>) -> (r: Result<AggRxStats, StatsError>)
        ensures
            r == collected(ports@),
    {
        let counts = match all_port_counts(ports) {
            Ok(v) => v,
            Err(e) => return Err(e),
        };
        let mut total = PortCounts {
            ingress_bytes: 0,
            ingress_pkts: 0,
            good_bytes: 0,
            good_pkts: 0,
            process_bytes: 0,
            process_pkts: 0,
            hw_dropped_pkts: 0,
            sw_dropped_pkts: 0,
        };
        let mut i: usize = 0;
        while i < counts.len()
            invariant
                i <= counts@.len(),
                all_counts(ports@) == Ok::<Seq<PortCounts>, StatsError>(counts@),
                forall|k: int| 0 <= k < 8 ==> #[trigger] field(total, k) == sum_field(counts@.subrange(0, i as int), k),
            decreases counts@.len() - i,
        {
            let ghost pre = counts@.subrange(0, i + 1);
            assert(pre.drop_last() =~= counts@.subrange(0, i as int));
            match total.checked_add(&counts[i]) {
                Some(t) => total = t,
                None => {
                    proof {
                        let k = choose|k: int| 0 <= k < 8 && #[trigger] field(total, k) + field(counts@[i as int], k) > u64::MAX;
                        lemma_sum_prefix_le(counts@, i + 1, k);
                        assert(sum_field(counts@, k) > u64::MAX);
                        assert(aggregate(counts@) is None);
                    }
                    return Err(StatsError::Overflow);
                },
            }
            i = i + 1;
        }
        proof {
            assert(counts@.subrange(0, i as int) =~= counts@);
            assert forall|k: int| 0 <= k < 8 implies #[trigger] sum_field(counts@, k) <= u64::MAX
                && sum_field(counts@, k) == field(total, k) by {
                assert(field(total, k) == sum_field(counts@.subrange(0, i as int), k));
            }
            assert(sum_field(counts@, 0) == total.ingress_bytes);
            assert(sum_field(counts@, 1) == total.ingress_pkts);
            assert(sum_field(counts@, 2) == total.good_bytes);
            assert(sum_field(counts@, 3) == total.good_pkts);
            assert(sum_field(counts@, 4) == total.process_bytes);
            assert(sum_field(counts@, 5) == total.process_pkts);
            assert(sum_field(counts@, 6) == total.hw_dropped_pkts);
            assert(sum_field(counts@, 7) == total.sw_dropped_pkts);
        }
        let ingress_bits = match wire_bits_of(total.ingress_bytes, total.ingress_pkts, PSFD_SIZE + IPG_SIZE) {
            Some(v) => v,
            None => return Err(StatsError::Overflow),
        };
        let good_bits = match wire_bits_of(total.good_bytes, total.good_pkts, PSFD_SIZE + IPG_SIZE + FCS_SIZE) {
            Some(v) => v,
            None => return Err(StatsError::Overflow),
        };
        let process_bits = match wire_bits_of(
            total.process_bytes,
            total.process_pkts,
            PSFD_SIZE + IPG_SIZE + FCS_SIZE,
        ) {
            Some(v) => v,
            None => return Err(StatsError::Overflow),
        };
        Ok(AggRxStats {
            ingress_bits,
            ingress_pkts: total.ingress_pkts,
            good_bits,
            good_pkts: total.good_pkts,
            process_bits,
            process_pkts: total.process_pkts,
            hw_dropped_pkts: total.hw_dropped_pkts,
            sw_dropped_pkts: total.sw_dropped_pkts,
        })
    }

    /// Packets dropped in hardware and in software together.
    pub fn dropped_pkts(&self) -> (r: u64)
        requires
            self.hw_dropped_pkts + self.sw_dropped_pkts <= u64::MAX,
        ensures
            r == self.hw_dropped_pkts + self.sw_dropped_pkts,
    {
        self.hw_dropped_pkts + self.sw_dropped_pkts
    }
}

} // verus!
