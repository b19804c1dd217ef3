use indexmap::IndexMap;
use retina_regex::error::DPDKError;
use retina_regex::filter::{core_mode, queues_homogeneous, shard_index, CoreCounters, QueueType, Verdict};
use retina_regex::flow::{Flow, IpAddress, Protocol, SocketAddress};
use retina_regex::packet::ParseError;
use retina_regex::stats::{AggRxStats, PortCounts, PortSample, StatsError};

fn port(entries: &[(&str, u64)], queues: Vec<(u16, QueueType)>) -> PortSample {
    let mut stats = IndexMap::new();
    for (k, v) in entries {
        stats.insert(k.to_string(), *v);
    }
    PortSample { stats, queues }
}

fn full_port() -> PortSample {
    port(
        &[
            ("rx_phy_bytes", 1000),
            ("rx_phy_packets", 10),
            ("rx_good_bytes", 900),
            ("rx_good_packets", 9),
            ("rx_q13_bytes", 100),
            ("rx_q13_packets", 1),
            ("rx_phy_discard_packets", 1),
            ("rx_missed_errors", 2),
        ],
        vec![(0, QueueType::Receive), (13, QueueType::Sink)],
    )
}

#[test]
fn collect_one_port() {
    let agg = AggRxStats::collect(&vec![full_port()]).unwrap();
    assert_eq!(agg.ingress_bits, 9600);
    assert_eq!(agg.ingress_pkts, 10);
    assert_eq!(agg.good_bits, 8928);
    assert_eq!(agg.good_pkts, 9);
    assert_eq!(agg.process_bits, 7936);
    assert_eq!(agg.process_pkts, 8);
    assert_eq!(agg.hw_dropped_pkts, 1);
    assert_eq!(agg.sw_dropped_pkts, 2);
    assert_eq!(agg.dropped_pkts(), 3);
}

#[test]
fn collect_sums_ports_and_defaults_missing_counters() {
    let bare = port(&[("rx_missed_errors", 5), ("rx_good_bytes", 10), ("rx_good_packets", 1)], vec![(0, QueueType::Receive)]);
    let agg = AggRxStats::collect(&vec![full_port(), bare]).unwrap();
    assert_eq!(agg.ingress_pkts, 10);
    assert_eq!(agg.good_pkts, 10);
    assert_eq!(agg.process_pkts, 9);
    assert_eq!(agg.process_bits, (810 + 24 * 9) * 8);
    assert_eq!(agg.sw_dropped_pkts, 7);
    assert_eq!(AggRxStats::collect(&vec![]).unwrap().good_bits, 0);
}

#[test]
fn collect_errors() {
    let no_sink_bytes = port(&[("rx_missed_errors", 0)], vec![(2, QueueType::Sink)]);
    assert_eq!(AggRxStats::collect(&vec![no_sink_bytes]), Err(StatsError::MissingSinkBytes));
    let no_sink_pkts = port(&[("rx_missed_errors", 0), ("rx_q2_bytes", 0)], vec![(2, QueueType::Sink)]);
    assert_eq!(AggRxStats::collect(&vec![no_sink_pkts]), Err(StatsError::MissingSinkPackets));
    let no_missed = port(&[], vec![]);
    assert_eq!(AggRxStats::collect(&vec![full_port(), no_missed]), Err(StatsError::MissingMissedErrors));
    let too_much = port(&[("rx_missed_errors", 0), ("rx_q2_bytes", 5)], vec![(2, QueueType::Sink)]);
    assert_eq!(AggRxStats::collect(&vec![too_much]), Err(StatsError::Inconsistent));
    let huge = port(&[("rx_missed_errors", 0), ("rx_phy_bytes", u64::MAX)], vec![]);
    assert_eq!(AggRxStats::collect(&vec![huge]), Err(StatsError::Overflow));
    let half = port(&[("rx_missed_errors", u64::MAX / 2 + 1)], vec![]);
    let half2 = port(&[("rx_missed_errors", u64::MAX / 2 + 1)], vec![]);
    assert_eq!(AggRxStats::collect(&vec![half, half2]), Err(StatsError::Overflow));
}

#[test]
fn port_counts_from_stats() {
    let p = full_port();
    let c = PortCounts::from_stats(&p.stats, Some(13)).unwrap();
    assert_eq!(c.process_bytes, 800);
    assert_eq!(c.process_pkts, 8);
    let c2 = PortCounts::from_stats(&p.stats, None).unwrap();
    assert_eq!(c2.process_bytes, 900);
    let sum = c.checked_add(&c2).unwrap();
    assert_eq!(sum.good_bytes, 1800);
    let max = PortCounts { sw_dropped_pkts: u64::MAX, ..c };
    assert_eq!(max.checked_add(&c), None);
}

#[test]
fn driver_error_text() {
    let e = DPDKError::new("Invalid argument".to_string());
    assert_eq!(e.message(), "Invalid argument");
    assert_eq!(e.to_string(), "DPDKError: Invalid argument");
}

#[test]
fn shard_choice() {
    assert_eq!(shard_index(10, 3), 1);
    assert_eq!(shard_index(u64::MAX, 1), 0);
    assert_eq!(shard_index(7, 8), 7);
}

#[test]
fn core_modes() {
    assert_eq!(core_mode(&vec![QueueType::Sink, QueueType::Receive]), QueueType::Sink);
    assert!(!queues_homogeneous(&vec![QueueType::Sink, QueueType::Receive]));
    assert!(queues_homogeneous(&vec![QueueType::Receive, QueueType::Receive]));
    assert!(queues_homogeneous(&vec![]));
}

#[test]
fn counters_wrap() {
    let mut c = CoreCounters::new();
    c.record(60);
    c.record(1500);
    assert_eq!(c, CoreCounters { packets: 2, bytes: 1560 });
    let mut w = CoreCounters { packets: u64::MAX, bytes: u64::MAX - 1 };
    w.record(3);
    assert_eq!(w, CoreCounters { packets: 0, bytes: 1 });
}

#[test]
fn verdict_accepted() {
    let f = Flow::new(
        None,
        SocketAddress { ip: IpAddress::V4(1), port: 1 },
        SocketAddress { ip: IpAddress::V4(2), port: 2 },
        Protocol::Tcp,
    );
    assert_eq!(Verdict::Admitted(f).accepted(), Some(f));
    assert_eq!(Verdict::Refreshed(f).accepted(), Some(f));
    assert_eq!(Verdict::Rejected(f).accepted(), None);
    assert_eq!(Verdict::Dropped(ParseError::NotIp).accepted(), None);
}
