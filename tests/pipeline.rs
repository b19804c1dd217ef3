use retina_regex::filter::{admit_if_matched, process_frame, Verdict};
use retina_regex::flow::{Flow, IpAddress, Protocol, SocketAddress};
use retina_regex::flow_table::FlowTable;
use retina_regex::packet::{L4Context, ParseError};
use retina_regex::rules::{apply_rule_document, CompiledRuleSet, RuleError};
use retina_regex::store::{decode_records, encode_record, OpenFileCache};

fn ipv4_frame(vlans: &[u16], proto: u8, src: [u8; 4], sport: u16, dst: [u8; 4], dport: u16, payload: &[u8]) -> Vec<u8> {
    let mut f = vec![0x02, 0, 0, 0, 0, 1, 0x02, 0, 0, 0, 0, 2];
    for v in vlans {
        f.extend_from_slice(&[0x81, 0x00]);
        f.extend_from_slice(&v.to_be_bytes());
    }
    f.extend_from_slice(&[0x08, 0x00]);
    let l4_len = if proto == 6 { 20 } else { 8 };
    let total = (20 + l4_len + payload.len()) as u16;
    f.extend_from_slice(&[0x45, 0]);
    f.extend_from_slice(&total.to_be_bytes());
    f.extend_from_slice(&[0, 0, 0, 0, 64, proto, 0, 0]);
    f.extend_from_slice(&src);
    f.extend_from_slice(&dst);
    f.extend_from_slice(&sport.to_be_bytes());
    f.extend_from_slice(&dport.to_be_bytes());
    if proto == 6 {
        f.extend_from_slice(&[0, 0, 0, 0, 0, 0, 0, 0, 0x50, 0x18, 0xff, 0xff, 0, 0, 0, 0]);
    } else {
        f.extend_from_slice(&((8 + payload.len()) as u16).to_be_bytes());
        f.extend_from_slice(&[0, 0]);
    }
    f.extend_from_slice(payload);
    f
}

fn udp4(src: [u8; 4], sport: u16, dst: [u8; 4], dport: u16, payload: &[u8]) -> Vec<u8> {
    ipv4_frame(&[], 17, src, sport, dst, dport, payload)
}

fn tcp4(src: [u8; 4], sport: u16, dst: [u8; 4], dport: u16, payload: &[u8]) -> Vec<u8> {
    ipv4_frame(&[], 6, src, sport, dst, dport, payload)
}

fn rules(patterns: &[&str]) -> CompiledRuleSet {
    CompiledRuleSet::compile(patterns.iter().map(|p| p.to_string()).collect()).unwrap()
}

fn payload_of(frame: &[u8]) -> Vec<u8> {
    let c = L4Context::new(frame).unwrap();
    frame[c.offset..c.offset + c.length].to_vec()
}

#[test]
fn admit_then_match() {
    let set = rules(&["secret"]);
    let mut table = FlowTable::new(1000);
    let frame = udp4([10, 0, 0, 1], 1111, [10, 0, 0, 2], 2222, b"this is secret");
    let v = process_frame(&mut table, &set, &frame, 0);
    let flow = L4Context::new(&frame).unwrap().get_flow();
    assert_eq!(v, Verdict::Admitted(flow));
    assert!(table.contains(&flow));
    let mut cache = OpenFileCache::new(1000);
    let action = cache.touch(flow);
    assert!(action.open);
    assert_eq!(action.close, None);
    let record = encode_record(&payload_of(&frame));
    assert_eq!(&record[..8], &14u64.to_le_bytes());
    assert_eq!(&record[8..], b"this is secret");
}

#[test]
fn reject_then_drop() {
    let set = rules(&["secret"]);
    let mut table = FlowTable::new(1000);
    let frame = tcp4([10, 0, 0, 1], 1111, [10, 0, 0, 2], 2222, b"harmless");
    let v = process_frame(&mut table, &set, &frame, 0);
    let flow = L4Context::new(&frame).unwrap().get_flow();
    assert_eq!(v, Verdict::Rejected(flow));
    assert_eq!(v.accepted(), None);
    assert!(!table.contains(&flow));
    assert_eq!(table.len(), 0);
}

#[test]
fn refresh_on_hit() {
    let set = rules(&["secret"]);
    let mut table = FlowTable::new(1000);
    let first = udp4([10, 0, 0, 1], 1111, [10, 0, 0, 2], 2222, b"this is secret");
    let second = udp4([10, 0, 0, 1], 1111, [10, 0, 0, 2], 2222, b"whatever");
    let flow = L4Context::new(&first).unwrap().get_flow();
    assert_eq!(process_frame(&mut table, &set, &first, 0), Verdict::Admitted(flow));
    assert_eq!(process_frame(&mut table, &set, &second, 600), Verdict::Refreshed(flow));
    assert_eq!(table.last_seen(&flow), Some(600));
    table.prune(1400);
    assert!(table.contains(&flow));
    let mut file = encode_record(&payload_of(&first));
    file.extend(encode_record(&payload_of(&second)));
    let records = decode_records(&file).unwrap();
    assert_eq!(records, vec![b"this is secret".to_vec(), b"whatever".to_vec()]);
}

#[test]
fn bidirectional_canonicalization() {
    let set = rules(&["secret"]);
    let mut table = FlowTable::new(1000);
    let forward = tcp4([10, 0, 0, 1], 1111, [10, 0, 0, 2], 2222, b"a secret");
    let reverse = tcp4([10, 0, 0, 2], 2222, [10, 0, 0, 1], 1111, b"no match here");
    let flow = L4Context::new(&forward).unwrap().get_flow();
    assert_eq!(L4Context::new(&reverse).unwrap().get_flow(), flow);
    assert_eq!(process_frame(&mut table, &set, &forward, 0), Verdict::Admitted(flow));
    assert_eq!(process_frame(&mut table, &set, &reverse, 10), Verdict::Refreshed(flow));
}

#[test]
fn vlan_stacking() {
    let set = rules(&["secret"]);
    let mut table = FlowTable::new(1000);
    let frame = ipv4_frame(&[100, 200], 17, [10, 0, 0, 1], 1111, [10, 0, 0, 2], 2222, b"top secret");
    let ctx = L4Context::new(&frame).unwrap();
    assert_eq!(ctx.vlan_id, Some(200));
    let flow = ctx.get_flow();
    assert_eq!(flow.vlan_id, Some(200));
    assert_eq!(process_frame(&mut table, &set, &frame, 0), Verdict::Admitted(flow));
}

#[test]
fn hot_swap() {
    let mut cells = vec![rules(&["foo"]), rules(&["foo"])];
    let mut table = FlowTable::new(1000);
    let old_flow_frame = udp4([10, 0, 0, 1], 1, [10, 0, 0, 2], 2, b"foo");
    let old_flow = L4Context::new(&old_flow_frame).unwrap().get_flow();
    assert_eq!(process_frame(&mut table, &cells[0], &old_flow_frame, 0), Verdict::Admitted(old_flow));
    assert_eq!(apply_rule_document(&mut cells, Some(vec!["bar".to_string()])), Ok(()));
    let new_foo = udp4([10, 0, 0, 3], 3, [10, 0, 0, 4], 4, b"foo");
    let new_bar = udp4([10, 0, 0, 5], 5, [10, 0, 0, 6], 6, b"bar");
    let foo_flow = L4Context::new(&new_foo).unwrap().get_flow();
    let bar_flow = L4Context::new(&new_bar).unwrap().get_flow();
    assert_eq!(process_frame(&mut table, &cells[1], &new_foo, 1), Verdict::Rejected(foo_flow));
    assert_eq!(process_frame(&mut table, &cells[0], &new_bar, 2), Verdict::Admitted(bar_flow));
    let again = udp4([10, 0, 0, 2], 2, [10, 0, 0, 1], 1, b"foo");
    assert_eq!(process_frame(&mut table, &cells[1], &again, 3), Verdict::Refreshed(old_flow));
}

#[test]
fn rejected_document_keeps_rules() {
    let mut cells = vec![rules(&["foo"])];
    assert_eq!(apply_rule_document(&mut cells, Some(vec!["(".to_string()])), Err(RuleError::InvalidRegex));
    assert_eq!(apply_rule_document(&mut cells, None), Err(RuleError::InvalidJson));
    assert!(cells[0].is_match(b"xfoox"));
    assert!(!cells[0].is_match(b"bar"));
    assert_eq!(cells[0].len(), 1);
}

#[test]
fn compiled_rules_match_and_copy() {
    let set = rules(&["secret", "^ab+c$"]);
    assert!(set.is_match(b"this is secret"));
    assert!(set.is_match(b"abbbc"));
    assert!(!set.is_match(b"harmless"));
    let copy = set.duplicate();
    assert!(copy.is_match(b"abc"));
    assert!(!copy.is_match(b"ac"));
    assert_eq!(copy.len(), 2);
    assert!(CompiledRuleSet::compile(vec!["[".to_string()]).is_err());
    let empty = CompiledRuleSet::compile(vec![]).unwrap();
    assert!(!empty.is_match(b"anything"));
}

#[test]
fn admission_window() {
    let mut table = FlowTable::new(1000);
    let flow = L4Context::new(&udp4([1, 2, 3, 4], 5, [5, 6, 7, 8], 9, b"x")).unwrap().get_flow();
    table.insert(flow, 0);
    table.prune(999);
    assert!(table.check_and_refresh(&flow, 999));
    table.prune(2000);
    assert!(!table.contains(&flow));
    assert!(!table.check_and_refresh(&flow, 2001));
    table.insert(flow, 5000);
    table.prune(6000);
    assert!(table.contains(&flow));
    table.prune(6001);
    assert!(!table.contains(&flow));
    assert_eq!(table.timeout(), 1000);
}

#[test]
fn flow_direction_independent() {
    let a = SocketAddress { ip: IpAddress::V4(0x0a000001), port: 80 };
    let b = SocketAddress { ip: IpAddress::V6(1), port: 1 };
    let f1 = Flow::new(Some(7), a, b, Protocol::Tcp);
    let f2 = Flow::new(Some(7), b, a, Protocol::Tcp);
    assert_eq!(f1, f2);
    assert_eq!(f1.high, b);
    assert_eq!(f1.low, a);
    let c = SocketAddress { ip: IpAddress::V4(0x0a000001), port: 81 };
    assert_eq!(Flow::new(None, a, c, Protocol::Udp).high, c);
}

#[test]
fn decision_after_screening() {
    let mut table = FlowTable::new(50);
    let flow = L4Context::new(&udp4([9, 9, 9, 9], 1, [8, 8, 8, 8], 2, b"x")).unwrap().get_flow();
    assert_eq!(admit_if_matched(&mut table, flow, false, 3), Verdict::Rejected(flow));
    assert!(!table.contains(&flow));
    assert_eq!(admit_if_matched(&mut table, flow, true, 4), Verdict::Admitted(flow));
    assert_eq!(table.last_seen(&flow), Some(4));
}
