use retina_regex::flow::{IpAddress, Protocol, SocketAddress};
use retina_regex::packet::{read_be, read_u16, Ethernet, L4Context, ParseError, VlanHeader};

fn eth(ether_type: u16) -> Vec<u8> {
    let mut f = vec![1, 2, 3, 4, 5, 6, 7, 8, 9, 10, 11, 12];
    f.extend_from_slice(&ether_type.to_be_bytes());
    f
}

fn ipv4_header(total: u16, proto: u8) -> Vec<u8> {
    let mut h = vec![0x45, 0];
    h.extend_from_slice(&total.to_be_bytes());
    h.extend_from_slice(&[0, 0, 0, 0, 64, proto, 0, 0, 192, 168, 0, 1, 192, 168, 0, 2]);
    h
}

fn udp_header(sport: u16, dport: u16) -> Vec<u8> {
    let mut h = sport.to_be_bytes().to_vec();
    h.extend_from_slice(&dport.to_be_bytes());
    h.extend_from_slice(&[0, 0, 0, 0]);
    h
}

#[test]
fn short_frame_is_not_ethernet() {
    assert_eq!(L4Context::new(&[]).unwrap_err(), ParseError::NotEthernet);
    assert_eq!(L4Context::new(&[0u8; 13]).unwrap_err(), ParseError::NotEthernet);
    assert_eq!(Ethernet::parse(&[0u8; 5]).unwrap_err(), ParseError::NotEthernet);
}

#[test]
fn truncated_vlan_tag_is_not_ethernet() {
    let mut f = eth(0x8100);
    f.extend_from_slice(&[0, 100]);
    assert_eq!(L4Context::new(&f).unwrap_err(), ParseError::NotEthernet);
}

#[test]
fn other_ether_type_is_not_ip() {
    let mut f = eth(0x0806);
    f.extend_from_slice(&[0u8; 40]);
    assert_eq!(L4Context::new(&f).unwrap_err(), ParseError::NotIp);
}

#[test]
fn icmp_is_not_tcp_or_udp() {
    let mut f = eth(0x0800);
    f.extend(ipv4_header(28, 1));
    f.extend_from_slice(&[0u8; 8]);
    assert_eq!(L4Context::new(&f).unwrap_err(), ParseError::NotTcpOrUdp);
}

#[test]
fn truncated_ip_header_is_malformed() {
    let mut f = eth(0x0800);
    f.extend_from_slice(&[0x45, 0, 0, 28]);
    assert_eq!(L4Context::new(&f).unwrap_err(), ParseError::Malformed);
    let mut g = eth(0x86DD);
    g.extend_from_slice(&[0u8; 39]);
    assert_eq!(L4Context::new(&g).unwrap_err(), ParseError::Malformed);
}

#[test]
fn short_ihl_is_malformed() {
    let mut f = eth(0x0800);
    let mut h = ipv4_header(28, 17);
    h[0] = 0x44;
    f.extend(h);
    f.extend(udp_header(1, 2));
    assert_eq!(L4Context::new(&f).unwrap_err(), ParseError::Malformed);
}

#[test]
fn declared_length_underflow_is_malformed() {
    let mut f = eth(0x0800);
    f.extend(ipv4_header(27, 17));
    f.extend(udp_header(1, 2));
    assert_eq!(L4Context::new(&f).unwrap_err(), ParseError::Malformed);
}

#[test]
fn declared_length_past_frame_is_malformed() {
    let mut f = eth(0x0800);
    f.extend(ipv4_header(40, 17));
    f.extend(udp_header(1, 2));
    f.extend_from_slice(b"abc");
    assert_eq!(L4Context::new(&f).unwrap_err(), ParseError::Malformed);
}

#[test]
fn truncated_transport_header_is_malformed() {
    let mut f = eth(0x0800);
    f.extend(ipv4_header(40, 6));
    f.extend_from_slice(&[0u8; 10]);
    assert_eq!(L4Context::new(&f).unwrap_err(), ParseError::Malformed);
}

#[test]
fn ipv4_udp_with_padding() {
    let mut f = eth(0x0800);
    f.extend(ipv4_header(31, 17));
    f.extend(udp_header(53, 4000));
    f.extend_from_slice(b"abc");
    f.extend_from_slice(&[0u8; 20]);
    let c = L4Context::new(&f).unwrap();
    assert_eq!(c.offset, 42);
    assert_eq!(c.length, 3);
    assert!(c.offset + c.length <= f.len());
    assert_eq!(c.proto, Protocol::Udp);
    assert_eq!(c.src, SocketAddress { ip: IpAddress::V4(0xc0a80001), port: 53 });
    assert_eq!(c.dst, SocketAddress { ip: IpAddress::V4(0xc0a80002), port: 4000 });
    assert_eq!(c.vlan_id, None);
}

#[test]
fn ipv6_tcp() {
    let mut f = eth(0x86DD);
    let mut h = vec![0x60, 0, 0, 0];
    h.extend_from_slice(&(24u16).to_be_bytes());
    h.extend_from_slice(&[6, 64]);
    let mut src = [0u8; 16];
    src[0] = 0x20;
    src[1] = 0x01;
    src[15] = 1;
    let mut dst = [0u8; 16];
    dst[15] = 2;
    h.extend_from_slice(&src);
    h.extend_from_slice(&dst);
    f.extend(h);
    f.extend_from_slice(&[0x1f, 0x90, 0x00, 0x50, 0, 0, 0, 0, 0, 0, 0, 0, 0x50, 0, 0, 0, 0, 0, 0, 0]);
    f.extend_from_slice(b"ping");
    let c = L4Context::new(&f).unwrap();
    assert_eq!(c.proto, Protocol::Tcp);
    assert_eq!(c.offset, 74);
    assert_eq!(c.length, 4);
    assert_eq!(c.src, SocketAddress { ip: IpAddress::V6(u128::from_be_bytes(src)), port: 8080 });
    assert_eq!(c.dst, SocketAddress { ip: IpAddress::V6(2), port: 80 });
    let flow = c.get_flow();
    assert_eq!(flow.high, c.src);
    assert_eq!(flow.low, c.dst);
}

#[test]
fn tcp_options_move_the_payload() {
    let mut f = eth(0x0800);
    f.extend(ipv4_header(20 + 24 + 2, 6));
    f.extend_from_slice(&[0, 1, 0, 2, 0, 0, 0, 0, 0, 0, 0, 0, 0x60, 0, 0, 0, 0, 0, 0, 0, 1, 1, 1, 1]);
    f.extend_from_slice(b"hi");
    let c = L4Context::new(&f).unwrap();
    assert_eq!(c.offset, 58);
    assert_eq!(c.length, 2);
}

#[test]
fn ethernet_fields_and_tags() {
    let mut f = eth(0x8100);
    f.extend_from_slice(&[0x20, 100, 0x81, 0x00, 0x30, 200, 0x08, 0x00]);
    let e = Ethernet::parse(&f).unwrap();
    assert_eq!(e.dst().octets, [1, 2, 3, 4, 5, 6]);
    assert_eq!(e.src().octets, [7, 8, 9, 10, 11, 12]);
    assert_eq!(e.header_len(), 22);
    assert_eq!(e.ether_type(), 0x0800);
    assert_eq!(e.vlan_headers.len(), 2);
    assert_eq!(e.last_vlan_id(), Some(200));
    let tag = VlanHeader { tci: 0x3064, ether_type: 0x0800 };
    assert_eq!(tag.vlan_id(), 100);
    assert_eq!(tag.length(), 4);
    let plain = Ethernet::parse(&eth(0x0800)).unwrap();
    assert_eq!(plain.header_len(), 14);
    assert_eq!(plain.last_vlan_id(), None);
}

#[test]
fn big_endian_reads() {
    let b = [0x12, 0x34, 0x56, 0x78, 0x9a];
    assert_eq!(read_u16(&b, 1), 0x3456);
    assert_eq!(read_be(&b, 0, 4), 0x12345678);
    assert_eq!(read_be(&b, 2, 0), 0);
    assert_eq!(read_be(&[0xff; 16], 0, 16), u128::MAX);
}

#[test]
fn arbitrary_bytes_never_exceed_the_frame() {
    let mut seed: u32 = 12345;
    for len in 0..200usize {
        let mut f = Vec::with_capacity(len);
        for _ in 0..len {
            seed = seed.wrapping_mul(1103515245).wrapping_add(12345);
            f.push((seed >> 16) as u8);
        }
        if len > 14 {
            f[12] = 0x08;
            f[13] = 0x00;
        }
        if let Ok(c) = L4Context::new(&f) {
            assert!(c.offset + c.length <= f.len());
        }
    }
}
