//! Zero-copy decoding of Ethernet frames, with any number of 802.1Q tags,
//! IPv4 or IPv6, and TCP or UDP, into a layer-4 summary.
//!
//! Every field is read with a bounds check against the frame: the format is
//! stated once by the spec functions below, and the decoders are proved to
//! follow it byte for byte.
use vstd::prelude::*;
use crate::flow::{IpAddress, SocketAddress, Protocol, Flow, flow_of};

verus! {

/// Length of the fixed Ethernet header.
pub const ETHER_HEADER_LEN: usize = 14;
/// Length of one 802.1Q tag.
pub const VLAN_TAG_LEN: usize = 4;
/// EtherType of an 802.1Q tag.
pub const ETHERTYPE_VLAN: u16 = 0x8100;
/// EtherType of IPv4.
pub const ETHERTYPE_IPV4: u16 = 0x0800;
/// EtherType of IPv6.
pub const ETHERTYPE_IPV6: u16 = 0x86DD;
/// IP protocol number of TCP.
pub const IP_PROTO_TCP: u8 = 6;
/// IP protocol number of UDP.
pub const IP_PROTO_UDP: u8 = 17;
/// Minimal IPv4 header length.
pub const IPV4_MIN_HEADER_LEN: usize = 20;
/// Fixed IPv6 header length.
pub const IPV6_HEADER_LEN: usize = 40;
/// Minimal TCP header length.
pub const TCP_MIN_HEADER_LEN: usize = 20;
/// UDP header length.
pub const UDP_HEADER_LEN: usize = 8;

/// Why a frame could not be summarised.
#[derive(Clone, Copy, Debug, PartialEq, Eq, Structural)]
pub enum ParseError {
    /// The Ethernet header or one of its VLAN tags cannot be read.
    NotEthernet,
    /// The innermost EtherType is neither IPv4 nor IPv6.
    NotIp,
    /// The IP protocol is neither TCP nor UDP.
    NotTcpOrUdp,
    /// An IP or transport header cannot be read, or a declared length is
    /// too short for the headers or too long for the frame.
    Malformed,
}

/// 256 to the power `n`.
pub open spec fn pow256(n: nat) -> int
    decreases n,
{
    if n == 0 { 1 } else { 256 * pow256((n - 1) as nat) }
}

/// The big-endian unsigned integer held in `n` bytes of `b` from `i` on.
pub open spec fn be_bytes(b: Seq<u8>, i: int, n: nat) -> int
    decreases n,
{
    if n == 0 { 0 } else { be_bytes(b, i, (n - 1) as nat) * 256 + b[i + n - 1] as int }
}

/// The big-endian 16-bit value at `i`.
pub open spec fn be16(b: Seq<u8>, i: int) -> int {
    b[i] as int * 256 + b[i + 1] as int
}

/// A MAC address.
#[derive(Clone, Copy, Debug)]
pub struct MacAddress {
    pub octets: [u8; 6],
}

/// One 802.1Q tag: the tag control information and the EtherType it
/// announces for what follows.
#[derive(Clone, Copy, Debug, PartialEq, Eq, Structural)]
pub struct VlanHeader {
    pub tci: u16,
    pub ether_type: u16,
}

impl VlanHeader {
    /// Length of the tag on the wire.
    pub fn length(&self) -> (r: usize)
        ensures
            r == VLAN_TAG_LEN,
    {
        VLAN_TAG_LEN
    }

    /// The VLAN identifier: the low twelve bits of the tag control
    /// information.
    pub fn vlan_id(&self) -> (r: u16)
        ensures
            r == self.tci % 4096,
    {
        self.tci % 4096
    }
}

/// The tag that starts at `i`.
pub open spec fn tag_at(b: Seq<u8>, i: int) -> VlanHeader {
    VlanHeader { tci: be16(b, i) as u16, ether_type: be16(b, i + 2) as u16 }
}

/// The stack of tags that starts at `off`: tags follow each other while
/// each announces another tag. `None` when one of them cannot be read.
pub open spec fn vlan_stack(b: Seq<u8>, off: int) -> Option<Seq<VlanHeader>>
    decreases b.len() - off,
{
    if off < 0 || off + 4 > b.len() {
        None
    } else if tag_at(b, off).ether_type == ETHERTYPE_VLAN {
        match vlan_stack(b, off + 4) {
            Some(rest) => Some(seq![tag_at(b, off)] + rest),
            None => None,
        }
    } else {
        Some(seq![tag_at(b, off)])
    }
}

/// The VLAN tags of a frame, outermost first; `None` when the Ethernet
/// header or a tag cannot be read.
pub open spec fn frame_vlan_tags(b: Seq<u8>) -> Option<Seq<VlanHeader>> {
    if b.len() < ETHER_HEADER_LEN {
        None
    } else if be16(b, 12) == ETHERTYPE_VLAN {
        vlan_stack(b, ETHER_HEADER_LEN as int)
    } else {
        Some(Seq::empty())
    }
}

/// The EtherType of what follows the last tag, or of the frame if untagged.
pub open spec fn inner_ether_type(b: Seq<u8>, tags: Seq<VlanHeader>) -> int {
    if tags.len() == 0 { be16(b, 12) } else { tags.last().ether_type as int }
}

/// The VLAN id of the innermost tag, if there is one.
pub open spec fn innermost_vlan(tags: Seq<VlanHeader>) -> Option<u16> {
    if tags.len() == 0 { None } else { Some((tags.last().tci % 4096) as u16) }
}

/// An Ethernet header with its VLAN tags.
#[derive(Debug)]
pub struct Ethernet {
    pub dst: MacAddress,
    pub src: MacAddress,
    /// The EtherType of the fixed header.
    pub ether_type: u16,
    /// The VLAN tags, outermost first.
    pub vlan_headers: Vec<VlanHeader>,
}

impl Ethernet {
    /// The header fits the range of `usize`.
    pub open spec fn wf(&self) -> bool {
        ETHER_HEADER_LEN + VLAN_TAG_LEN * self.vlan_headers@.len() <= usize::MAX
    }

    /// The length of the header with all its tags.
    pub open spec fn spec_header_len(&self) -> int {
        ETHER_HEADER_LEN + VLAN_TAG_LEN * self.vlan_headers@.len()
    }

    /// Returns the destination MAC address.
    pub fn dst(&self) -> (r: MacAddress)
        ensures
            r == self.dst,
    {
        self.dst
    }

    /// Returns the source MAC address.
    pub fn src(&self) -> (r: MacAddress)
        ensures
            r == self.src,
    {
        self.src
    }

    /// The length of the header with all its tags.
    pub fn header_len(&self) -> (r: usize)
        requires
            self.wf(),
        ensures
            r == self.spec_header_len(),
    {
        ETHER_HEADER_LEN + VLAN_TAG_LEN * self.vlan_headers.len()
    }

    /// The EtherType of what follows the header: that of the innermost tag,
    /// or that of the fixed header if the frame is untagged.
    pub fn ether_type(&self) -> (r: u16)
        ensures
            r == (if self.vlan_headers@.len() == 0 {
                self.ether_type
            } else {
                self.vlan_headers@.last().ether_type
            }),
    {
        let n = self.vlan_headers.len();
        if n == 0 {
            self.ether_type
        } else {
            self.vlan_headers[n - 1].ether_type
        }
    }

    /// The VLAN id of the innermost tag, if the frame is tagged.
    pub fn last_vlan_id(&self) -> (r: Option<u16>)
        ensures
            r == innermost_vlan(self.vlan_headers@),
    {
        let n = self.vlan_headers.len();
        if n == 0 {
            None
        } else {
            Some(self.vlan_headers[n - 1].vlan_id())
        }
    }

    /// Reads the Ethernet header and every VLAN tag that follows it.
    pub fn parse(frame: &[u8]) -> (r: Result<Ethernet, ParseError>)
        ensures
            match frame_vlan_tags(frame@) {
                None => r == Err::<Ethernet, ParseError>(ParseError::NotEthernet),
                Some(tags) => r.is_ok() && {
                    let e = r.unwrap();
                    &&& e.vlan_headers@ == tags
                    &&& e.ether_type == be16(frame@, 12)
                    &&& e.dst.octets@ == frame@.subrange(0, 6)
                    &&& e.src.octets@ == frame@.subrange(6, 12)
                    &&& e.wf()
                    &&& e.spec_header_len() <= frame@.len()
                },
            },
    {
        if frame.len() < ETHER_HEADER_LEN {
            return Err(ParseError::NotEthernet);
        }
        let dst = MacAddress { octets: [frame[0], frame[1], frame[2], frame[3], frame[4], frame[5]] };
        let src = MacAddress { octets: [frame[6], frame[7], frame[8], frame[9], frame[10], frame[11]] };
        assert(dst.octets@ =~= frame@.subrange(0, 6));
        assert(src.octets@ =~= frame@.subrange(6, 12));
        let ether_type = read_u16(frame, 12);
        let mut vlans: Vec<VlanHeader> = Vec::new();
        if ether_type == ETHERTYPE_VLAN {
            let mut off: usize = ETHER_HEADER_LEN;
            loop
                invariant
                    ETHER_HEADER_LEN <= off,
                    off == ETHER_HEADER_LEN + VLAN_TAG_LEN * vlans@.len(),
                    be16(frame@, 12) == ETHERTYPE_VLAN,
                    ether_type == ETHERTYPE_VLAN,
                    dst.octets@ == frame@.subrange(0, 6),
                    src.octets@ == frame@.subrange(6, 12),
                    frame@.len() >= ETHER_HEADER_LEN,
                    vlan_stack(frame@, ETHER_HEADER_LEN as int) == (match vlan_stack(frame@, off as int) {
                        Some(rest) => Some(vlans@ + rest),
                        None => None::<Seq<VlanHeader>>,
                    }),
                decreases frame@.len() - off,
            {
                if off > frame.len() || frame.len() - off < VLAN_TAG_LEN {
                    return Err(ParseError::NotEthernet);
                }
                let tag = VlanHeader { tci: read_u16(frame, off), ether_type: read_u16(frame, off + 2) };
                assert(tag == tag_at(frame@, off as int));
                let ghost before = vlans@;
                vlans.push(tag);
                proof {
                    if tag.ether_type != ETHERTYPE_VLAN {
                        assert(vlans@ =~= before + seq![tag]);
                    } else {
                        match vlan_stack(frame@, off + 4) {
                            Some(rest) => {
                                assert(before + (seq![tag] + rest) =~= vlans@ + rest);
                            },
                            None => {},
                        }
                    }
                }
                if tag.ether_type != ETHERTYPE_VLAN {
                    assert(vlan_stack(frame@, off as int) == Some(seq![tag]));
                    assert(vlan_stack(frame@, ETHER_HEADER_LEN as int) == Some(vlans@));
                    assert(off + VLAN_TAG_LEN == ETHER_HEADER_LEN + VLAN_TAG_LEN * vlans@.len());
                    return Ok(Ethernet { dst, src, ether_type, vlan_headers: vlans });
                }
                off = off + VLAN_TAG_LEN;
            }
        } else {
            assert(vlans@ =~= Seq::<VlanHeader>::empty());
            Ok(Ethernet { dst, src, ether_type, vlan_headers: vlans })
        }
    }
}

/// Parsed transport-layer summary of a frame.
#[derive(Clone, Copy, Debug, PartialEq, Eq, Structural)]
pub struct L4Context {
    /// Source endpoint.
    pub src: SocketAddress,
    /// Destination endpoint.
    pub dst: SocketAddress,
    /// Transport protocol.
    pub proto: Protocol,
    /// Offset into the frame where the payload begins.
    pub offset: usize,
    /// Length of the payload in bytes.
    pub length: usize,
    /// Innermost VLAN id.
    pub vlan_id: Option<u16>,
}

/// The summary once the transport header of length `hl` at `l4` is known;
/// `avail` is what the IP header declares for the transport header and the
/// payload together.
pub open spec fn spec_summary(
    b: Seq<u8>,
    l4: int,
    hl: int,
    avail: int,
    proto: Protocol,
    sip: IpAddress,
    dip: IpAddress,
    vlan_id: Option<u16>,
) -> Result<L4Context, ParseError> {
    let length = avail - hl;
    let offset = l4 + hl;
    if length < 0 || offset + length > b.len() {
        Err(ParseError::Malformed)
    } else {
        Ok(L4Context {
            src: SocketAddress { ip: sip, port: be16(b, l4) as u16 },
            dst: SocketAddress { ip: dip, port: be16(b, l4 + 2) as u16 },
            proto,
            offset: offset as usize,
            length: length as usize,
            vlan_id,
        })
    }
}

/// Decoding of the transport header at `l4`.
pub open spec fn spec_transport(
    b: Seq<u8>,
    l4: int,
    avail: int,
    ip_proto: int,
    sip: IpAddress,
    dip: IpAddress,
    vlan_id: Option<u16>,
) -> Result<L4Context, ParseError> {
    if ip_proto == IP_PROTO_TCP {
        if l4 + TCP_MIN_HEADER_LEN > b.len() {
            Err(ParseError::Malformed)
        } else {
            let hl = (b[l4 + 12] / 16) as int * 4;
            if hl < TCP_MIN_HEADER_LEN || l4 + hl > b.len() {
                Err(ParseError::Malformed)
            } else {
                spec_summary(b, l4, hl, avail, Protocol::Tcp, sip, dip, vlan_id)
            }
        }
    } else if ip_proto == IP_PROTO_UDP {
        if l4 + UDP_HEADER_LEN > b.len() {
            Err(ParseError::Malformed)
        } else {
            spec_summary(b, l4, UDP_HEADER_LEN as int, avail, Protocol::Udp, sip, dip, vlan_id)
        }
    } else {
        Err(ParseError::NotTcpOrUdp)
    }
}

/// Decoding of an IPv4 header at `l3` and what it carries.
pub open spec fn spec_ipv4(b: Seq<u8>, l3: int, vlan_id: Option<u16>) -> Result<L4Context, ParseError> {
    if l3 + IPV4_MIN_HEADER_LEN > b.len() {
        Err(ParseError::Malformed)
    } else {
        let ihl = (b[l3] % 16) as int * 4;
        if ihl < IPV4_MIN_HEADER_LEN || l3 + ihl > b.len() {
            Err(ParseError::Malformed)
        } else {
            spec_transport(
                b,
                l3 + ihl,
                be16(b, l3 + 2) - ihl,
                b[l3 + 9] as int,
                IpAddress::V4(be_bytes(b, l3 + 12, 4) as u32),
                IpAddress::V4(be_bytes(b, l3 + 16, 4) as u32),
                vlan_id,
            )
        }
    }
}

/// Decoding of an IPv6 header at `l3` and what it carries.
pub open spec fn spec_ipv6(b: Seq<u8>, l3: int, vlan_id: Option<u16>) -> Result<L4Context, ParseError> {
    if l3 + IPV6_HEADER_LEN > b.len() {
        Err(ParseError::Malformed)
    } else {
        spec_transport(
            b,
            l3 + IPV6_HEADER_LEN,
            be16(b, l3 + 4),
            b[l3 + 6] as int,
            IpAddress::V6(be_bytes(b, l3 + 8, 16) as u128),
            IpAddress::V6(be_bytes(b, l3 + 24, 16) as u128),
            vlan_id,
        )
    }
}

/// What a frame decodes to.
pub open spec fn parse_frame(b: Seq<u8>) -> Result<L4Context, ParseError> {
    match frame_vlan_tags(b) {
        None => Err(ParseError::NotEthernet),
        Some(tags) => {
            let l3 = ETHER_HEADER_LEN + VLAN_TAG_LEN * tags.len();
            let ether_type = inner_ether_type(b, tags);
            let vlan_id = innermost_vlan(tags);
            if ether_type == ETHERTYPE_IPV4 {
                spec_ipv4(b, l3, vlan_id)
            } else if ether_type == ETHERTYPE_IPV6 {
                spec_ipv6(b, l3, vlan_id)
            } else {
                Err(ParseError::NotIp)
            }
        },
    }
}

/// The flow of a parsed frame.
pub open spec fn context_flow(c: L4Context) -> Flow {
    flow_of(c.vlan_id, c.src, c.dst, c.proto)
}

/// Every frame either fails to parse or yields a summary whose payload lies
/// inside the frame.
pub proof fn lemma_parse_in_bounds(b: Seq<u8>)
    requires
        b.len() <= usize::MAX,
    ensures
        parse_frame(b) is Ok ==> parse_frame(b).unwrap().offset + parse_frame(b).unwrap().length
            <= b.len(),
{
}

fn summary(
    frame: &[u8],
    l4: usize,
    hl: usize,
    declared: usize,
    ip_hdr: usize,
    proto: Protocol,
    sip: IpAddress,
    dip: IpAddress,
    vlan_id: Option<u16>,
) -> (r: Result<L4Context, ParseError>)
    requires
        l4 + hl <= frame@.len(),
        l4 + 4 <= frame@.len(),
        hl <= 60,
        ip_hdr <= 60,
    ensures
        r == spec_summary(frame@, l4 as int, hl as int, declared - ip_hdr, proto, sip, dip, vlan_id),
{
    let n = frame.len();
    if declared < ip_hdr + hl {
        return Err(ParseError::Malformed);
    }
    let length = declared - ip_hdr - hl;
    let offset = l4 + hl;
    if length > n - offset {
        return Err(ParseError::Malformed);
    }
    Ok(L4Context {
        src: SocketAddress { ip: sip, port: read_u16(frame, l4) },
        dst: SocketAddress { ip: dip, port: read_u16(frame, l4 + 2) },
        proto,
        offset,
        length,
        vlan_id,
    })
}

fn transport(
    frame: &[u8],
    l4: usize,
    declared: usize,
    ip_hdr: usize,
    ip_proto: u8,
    sip: IpAddress,
    dip: IpAddress,
    vlan_id: Option<u16>,
) -> (r: Result<L4Context, ParseError>)
    requires
        l4 <= frame@.len(),
        ip_hdr <= 60,
    ensures
        r == spec_transport(frame@, l4 as int, declared - ip_hdr, ip_proto as int, sip, dip, vlan_id),
{
    if ip_proto == IP_PROTO_TCP {
        if frame.len() - l4 < TCP_MIN_HEADER_LEN {
            return Err(ParseError::Malformed);
        }
        let hl = (frame[l4 + 12] / 16) as usize * 4;
        if hl < TCP_MIN_HEADER_LEN || frame.len() - l4 < hl {
            return Err(ParseError::Malformed);
        }
        summary(frame, l4, hl, declared, ip_hdr, Protocol::Tcp, sip, dip, vlan_id)
    } else if ip_proto == IP_PROTO_UDP {
        if frame.len() - l4 < UDP_HEADER_LEN {
            return Err(ParseError::Malformed);
        }
        summary(frame, l4, UDP_HEADER_LEN, declared, ip_hdr, Protocol::Udp, sip, dip, vlan_id)
    } else {
        Err(ParseError::NotTcpOrUdp)
    }
}

fn ipv4(frame: &[u8], l3: usize, vlan_id: Option<u16>) -> (r: Result<L4Context, ParseError>)
    requires
        l3 <= frame@.len(),
    ensures
        r == spec_ipv4(frame@, l3 as int, vlan_id),
{
    if frame.len() - l3 < IPV4_MIN_HEADER_LEN {
        return Err(ParseError::Malformed);
    }
    let ihl = (frame[l3] % 16) as usize * 4;
    if ihl < IPV4_MIN_HEADER_LEN || frame.len() - l3 < ihl {
        return Err(ParseError::Malformed);
    }
    let total = read_u16(frame, l3 + 2) as usize;
    let sip = read_be(frame, l3 + 12, 4) as u32;
    let dip = read_be(frame, l3 + 16, 4) as u32;
    proof {
        reveal_with_fuel(pow256, 5);
    }
    transport(frame, l3 + ihl, total, ihl, frame[l3 + 9], IpAddress::V4(sip), IpAddress::V4(dip), vlan_id)
}

fn ipv6(frame: &[u8], l3: usize, vlan_id: Option<u16>) -> (r: Result<L4Context, ParseError>)
    requires
        l3 <= frame@.len(),
    ensures
        r == spec_ipv6(frame@, l3 as int, vlan_id),
{
    if frame.len() - l3 < IPV6_HEADER_LEN {
        return Err(ParseError::Malformed);
    }
    let payload_len = read_u16(frame, l3 + 4) as usize;
    let sip = read_be(frame, l3 + 8, 16);
    let dip = read_be(frame, l3 + 24, 16);
    transport(frame, l3 + IPV6_HEADER_LEN, payload_len, 0, frame[l3 + 6], IpAddress::V6(sip), IpAddress::V6(dip), vlan_id)
}

impl L4Context {
    /// Decodes a frame: Ethernet with its VLAN tags, then IPv4 or IPv6, then
    /// TCP or UDP. The payload of a summary always lies inside the frame.
    pub fn new(frame: &[u8]) -> (r: Result<L4Context, ParseError>)
        ensures
            r == parse_frame(frame@),
            r is Ok ==> r.unwrap().offset + r.unwrap().length <= frame@.len(),
    {
        let eth = match Ethernet::parse(frame) {
            Ok(e) => e,
            Err(e) => return Err(e),
        };
        let l3 = eth.header_len();
        let ether_type = eth.ether_type();
        let vlan_id = eth.last_vlan_id();
        if ether_type == ETHERTYPE_IPV4 {
            ipv4(frame, l3, vlan_id)
        } else if ether_type == ETHERTYPE_IPV6 {
            ipv6(frame, l3, vlan_id)
        } else {
            Err(ParseError::NotIp)
        }
    }

    /// The canonical flow of this packet, the same for both directions.
    pub fn get_flow(&self) -> (r: Flow)
        ensures
            r == context_flow(*self),
    {
        Flow::new(self.vlan_id, self.src, self.dst, self.proto)
    }
}

/// Reads the big-endian 16-bit value at `i`.
pub fn read_u16(frame: &[u8], i: usize) -> (r: u16)
    requires
        i + 2 <= frame@.len(),
    ensures
        r == be16(frame@, i as int),
{
    frame[i] as u16 * 256 + frame[i + 1] as u16
}

pub(crate) proof fn lemma_pow256_pos(n: nat)
    ensures
        1 <= pow256(n),
    decreases n,
{
    if n > 0 {
        lemma_pow256_pos((n - 1) as nat);
    }
}

pub(crate) proof fn lemma_pow256_mono(k: nat, m: nat)
    requires
        k <= m,
    ensures
        pow256(k) <= pow256(m),
    decreases m - k,
{
    if k < m {
        lemma_pow256_mono(k, (m - 1) as nat);
        lemma_pow256_pos((m - 1) as nat);
    }
}

/// Reads the big-endian unsigned integer held in `n` bytes from `i` on.
pub fn read_be(frame: &[u8], i: usize, n: usize) -> (r: u128)
    requires
        i + n <= frame@.len(),
        n <= 16,
    ensures
        r == be_bytes(frame@, i as int, n as nat),
        r < pow256(n as nat),
{
    proof {
        reveal_with_fuel(pow256, 17);
        assert(pow256(16) == 0x1_0000_0000_0000_0000_0000_0000_0000_0000int);
    }
    let len = frame.len();
    let mut acc: u128 = 0;
    let mut k: usize = 0;
    while k < n
        invariant
            k <= n,
            n <= 16,
            i + n <= frame@.len(),
            len == frame@.len(),
            acc == be_bytes(frame@, i as int, k as nat),
            acc < pow256(k as nat),
            pow256(16) == 0x1_0000_0000_0000_0000_0000_0000_0000_0000int,
        decreases n - k,
    {
        proof {
            lemma_pow256_mono((k + 1) as nat, 16);
        }
        acc = acc * 256 + frame[i + k] as u128;
        k = k + 1;
    }
    acc
}

} // verus!
