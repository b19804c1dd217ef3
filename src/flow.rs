//! Endpoints and the canonical, direction-independent flow key.
use vstd::prelude::*;

verus! {

/// An IP address, version 4 or 6, held as its big-endian integer value.
#[derive(Clone, Copy, Debug, PartialEq, Eq, Hash, Structural)]
pub enum IpAddress {
    V4(u32),
    V6(u128),
}

/// An IP address together with a transport port.
#[derive(Clone, Copy, Debug, PartialEq, Eq, Hash, Structural)]
pub struct SocketAddress {
    pub ip: IpAddress,
    pub port: u16,
}

/// The layer-4 protocols that the parser accepts.
#[derive(Clone, Copy, Debug, PartialEq, Eq, Hash, Structural)]
pub enum Protocol {
    Tcp,
    Udp,
}

/// Canonical flow key: the innermost VLAN id, the larger endpoint, the
/// smaller endpoint and the protocol.
#[derive(Clone, Copy, Debug, PartialEq, Eq, Hash, Structural)]
pub struct Flow {
    pub vlan_id: Option<u16>,
    pub high: SocketAddress,
    pub low: SocketAddress,
    pub proto: Protocol,
}

/// The total order on endpoints: every IPv4 endpoint is below every IPv6
/// one; within a family the address decides, then the port.
pub open spec fn addr_lt(a: SocketAddress, b: SocketAddress) -> bool {
    match (a.ip, b.ip) {
        (IpAddress::V4(x), IpAddress::V4(y)) => x < y || (x == y && a.port < b.port),
        (IpAddress::V6(x), IpAddress::V6(y)) => x < y || (x == y && a.port < b.port),
        (IpAddress::V4(_), IpAddress::V6(_)) => true,
        (IpAddress::V6(_), IpAddress::V4(_)) => false,
    }
}

/// The larger of two endpoints in the order `addr_lt`.
pub open spec fn addr_max(a: SocketAddress, b: SocketAddress) -> SocketAddress {
    if addr_lt(a, b) { b } else { a }
}

/// The smaller of two endpoints in the order `addr_lt`.
pub open spec fn addr_min(a: SocketAddress, b: SocketAddress) -> SocketAddress {
    if addr_lt(a, b) { a } else { b }
}

/// The flow that a packet from `src` to `dst` belongs to.
pub open spec fn flow_of(
    vlan_id: Option<u16>,
    src: SocketAddress,
    dst: SocketAddress,
    proto: Protocol,
) -> Flow {
    Flow { vlan_id, high: addr_max(src, dst), low: addr_min(src, dst), proto }
}

/// `addr_lt` is a strict total order: of two distinct endpoints exactly one
/// is below the other.
pub proof fn lemma_addr_order_total(a: SocketAddress, b: SocketAddress)
    ensures
        !(addr_lt(a, b) && addr_lt(b, a)),
        a != b ==> (addr_lt(a, b) || addr_lt(b, a)),
        !addr_lt(a, a),
{
}

/// A flow key does not depend on the direction of the packet: swapping
/// source and destination gives the same key.
pub proof fn lemma_flow_direction_independent(
    vlan_id: Option<u16>,
    a: SocketAddress,
    b: SocketAddress,
    proto: Protocol,
)
    ensures
        flow_of(vlan_id, a, b, proto) == flow_of(vlan_id, b, a, proto),
{
    lemma_addr_order_total(a, b);
}

/// Whether endpoint `a` is below endpoint `b`.
pub fn addr_less(a: &SocketAddress, b: &SocketAddress) -> (r: bool)
    ensures
        r == addr_lt(*a, *b),
{
    match (a.ip, b.ip) {
        (IpAddress::V4(x), IpAddress::V4(y)) => x < y || (x == y && a.port < b.port),
        (IpAddress::V6(x), IpAddress::V6(y)) => x < y || (x == y && a.port < b.port),
        (IpAddress::V4(_), IpAddress::V6(_)) => true,
        (IpAddress::V6(_), IpAddress::V4(_)) => false,
    }
}

impl Flow {
    /// The canonical key of a packet from `src` to `dst`: the larger endpoint
    /// first, so that both directions of a connection share it.
    pub fn new(vlan_id: Option<u16>, src: SocketAddress, dst: SocketAddress, proto: Protocol) -> (r: Flow)
        ensures
            r == flow_of(vlan_id, src, dst, proto),
    {
        if addr_less(&src, &dst) {
            Flow { vlan_id, high: dst, low: src, proto }
        } else {
            Flow { vlan_id, high: src, low: dst, proto }
        }
    }
}

/// 16 to the power `k`.
pub open spec fn pow16(k: nat) -> int
    decreases k,
{
    if k == 0 { 1 } else { 16 * pow16((k - 1) as nat) }
}

/// The lower-case hexadecimal digit of `d`.
pub open spec fn hex_char(d: nat) -> char {
    if d == 0 { '0' } else if d == 1 { '1' } else if d == 2 { '2' } else if d == 3 { '3' }
    else if d == 4 { '4' } else if d == 5 { '5' } else if d == 6 { '6' } else if d == 7 { '7' }
    else if d == 8 { '8' } else if d == 9 { '9' } else if d == 10 { 'a' } else if d == 11 { 'b' }
    else if d == 12 { 'c' } else if d == 13 { 'd' } else if d == 14 { 'e' } else { 'f' }
}

/// The `k` low hexadecimal digits of `v`, most significant first.
pub open spec fn hex_digits(v: nat, k: nat) -> Seq<char>
    decreases k,
{
    if k == 0 { Seq::empty() } else { hex_digits(v / 16, (k - 1) as nat).push(hex_char(v % 16)) }
}

/// The name part of a VLAN id: `n0000` when untagged, else `v` and four
/// digits.
pub open spec fn vlan_name(v: Option<u16>) -> Seq<char> {
    match v {
        None => seq!['n'] + hex_digits(0, 4),
        Some(x) => seq!['v'] + hex_digits(x as nat, 4),
    }
}

/// The name part of an endpoint: the family, 32 address digits, a dash and
/// four port digits.
pub open spec fn endpoint_name(a: SocketAddress) -> Seq<char> {
    let addr = match a.ip {
        IpAddress::V4(x) => seq!['4'] + hex_digits(x as nat, 32),
        IpAddress::V6(x) => seq!['6'] + hex_digits(x as nat, 32),
    };
    addr + seq!['-'] + hex_digits(a.port as nat, 4)
}

/// The name part of a protocol.
pub open spec fn proto_name(p: Protocol) -> Seq<char> {
    match p {
        Protocol::Tcp => seq!['t'],
        Protocol::Udp => seq!['u'],
    }
}

/// The file name of a flow: its fields at fixed positions, in characters
/// that are safe in any file system.
pub open spec fn flow_name(f: Flow) -> Seq<char> {
    vlan_name(f.vlan_id) + seq!['_'] + endpoint_name(f.high) + seq!['_'] + endpoint_name(f.low)
        + seq!['_'] + proto_name(f.proto)
}

proof fn lemma_hex_digits_len(v: nat, k: nat)
    ensures
        hex_digits(v, k).len() == k,
    decreases k,
{
    if k > 0 {
        lemma_hex_digits_len(v / 16, (k - 1) as nat);
    }
}

proof fn lemma_hex_digits_injective(v1: nat, v2: nat, k: nat)
    requires
        v1 < pow16(k),
        v2 < pow16(k),
        hex_digits(v1, k) == hex_digits(v2, k),
    ensures
        v1 == v2,
    decreases k,
{
    if k > 0 {
        let p = pow16((k - 1) as nat);
        assert(v1 / 16 < p) by (nonlinear_arith)
            requires
                v1 < 16 * p,
        ;
        assert(v2 / 16 < p) by (nonlinear_arith)
            requires
                v2 < 16 * p,
        ;
        let s1 = hex_digits(v1, k);
        let s2 = hex_digits(v2, k);
        assert(s1.drop_last() =~= hex_digits(v1 / 16, (k - 1) as nat));
        assert(s2.drop_last() =~= hex_digits(v2 / 16, (k - 1) as nat));
        assert(s1.last() == hex_char(v1 % 16));
        lemma_hex_digits_injective(v1 / 16, v2 / 16, (k - 1) as nat);
        assert(v1 % 16 == v2 % 16);
        assert(v1 == 16 * (v1 / 16) + v1 % 16) by (nonlinear_arith);
        assert(v2 == 16 * (v2 / 16) + v2 % 16) by (nonlinear_arith);
    } else {
        assert(v1 == 0 && v2 == 0);
    }
}

proof fn lemma_pow16_32()
    ensures
        pow16(4) == 0x1_0000,
        pow16(32) == 0x1_0000_0000_0000_0000_0000_0000_0000_0000int,
{
    reveal_with_fuel(pow16, 33);
}

proof fn lemma_endpoint_name_injective(a: SocketAddress, b: SocketAddress)
    requires
        endpoint_name(a) == endpoint_name(b),
    ensures
        a == b,
{
    lemma_pow16_32();
    let (sa, sb) = (endpoint_name(a), endpoint_name(b));
    let (xa, xb) = (
        match a.ip { IpAddress::V4(x) => x as nat, IpAddress::V6(x) => x as nat },
        match b.ip { IpAddress::V4(x) => x as nat, IpAddress::V6(x) => x as nat },
    );
    lemma_hex_digits_len(xa, 32);
    lemma_hex_digits_len(xb, 32);
    lemma_hex_digits_len(a.port as nat, 4);
    lemma_hex_digits_len(b.port as nat, 4);
    assert(sa.subrange(1, 33) =~= hex_digits(xa, 32));
    assert(sb.subrange(1, 33) =~= hex_digits(xb, 32));
    assert(sa.subrange(34, 38) =~= hex_digits(a.port as nat, 4));
    assert(sb.subrange(34, 38) =~= hex_digits(b.port as nat, 4));
    lemma_hex_digits_injective(xa, xb, 32);
    lemma_hex_digits_injective(a.port as nat, b.port as nat, 4);
    assert(sa[0] == sb[0]);
}

/// Distinct flows have distinct file names.
pub proof fn lemma_flow_name_injective(f1: Flow, f2: Flow)
    requires
        flow_name(f1) == flow_name(f2),
    ensures
        f1 == f2,
{
    lemma_pow16_32();
    let (s1, s2) = (flow_name(f1), flow_name(f2));
    let (n1, n2) = (
        match f1.vlan_id { None => 0nat, Some(x) => x as nat },
        match f2.vlan_id { None => 0nat, Some(x) => x as nat },
    );
    lemma_hex_digits_len(n1, 4);
    lemma_hex_digits_len(n2, 4);
    lemma_hex_digits_len(0, 4);
    assert(s1.subrange(1, 5) =~= hex_digits(n1, 4));
    assert(s2.subrange(1, 5) =~= hex_digits(n2, 4));
    lemma_hex_digits_injective(n1, n2, 4);
    assert(s1[0] == s2[0]);
    assert(vlan_name(f1.vlan_id).len() == 5);
    lemma_hex_digits_len(0, 32);
    assert(endpoint_name(f1.high).len() == 38) by {
        lemma_hex_digits_len(match f1.high.ip { IpAddress::V4(x) => x as nat, IpAddress::V6(x) => x as nat }, 32);
        lemma_hex_digits_len(f1.high.port as nat, 4);
    }
    assert(endpoint_name(f2.high).len() == 38) by {
        lemma_hex_digits_len(match f2.high.ip { IpAddress::V4(x) => x as nat, IpAddress::V6(x) => x as nat }, 32);
        lemma_hex_digits_len(f2.high.port as nat, 4);
    }
    assert(endpoint_name(f1.low).len() == 38) by {
        lemma_hex_digits_len(match f1.low.ip { IpAddress::V4(x) => x as nat, IpAddress::V6(x) => x as nat }, 32);
        lemma_hex_digits_len(f1.low.port as nat, 4);
    }
    assert(endpoint_name(f2.low).len() == 38) by {
        lemma_hex_digits_len(match f2.low.ip { IpAddress::V4(x) => x as nat, IpAddress::V6(x) => x as nat }, 32);
        lemma_hex_digits_len(f2.low.port as nat, 4);
    }
    assert(s1.subrange(6, 44) =~= endpoint_name(f1.high));
    assert(s2.subrange(6, 44) =~= endpoint_name(f2.high));
    assert(s1.subrange(45, 83) =~= endpoint_name(f1.low));
    assert(s2.subrange(45, 83) =~= endpoint_name(f2.low));
    lemma_endpoint_name_injective(f1.high, f2.high);
    lemma_endpoint_name_injective(f1.low, f2.low);
    assert(s1[84] == s2[84]);
}

pub(crate) fn hex_str(d: u8) -> (r: &'static str)
    requires
        d < 16,
    ensures
        r@ == seq![hex_char(d as nat)],
{
    proof {
        reveal_strlit("0"); reveal_strlit("1"); reveal_strlit("2"); reveal_strlit("3");
        reveal_strlit("4"); reveal_strlit("5"); reveal_strlit("6"); reveal_strlit("7");
        reveal_strlit("8"); reveal_strlit("9"); reveal_strlit("a"); reveal_strlit("b");
        reveal_strlit("c"); reveal_strlit("d"); reveal_strlit("e"); reveal_strlit("f");
    }
    match d {
        0 => "0", 1 => "1", 2 => "2", 3 => "3", 4 => "4", 5 => "5", 6 => "6", 7 => "7",
        8 => "8", 9 => "9", 10 => "a", 11 => "b", 12 => "c", 13 => "d", 14 => "e", _ => "f",
    }
}

fn push_hex(s: &mut String, v: u128, k: usize)
    ensures
        final(s)@ == old(s)@ + hex_digits(v as nat, k as nat),
    decreases k,
{
    if k == 0 {
        assert(old(s)@ + hex_digits(v as nat, 0) =~= old(s)@);
        return;
    }
    push_hex(s, v / 16, k - 1);
    s.append(hex_str((v % 16) as u8));
    assert(old(s)@ + hex_digits(v as nat, k as nat) =~= old(s)@ + hex_digits((v / 16) as nat, (k - 1) as nat)
        + seq![hex_char((v % 16) as nat)]);
}

fn push_endpoint(s: &mut String, a: &SocketAddress)
    ensures
        final(s)@ == old(s)@ + endpoint_name(*a),
{
    proof {
        reveal_strlit("4");
        reveal_strlit("6");
        reveal_strlit("-");
    }
    let ghost start = s@;
    let ghost addr_digits = match a.ip {
        IpAddress::V4(x) => seq!['4'] + hex_digits(x as nat, 32),
        IpAddress::V6(x) => seq!['6'] + hex_digits(x as nat, 32),
    };
    match a.ip {
        IpAddress::V4(x) => {
            s.append("4");
            push_hex(s, x as u128, 32);
        },
        IpAddress::V6(x) => {
            s.append("6");
            push_hex(s, x, 32);
        },
    }
    assert(s@ =~= start + addr_digits);
    s.append("-");
    push_hex(s, a.port as u128, 4);
    assert(s@ =~= start + endpoint_name(*a));
}

impl Flow {
    /// The file name of this flow. Distinct flows get distinct names, and a
    /// name holds only letters, digits, `-` and `_`.
    pub fn to_filename(&self) -> (r: String)
        ensures
            r@ == flow_name(*self),
    {
        proof {
            reveal_strlit("n");
            reveal_strlit("v");
            reveal_strlit("_");
            reveal_strlit("t");
            reveal_strlit("u");
        }
        let mut s = String::new();
        match self.vlan_id {
            None => {
                s.append("n");
                push_hex(&mut s, 0, 4);
            },
            Some(v) => {
                s.append("v");
                push_hex(&mut s, v as u128, 4);
            },
        }
        assert(s@ =~= vlan_name(self.vlan_id));
        s.append("_");
        push_endpoint(&mut s, &self.high);
        s.append("_");
        push_endpoint(&mut s, &self.low);
        s.append("_");
        match self.proto {
            Protocol::Tcp => s.append("t"),
            Protocol::Udp => s.append("u"),
        }
        assert(s@ =~= flow_name(*self));
        s
    }
}

} // verus!
