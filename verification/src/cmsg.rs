//! The ancillary codec: construction and parsing of the kernel's
//! control-message buffers.
//!
//! A control buffer is a run of messages, each a 16-byte header (a 64-bit
//! little-endian length that counts the header and the data, then a 32-bit
//! level and a 32-bit type) followed by the data and zero padding up to an
//! 8-byte boundary. The encoder emits, per outgoing datagram and only where
//! the corresponding field is present, an ECN entry (TOS for IPv4 sockets,
//! traffic class for IPv6 sockets), a segment-size entry, and a source
//! address entry. The decoder scans a received buffer for the ECN and
//! destination-address entries that match the socket's address-family mode,
//! skipping every entry it does not recognize.

use vstd::prelude::*;

use crate::proto::EcnCodepoint;
use crate::proto::IpAddress;
use crate::proto::RecvMeta;
use crate::proto::SocketAddress;
use crate::proto::SocketType;
use crate::proto::Transmit;

verus! {

/// Message level of IPv4 options.
pub const IPPROTO_IP: u32 = 0;

/// Type of service on an IPv4 socket; carries the ECN bits.
pub const IP_TOS: u32 = 1;

/// IPv4 packet info; carries the source or destination address.
pub const IP_PKTINFO: u32 = 8;

/// Message level of IPv6 options.
pub const IPPROTO_IPV6: u32 = 41;

/// IPv6 packet info; carries the source or destination address.
pub const IPV6_PKTINFO: u32 = 50;

/// Traffic class on an IPv6 socket; carries the ECN bits.
pub const IPV6_TCLASS: u32 = 67;

/// Message level of UDP options.
pub const SOL_UDP: u32 = 17;

/// Segment size of a transmit that the kernel splits into several datagrams.
pub const UDP_SEGMENT: u32 = 103;

/// Bytes of a message header: 64-bit length, 32-bit level, 32-bit type.
pub const CMSG_HEADER_LEN: usize = 16;

/// Each message is padded to this alignment.
pub const CMSG_ALIGN: usize = 8;

/// The two bytes of `x` in little-endian order.
pub open spec fn u16_le(x: u16) -> Seq<u8> {
    seq![(x % 256) as u8, (x / 256) as u8]
}

/// The four bytes of `x` in little-endian order.
pub open spec fn u32_le(x: u32) -> Seq<u8> {
    seq![
        (x % 256) as u8,
        ((x / 256) % 256) as u8,
        ((x / 65536) % 256) as u8,
        ((x / 16777216) % 256) as u8,
    ]
}

/// The eight bytes of `x` in little-endian order.
pub open spec fn u64_le(x: u64) -> Seq<u8> {
    seq![
        (x % 256) as u8,
        ((x / 256) % 256) as u8,
        ((x / 65536) % 256) as u8,
        ((x / 16777216) % 256) as u8,
        ((x / 4294967296) % 256) as u8,
        ((x / 1099511627776) % 256) as u8,
        ((x / 281474976710656) % 256) as u8,
        ((x / 72057594037927936) % 256) as u8,
    ]
}

/// `n` zero bytes.
pub open spec fn zero_bytes(n: nat) -> Seq<u8> {
    Seq::new(n, |i: int| 0u8)
}

/// How many padding bytes follow `n` bytes of data.
pub open spec fn spec_pad_len(n: nat) -> nat {
    if n % 8 == 0 {
        0
    } else {
        (8 - n % 8) as nat
    }
}

/// One whole control message: header, data, padding.
pub open spec fn cmsg_bytes(level: u32, typ: u32, data: Seq<u8>) -> Seq<u8> {
    u64_le((CMSG_HEADER_LEN + data.len()) as u64) + u32_le(level) + u32_le(typ) + data
        + zero_bytes(spec_pad_len(data.len()))
}

fn push_u16_le(buf: &mut Vec<u8>, x: u16)
    ensures
        final(buf)@ == old(buf)@ + u16_le(x),
{
    buf.push((x % 256) as u8);
    buf.push((x / 256) as u8);
    proof {
        assert(buf@ =~= old(buf)@ + u16_le(x));
    }
}

fn push_u32_le(buf: &mut Vec<u8>, x: u32)
    ensures
        final(buf)@ == old(buf)@ + u32_le(x),
{
    buf.push((x % 256) as u8);
    buf.push((x / 256 % 256) as u8);
    buf.push((x / 65536 % 256) as u8);
    buf.push((x / 16777216 % 256) as u8);
    proof {
        assert(buf@ =~= old(buf)@ + u32_le(x));
    }
}

fn push_u64_le(buf: &mut Vec<u8>, x: u64)
    ensures
        final(buf)@ == old(buf)@ + u64_le(x),
{
    buf.push((x % 256) as u8);
    buf.push((x / 256 % 256) as u8);
    buf.push((x / 65536 % 256) as u8);
    buf.push((x / 16777216 % 256) as u8);
    buf.push((x / 4294967296 % 256) as u8);
    buf.push((x / 1099511627776 % 256) as u8);
    buf.push((x / 281474976710656 % 256) as u8);
    buf.push((x / 72057594037927936 % 256) as u8);
    proof {
        assert(buf@ =~= old(buf)@ + u64_le(x));
    }
}

fn push_zero_bytes(buf: &mut Vec<u8>, n: usize)
    ensures
        final(buf)@ == old(buf)@ + zero_bytes(n as nat),
{
    let ghost orig = buf@;
    let mut i: usize = 0;
    while i < n
        invariant
            i <= n,
            buf@ == orig + zero_bytes(i as nat),
        decreases n - i,
    {
        buf.push(0);
        i += 1;
        proof {
            assert(buf@ =~= orig + zero_bytes(i as nat));
        }
    }
}

/// Append one whole control message to the buffer.
fn push_cmsg(buf: &mut Vec<u8>, level: u32, typ: u32, data: &Vec<u8>)
    requires
        data@.len() <= usize::MAX - CMSG_HEADER_LEN,
    ensures
        final(buf)@ == old(buf)@ + cmsg_bytes(level, typ, data@),
{
    let ghost orig = buf@;
    push_u64_le(buf, (CMSG_HEADER_LEN + data.len()) as u64);
    push_u32_le(buf, level);
    push_u32_le(buf, typ);
    let ghost mid = buf@;
    let mut i: usize = 0;
    while i < data.len()
        invariant
            i <= data@.len(),
            buf@ == mid + data@.subrange(0, i as int),
        decreases data@.len() - i,
    {
        let b = data[i];
        buf.push(b);
        i += 1;
        proof {
            assert(buf@ =~= mid + data@.subrange(0, i as int));
        }
    }
    proof {
        assert(data@.subrange(0, data@.len() as int) =~= data@);
    }
    let rem = data.len() % 8;
    let padn = if rem == 0 {
        0
    } else {
        8 - rem
    };
    push_zero_bytes(buf, padn);
    proof {
        assert(padn as nat == spec_pad_len(data@.len() as nat));
        assert(buf@ =~= orig + cmsg_bytes(level, typ, data@));
    }
}

/// The ECN entry of an outgoing control buffer, or nothing when no codepoint
/// is to be marked: the TOS option for an IPv4 socket, the traffic-class
/// option for an IPv6 socket, the two-bit value in a 32-bit field.
pub open spec fn ecn_part(sty: SocketType, ecn: Option<EcnCodepoint>) -> Seq<u8> {
    match ecn {
        None => Seq::empty(),
        Some(e) => if sty is Ipv4 {
            cmsg_bytes(IPPROTO_IP, IP_TOS, u32_le(e.spec_bits() as u32))
        } else {
            cmsg_bytes(IPPROTO_IPV6, IPV6_TCLASS, u32_le(e.spec_bits() as u32))
        },
    }
}

/// The segmentation entry of an outgoing control buffer: present exactly when
/// a segment size between 1 and 65535 is requested and the probed capability
/// is more than one segment; absence means the transmit goes out unsplit.
pub open spec fn seg_part(seg: Option<usize>, max_gso_segments: usize) -> Seq<u8> {
    match seg {
        None => Seq::empty(),
        Some(s) => if max_gso_segments > 1 && 1 <= s && s <= 65535 {
            cmsg_bytes(SOL_UDP, UDP_SEGMENT, u16_le(s as u16))
        } else {
            Seq::empty()
        },
    }
}

/// The 12 data bytes of an IPv4 packet-info entry carrying a source address:
/// a zero interface index, the address, and a zero header-destination slot.
pub open spec fn v4_pktinfo_data(a: u8, b: u8, c: u8, d: u8) -> Seq<u8> {
    u32_le(0) + seq![a, b, c, d] + u32_le(0)
}

/// The sixteen bytes of an IPv6 address, segments in big-endian order.
pub open spec fn v6_addr_bytes(
    s0: u16,
    s1: u16,
    s2: u16,
    s3: u16,
    s4: u16,
    s5: u16,
    s6: u16,
    s7: u16,
) -> Seq<u8> {
    seq![
        (s0 / 256) as u8,
        (s0 % 256) as u8,
        (s1 / 256) as u8,
        (s1 % 256) as u8,
        (s2 / 256) as u8,
        (s2 % 256) as u8,
        (s3 / 256) as u8,
        (s3 % 256) as u8,
        (s4 / 256) as u8,
        (s4 % 256) as u8,
        (s5 / 256) as u8,
        (s5 % 256) as u8,
        (s6 / 256) as u8,
        (s6 % 256) as u8,
        (s7 / 256) as u8,
        (s7 % 256) as u8,
    ]
}

/// The source-address entry of an outgoing control buffer, or nothing when
/// the default local address is used.
pub open spec fn src_part(src: Option<IpAddress>) -> Seq<u8> {
    match src {
        None => Seq::empty(),
        Some(IpAddress::V4(a, b, c, d)) => cmsg_bytes(
            IPPROTO_IP,
            IP_PKTINFO,
            v4_pktinfo_data(a, b, c, d),
        ),
        Some(IpAddress::V6(s0, s1, s2, s3, s4, s5, s6, s7)) => cmsg_bytes(
            IPPROTO_IPV6,
            IPV6_PKTINFO,
            v6_addr_bytes(s0, s1, s2, s3, s4, s5, s6, s7) + u32_le(0),
        ),
    }
}

/// The whole control buffer of one transmit: the ECN entry, then the
/// segmentation entry, then the source-address entry, each present exactly
/// when the corresponding field calls for it.
pub open spec fn encode_spec(
    sty: SocketType,
    max_gso_segments: usize,
    ecn: Option<EcnCodepoint>,
    seg: Option<usize>,
    src: Option<IpAddress>,
) -> Seq<u8> {
    ecn_part(sty, ecn) + seg_part(seg, max_gso_segments) + src_part(src)
}

/// Build the control buffer for one outgoing transmit. An absent field emits
/// no entry at all, and a segment size is honored only when the capability
/// probe reported more than one segment.
pub fn encode_cmsgs(sty: SocketType, max_gso_segments: usize, t: &Transmit) -> (r: Vec<u8>)
    ensures
        r@ == encode_spec(sty, max_gso_segments, t.ecn, t.segment_size, t.src_ip),
{
    let mut buf: Vec<u8> = Vec::new();
    match t.ecn {
        Some(e) => {
            let mut data: Vec<u8> = Vec::new();
            push_u32_le(&mut data, e.bits() as u32);
            match sty {
                SocketType::Ipv4 => push_cmsg(&mut buf, IPPROTO_IP, IP_TOS, &data),
                SocketType::Ipv6 => push_cmsg(&mut buf, IPPROTO_IPV6, IPV6_TCLASS, &data),
                SocketType::Ipv6Only => push_cmsg(&mut buf, IPPROTO_IPV6, IPV6_TCLASS, &data),
            }
        },
        None => {},
    }
    proof {
        assert(buf@ =~= ecn_part(sty, t.ecn));
    }
    let ghost after_ecn = buf@;
    match t.segment_size {
        Some(s) => if max_gso_segments > 1 && s >= 1 && s <= 65535 {
            let mut data: Vec<u8> = Vec::new();
            push_u16_le(&mut data, s as u16);
            push_cmsg(&mut buf, SOL_UDP, UDP_SEGMENT, &data);
        },
        None => {},
    }
    proof {
        assert(buf@ =~= after_ecn + seg_part(t.segment_size, max_gso_segments));
    }
    let ghost after_seg = buf@;
    match t.src_ip {
        Some(IpAddress::V4(a, b, c, d)) => {
            let mut data: Vec<u8> = Vec::new();
            push_u32_le(&mut data, 0);
            data.push(a);
            data.push(b);
            data.push(c);
            data.push(d);
            push_u32_le(&mut data, 0);
            proof {
                assert(data@ =~= v4_pktinfo_data(a, b, c, d));
            }
            push_cmsg(&mut buf, IPPROTO_IP, IP_PKTINFO, &data);
        },
        Some(IpAddress::V6(s0, s1, s2, s3, s4, s5, s6, s7)) => {
            let mut data: Vec<u8> = Vec::new();
            push_u16_be(&mut data, s0);
            push_u16_be(&mut data, s1);
            push_u16_be(&mut data, s2);
            push_u16_be(&mut data, s3);
            push_u16_be(&mut data, s4);
            push_u16_be(&mut data, s5);
            push_u16_be(&mut data, s6);
            push_u16_be(&mut data, s7);
            push_u32_le(&mut data, 0);
            proof {
                assert(data@ =~= v6_addr_bytes(s0, s1, s2, s3, s4, s5, s6, s7) + u32_le(0));
            }
            push_cmsg(&mut buf, IPPROTO_IPV6, IPV6_PKTINFO, &data);
        },
        None => {},
    }
    proof {
        assert(buf@ =~= after_seg + src_part(t.src_ip));
        assert(buf@ =~= encode_spec(sty, max_gso_segments, t.ecn, t.segment_size, t.src_ip));
    }
    buf
}

fn push_u16_be(buf: &mut Vec<u8>, x: u16)
    ensures
        final(buf)@ == old(buf)@ + seq![(x / 256) as u8, (x % 256) as u8],
{
    buf.push((x / 256) as u8);
    buf.push((x % 256) as u8);
    proof {
        assert(buf@ =~= old(buf)@ + seq![(x / 256) as u8, (x % 256) as u8]);
    }
}

/// The 64-bit little-endian value at offset `i`.
pub open spec fn read_u64_le(b: Seq<u8>, i: int) -> u64 {
    (b[i] + b[i + 1] * 256 + b[i + 2] * 65536 + b[i + 3] * 16777216 + b[i + 4] * 4294967296 + b[i
        + 5] * 1099511627776 + b[i + 6] * 281474976710656 + b[i + 7] * 72057594037927936) as u64
}

/// The 32-bit little-endian value at offset `i`.
pub open spec fn read_u32_le(b: Seq<u8>, i: int) -> u32 {
    (b[i] + b[i + 1] * 256 + b[i + 2] * 65536 + b[i + 3] * 16777216) as u32
}

/// The big-endian 16-bit segment at offset `i`.
pub open spec fn seg16_be(b: Seq<u8>, i: int) -> u16 {
    (b[i] * 256 + b[i + 1]) as u16
}

fn get_u64_le(b: &Vec<u8>, i: usize) -> (r: u64)
    requires
        i + 8 <= b@.len(),
    ensures
        r == read_u64_le(b@, i as int),
{
    let _n = b.len();
    (b[i] as u64) + (b[i + 1] as u64) * 256 + (b[i + 2] as u64) * 65536 + (b[i + 3] as u64)
        * 16777216 + (b[i + 4] as u64) * 4294967296 + (b[i + 5] as u64) * 1099511627776 + (b[i + 6]
        as u64) * 281474976710656 + (b[i + 7] as u64) * 72057594037927936
}

fn get_u32_le(b: &Vec<u8>, i: usize) -> (r: u32)
    requires
        i + 4 <= b@.len(),
    ensures
        r == read_u32_le(b@, i as int),
{
    let _n = b.len();
    (b[i] as u32) + (b[i + 1] as u32) * 256 + (b[i + 2] as u32) * 65536 + (b[i + 3] as u32)
        * 16777216
}

/// Whether the socket's mode reads the ECN bits from the IPv4 TOS entry.
pub open spec fn wants_v4_tos(sty: SocketType) -> bool {
    sty is Ipv4 || sty is Ipv6
}

/// Whether the socket's mode reads the ECN bits from the IPv6 traffic-class
/// entry.
pub open spec fn wants_v6_tclass(sty: SocketType) -> bool {
    sty is Ipv6Only || sty is Ipv6
}

/// The ECN codepoint one control message yields: the low two bits of a
/// TOS/traffic-class entry matching the socket's mode, and nothing from any
/// other entry.
pub open spec fn ecn_of(sty: SocketType, level: u32, typ: u32, data: Seq<u8>) -> Option<
    EcnCodepoint,
> {
    if level == IPPROTO_IP && typ == IP_TOS && (data.len() == 1 || data.len() == 4)
        && wants_v4_tos(sty) {
        EcnCodepoint::spec_from_bits(data[0])
    } else if level == IPPROTO_IPV6 && typ == IPV6_TCLASS && data.len() == 4 && wants_v6_tclass(
        sty,
    ) {
        EcnCodepoint::spec_from_bits(data[0])
    } else {
        None
    }
}

/// Whether the first twelve bytes of an IPv6 address are the mapped-IPv4
/// prefix `::ffff:`.
pub open spec fn is_mapped_prefix(d: Seq<u8>) -> bool {
    d[0] == 0 && d[1] == 0 && d[2] == 0 && d[3] == 0 && d[4] == 0 && d[5] == 0 && d[6] == 0 && d[7]
        == 0 && d[8] == 0 && d[9] == 0 && d[10] == 0xff && d[11] == 0xff
}

/// The destination address one control message yields: the header
/// destination of a packet-info entry, with a mapped IPv4 address collapsed
/// on a dual-stack socket, and nothing from any other entry.
pub open spec fn dst_of(sty: SocketType, level: u32, typ: u32, data: Seq<u8>) -> Option<
    IpAddress,
> {
    if level == IPPROTO_IP && typ == IP_PKTINFO && data.len() == 12 {
        Some(IpAddress::V4(data[8], data[9], data[10], data[11]))
    } else if level == IPPROTO_IPV6 && typ == IPV6_PKTINFO && data.len() == 20 {
        if sty is Ipv6 && is_mapped_prefix(data) {
            Some(IpAddress::V4(data[12], data[13], data[14], data[15]))
        } else {
            Some(
                IpAddress::V6(
                    seg16_be(data, 0),
                    seg16_be(data, 2),
                    seg16_be(data, 4),
                    seg16_be(data, 6),
                    seg16_be(data, 8),
                    seg16_be(data, 10),
                    seg16_be(data, 12),
                    seg16_be(data, 14),
                ),
            )
        }
    } else {
        None
    }
}

/// The first of two optional findings.
pub open spec fn or_first<T>(a: Option<T>, b: Option<T>) -> Option<T> {
    if a is Some {
        a
    } else {
        b
    }
}

/// What scanning a control buffer from offset `off` yields: the first ECN
/// entry and the first destination entry that the socket's mode recognizes.
/// The scan stops at a truncated header, at a length below the header size,
/// or at a length past the end of the buffer.
pub open spec fn scan_cmsgs(sty: SocketType, b: Seq<u8>, off: int) -> (Option<EcnCodepoint>,
    Option<IpAddress>)
    decreases b.len() - off,
{
    if off < 0 || off + 16 > b.len() {
        (None, None)
    } else {
        let l = read_u64_le(b, off) as int;
        if l < 16 || l > b.len() - off {
            (None, None)
        } else {
            let level = read_u32_le(b, off + 8);
            let typ = read_u32_le(b, off + 12);
            let data = b.subrange(off + 16, off + l);
            let e = ecn_of(sty, level, typ, data);
            let d = dst_of(sty, level, typ, data);
            let next = off + l + spec_pad_len((l % 8) as nat);
            let rest = if next <= b.len() {
                scan_cmsgs(sty, b, next)
            } else {
                (None, None)
            };
            (or_first(e, rest.0), or_first(d, rest.1))
        }
    }
}

fn ecn_of_exec(sty: SocketType, level: u32, typ: u32, b: &Vec<u8>, start: usize, dlen: usize) -> (r:
    Option<EcnCodepoint>)
    requires
        start + dlen <= b@.len(),
    ensures
        r == ecn_of(sty, level, typ, b@.subrange(start as int, start as int + dlen as int)),
{
    let ghost data = b@.subrange(start as int, start as int + dlen as int);
    let v4w = match sty {
        SocketType::Ipv4 => true,
        SocketType::Ipv6 => true,
        SocketType::Ipv6Only => false,
    };
    let v6w = match sty {
        SocketType::Ipv4 => false,
        SocketType::Ipv6 => true,
        SocketType::Ipv6Only => true,
    };
    if level == IPPROTO_IP && typ == IP_TOS && (dlen == 1 || dlen == 4) && v4w {
        proof {
            assert(data[0] == b@[start as int]);
        }
        EcnCodepoint::from_bits(b[start])
    } else if level == IPPROTO_IPV6 && typ == IPV6_TCLASS && dlen == 4 && v6w {
        proof {
            assert(data[0] == b@[start as int]);
        }
        EcnCodepoint::from_bits(b[start])
    } else {
        None
    }
}

fn dst_of_exec(sty: SocketType, level: u32, typ: u32, b: &Vec<u8>, start: usize, dlen: usize) -> (r:
    Option<IpAddress>)
    requires
        start + dlen <= b@.len(),
    ensures
        r == dst_of(sty, level, typ, b@.subrange(start as int, start as int + dlen as int)),
{
    let _n = b.len();
    let ghost data = b@.subrange(start as int, start as int + dlen as int);
    proof {
        assert forall|j: int| 0 <= j < dlen implies data[j] == b@[start as int + j] by {}
    }
    if level == IPPROTO_IP && typ == IP_PKTINFO && dlen == 12 {
        Some(IpAddress::V4(b[start + 8], b[start + 9], b[start + 10], b[start + 11]))
    } else if level == IPPROTO_IPV6 && typ == IPV6_PKTINFO && dlen == 20 {
        let dual = match sty {
            SocketType::Ipv6 => true,
            SocketType::Ipv4 => false,
            SocketType::Ipv6Only => false,
        };
        let mapped = dual && b[start] == 0 && b[start + 1] == 0 && b[start + 2] == 0 && b[start + 3]
            == 0 && b[start + 4] == 0 && b[start + 5] == 0 && b[start + 6] == 0 && b[start + 7] == 0
            && b[start + 8] == 0 && b[start + 9] == 0 && b[start + 10] == 0xff && b[start + 11]
            == 0xff;
        if mapped {
            Some(IpAddress::V4(b[start + 12], b[start + 13], b[start + 14], b[start + 15]))
        } else {
            Some(
                IpAddress::V6(
                    (b[start] as u16) * 256 + (b[start + 1] as u16),
                    (b[start + 2] as u16) * 256 + (b[start + 3] as u16),
                    (b[start + 4] as u16) * 256 + (b[start + 5] as u16),
                    (b[start + 6] as u16) * 256 + (b[start + 7] as u16),
                    (b[start + 8] as u16) * 256 + (b[start + 9] as u16),
                    (b[start + 10] as u16) * 256 + (b[start + 11] as u16),
                    (b[start + 12] as u16) * 256 + (b[start + 13] as u16),
                    (b[start + 14] as u16) * 256 + (b[start + 15] as u16),
                ),
            )
        }
    } else {
        None
    }
}

#[verifier::rlimit(80)]
fn decode_from(sty: SocketType, control: &Vec<u8>, off: usize) -> (r: (Option<EcnCodepoint>,
    Option<IpAddress>))
    requires
        off <= control@.len(),
    ensures
        r == scan_cmsgs(sty, control@, off as int),
    decreases control@.len() - off,
{
    let n = control.len();
    if n - off < 16 {
        return (None, None);
    }
    let l64 = get_u64_le(control, off);
    if l64 < 16 || l64 > (n - off) as u64 {
        return (None, None);
    }
    let l = l64 as usize;
    let level = get_u32_le(control, off + 8);
    let typ = get_u32_le(control, off + 12);
    let dlen = l - CMSG_HEADER_LEN;
    let e = ecn_of_exec(sty, level, typ, control, off + CMSG_HEADER_LEN, dlen);
    let d = dst_of_exec(sty, level, typ, control, off + CMSG_HEADER_LEN, dlen);
    proof {
        assert(off as int + 16 + dlen as int == off as int + l as int);
    }
    let rem = l % 8;
    let pad = if rem == 0 {
        0
    } else {
        8 - rem
    };
    let rest = if pad <= (n - off) - l {
        decode_from(sty, control, off + l + pad)
    } else {
        (None, None)
    };
    (
        if e.is_some() {
            e
        } else {
            rest.0
        },
        if d.is_some() {
            d
        } else {
            rest.1
        },
    )
}

/// Decode a received control buffer into the ECN codepoint and destination
/// address it carries for a socket of the given mode. An absent or
/// unrecognized entry yields `None`, never an error.
pub fn decode_cmsgs(sty: SocketType, control: &Vec<u8>) -> (r: (Option<EcnCodepoint>, Option<
    IpAddress,
>))
    ensures
        r.0 == scan_cmsgs(sty, control@, 0).0,
        r.1 == scan_cmsgs(sty, control@, 0).1,
{
    decode_from(sty, control, 0)
}

proof fn lemma_read_u64_le_of(b: Seq<u8>, i: int, x: u64)
    requires
        0 <= i,
        i + 8 <= b.len(),
        b.subrange(i, i + 8) == u64_le(x),
    ensures
        read_u64_le(b, i) == x,
{
    assert(b[i] == (x % 256) as u8);
    assert(b[i + 1] == ((x / 256) % 256) as u8);
    assert(b[i + 2] == ((x / 65536) % 256) as u8);
    assert(b[i + 3] == ((x / 16777216) % 256) as u8);
    assert(b[i + 4] == ((x / 4294967296) % 256) as u8);
    assert(b[i + 5] == ((x / 1099511627776) % 256) as u8);
    assert(b[i + 6] == ((x / 281474976710656) % 256) as u8);
    assert(b[i + 7] == ((x / 72057594037927936) % 256) as u8);
    assert(x % 256 + ((x / 256) % 256) * 256 + ((x / 65536) % 256) * 65536 + ((x / 16777216) % 256)
        * 16777216 + ((x / 4294967296) % 256) * 4294967296 + ((x / 1099511627776) % 256)
        * 1099511627776 + ((x / 281474976710656) % 256) * 281474976710656 + ((x
        / 72057594037927936) % 256) * 72057594037927936 == x) by (bit_vector);
}

proof fn lemma_read_u32_le_of(b: Seq<u8>, i: int, x: u32)
    requires
        0 <= i,
        i + 4 <= b.len(),
        b.subrange(i, i + 4) == u32_le(x),
    ensures
        read_u32_le(b, i) == x,
{
    assert(b[i] == (x % 256) as u8);
    assert(b[i + 1] == ((x / 256) % 256) as u8);
    assert(b[i + 2] == ((x / 65536) % 256) as u8);
    assert(b[i + 3] == ((x / 16777216) % 256) as u8);
    assert(x % 256 + ((x / 256) % 256) * 256 + ((x / 65536) % 256) * 65536 + ((x / 16777216) % 256)
        * 16777216 == x) by (bit_vector);
}

/// Scanning is translation invariant: a scan that has reached the bytes of
/// `rest` reads exactly what a scan of `rest` alone reads.
proof fn lemma_scan_shift(sty: SocketType, a: Seq<u8>, rest: Seq<u8>, k: int)
    requires
        0 <= k <= rest.len(),
    ensures
        scan_cmsgs(sty, a + rest, a.len() + k) == scan_cmsgs(sty, rest, k),
    decreases rest.len() - k,
{
    let b = a + rest;
    let off = a.len() as int + k;
    if k + 16 > rest.len() {
    } else {
        assert forall|j: int| 0 <= j < rest.len() implies b[a.len() + j] == rest[j] by {}
        assert(read_u64_le(b, off) == read_u64_le(rest, k));
        let l = read_u64_le(rest, k) as int;
        if l < 16 || l > rest.len() - k {
        } else {
            assert(read_u32_le(b, off + 8) == read_u32_le(rest, k + 8));
            assert(read_u32_le(b, off + 12) == read_u32_le(rest, k + 12));
            assert(b.subrange(off + 16, off + l) =~= rest.subrange(k + 16, k + l));
            let next = k + l + spec_pad_len((l % 8) as nat);
            if next <= rest.len() {
                lemma_scan_shift(sty, a, rest, next);
            }
        }
    }
}

/// One whole message at the head of a buffer contributes exactly its own
/// findings; the scan then goes on behind it.
proof fn lemma_scan_over_cmsg(sty: SocketType, level: u32, typ: u32, data: Seq<u8>, rest: Seq<u8>)
    requires
        data.len() <= 1000,
    ensures
        ({
            let s = scan_cmsgs(sty, cmsg_bytes(level, typ, data) + rest, 0);
            let r = scan_cmsgs(sty, rest, 0);
            s.0 == or_first(ecn_of(sty, level, typ, data), r.0) && s.1 == or_first(
                dst_of(sty, level, typ, data),
                r.1,
            )
        }),
{
    let m = cmsg_bytes(level, typ, data);
    let b = m + rest;
    let dl = data.len() as int;
    let l: int = 16 + dl;
    let pad = spec_pad_len(data.len());
    assert(m.len() == l + pad);
    assert(b.subrange(0, 8) =~= u64_le((CMSG_HEADER_LEN + data.len()) as u64));
    lemma_read_u64_le_of(b, 0, (CMSG_HEADER_LEN + data.len()) as u64);
    assert(read_u64_le(b, 0) as int == l);
    assert(b.subrange(8, 12) =~= u32_le(level));
    lemma_read_u32_le_of(b, 8, level);
    assert(b.subrange(12, 16) =~= u32_le(typ));
    lemma_read_u32_le_of(b, 12, typ);
    assert(b.subrange(16, l) =~= data);
    assert((16 + dl) % 8 == dl % 8);
    assert(l + spec_pad_len((l % 8) as nat) == m.len());
    lemma_scan_shift(sty, m, rest, 0);
}

/// What the receive-side scan finds in a control buffer the encoder built:
/// exactly the ECN codepoint that was encoded, on every socket mode and
/// whatever the other entries are — and no codepoint where none was encoded.
#[verifier::rlimit(80)]
pub proof fn lemma_codec_ecn_round_trip(
    sty: SocketType,
    max_gso_segments: usize,
    ecn: Option<EcnCodepoint>,
    seg: Option<usize>,
    src: Option<IpAddress>,
)
    ensures
        scan_cmsgs(sty, encode_spec(sty, max_gso_segments, ecn, seg, src), 0).0 == ecn,
{
    let segp = seg_part(seg, max_gso_segments);
    let srcp = src_part(src);
    let tail = segp + srcp;
    assert(scan_cmsgs(sty, srcp, 0).0 is None) by {
        match src {
            None => {
                assert(scan_cmsgs(sty, srcp, 0) == (None::<EcnCodepoint>, None::<IpAddress>));
            },
            Some(IpAddress::V4(a, b, c, d)) => {
                let data = v4_pktinfo_data(a, b, c, d);
                assert(srcp =~= cmsg_bytes(IPPROTO_IP, IP_PKTINFO, data) + Seq::<u8>::empty());
                lemma_scan_over_cmsg(sty, IPPROTO_IP, IP_PKTINFO, data, Seq::<u8>::empty());
                assert(scan_cmsgs(sty, Seq::<u8>::empty(), 0) == (
                    None::<EcnCodepoint>,
                    None::<IpAddress>,
                ));
            },
            Some(IpAddress::V6(s0, s1, s2, s3, s4, s5, s6, s7)) => {
                let data = v6_addr_bytes(s0, s1, s2, s3, s4, s5, s6, s7) + u32_le(0);
                assert(srcp =~= cmsg_bytes(IPPROTO_IPV6, IPV6_PKTINFO, data) + Seq::<u8>::empty());
                lemma_scan_over_cmsg(sty, IPPROTO_IPV6, IPV6_PKTINFO, data, Seq::<u8>::empty());
                assert(scan_cmsgs(sty, Seq::<u8>::empty(), 0) == (
                    None::<EcnCodepoint>,
                    None::<IpAddress>,
                ));
            },
        }
    };
    assert(scan_cmsgs(sty, tail, 0).0 is None) by {
        match seg {
            None => {
                assert(tail =~= srcp);
            },
            Some(s) => {
                if max_gso_segments > 1 && 1 <= s && s <= 65535 {
                    lemma_scan_over_cmsg(sty, SOL_UDP, UDP_SEGMENT, u16_le(s as u16), srcp);
                } else {
                    assert(tail =~= srcp);
                }
            },
        }
    };
    match ecn {
        None => {
            assert(encode_spec(sty, max_gso_segments, ecn, seg, src) =~= tail);
        },
        Some(e) => {
            let data = u32_le(e.spec_bits() as u32);
            assert(e.spec_bits() <= 3);
            assert(data[0] == e.spec_bits());
            crate::proto::lemma_bits_round_trip(e);
            if sty is Ipv4 {
                assert(encode_spec(sty, max_gso_segments, ecn, seg, src) =~= cmsg_bytes(
                    IPPROTO_IP,
                    IP_TOS,
                    data,
                ) + tail);
                lemma_scan_over_cmsg(sty, IPPROTO_IP, IP_TOS, data, tail);
                assert(ecn_of(sty, IPPROTO_IP, IP_TOS, data) == Some(e));
            } else {
                assert(encode_spec(sty, max_gso_segments, ecn, seg, src) =~= cmsg_bytes(
                    IPPROTO_IPV6,
                    IPV6_TCLASS,
                    data,
                ) + tail);
                lemma_scan_over_cmsg(sty, IPPROTO_IPV6, IPV6_TCLASS, data, tail);
                assert(ecn_of(sty, IPPROTO_IPV6, IPV6_TCLASS, data) == Some(e));
            }
        },
    }
}

/// Pack the head of a send queue into one batch: the control buffer of each
/// of the first `BATCH_SIZE` transmits (or of all of them, where fewer are
/// queued), in submission order, ready to go out in a single batched
/// syscall.
pub fn encode_batch(sty: SocketType, max_gso_segments: usize, transmits: &Vec<Transmit>) -> (r:
    Vec<Vec<u8>>)
    ensures
        transmits@.len() <= crate::BATCH_SIZE ==> r@.len() == transmits@.len(),
        transmits@.len() > crate::BATCH_SIZE ==> r@.len() == crate::BATCH_SIZE,
        forall|i: int|
            0 <= i < r@.len() ==> r@[i]@ == encode_spec(
                sty,
                max_gso_segments,
                transmits@[i].ecn,
                transmits@[i].segment_size,
                transmits@[i].src_ip,
            ),
{
    let limit = if transmits.len() < crate::BATCH_SIZE {
        transmits.len()
    } else {
        crate::BATCH_SIZE
    };
    let mut r: Vec<Vec<u8>> = Vec::new();
    let mut i: usize = 0;
    while i < limit
        invariant
            i <= limit,
            limit <= transmits@.len(),
            r@.len() == i,
            forall|j: int|
                0 <= j < i ==> r@[j]@ == encode_spec(
                    sty,
                    max_gso_segments,
                    transmits@[j].ecn,
                    transmits@[j].segment_size,
                    transmits@[j].src_ip,
                ),
        decreases limit - i,
    {
        let buf = encode_cmsgs(sty, max_gso_segments, &transmits[i]);
        r.push(buf);
        i += 1;
    }
    r
}

/// Build the metadata of one completed receive slot on the batching path:
/// the kernel-reported source (normalized per the socket's mode), the payload
/// length, and whatever ECN and destination entries the control buffer
/// carries.
pub fn recv_meta_of(sty: SocketType, source: SocketAddress, len: usize, control: &Vec<u8>) -> (r:
    RecvMeta)
    ensures
        r.source == source.spec_normalized(sty),
        r.len == len,
        r.ecn == scan_cmsgs(sty, control@, 0).0,
        r.dst_ip == scan_cmsgs(sty, control@, 0).1,
{
    let (ecn, dst_ip) = decode_cmsgs(sty, control);
    RecvMeta { source: source.normalized(sty), len, ecn, dst_ip }
}

/// What one correctly decoded receive slot holds: the normalized source, the
/// kernel-reported payload length, and the control buffer's findings.
pub open spec fn slot_decoded(
    sty: SocketType,
    m: RecvMeta,
    len: usize,
    source: SocketAddress,
    control: Seq<u8>,
) -> bool {
    &&& m.source == source.spec_normalized(sty)
    &&& m.len == len
    &&& m.ecn == scan_cmsgs(sty, control, 0).0
    &&& m.dst_ip == scan_cmsgs(sty, control, 0).1
}

/// Decode a whole receive batch: the kernel filled the first `lens.len()`
/// slots, reporting per slot a payload length, a source address, and a
/// control buffer. Each completed slot's metadata is rebuilt from them; the
/// remaining slots are untouched; the returned count is the number of slots
/// populated.
pub fn fill_recv_batch(
    sty: SocketType,
    lens: &Vec<usize>,
    sources: &Vec<SocketAddress>,
    controls: &Vec<Vec<u8>>,
    meta: &mut Vec<RecvMeta>,
) -> (r: usize)
    requires
        lens@.len() == sources@.len(),
        lens@.len() == controls@.len(),
        lens@.len() <= old(meta)@.len(),
    ensures
        r == lens@.len(),
        final(meta)@.len() == old(meta)@.len(),
        forall|i: int|
            0 <= i < r ==> #[trigger] slot_decoded(
                sty,
                final(meta)@[i],
                lens@[i],
                sources@[i],
                controls@[i]@,
            ),
        forall|i: int| r <= i < old(meta)@.len() ==> final(meta)@[i] == old(meta)@[i],
{
    let ghost orig = meta@;
    let count = lens.len();
    let mut i: usize = 0;
    while i < count
        invariant
            i <= count,
            count == lens@.len(),
            count == sources@.len(),
            count == controls@.len(),
            count <= meta@.len(),
            meta@.len() == orig.len(),
            forall|j: int|
                0 <= j < i ==> #[trigger] slot_decoded(
                    sty,
                    meta@[j],
                    lens@[j],
                    sources@[j],
                    controls@[j]@,
                ),
            forall|j: int| i <= j < orig.len() ==> meta@[j] == orig[j],
        decreases count - i,
    {
        let m = recv_meta_of(sty, sources[i], lens[i], &controls[i]);
        meta.set(i, m);
        i += 1;
        proof {
            assert(slot_decoded(
                sty,
                m,
                lens@[i - 1],
                sources@[i - 1],
                controls@[i - 1]@,
            ));
            assert forall|j: int|
                0 <= j < i implies #[trigger] slot_decoded(
                    sty,
                    meta@[j],
                    lens@[j],
                    sources@[j],
                    controls@[j]@,
                ) by {
                if j == i - 1 {
                    assert(meta@[j] == m);
                }
            }
        }
    }
    count
}

} // verus!
