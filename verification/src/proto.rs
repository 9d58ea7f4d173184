//! Value types describing single outgoing and incoming datagrams, the ECN
//! codepoint enumeration, socket capabilities, and the address-family mode of
//! a bound socket.

use vstd::prelude::*;

verus! {

/// The capabilities a UDP socket supports on a certain platform.
#[derive(Clone, Copy, Debug)]
pub struct UdpCapabilities {
    /// The maximum number of segments which can be transmitted if the platform
    /// supports Generic Send Offload (GSO). This is 1 if the platform doesn't
    /// support GSO.
    pub max_gso_segments: usize,
}

/// An IP address held as plain integers: four octets for IPv4, eight 16-bit
/// segments for IPv6.
#[derive(Clone, Copy, Debug, PartialEq, Eq, Structural)]
pub enum IpAddress {
    /// An IPv4 address, one field per octet of the dotted form.
    V4(u8, u8, u8, u8),
    /// An IPv6 address, one field per 16-bit segment of the colon form.
    V6(u16, u16, u16, u16, u16, u16, u16, u16),
}

impl IpAddress {
    /// Whether this is the IPv6 representation of an IPv4 address
    /// (`::ffff:a.b.c.d`).
    pub open spec fn spec_is_v4_mapped(self) -> bool {
        match self {
            IpAddress::V4(_, _, _, _) => false,
            IpAddress::V6(s0, s1, s2, s3, s4, s5, _, _) =>
                s0 == 0 && s1 == 0 && s2 == 0 && s3 == 0 && s4 == 0 && s5 == 0xffff,
        }
    }
}

/// The address-family mode of a bound socket, fixed at bind time. It selects
/// which control-message types the codec uses and how kernel-reported
/// addresses are normalized.
#[derive(Clone, Copy, Debug, PartialEq, Eq, Structural)]
pub enum SocketType {
    /// Socket bound to an IPv4 address.
    Ipv4,
    /// Dual-stack IPv6 socket that also reaches IPv4 peers through mapped
    /// addresses.
    Ipv6,
    /// IPv6 socket restricted to IPv6 peers.
    Ipv6Only,
}

/// A socket address: an IP address and a port.
#[derive(Clone, Copy, Debug, PartialEq, Eq, Structural)]
pub struct SocketAddress {
    /// The IP address.
    pub ip: IpAddress,
    /// The port.
    pub port: u16,
}

impl SocketAddress {
    /// The all-zero IPv6 address with port zero: distinguishable from every
    /// real peer address, it stands for "no peer".
    pub open spec fn spec_is_unspecified(self) -> bool {
        self.port == 0 && self.ip == IpAddress::V6(0, 0, 0, 0, 0, 0, 0, 0)
    }

    /// The unspecified address.
    pub fn unspecified() -> (r: Self)
        ensures
            r.spec_is_unspecified(),
    {
        SocketAddress { ip: IpAddress::V6(0, 0, 0, 0, 0, 0, 0, 0), port: 0 }
    }

    /// The address with a mapped IPv4 representation collapsed to the plain
    /// IPv4 address when the socket is dual-stack; any other address is kept.
    pub open spec fn spec_normalized(self, sty: SocketType) -> SocketAddress {
        if sty is Ipv6 && self.ip.spec_is_v4_mapped() {
            match self.ip {
                IpAddress::V6(_, _, _, _, _, _, s6, s7) => SocketAddress {
                    ip: IpAddress::V4(
                        (s6 / 256) as u8,
                        (s6 % 256) as u8,
                        (s7 / 256) as u8,
                        (s7 % 256) as u8,
                    ),
                    port: self.port,
                },
                IpAddress::V4(_, _, _, _) => self,
            }
        } else {
            self
        }
    }

    /// Normalize an address the kernel reported for an inbound datagram,
    /// per the socket's address-family mode.
    pub fn normalized(self, sty: SocketType) -> (r: SocketAddress)
        ensures
            r == self.spec_normalized(sty),
    {
        match (sty, self.ip) {
            (SocketType::Ipv6, IpAddress::V6(0, 0, 0, 0, 0, 0xffff, s6, s7)) => SocketAddress {
                ip: IpAddress::V4(
                    (s6 / 256) as u8,
                    (s6 % 256) as u8,
                    (s7 / 256) as u8,
                    (s7 % 256) as u8,
                ),
                port: self.port,
            },
            _ => self,
        }
    }

    /// The destination to hand to the kernel: a plain IPv4 destination is
    /// lifted to its mapped IPv6 form on a dual-stack socket; any other
    /// destination is kept.
    pub open spec fn spec_mapped_destination(self, sty: SocketType) -> SocketAddress {
        match self.ip {
            IpAddress::V4(a, b, c, d) => if sty is Ipv6 {
                SocketAddress {
                    ip: IpAddress::V6(
                        0,
                        0,
                        0,
                        0,
                        0,
                        0xffff,
                        ((a as u16) * 256 + (b as u16)) as u16,
                        ((c as u16) * 256 + (d as u16)) as u16,
                    ),
                    port: self.port,
                }
            } else {
                self
            },
            IpAddress::V6(_, _, _, _, _, _, _, _) => self,
        }
    }

    /// Map an outgoing destination per the socket's address-family mode.
    pub fn mapped_destination(self, sty: SocketType) -> (r: SocketAddress)
        ensures
            r == self.spec_mapped_destination(sty),
    {
        match (sty, self.ip) {
            (SocketType::Ipv6, IpAddress::V4(a, b, c, d)) => SocketAddress {
                ip: IpAddress::V6(
                    0,
                    0,
                    0,
                    0,
                    0,
                    0xffff,
                    (a as u16) * 256 + (b as u16),
                    (c as u16) * 256 + (d as u16),
                ),
                port: self.port,
            },
            _ => self,
        }
    }
}

/// Mapping a destination and normalizing the result gives back the original
/// destination: the two address conversions of a dual-stack socket agree on
/// every address that is not itself in the mapped IPv6 form.
pub proof fn lemma_destination_round_trip(a: SocketAddress, sty: SocketType)
    requires
        !a.ip.spec_is_v4_mapped(),
    ensures
        a.spec_mapped_destination(sty).spec_normalized(sty) == a,
{
    match a.ip {
        IpAddress::V4(x, b, c, d) => {
            if sty is Ipv6 {
                let s6 = ((x as u16) * 256 + (b as u16)) as u16;
                let s7 = ((c as u16) * 256 + (d as u16)) as u16;
                assert(s6 / 256 == x && s6 % 256 == b);
                assert(s7 / 256 == c && s7 % 256 == d);
            }
        },
        IpAddress::V6(_, _, _, _, _, _, _, _) => {},
    }
}

/// Explicit congestion notification codepoint: the low two bits of the IP
/// header's TOS/traffic-class field. The pattern `0b00` (not-ECT) is the
/// absence of a codepoint, not a fourth variant.
#[derive(Debug, Copy, Clone, Eq, PartialEq, Structural)]
pub enum EcnCodepoint {
    /// ECN-capable transport, codepoint 0.
    ECT0,
    /// ECN-capable transport, codepoint 1.
    ECT1,
    /// Congestion experienced.
    CE,
}

impl EcnCodepoint {
    /// The two-bit value of this codepoint.
    pub open spec fn spec_bits(self) -> u8 {
        match self {
            EcnCodepoint::ECT0 => 0b10,
            EcnCodepoint::ECT1 => 0b01,
            EcnCodepoint::CE => 0b11,
        }
    }

    /// The two-bit value of this codepoint.
    pub fn bits(self) -> (r: u8)
        ensures
            r == self.spec_bits(),
    {
        match self {
            EcnCodepoint::ECT0 => 0b10,
            EcnCodepoint::ECT1 => 0b01,
            EcnCodepoint::CE => 0b11,
        }
    }

    /// What `from_bits` returns: the low two bits select the codepoint, and
    /// `0b00` means "no codepoint".
    pub open spec fn spec_from_bits(x: u8) -> Option<EcnCodepoint> {
        if x & 0b11 == 0b10 {
            Some(EcnCodepoint::ECT0)
        } else if x & 0b11 == 0b01 {
            Some(EcnCodepoint::ECT1)
        } else if x & 0b11 == 0b11 {
            Some(EcnCodepoint::CE)
        } else {
            None
        }
    }

    /// Create new object from the given bits.
    pub fn from_bits(x: u8) -> (r: Option<Self>)
        ensures
            r == Self::spec_from_bits(x),
    {
        if x & 0b11 == 0b10 {
            Some(EcnCodepoint::ECT0)
        } else if x & 0b11 == 0b01 {
            Some(EcnCodepoint::ECT1)
        } else if x & 0b11 == 0b11 {
            Some(EcnCodepoint::CE)
        } else {
            None
        }
    }
}

/// Masking away the high bits never changes the decoded codepoint:
/// `from_bits(x)` agrees with `from_bits(x & 0b11)` for every input.
pub proof fn lemma_from_bits_masked(x: u8)
    ensures
        EcnCodepoint::spec_from_bits(x) == EcnCodepoint::spec_from_bits(x & 0b11),
{
    assert((x & 0b11) & 0b11 == x & 0b11) by (bit_vector);
}

/// A codepoint's own bit pattern decodes back to the codepoint.
pub proof fn lemma_bits_round_trip(e: EcnCodepoint)
    ensures
        EcnCodepoint::spec_from_bits(e.spec_bits()) == Some(e),
{
    assert(2u8 & 0b11 == 2 && 1u8 & 0b11 == 1 && 3u8 & 0b11 == 3) by (bit_vector);
}

/// An outgoing packet.
#[derive(Debug)]
pub struct Transmit {
    /// The socket this datagram should be sent to.
    pub destination: SocketAddress,
    /// Explicit congestion notification bits to set on the packet.
    pub ecn: Option<EcnCodepoint>,
    /// Contents of the datagram.
    pub contents: Vec<u8>,
    /// The segment size if this transmission contains multiple datagrams.
    /// This is `None` if the transmit only contains a single datagram.
    pub segment_size: Option<usize>,
    /// Optional source IP address for the datagram.
    pub src_ip: Option<IpAddress>,
}

/// An incoming packet.
#[derive(Clone, Copy, Debug)]
pub struct RecvMeta {
    /// The socket this datagram was sent from.
    pub source: SocketAddress,
    /// Length of the payload of the packet.
    pub len: usize,
    /// Explicit congestion notification bits set on the packet.
    pub ecn: Option<EcnCodepoint>,
    /// Optional destination IP address of the datagram.
    pub dst_ip: Option<IpAddress>,
}

impl Default for RecvMeta {
    /// The "nothing received" value: unspecified source, zero length, and no
    /// optional metadata.
    fn default() -> (r: Self)
        ensures
            r.source.spec_is_unspecified(),
            r.len == 0,
            r.ecn is None,
            r.dst_ip is None,
    {
        RecvMeta { source: SocketAddress::unspecified(), len: 0, ecn: None, dst_ip: None }
    }
}

} // verus!
