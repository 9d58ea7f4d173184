//! Capability probing and socket classification decisions.
//!
//! The kernel-facing side of both operations (trying a segmentation socket
//! option, reading the bound address and the `only_v6` flag) is plain socket
//! I/O and lives with the caller; the functions here turn what the kernel
//! reported into the capability snapshot and the address-family mode.

use vstd::prelude::*;

use crate::proto::SocketType;
use crate::proto::UdpCapabilities;

verus! {

/// The segment count the capability snapshot reports for a probe outcome:
/// the probed count where the kernel accepted the segmentation option with a
/// positive count, and 1 wherever segmentation is unsupported, rejected, or
/// reported as zero.
pub open spec fn spec_gso_segments(probe: Option<usize>) -> usize {
    match probe {
        Some(n) => if n >= 1 {
            n
        } else {
            1
        },
        None => 1,
    }
}

/// Build the capability snapshot from a segmentation probe outcome.
///
/// `probe` is `Some(n)` when the kernel accepted the segmentation option and
/// `n` back-to-back segments may be packed into one transmit; it is `None` on
/// a platform without the feature or when the kernel rejected the option.
/// A rejected probe is not an error: it degrades to a single segment.
pub fn gso_capabilities(probe: Option<usize>) -> (r: UdpCapabilities)
    ensures
        r.max_gso_segments == spec_gso_segments(probe),
        r.max_gso_segments >= 1,
{
    let max_gso_segments = match probe {
        Some(n) => if n >= 1 {
            n
        } else {
            1
        },
        None => 1,
    };
    UdpCapabilities { max_gso_segments }
}

/// The address-family mode of a socket whose bound address has the given
/// family: IPv4 sockets are `Ipv4`; an IPv6 socket is dual-stack exactly when
/// the kernel reported its `only_v6` flag as off, and `Ipv6Only` when the
/// flag is set or could not be read.
pub open spec fn spec_socket_type(local_is_ipv4: bool, only_v6: Option<bool>) -> SocketType {
    if local_is_ipv4 {
        SocketType::Ipv4
    } else {
        match only_v6 {
            Some(false) => SocketType::Ipv6,
            _ => SocketType::Ipv6Only,
        }
    }
}

/// Classify a bound socket into its address-family mode.
///
/// `local_is_ipv4` is the family of the bound local address; `only_v6` is the
/// socket's `only_v6` flag where the platform exposes it, `None` where it
/// does not.
pub fn classify_socket(local_is_ipv4: bool, only_v6: Option<bool>) -> (r: SocketType)
    ensures
        r == spec_socket_type(local_is_ipv4, only_v6),
{
    if local_is_ipv4 {
        SocketType::Ipv4
    } else {
        match only_v6 {
            Some(false) => SocketType::Ipv6,
            _ => SocketType::Ipv6Only,
        }
    }
}

} // verus!
