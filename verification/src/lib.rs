//! Low-level UDP transport primitives: ECN marking, generic segmentation
//! offload (GSO), kernel control-message encoding and decoding, and the
//! partial-success bookkeeping of batched send/receive calls.

use vstd::prelude::*;

pub mod batch;
pub mod caps;
pub mod cmsg;
pub mod proto;

pub use proto::EcnCodepoint;
pub use proto::IpAddress;
pub use proto::RecvMeta;
pub use proto::SocketAddress;
pub use proto::SocketType;
pub use proto::Transmit;
pub use proto::UdpCapabilities;

verus! {

/// Number of UDP datagrams submitted per batched syscall on the batching
/// platform; callers of the single-datagram fallback path treat this as an
/// upper bound only.
pub const BATCH_SIZE: usize = 32;

} // verus!
