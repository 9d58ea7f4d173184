use udp_socket::IpAddress;
use udp_socket::RecvMeta;
use udp_socket::SocketAddress;
use udp_socket::batch::fallback_recv_fill;

#[test]
fn default_recv_meta_is_empty() {
    let meta = RecvMeta::default();
    assert_eq!(meta.len, 0);
    assert_eq!(meta.ecn, None);
    assert_eq!(meta.dst_ip, None);
    assert_eq!(meta.source, SocketAddress { ip: IpAddress::V6(0, 0, 0, 0, 0, 0, 0, 0), port: 0 });
}

#[test]
fn default_source_differs_from_real_peers() {
    let meta = RecvMeta::default();
    let peer4 = SocketAddress { ip: IpAddress::V4(127, 0, 0, 1), port: 4433 };
    let peer6 = SocketAddress { ip: IpAddress::V6(0, 0, 0, 0, 0, 0, 0, 1), port: 4433 };
    assert_ne!(meta.source, peer4);
    assert_ne!(meta.source, peer6);
}

#[test]
fn fallback_fill_populates_exactly_one_slot() {
    let mut meta = vec![RecvMeta::default()];
    let source = SocketAddress { ip: IpAddress::V4(192, 0, 2, 7), port: 9000 };
    let n = fallback_recv_fill(&mut meta, 31, source);
    assert_eq!(n, 1);
    assert_eq!(meta.len(), 1);
    assert_eq!(meta[0].source, source);
    assert_eq!(meta[0].len, 31);
    assert_eq!(meta[0].ecn, None);
    assert_eq!(meta[0].dst_ip, None);
}

#[test]
fn fallback_fill_leaves_other_slots_alone() {
    let mut meta = vec![RecvMeta::default(); 3];
    meta[2].len = 77;
    let source = SocketAddress { ip: IpAddress::V6(0xfe80, 0, 0, 0, 0, 0, 0, 9), port: 1 };
    let n = fallback_recv_fill(&mut meta, 5, source);
    assert_eq!(n, 1);
    assert_eq!(meta[0].len, 5);
    assert_eq!(meta[0].source, source);
    assert_eq!(meta[1].len, 0);
    assert_eq!(meta[2].len, 77);
}
