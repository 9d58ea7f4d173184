use udp_socket::EcnCodepoint;
use udp_socket::IpAddress;
use udp_socket::RecvMeta;
use udp_socket::SocketAddress;
use udp_socket::SocketType;
use udp_socket::Transmit;
use udp_socket::cmsg::decode_cmsgs;
use udp_socket::cmsg::fill_recv_batch;
use udp_socket::cmsg::encode_batch;
use udp_socket::cmsg::encode_cmsgs;
use udp_socket::cmsg::recv_meta_of;

fn transmit(
    ecn: Option<EcnCodepoint>,
    contents: Vec<u8>,
    segment_size: Option<usize>,
    src_ip: Option<IpAddress>,
) -> Transmit {
    Transmit {
        destination: SocketAddress { ip: IpAddress::V4(127, 0, 0, 1), port: 4433 },
        ecn,
        contents,
        segment_size,
        src_ip,
    }
}

#[test]
fn ecn_entry_layout_ipv4() {
    let t = transmit(Some(EcnCodepoint::CE), vec![1, 2, 3], None, None);
    let buf = encode_cmsgs(SocketType::Ipv4, 1, &t);
    let expected = vec![
        20, 0, 0, 0, 0, 0, 0, 0, // length: 16-byte header + 4 bytes of data
        0, 0, 0, 0, // level IPPROTO_IP
        1, 0, 0, 0, // type IP_TOS
        3, 0, 0, 0, // CE
        0, 0, 0, 0, // padding to the 8-byte boundary
    ];
    assert_eq!(buf, expected);
}

#[test]
fn ecn_entry_layout_ipv6() {
    let t = transmit(Some(EcnCodepoint::ECT0), vec![], None, None);
    let buf = encode_cmsgs(SocketType::Ipv6Only, 1, &t);
    let expected = vec![
        20, 0, 0, 0, 0, 0, 0, 0, //
        41, 0, 0, 0, // level IPPROTO_IPV6
        67, 0, 0, 0, // type IPV6_TCLASS
        2, 0, 0, 0, // ECT0
        0, 0, 0, 0,
    ];
    assert_eq!(buf, expected);
}

#[test]
fn no_ecn_no_entry() {
    let t = transmit(None, vec![0; 64], None, None);
    assert!(encode_cmsgs(SocketType::Ipv4, 1, &t).is_empty());
}

#[test]
fn segment_entry_layout() {
    let t = transmit(None, vec![0; 3600], Some(1200), None);
    let buf = encode_cmsgs(SocketType::Ipv4, 64, &t);
    let expected = vec![
        18, 0, 0, 0, 0, 0, 0, 0, // length: 16-byte header + 2 bytes of data
        17, 0, 0, 0, // level SOL_UDP
        103, 0, 0, 0, // type UDP_SEGMENT
        176, 4, // 1200 little-endian
        0, 0, 0, 0, 0, 0, // padding
    ];
    assert_eq!(buf, expected);
}

#[test]
fn segment_entry_needs_gso_capability() {
    let t = transmit(None, vec![0; 3600], Some(1200), None);
    assert!(encode_cmsgs(SocketType::Ipv4, 1, &t).is_empty());
}

#[test]
fn source_entry_layout_v4() {
    let t = transmit(None, vec![], None, Some(IpAddress::V4(10, 0, 0, 1)));
    let buf = encode_cmsgs(SocketType::Ipv4, 1, &t);
    let expected = vec![
        28, 0, 0, 0, 0, 0, 0, 0, // length: 16-byte header + 12 bytes of data
        0, 0, 0, 0, // level IPPROTO_IP
        8, 0, 0, 0, // type IP_PKTINFO
        0, 0, 0, 0, // interface index
        10, 0, 0, 1, // source address
        0, 0, 0, 0, // header-destination slot
        0, 0, 0, 0, // padding
    ];
    assert_eq!(buf, expected);
}

#[test]
fn source_entry_layout_v6() {
    let t = transmit(None, vec![], None, Some(IpAddress::V6(0xfe80, 0, 0, 0, 0, 0, 0, 0x0c01)));
    let buf = encode_cmsgs(SocketType::Ipv6Only, 1, &t);
    let expected = vec![
        36, 0, 0, 0, 0, 0, 0, 0, // length: 16-byte header + 20 bytes of data
        41, 0, 0, 0, // level IPPROTO_IPV6
        50, 0, 0, 0, // type IPV6_PKTINFO
        0xfe, 0x80, 0, 0, 0, 0, 0, 0, 0, 0, 0, 0, 0, 0, 0x0c, 0x01, // address, big-endian
        0, 0, 0, 0, // interface index
        0, 0, 0, 0, // padding
    ];
    assert_eq!(buf, expected);
}

#[test]
fn entries_concatenate_in_order() {
    let t = transmit(
        Some(EcnCodepoint::CE),
        vec![0; 2400],
        Some(1200),
        Some(IpAddress::V4(10, 0, 0, 1)),
    );
    let buf = encode_cmsgs(SocketType::Ipv4, 64, &t);
    assert_eq!(buf.len(), 24 + 24 + 32);
    assert_eq!(&buf[0..8], &[20, 0, 0, 0, 0, 0, 0, 0]);
    assert_eq!(&buf[24..32], &[18, 0, 0, 0, 0, 0, 0, 0]);
    assert_eq!(&buf[48..56], &[28, 0, 0, 0, 0, 0, 0, 0]);
}

#[test]
fn decode_single_byte_tos() {
    // A TOS entry as the kernel delivers it on receive: one data byte.
    let control = vec![
        17, 0, 0, 0, 0, 0, 0, 0, // length: 16-byte header + 1 byte of data
        0, 0, 0, 0, // IPPROTO_IP
        1, 0, 0, 0, // IP_TOS
        2, 0, 0, 0, 0, 0, 0, 0, // ECT0, then padding
    ];
    let (ecn, dst) = decode_cmsgs(SocketType::Ipv4, &control);
    assert_eq!(ecn, Some(EcnCodepoint::ECT0));
    assert_eq!(dst, None);
}

#[test]
fn decode_skips_unrecognized_entries() {
    let mut control = vec![
        24, 0, 0, 0, 0, 0, 0, 0, // an 8-byte entry of some other option
        1, 0, 0, 0, //
        29, 0, 0, 0, //
        9, 9, 9, 9, 9, 9, 9, 9,
    ];
    control.extend_from_slice(&[
        20, 0, 0, 0, 0, 0, 0, 0, //
        41, 0, 0, 0, // IPPROTO_IPV6
        67, 0, 0, 0, // IPV6_TCLASS
        1, 0, 0, 0, // ECT1
        0, 0, 0, 0,
    ]);
    let (ecn, dst) = decode_cmsgs(SocketType::Ipv6Only, &control);
    assert_eq!(ecn, Some(EcnCodepoint::ECT1));
    assert_eq!(dst, None);
}

#[test]
fn decode_tos_needs_matching_family() {
    let control = vec![
        17, 0, 0, 0, 0, 0, 0, 0, //
        0, 0, 0, 0, // IPPROTO_IP
        1, 0, 0, 0, // IP_TOS
        3, 0, 0, 0, 0, 0, 0, 0,
    ];
    let (ecn, _) = decode_cmsgs(SocketType::Ipv6Only, &control);
    assert_eq!(ecn, None);
}

fn pktinfo_v6(addr: [u8; 16]) -> Vec<u8> {
    let mut control = vec![
        36, 0, 0, 0, 0, 0, 0, 0, //
        41, 0, 0, 0, // IPPROTO_IPV6
        50, 0, 0, 0, // IPV6_PKTINFO
    ];
    control.extend_from_slice(&addr);
    control.extend_from_slice(&[0, 0, 0, 0]); // interface index
    control.extend_from_slice(&[0, 0, 0, 0]); // padding
    control
}

#[test]
fn decode_destination_normalizes_mapped_addresses() {
    let mapped = [0, 0, 0, 0, 0, 0, 0, 0, 0, 0, 0xff, 0xff, 192, 0, 2, 1];
    let control = pktinfo_v6(mapped);
    let (_, dst) = decode_cmsgs(SocketType::Ipv6, &control);
    assert_eq!(dst, Some(IpAddress::V4(192, 0, 2, 1)));
    let (_, dst) = decode_cmsgs(SocketType::Ipv6Only, &control);
    assert_eq!(dst, Some(IpAddress::V6(0, 0, 0, 0, 0, 0xffff, 0xc000, 0x0201)));
}

#[test]
fn decode_destination_v4_pktinfo() {
    let control = vec![
        28, 0, 0, 0, 0, 0, 0, 0, //
        0, 0, 0, 0, // IPPROTO_IP
        8, 0, 0, 0, // IP_PKTINFO
        0, 0, 0, 0, // interface index
        10, 0, 0, 7, // local interface address
        192, 0, 2, 9, // header destination
        0, 0, 0, 0,
    ];
    let (_, dst) = decode_cmsgs(SocketType::Ipv4, &control);
    assert_eq!(dst, Some(IpAddress::V4(192, 0, 2, 9)));
}

#[test]
fn decode_tolerates_garbage() {
    assert_eq!(decode_cmsgs(SocketType::Ipv4, &vec![]), (None, None));
    assert_eq!(decode_cmsgs(SocketType::Ipv4, &vec![5, 0, 0]), (None, None));
    // A length running past the end of the buffer stops the scan.
    let control = vec![200, 0, 0, 0, 0, 0, 0, 0, 0, 0, 0, 0, 1, 0, 0, 0, 3, 0, 0, 0];
    assert_eq!(decode_cmsgs(SocketType::Ipv4, &control), (None, None));
}

/// Round-trip scenario through the codec: a CE-marked transmit's control
/// buffer, read back on the receive side, reports CE and the payload length.
#[test]
fn ce_round_trip() {
    let payload = vec![7u8; 900];
    let t = transmit(Some(EcnCodepoint::CE), payload.clone(), None, None);
    let source = SocketAddress { ip: IpAddress::V4(127, 0, 0, 1), port: 5000 };
    for sty in [SocketType::Ipv4, SocketType::Ipv6, SocketType::Ipv6Only] {
        let control = encode_cmsgs(sty, 1, &t);
        let meta = recv_meta_of(sty, source, payload.len(), &control);
        assert_eq!(meta.ecn, Some(EcnCodepoint::CE));
        assert_eq!(meta.len, payload.len());
        assert_eq!(meta.source, source);
    }
}

#[test]
fn batch_packs_one_control_buffer_per_transmit() {
    let transmits: Vec<Transmit> = (0..3)
        .map(|i| transmit(Some(EcnCodepoint::CE), vec![i as u8; 100], None, None))
        .collect();
    let bufs = encode_batch(SocketType::Ipv4, 1, &transmits);
    assert_eq!(bufs.len(), 3);
    for (buf, t) in bufs.iter().zip(&transmits) {
        assert_eq!(buf, &encode_cmsgs(SocketType::Ipv4, 1, t));
    }
}

#[test]
fn batch_is_capped_at_the_batch_size() {
    let transmits: Vec<Transmit> =
        (0..udp_socket::BATCH_SIZE + 9).map(|_| transmit(None, vec![0], None, None)).collect();
    let bufs = encode_batch(SocketType::Ipv4, 1, &transmits);
    assert_eq!(bufs.len(), udp_socket::BATCH_SIZE);
}

#[test]
fn batch_receive_fills_each_completed_slot() {
    let lens = vec![10usize, 20usize];
    let sources = vec![
        SocketAddress { ip: IpAddress::V4(192, 0, 2, 1), port: 1111 },
        SocketAddress { ip: IpAddress::V6(0, 0, 0, 0, 0, 0xffff, 0x0a00, 0x0001), port: 2222 },
    ];
    let tos = vec![
        17, 0, 0, 0, 0, 0, 0, 0, //
        0, 0, 0, 0, // IPPROTO_IP
        1, 0, 0, 0, // IP_TOS
        3, 0, 0, 0, 0, 0, 0, 0, // CE
    ];
    let controls = vec![tos, vec![]];
    let mut meta = vec![RecvMeta::default(); 3];
    let n = fill_recv_batch(SocketType::Ipv6, &lens, &sources, &controls, &mut meta);
    assert_eq!(n, 2);
    assert_eq!(meta[0].len, 10);
    assert_eq!(meta[0].ecn, Some(EcnCodepoint::CE));
    assert_eq!(meta[0].source, sources[0]);
    assert_eq!(meta[1].len, 20);
    assert_eq!(meta[1].ecn, None);
    // On the dual-stack socket the mapped source collapses to plain IPv4.
    assert_eq!(meta[1].source, SocketAddress { ip: IpAddress::V4(10, 0, 0, 1), port: 2222 });
    // The slot past the completed count is untouched.
    assert_eq!(meta[2].len, 0);
}

#[test]
fn absent_entries_decode_to_absent_fields() {
    let t = transmit(None, vec![1, 2, 3], None, None);
    let control = encode_cmsgs(SocketType::Ipv4, 1, &t);
    let source = SocketAddress { ip: IpAddress::V4(127, 0, 0, 1), port: 5000 };
    let meta = recv_meta_of(SocketType::Ipv4, source, 3, &control);
    assert_eq!(meta.ecn, None);
    assert_eq!(meta.dst_ip, None);
    assert_eq!(meta.len, 3);
}
