use udp_socket::batch::segments;

fn payload(n: usize) -> Vec<u8> {
    (0..n).map(|i| (i % 251) as u8).collect()
}

/// Segmentation scenario: contents of exactly three segment sizes become
/// three separate wire datagrams of the segment size, never one oversized
/// datagram.
#[test]
fn three_full_segments() {
    let s = 1200usize;
    let contents = payload(3 * s);
    let datagrams = segments(&contents, s);
    assert_eq!(datagrams.len(), 3);
    for d in &datagrams {
        assert_eq!(d.len(), s);
    }
    let rejoined: Vec<u8> = datagrams.concat();
    assert_eq!(rejoined, contents);
}

#[test]
fn remainder_makes_a_short_last_datagram() {
    let s = 100usize;
    let contents = payload(2 * s + 1);
    let datagrams = segments(&contents, s);
    assert_eq!(datagrams.len(), 3);
    assert_eq!(datagrams[0].len(), s);
    assert_eq!(datagrams[1].len(), s);
    assert_eq!(datagrams[2].len(), 1);
    let rejoined: Vec<u8> = datagrams.concat();
    assert_eq!(rejoined, contents);
}

#[test]
fn short_contents_stay_one_datagram() {
    let contents = payload(42);
    let datagrams = segments(&contents, 1200);
    assert_eq!(datagrams.len(), 1);
    assert_eq!(datagrams[0], contents);
}

#[test]
fn empty_contents_make_no_datagram() {
    let contents: Vec<u8> = Vec::new();
    let datagrams = segments(&contents, 1200);
    assert!(datagrams.is_empty());
}
