use udp_socket::batch::SendDecision;
use udp_socket::batch::send_step;

#[test]
fn error_with_progress_reports_the_count() {
    match send_step::<&str>(7, 40, Err("would block")) {
        SendDecision::Done(n) => assert_eq!(n, 7),
        _ => panic!("an error after progress must be swallowed"),
    }
}

#[test]
fn error_without_progress_surfaces() {
    match send_step(0, 40, Err("network down")) {
        SendDecision::Fail(e) => assert_eq!(e, "network down"),
        _ => panic!("an error with zero progress must surface"),
    }
}

#[test]
fn completion_counts_accumulate() {
    assert_eq!(send_step::<&str>(0, 40, Ok(8)), SendDecision::Continue(8));
    assert_eq!(send_step::<&str>(8, 40, Ok(32)), SendDecision::Done(40));
    assert_eq!(send_step::<&str>(39, 40, Ok(1)), SendDecision::Done(40));
}

#[test]
fn empty_completion_asks_for_another_syscall() {
    assert_eq!(send_step::<&str>(3, 10, Ok(0)), SendDecision::Continue(3));
}

#[test]
fn overcounting_kernel_is_credited_up_to_total() {
    assert_eq!(send_step::<&str>(30, 40, Ok(usize::MAX)), SendDecision::Done(40));
}

/// End-to-end partial-success scenario: a simulated kernel accepts only a
/// prefix of each call; every call reports `Ok` with the prefix length, and
/// resuming from the reported count delivers all 40 datagrams exactly once,
/// in order.
#[test]
fn forty_transmits_across_retries() {
    let total = 40usize;
    // The kernel "would block" the first time each of these datagram indices
    // is attempted.
    let mut blocks_once = vec![false; total];
    blocks_once[7] = true;
    blocks_once[19] = true;
    blocks_once[33] = true;
    blocks_once[39] = true;

    let mut delivered: Vec<usize> = Vec::new();
    let mut start = 0usize;
    let mut calls = 0usize;
    while start < total {
        // One send call over transmits[start..], on the single-datagram path.
        let call_total = total - start;
        let mut sent = 0usize;
        let result: Result<usize, &str> = loop {
            let index = start + sent;
            let outcome: Result<usize, &str> = if blocks_once[index] {
                blocks_once[index] = false;
                Err("would block")
            } else {
                delivered.push(index);
                Ok(1)
            };
            match send_step(sent, call_total, outcome) {
                SendDecision::Continue(n) => sent = n,
                SendDecision::Done(n) => break Ok(n),
                SendDecision::Fail(e) => break Err(e),
            }
        };
        let n = match result {
            Ok(n) => n,
            Err(e) => {
                // Only the very first datagram of a call can surface an
                // error; none of the simulated blocks sits there with zero
                // progress except transient ones, which clear on retry.
                assert_eq!(e, "would block");
                0
            }
        };
        start += n;
        calls += 1;
        assert!(calls < 100, "the scenario must terminate");
    }
    assert_eq!(start, total);
    let expected: Vec<usize> = (0..total).collect();
    assert_eq!(delivered, expected, "each datagram delivered exactly once, in order");
}
