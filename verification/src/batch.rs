//! The batch transceiver's bookkeeping: the partial-success policy of a send
//! call spread over several syscalls, the filling of receive metadata, and
//! the expansion of one oversized transmit into wire-sized datagrams.
//!
//! The syscalls themselves are socket I/O and live with the caller, which
//! runs the loop: it issues one syscall, hands its outcome to `send_step`,
//! and performs the decision that comes back.

use vstd::prelude::*;

use crate::proto::RecvMeta;
use crate::proto::SocketAddress;

verus! {

/// What the caller of `send_step` must do next.
#[derive(Debug, PartialEq, Eq)]
pub enum SendDecision<E> {
    /// Issue the next syscall; this many transmits are completed so far.
    Continue(usize),
    /// The call is over; report this many completed transmits as its result.
    Done(usize),
    /// Nothing was completed; surface this error as the call's result.
    Fail(E),
}

/// One step of the send policy. `sent` of `total` transmits were completed
/// before the syscall whose outcome is given; `Ok(m)` means the kernel
/// completed `m` more operations, `Err` that the syscall failed.
///
/// An error after at least one completion is swallowed and the count of
/// successes reported, so that the caller resumes from the first unfinished
/// entry; an error with zero prior progress is surfaced as-is. A kernel
/// completion count is credited at most up to `total`.
pub fn send_step<E>(sent: usize, total: usize, outcome: Result<usize, E>) -> (r: SendDecision<E>)
    requires
        sent < total,
    ensures
        outcome matches Ok(m) ==> {
            &&& sent + m < total ==> r == SendDecision::<E>::Continue((sent + m) as usize)
            &&& sent + m >= total ==> r == SendDecision::<E>::Done(total)
        },
        outcome matches Err(e) ==> r == (if sent > 0 {
            SendDecision::<E>::Done(sent)
        } else {
            SendDecision::<E>::Fail(e)
        }),
{
    match outcome {
        Ok(m) => {
            let n = if m < total - sent {
                sent + m
            } else {
                total
            };
            if n < total {
                SendDecision::Continue(n)
            } else {
                SendDecision::Done(n)
            }
        },
        Err(e) => if sent > 0 {
            SendDecision::Done(sent)
        } else {
            SendDecision::Fail(e)
        },
    }
}

/// Fill the first metadata slot for the receive path that gets no control
/// messages from the kernel: the slot records the source and payload length
/// of the one received datagram and leaves ECN and destination absent. Every
/// other slot is untouched, and the completion count is exactly 1.
pub fn fallback_recv_fill(meta: &mut Vec<RecvMeta>, len: usize, source: SocketAddress) -> (r:
    usize)
    requires
        old(meta).len() >= 1,
    ensures
        r == 1,
        final(meta)@.len() == old(meta)@.len(),
        final(meta)@[0].source == source,
        final(meta)@[0].len == len,
        final(meta)@[0].ecn is None,
        final(meta)@[0].dst_ip is None,
        forall|i: int| 1 <= i < old(meta)@.len() ==> final(meta)@[i] == old(meta)@[i],
{
    meta.set(0, RecvMeta { source, len, ecn: None, dst_ip: None });
    1
}

/// The views of a sequence of byte vectors.
pub open spec fn views_of(r: Seq<Vec<u8>>) -> Seq<Seq<u8>> {
    r.map_values(|v: Vec<u8>| v@)
}

/// `s` cut into `k`-byte wire datagrams, in order, the last one possibly
/// shorter. Empty contents give no datagrams.
pub open spec fn spec_segments(s: Seq<u8>, k: nat) -> Seq<Seq<u8>>
    decreases s.len(),
{
    if k == 0 || s.len() == 0 {
        Seq::empty()
    } else if s.len() <= k {
        seq![s]
    } else {
        seq![s.take(k as int)] + spec_segments(s.skip(k as int), k)
    }
}

/// Cut `contents` into datagrams of `segment_size` bytes, the last one
/// possibly shorter: what a platform without segmentation offload sends one
/// by one in place of a single segmented transmit.
pub fn segments(contents: &Vec<u8>, segment_size: usize) -> (r: Vec<Vec<u8>>)
    requires
        segment_size >= 1,
    ensures
        views_of(r@) == spec_segments(contents@, segment_size as nat),
{
    let n = contents.len();
    let mut r: Vec<Vec<u8>> = Vec::new();
    let mut off: usize = 0;
    proof {
        assert(contents@.skip(0) =~= contents@);
        assert(views_of(r@) + spec_segments(contents@, segment_size as nat) =~= spec_segments(
            contents@,
            segment_size as nat,
        ));
    }
    while off < n
        invariant
            segment_size >= 1,
            n == contents@.len(),
            off <= n,
            spec_segments(contents@, segment_size as nat) == views_of(r@) + spec_segments(
                contents@.skip(off as int),
                segment_size as nat,
            ),
        decreases n - off,
    {
        let rem = n - off;
        let take = if rem <= segment_size {
            rem
        } else {
            segment_size
        };
        let mut chunk: Vec<u8> = Vec::new();
        let mut j: usize = 0;
        while j < take
            invariant
                j <= take,
                n == contents@.len(),
                off + take <= n,
                chunk@ == contents@.subrange(off as int, off as int + j as int),
            decreases take - j,
        {
            chunk.push(contents[off + j]);
            j += 1;
            proof {
                assert(chunk@ =~= contents@.subrange(off as int, off as int + j as int));
            }
        }
        proof {
            let tail = contents@.skip(off as int);
            assert(tail =~= contents@.subrange(off as int, contents@.len() as int));
            if tail.len() <= segment_size {
                assert(chunk@ =~= tail);
                assert(spec_segments(tail, segment_size as nat) == seq![tail]);
            } else {
                assert(chunk@ =~= tail.take(segment_size as int));
                assert(contents@.skip((off + take) as int) =~= tail.skip(segment_size as int));
            }
            assert(views_of(r@.push(chunk)) =~= views_of(r@).push(chunk@));
        }
        let ghost prev = r@;
        r.push(chunk);
        off = off + take;
        proof {
            assert(views_of(prev).push(chunk@) + spec_segments(
                contents@.skip(off as int),
                segment_size as nat,
            ) =~= views_of(prev) + (seq![chunk@] + spec_segments(
                contents@.skip(off as int),
                segment_size as nat,
            )));
        }
    }
    proof {
        assert(contents@.skip(off as int) =~= Seq::<u8>::empty());
        assert(views_of(r@) + spec_segments(Seq::<u8>::empty(), segment_size as nat) =~= views_of(
            r@,
        ));
    }
    r
}

/// Every wire datagram but the last is exactly `k` bytes, and the last is
/// between 1 and `k` bytes.
pub proof fn lemma_segments_sizes(s: Seq<u8>, k: nat)
    requires
        k >= 1,
    ensures
        forall|i: int|
            0 <= i < spec_segments(s, k).len() - 1 ==> (#[trigger] spec_segments(s, k)[i]).len()
                == k,
        spec_segments(s, k).len() > 0 ==> 0 < spec_segments(s, k).last().len() <= k,
    decreases s.len(),
{
    let segs = spec_segments(s, k);
    if s.len() == 0 {
    } else if s.len() <= k {
        assert(segs.len() == 1);
    } else {
        lemma_segments_sizes(s.skip(k as int), k);
        let rest = spec_segments(s.skip(k as int), k);
        assert(s.skip(k as int).len() > 0);
        assert(rest.len() > 0);
        assert forall|i: int| 0 <= i < segs.len() - 1 implies (#[trigger] segs[i]).len() == k by {
            if i == 0 {
                assert(segs[0] == s.take(k as int));
            } else {
                assert(segs[i] == rest[i - 1]);
            }
        }
        assert(segs.last() == rest.last());
    }
}

/// How many wire datagrams a transmit becomes: the ceiling of the contents
/// length over the segment size.
pub proof fn lemma_segments_count(s: Seq<u8>, k: nat)
    requires
        k >= 1,
    ensures
        spec_segments(s, k).len() == (s.len() + k - 1) / (k as int),
    decreases s.len(),
{
    if s.len() == 0 {
        let ki = k as int;
        assert((ki - 1) / ki == 0) by (nonlinear_arith)
            requires
                ki >= 1,
        ;
    } else if s.len() <= k {
        let n = s.len() as int;
        let ki = k as int;
        assert((n + ki - 1) / ki == 1) by (nonlinear_arith)
            requires
                1 <= n <= ki,
        ;
    } else {
        lemma_segments_count(s.skip(k as int), k);
        let n = s.len() as int;
        let ki = k as int;
        assert(((n - ki) + ki - 1) / ki + 1 == (n + ki - 1) / ki) by (nonlinear_arith)
            requires
                n > ki >= 1,
        ;
    }
}

/// The wire datagrams reassemble, in order, to exactly the transmitted
/// contents: segmentation neither drops, duplicates, nor reorders a byte.
pub proof fn lemma_segments_flatten(s: Seq<u8>, k: nat)
    requires
        k >= 1,
    ensures
        spec_segments(s, k).flatten() == s,
    decreases s.len(),
{
    let segs = spec_segments(s, k);
    if s.len() == 0 {
        assert(segs.flatten() =~= s);
    } else if s.len() <= k {
        assert(segs.drop_first() =~= Seq::<Seq<u8>>::empty());
        assert(Seq::<Seq<u8>>::empty().flatten() =~= Seq::<u8>::empty());
        assert(segs.flatten() =~= s);
    } else {
        lemma_segments_flatten(s.skip(k as int), k);
        let rest = spec_segments(s.skip(k as int), k);
        assert(segs.first() == s.take(k as int));
        assert(segs.drop_first() =~= rest);
        assert(segs.flatten() == s.take(k as int) + rest.flatten());
        assert(s.take(k as int) + s.skip(k as int) =~= s);
    }
}

} // verus!
