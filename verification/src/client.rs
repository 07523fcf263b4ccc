//! The streaming client's two pump halves, as verified computations.
//!
//! The inbound pump decodes each received wire frame and feeds the
//! jitter buffer, favouring continuity: when the buffer is full the
//! oldest samples are evicted so only the most recent ones remain. The
//! playback callback takes one sample at a time and substitutes silence
//! on underflow, never waiting. The capture side drains whatever is
//! buffered, without blocking, for encoding and sending. The reconnect
//! policy around these pumps lives in `backoff`.

use crate::codec::decoded_samples;
use crate::ring::RingBuffer;
use vstd::prelude::*;

verus! {

/// The last `cap` elements of a sequence (all of them when it is short).
pub open spec fn tail_of<T>(s: Seq<T>, cap: nat) -> Seq<T> {
    if s.len() <= cap {
        s
    } else {
        s.skip(s.len() - cap)
    }
}

/// The sample played on underflow in place of stale audio.
pub open spec fn silence() -> u32 {
    0
}

/// Decode one received wire frame and feed the jitter buffer, evicting
/// the oldest samples when full: afterwards the buffer holds exactly
/// the most recent samples of the old contents followed by the frame.
/// Refused (and the buffer untouched) only when the frame is not a
/// whole number of samples.
pub fn ingest_frame(buf: &mut RingBuffer<u32>, bytes: &Vec<u8>) -> (ok: bool)
    requires
        old(buf).wf(),
    ensures
        final(buf).wf(),
        final(buf).spec_capacity() == old(buf).spec_capacity(),
        ok <==> bytes@.len() % 4 == 0,
        ok ==> final(buf)@ == tail_of(
            old(buf)@ + decoded_samples(bytes@),
            old(buf).spec_capacity() as nat,
        ),
        !ok ==> final(buf)@ == old(buf)@,
{
    let decoded = crate::codec::decode_audio(bytes);
    match decoded {
        None => false,
        Some(samples) => {
            let ghost orig = buf@;
            let ghost cap = buf.spec_capacity() as nat;
            proof {
                buf.lemma_len_bound();
                assert(orig + samples@.take(0) =~= orig);
            }
            let n = samples.len();
            let mut i: usize = 0;
            while i < n
                invariant
                    buf.wf(),
                    buf.spec_capacity() as nat == cap,
                    n == samples@.len(),
                    i <= n,
                    buf@ == tail_of(orig + samples@.take(i as int), cap),
                decreases n - i,
            {
                let ghost s = orig + samples@.take(i as int);
                let x = samples[i];
                let _ = buf.push_evict(x);
                proof {
                    buf.lemma_len_bound();
                    let s1 = orig + samples@.take(i as int + 1);
                    assert(s1 =~= s.push(x));
                    if s.len() < cap {
                        assert(tail_of(s, cap) == s);
                        assert(buf@ =~= tail_of(s1, cap));
                    } else {
                        let t0 = tail_of(s, cap);
                        let t1 = tail_of(s1, cap);
                        assert(t0.len() == cap);
                        assert(t1.len() == cap);
                        assert(buf@ == t0.drop_first().push(x));
                        assert(buf@.len() == cap);
                        assert forall|j: int| 0 <= j < cap implies buf@[j] == t1[j] by {
                            if j < cap - 1 {
                                assert(buf@[j] == t0[j + 1]);
                                assert(t0[j + 1] == s[s.len() - cap + j + 1]);
                                assert(t1[j] == s1[s1.len() - cap + j]);
                                assert(s1[s1.len() - cap + j] == s[s.len() - cap + j + 1]);
                            } else {
                                assert(buf@[j] == x);
                                assert(t1[j] == s1[s1.len() - 1]);
                            }
                        }
                        assert(buf@ =~= t1);
                    }
                }
                i = i + 1;
            }
            proof {
                assert(orig + samples@.take(n as int) =~= orig + samples@);
            }
            true
        },
    }
}

/// One step of the playback callback: the oldest buffered sample, or
/// silence on underflow — never a wait, never stale audio.
pub fn next_playback_sample(buf: &mut RingBuffer<u32>) -> (s: u32)
    requires
        old(buf).wf(),
    ensures
        final(buf).wf(),
        final(buf).spec_capacity() == old(buf).spec_capacity(),
        old(buf)@.len() == 0 ==> s == silence() && final(buf)@ == old(buf)@,
        old(buf)@.len() > 0 ==> s == old(buf)@[0] && final(buf)@ == old(buf)@.drop_first(),
{
    let popped = buf.try_pop();
    match popped {
        Some(x) => x,
        None => 0,
    }
}

/// Drain up to `max` captured samples for encoding: the oldest ones,
/// in capture order, leaving the rest buffered. Never blocks: it takes
/// what is there and no more.
pub fn drain_samples(buf: &mut RingBuffer<u32>, max: usize) -> (out: Vec<u32>)
    requires
        old(buf).wf(),
    ensures
        final(buf).wf(),
        final(buf).spec_capacity() == old(buf).spec_capacity(),
        out@.len() == (if max <= old(buf)@.len() {
            max as nat
        } else {
            old(buf)@.len()
        }),
        out@ == old(buf)@.take(out@.len() as int),
        final(buf)@ == old(buf)@.skip(out@.len() as int),
{
    let ghost orig = buf@;
    let avail = buf.len();
    let n = if max < avail {
        max
    } else {
        avail
    };
    let mut out: Vec<u32> = Vec::new();
    let mut i: usize = 0;
    while i < n
        invariant
            buf.wf(),
            buf.spec_capacity() == old(buf).spec_capacity(),
            n <= orig.len(),
            i <= n,
            out@.len() == i,
            out@ == orig.take(i as int),
            buf@ == orig.skip(i as int),
        decreases n - i,
    {
        proof {
            assert(orig.skip(i as int).len() > 0);
        }
        let x = buf.try_pop().unwrap();
        out.push(x);
        proof {
            assert(orig.skip(i as int)[0] == orig[i as int]);
            assert(out@ =~= orig.take(i as int + 1));
            assert(orig.skip(i as int).drop_first() =~= orig.skip(i as int + 1));
        }
        i = i + 1;
    }
    out
}

} // verus!
