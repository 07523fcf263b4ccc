//! Raw wire codec: a frame is a flat sequence of little-endian 32-bit
//! samples, no header and no metadata. A sample travels as its 32-bit
//! pattern; the audio layer decides what the bits mean.

use vstd::prelude::*;

verus! {

/// The four little-endian bytes of one 32-bit sample.
pub open spec fn sample_le_bytes(x: u32) -> Seq<u8> {
    seq![
        (x & 0xff) as u8,
        ((x >> 8) & 0xff) as u8,
        ((x >> 16) & 0xff) as u8,
        ((x >> 24) & 0xff) as u8,
    ]
}

/// The 32-bit sample read from four little-endian bytes.
pub open spec fn sample_of_le_bytes(b: Seq<u8>) -> u32
    recommends
        b.len() == 4,
{
    ((b[0] as u32) | ((b[1] as u32) << 8) | ((b[2] as u32) << 16) | ((b[3] as u32) << 24)) as u32
}

/// The wire bytes of a whole frame: each sample's four bytes in order.
pub open spec fn frame_bytes(samples: Seq<u32>) -> Seq<u8>
    decreases samples.len(),
{
    if samples.len() == 0 {
        Seq::empty()
    } else {
        frame_bytes(samples.drop_last()) + sample_le_bytes(samples.last())
    }
}

/// The samples read back from wire bytes whose length is a multiple of four.
pub open spec fn decoded_samples(b: Seq<u8>) -> Seq<u32>
    recommends
        b.len() % 4 == 0,
{
    Seq::new(b.len() / 4, |i: int| sample_of_le_bytes(b.subrange(4 * i, 4 * i + 4)))
}

pub proof fn lemma_frame_bytes_len(samples: Seq<u32>)
    ensures
        frame_bytes(samples).len() == 4 * samples.len(),
    decreases samples.len(),
{
    if samples.len() > 0 {
        lemma_frame_bytes_len(samples.drop_last());
    }
}

/// Encode a frame of samples to wire bytes.
pub fn encode_audio(samples: &Vec<u32>) -> (r: Vec<u8>)
    ensures
        r@ == frame_bytes(samples@),
        r@.len() == 4 * samples@.len(),
{
    let mut out: Vec<u8> = Vec::new();
    let mut i: usize = 0;
    while i < samples.len()
        invariant
            i <= samples@.len(),
            out@ == frame_bytes(samples@.take(i as int)),
        decreases samples@.len() - i,
    {
        let x = samples[i];
        proof {
            assert(x & 0xff < 256) by (bit_vector);
            assert((x >> 8) & 0xff < 256) by (bit_vector);
            assert((x >> 16) & 0xff < 256) by (bit_vector);
            assert((x >> 24) & 0xff < 256) by (bit_vector);
        }
        out.push((x & 0xff) as u8);
        out.push(((x >> 8) & 0xff) as u8);
        out.push(((x >> 16) & 0xff) as u8);
        out.push(((x >> 24) & 0xff) as u8);
        proof {
            let s1 = samples@.take(i + 1 as int);
            assert(s1.drop_last() =~= samples@.take(i as int));
            assert(s1.last() == x);
            assert(out@ =~= frame_bytes(s1));
        }
        i = i + 1;
    }
    proof {
        assert(samples@.take(samples@.len() as int) =~= samples@);
        lemma_frame_bytes_len(samples@);
    }
    out
}

/// Decode wire bytes back to samples; `None` exactly when the length is
/// not a whole number of samples.
pub fn decode_audio(bytes: &Vec<u8>) -> (r: Option<Vec<u32>>)
    ensures
        r is Some <==> bytes@.len() % 4 == 0,
        r matches Some(s) ==> s@ == decoded_samples(bytes@),
{
    if bytes.len() % 4 != 0 {
        return None;
    }
    let n = bytes.len() / 4;
    let mut out: Vec<u32> = Vec::new();
    let mut j: usize = 0;
    while j < n
        invariant
            j <= n,
            n == bytes@.len() / 4,
            bytes@.len() % 4 == 0,
            out@.len() == j,
            forall|k: int|
                0 <= k < j ==> out@[k] == sample_of_le_bytes(
                    bytes@.subrange(4 * k, 4 * k + 4),
                ),
        decreases n - j,
    {
        proof {
            assert(bytes@.len() == bytes.len());
            assert(bytes@.len() == 4 * (bytes@.len() / 4) + bytes@.len() % 4);
            assert(4 * (j as int) + 3 < bytes@.len());
        }
        let b0 = bytes[4 * j];
        let b1 = bytes[4 * j + 1];
        let b2 = bytes[4 * j + 2];
        let b3 = bytes[4 * j + 3];
        let x: u32 = (b0 as u32) | ((b1 as u32) << 8) | ((b2 as u32) << 16) | ((b3 as u32) << 24);
        out.push(x);
        proof {
            let k = j as int;
            let quad = bytes@.subrange(4 * k, 4 * k + 4);
            assert(quad[0] == bytes@[4 * k]);
            assert(quad[1] == bytes@[4 * k + 1]);
            assert(quad[2] == bytes@[4 * k + 2]);
            assert(quad[3] == bytes@[4 * k + 3]);
        }
        j = j + 1;
    }
    proof {
        assert(out@ =~= decoded_samples(bytes@));
    }
    Some(out)
}

} // verus!
