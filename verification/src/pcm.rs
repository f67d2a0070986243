//! Little-endian 16-bit PCM handling: decoding raw bytes into signed
//! samples, encoding samples back into bytes, and the sliding capture
//! window kept by a recording front end.
//!
//! A sample value `s` stands for the normalised amplitude `s / 32768`, so
//! the byte codec here is the exact integer core of the usual
//! float-normalisation round trip.

use vstd::arithmetic::div_mod::lemma_fundamental_div_mod;
use vstd::prelude::*;

verus! {

/// The signed 16-bit value encoded little-endian by the byte pair
/// `(lo, hi)`.
pub open spec fn spec_i16_from_le(lo: u8, hi: u8) -> i16 {
    let v = lo + 256 * (hi as int);
    if v >= 32768 {
        (v - 65536) as i16
    } else {
        v as i16
    }
}

/// The unsigned 16-bit representation of a sample.
pub open spec fn spec_sample_bits(s: i16) -> int {
    if s < 0 {
        s + 65536
    } else {
        s as int
    }
}

/// Low byte of a sample's little-endian encoding.
pub open spec fn spec_le_lo(s: i16) -> u8 {
    (spec_sample_bits(s) % 256) as u8
}

/// High byte of a sample's little-endian encoding.
pub open spec fn spec_le_hi(s: i16) -> u8 {
    (spec_sample_bits(s) / 256) as u8
}

/// The samples held by a little-endian 16-bit byte stream; a trailing odd
/// byte carries no sample.
pub open spec fn spec_decode(bytes: Seq<u8>) -> Seq<i16> {
    Seq::new((bytes.len() / 2) as nat, |i: int| spec_i16_from_le(bytes[2 * i], bytes[2 * i + 1]))
}

/// The little-endian 16-bit byte stream of a sample sequence.
pub open spec fn spec_encode(samples: Seq<i16>) -> Seq<u8> {
    Seq::new(
        (samples.len() * 2) as nat,
        |i: int|
            if i % 2 == 0 {
                spec_le_lo(samples[i / 2])
            } else {
                spec_le_hi(samples[i / 2])
            },
    )
}

/// Decode a little-endian 16-bit PCM byte buffer into signed samples.
pub fn decode_pcm16_le(bytes: &Vec<u8>) -> (r: Vec<i16>)
    ensures
        r@ == spec_decode(bytes@),
        r@.len() == bytes@.len() / 2,
{
    let len = bytes.len();
    let n = len / 2;
    let mut out: Vec<i16> = Vec::new();
    let mut i: usize = 0;
    while i < n
        invariant
            len == bytes@.len(),
            n == len / 2,
            i <= n,
            out@.len() == i,
            forall|j: int| 0 <= j < i ==> out@[j] == spec_decode(bytes@)[j],
        decreases n - i,
    {
        let lo = bytes[2 * i];
        let hi = bytes[2 * i + 1];
        let v: i32 = (lo as i32) + 256 * (hi as i32);
        let s: i16 = if v >= 32768 {
            (v - 65536) as i16
        } else {
            v as i16
        };
        out.push(s);
        i += 1;
    }
    proof {
        assert(out@ =~= spec_decode(bytes@));
    }
    out
}

/// Encode signed samples as little-endian 16-bit PCM bytes.
pub fn encode_pcm16_le(samples: &Vec<i16>) -> (r: Vec<u8>)
    ensures
        r@ == spec_encode(samples@),
        r@.len() == samples@.len() * 2,
{
    let mut out: Vec<u8> = Vec::new();
    let mut i: usize = 0;
    while i < samples.len()
        invariant
            i <= samples@.len(),
            out@.len() == 2 * i,
            forall|j: int| 0 <= j < 2 * i ==> out@[j] == spec_encode(samples@)[j],
        decreases samples@.len() - i,
    {
        let s = samples[i];
        let u: u32 = if s < 0 {
            (s as i32 + 65536) as u32
        } else {
            s as u32
        };
        out.push((u % 256) as u8);
        out.push((u / 256) as u8);
        i += 1;
    }
    proof {
        assert(out@ =~= spec_encode(samples@));
    }
    out
}

/// Encoding then decoding a sample buffer gives the buffer back: the byte
/// codec loses nothing.
pub proof fn lemma_pcm_round_trip(samples: Seq<i16>)
    ensures
        spec_decode(spec_encode(samples)) == samples,
{
    let enc = spec_encode(samples);
    assert forall|i: int| 0 <= i < samples.len() implies spec_decode(enc)[i] == samples[i] by {
        let s = samples[i];
        let u = spec_sample_bits(s);
        lemma_fundamental_div_mod(u, 256);
        assert(enc[2 * i] == spec_le_lo(s));
        assert(enc[2 * i + 1] == spec_le_hi(s));
        assert(spec_le_lo(s) + 256 * (spec_le_hi(s) as int) == u);
    }
    assert(spec_decode(spec_encode(samples)) =~= samples);
}

/// Decoding then re-encoding an even-length byte buffer gives the buffer
/// back.
pub proof fn lemma_pcm_bytes_round_trip(bytes: Seq<u8>)
    requires
        bytes.len() % 2 == 0,
    ensures
        spec_encode(spec_decode(bytes)) == bytes,
{
    let dec = spec_decode(bytes);
    assert forall|i: int| 0 <= i < bytes.len() implies spec_encode(dec)[i] == bytes[i] by {
        let j = i / 2;
        let lo = bytes[2 * j];
        let hi = bytes[2 * j + 1];
        let s = spec_i16_from_le(lo, hi);
        assert(spec_sample_bits(s) == lo + 256 * (hi as int));
        lemma_fundamental_div_mod(lo + 256 * (hi as int), 256);
        assert(spec_le_lo(s) == lo);
        assert(spec_le_hi(s) == hi);
        lemma_fundamental_div_mod(i, 2);
        if i % 2 == 0 {
            assert(i == 2 * j);
        } else {
            assert(i == 2 * j + 1);
        }
    }
    assert(spec_encode(spec_decode(bytes)) =~= bytes);
}

/// Append freshly captured samples to a sliding window and keep only the
/// most recent `cap` of them.
pub fn slide_window(window: &mut Vec<i16>, incoming: &Vec<i16>, cap: usize)
    requires
        old(window)@.len() + incoming@.len() <= usize::MAX,
    ensures
        ({
            let c = old(window)@ + incoming@;
            final(window)@ == if c.len() > cap {
                c.skip(c.len() - cap)
            } else {
                c
            }
        }),
{
    let ghost c = window@ + incoming@;
    let mut i: usize = 0;
    while i < incoming.len()
        invariant
            i <= incoming@.len(),
            window@ == old(window)@ + incoming@.take(i as int),
            old(window)@.len() + incoming@.len() <= usize::MAX,
        decreases incoming@.len() - i,
    {
        window.push(incoming[i]);
        i += 1;
        proof {
            assert(old(window)@ + incoming@.take(i as int) =~= (old(window)@ + incoming@.take(
                i as int - 1,
            )).push(incoming@[i as int - 1]));
        }
    }
    proof {
        assert(incoming@.take(incoming@.len() as int) =~= incoming@);
        assert(window@ == c);
    }
    if window.len() > cap {
        let excess = window.len() - cap;
        let mut kept: Vec<i16> = Vec::new();
        let mut j: usize = excess;
        while j < window.len()
            invariant
                excess <= j <= window@.len(),
                window@ == c,
                excess == c.len() - cap,
                kept@ == c.subrange(excess as int, j as int),
            decreases window@.len() - j,
        {
            kept.push(window[j]);
            j += 1;
            proof {
                assert(c.subrange(excess as int, j as int) =~= c.subrange(
                    excess as int,
                    j as int - 1,
                ).push(c[j as int - 1]));
            }
        }
        proof {
            assert(kept@ =~= c.skip(c.len() - cap));
        }
        *window = kept;
    }
}

/// Take up to `chunk_size` bytes' worth of samples from the front of a
/// capture buffer, returning them as little-endian PCM bytes and leaving
/// the rest buffered.
pub fn take_chunk(buffer: &mut Vec<i16>, chunk_size: usize) -> (r: Vec<u8>)
    ensures
        ({
            let k = if old(buffer)@.len() < chunk_size / 2 {
                old(buffer)@.len() as int
            } else {
                (chunk_size / 2) as int
            };
            &&& r@ == spec_encode(old(buffer)@.take(k))
            &&& final(buffer)@ == old(buffer)@.skip(k)
        }),
{
    let k: usize = if buffer.len() < chunk_size / 2 {
        buffer.len()
    } else {
        chunk_size / 2
    };
    let mut taken: Vec<i16> = Vec::new();
    let mut i: usize = 0;
    while i < k
        invariant
            i <= k <= old(buffer)@.len(),
            buffer@ == old(buffer)@,
            taken@ == old(buffer)@.take(i as int),
        decreases k - i,
    {
        taken.push(buffer[i]);
        i += 1;
        proof {
            assert(old(buffer)@.take(i as int) =~= old(buffer)@.take(i as int - 1).push(
                old(buffer)@[i as int - 1],
            ));
        }
    }
    let mut rest: Vec<i16> = Vec::new();
    let mut j: usize = k;
    while j < buffer.len()
        invariant
            k <= j <= old(buffer)@.len(),
            buffer@ == old(buffer)@,
            rest@ == old(buffer)@.subrange(k as int, j as int),
        decreases old(buffer)@.len() - j,
    {
        rest.push(buffer[j]);
        j += 1;
        proof {
            assert(old(buffer)@.subrange(k as int, j as int) =~= old(buffer)@.subrange(
                k as int,
                j as int - 1,
            ).push(old(buffer)@[j as int - 1]));
        }
    }
    let bytes = encode_pcm16_le(&taken);
    proof {
        assert(rest@ =~= old(buffer)@.skip(k as int));
    }
    *buffer = rest;
    bytes
}

} // verus!
