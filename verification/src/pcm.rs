//! Signed 16-bit little-endian PCM: how two bytes stand for one sample, and
//! how a run of samples is laid out as bytes.
use vstd::prelude::*;

verus! {

/// Smallest value of a 16-bit sample.
pub const SAMPLE_MIN: i32 = -32768;

/// Largest value of a 16-bit sample.
pub const SAMPLE_MAX: i32 = 32767;

/// The sample that the little-endian byte pair `(lo, hi)` encodes
/// (two's complement).
pub open spec fn le_i16(lo: u8, hi: u8) -> int {
    let u = lo as int + 256 * hi as int;
    if u >= 0x8000 {
        u - 0x10000
    } else {
        u
    }
}

/// The unsigned 16-bit pattern of a sample `v` in `[-32768, 32767]`.
pub open spec fn bit_pattern(v: int) -> int {
    if v < 0 {
        v + 0x10000
    } else {
        v
    }
}

/// Low byte of the little-endian encoding of `v`.
pub open spec fn low_byte(v: int) -> u8 {
    (bit_pattern(v) % 256) as u8
}

/// High byte of the little-endian encoding of `v`.
pub open spec fn high_byte(v: int) -> u8 {
    (bit_pattern(v) / 256) as u8
}

/// `v` fits in a signed 16-bit sample.
pub open spec fn in_i16(v: int) -> bool {
    -32768 <= v <= 32767
}

/// `x` saturated to the range of a 16-bit sample.
pub open spec fn clamp_i16(x: int) -> int {
    if x < -32768 {
        -32768
    } else if x > 32767 {
        32767
    } else {
        x
    }
}

/// The bytes of the samples `samples`, each as two little-endian bytes.
pub open spec fn pcm_bytes(samples: Seq<int>) -> Seq<u8> {
    Seq::new(
        2 * samples.len(),
        |i: int|
            if i % 2 == 0 {
                low_byte(samples[i / 2])
            } else {
                high_byte(samples[i / 2])
            },
    )
}

/// The `k`-th whole sample of `data` (bytes `2k` and `2k + 1`).
pub open spec fn sample_at(data: Seq<u8>, k: int) -> int {
    le_i16(data[2 * k], data[2 * k + 1])
}

/// The whole samples of `data`; a trailing odd byte is no sample.
pub open spec fn samples_of(data: Seq<u8>) -> Seq<int> {
    Seq::new(data.len() / 2, |k: int| sample_at(data, k))
}

/// Decoding always yields a 16-bit value.
pub proof fn lemma_le_i16_range(lo: u8, hi: u8)
    ensures
        in_i16(le_i16(lo, hi)),
{
}

/// Encoding a sample and decoding the two bytes gives the sample back.
pub proof fn lemma_encode_decode(v: int)
    requires
        in_i16(v),
    ensures
        le_i16(low_byte(v), high_byte(v)) == v,
{
    let u = bit_pattern(v);
    assert(0 <= u < 0x10000);
    assert(u == 256 * (u / 256) + u % 256) by (nonlinear_arith)
        requires
            0 <= u,
    ;
    assert(0 <= u % 256 < 256) by (nonlinear_arith)
        requires
            0 <= u,
    ;
    assert(0 <= u / 256 < 256) by (nonlinear_arith)
        requires
            0 <= u < 0x10000,
    ;
}

/// Decoding a byte pair and encoding the sample gives the same two bytes.
pub proof fn lemma_decode_encode(lo: u8, hi: u8)
    ensures
        low_byte(le_i16(lo, hi)) == lo,
        high_byte(le_i16(lo, hi)) == hi,
{
    let u = lo as int + 256 * hi as int;
    assert(bit_pattern(le_i16(lo, hi)) == u);
    assert(u % 256 == lo as int && u / 256 == hi as int) by (nonlinear_arith)
        requires
            u == lo as int + 256 * hi as int,
            0 <= lo < 256,
            0 <= hi < 256,
    ;
}

/// Re-encoding the whole samples of an even-length buffer gives the buffer.
pub proof fn lemma_pcm_bytes_of_samples(data: Seq<u8>)
    requires
        data.len() % 2 == 0,
    ensures
        pcm_bytes(samples_of(data)) == data,
{
    let s = samples_of(data);
    assert forall|i: int| 0 <= i < data.len() implies #[trigger] pcm_bytes(s)[i] == data[i] by {
        let k = i / 2;
        lemma_decode_encode(data[2 * k], data[2 * k + 1]);
        if i % 2 == 0 {
            assert(i == 2 * k);
        } else {
            assert(i == 2 * k + 1);
        }
    }
    assert(pcm_bytes(s) =~= data);
}

/// Decodes the sample held by the two bytes `lo`, `hi`.
pub fn decode_sample(lo: u8, hi: u8) -> (v: i16)
    ensures
        v as int == le_i16(lo, hi),
{
    let u: i32 = lo as i32 + (hi as i32) * 256;
    if u >= 0x8000 {
        (u - 0x10000) as i16
    } else {
        u as i16
    }
}

/// Encodes the sample `v` as its two little-endian bytes.
pub fn encode_sample(v: i16) -> (bytes: (u8, u8))
    ensures
        bytes.0 == low_byte(v as int),
        bytes.1 == high_byte(v as int),
{
    let u: i32 = if v < 0 {
        v as i32 + 0x10000
    } else {
        v as i32
    };
    assert(0 <= u % 256 < 256);
    assert(0 <= u / 256 < 256);
    ((u % 256) as u8, (u / 256) as u8)
}

/// Saturates `x` to the range of a 16-bit sample.
pub fn clamp_to_i16(x: i32) -> (v: i16)
    ensures
        v as int == clamp_i16(x as int),
{
    if x < SAMPLE_MIN {
        -32768
    } else if x > SAMPLE_MAX {
        32767
    } else {
        x as i16
    }
}

} // verus!
