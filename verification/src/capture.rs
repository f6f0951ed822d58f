//! Turning the raw bytes that a recorder prints into whole mono s16le
//! samples: the microphone is recorded as mono, system audio as stereo that
//! is folded down to mono.
use vstd::prelude::*;

use crate::pcm::{
    clamp_to_i16, decode_sample, encode_sample, in_i16, le_i16, lemma_le_i16_range,
    lemma_pcm_bytes_of_samples, pcm_bytes, samples_of,
};

verus! {

/// Bytes of one stereo s16le frame (left sample, then right sample).
pub const STEREO_FRAME_BYTES: usize = 4;

/// `x / 2` rounded toward zero, as integer division does.
pub open spec fn half_toward_zero(x: int) -> int {
    if x >= 0 {
        x / 2
    } else {
        -((-x) / 2)
    }
}

/// Left sample of stereo frame `k` of `p`.
pub open spec fn left_sample(p: Seq<u8>, k: int) -> int {
    le_i16(p[4 * k], p[4 * k + 1])
}

/// Right sample of stereo frame `k` of `p`.
pub open spec fn right_sample(p: Seq<u8>, k: int) -> int {
    le_i16(p[4 * k + 2], p[4 * k + 3])
}

/// The mono samples of the whole stereo frames of `p`: the mean of left
/// and right, rounded toward zero.
pub open spec fn downmixed_samples(p: Seq<u8>) -> Seq<int> {
    Seq::new(p.len() / 4, |k: int| half_toward_zero(left_sample(p, k) + right_sample(p, k)))
}

/// The mono bytes of the whole stereo frames of `p`.
pub open spec fn spec_downmix(p: Seq<u8>) -> Seq<u8> {
    pcm_bytes(downmixed_samples(p))
}

/// Takes the whole mono samples out of `pending`, leaving a trailing odd
/// byte (if any) for the next read.
pub fn drain_s16le_samples(pending: &mut Vec<u8>) -> (output: Vec<u8>)
    ensures
        output@ == old(pending)@.take(old(pending)@.len() as int / 2 * 2),
        final(pending)@ == old(pending)@.skip(old(pending)@.len() as int / 2 * 2),
        output@ + final(pending)@ == old(pending)@,
        final(pending)@.len() < 2,
{
    let process_len = pending.len() / 2 * 2;
    if process_len == 0 {
        assert(pending@.skip(0) =~= pending@);
        assert(Seq::<u8>::empty() + pending@ =~= pending@);
        return Vec::new();
    }
    let mut output = pending.split_off(process_len);
    std::mem::swap(pending, &mut output);
    assert(output@ =~= old(pending)@.take(process_len as int));
    assert(pending@ =~= old(pending)@.skip(process_len as int));
    assert(output@ + pending@ =~= old(pending)@);
    output
}

/// Takes the whole stereo frames out of `pending` and folds each into one
/// mono sample (the mean of left and right, rounded toward zero); a
/// trailing partial frame stays in `pending` for the next read.
pub fn drain_stereo_s16le_to_mono(pending: &mut Vec<u8>) -> (output: Vec<u8>)
    ensures
        output@ == spec_downmix(old(pending)@),
        final(pending)@ == old(pending)@.skip(old(pending)@.len() as int / 4 * 4),
        final(pending)@.len() < 4,
{
    let frame_bytes = STEREO_FRAME_BYTES;
    let process_len = pending.len() / frame_bytes * frame_bytes;
    let ghost target = spec_downmix(pending@);
    if process_len == 0 {
        assert(pending@.skip(0) =~= pending@);
        assert(target =~= Seq::<u8>::empty());
        return Vec::new();
    }
    let mut output: Vec<u8> = Vec::with_capacity(process_len / 2);
    let mut offset: usize = 0;
    while offset < process_len
        invariant
            frame_bytes == 4,
            process_len == pending@.len() / 4 * 4,
            process_len <= pending@.len(),
            pending@ == old(pending)@,
            target == spec_downmix(pending@),
            target.len() == process_len / 2,
            offset % 4 == 0,
            offset <= process_len,
            output@.len() == offset / 2,
            forall|i: int| 0 <= i < output@.len() ==> output@[i] == target[i],
        decreases process_len - offset,
    {
        let left = decode_sample(pending[offset], pending[offset + 1]) as i32;
        let right = decode_sample(pending[offset + 2], pending[offset + 3]) as i32;
        let sum = left + right;
        let half: i32 = if sum >= 0 {
            sum / 2
        } else {
            -((-sum) / 2)
        };
        let ghost k: int = offset as int / 4;
        assert(half as int == downmixed_samples(pending@)[k]);
        let mono = clamp_to_i16(half);
        assert(in_i16(half as int));
        let (lo, hi) = encode_sample(mono);
        output.push(lo);
        output.push(hi);
        assert(target[2 * k] == lo);
        assert(target[2 * k + 1] == hi);
        offset = offset + frame_bytes;
    }
    assert(output@ =~= target);
    let mut rest = pending.split_off(process_len);
    std::mem::swap(pending, &mut rest);
    assert(pending@ =~= old(pending)@.skip(process_len as int));
    output
}

/// The stereo stream that carries the mono stream `m` on both channels.
pub open spec fn both_channels(m: Seq<u8>) -> Seq<u8> {
    Seq::new(2 * m.len(), |i: int| m[2 * (i / 4) + i % 2])
}

/// Folding down a stream that carries the same signal on both channels
/// gives that signal back.
pub proof fn lemma_downmix_of_both_channels(m: Seq<u8>)
    requires
        m.len() % 2 == 0,
    ensures
        spec_downmix(both_channels(m)) == m,
{
    let p = both_channels(m);
    assert(p.len() / 4 == m.len() / 2);
    assert forall|k: int| 0 <= k < p.len() / 4 implies #[trigger] downmixed_samples(p)[k]
        == samples_of(m)[k] by {
        assert(p[4 * k] == m[2 * k]);
        assert(p[4 * k + 1] == m[2 * k + 1]);
        assert(p[4 * k + 2] == m[2 * k]);
        assert(p[4 * k + 3] == m[2 * k + 1]);
        lemma_le_i16_range(m[2 * k], m[2 * k + 1]);
    }
    assert(downmixed_samples(p) =~= samples_of(m));
    lemma_pcm_bytes_of_samples(m);
}

} // verus!
