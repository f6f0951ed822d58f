//! Mixing the system-audio and microphone streams into one mono stream.
//!
//! Each stream is buffered in a [`MixInput`]; every tick the mixer takes up
//! to [`MIX_CHUNK_BYTES`] whole samples from each buffer and sums them
//! sample by sample with saturation.
use std::collections::VecDeque;
use vstd::prelude::*;

use crate::pcm::{
    clamp_i16, clamp_to_i16, decode_sample, encode_sample, le_i16, lemma_le_i16_range,
    lemma_pcm_bytes_of_samples, pcm_bytes, samples_of,
};

verus! {

/// Sample rate the mixer works at.
pub const MIX_SAMPLE_RATE: usize = 16000;

/// Bytes per mono s16le sample.
pub const MIX_BYTES_PER_SAMPLE: usize = 2;

/// Milliseconds between two mixer ticks.
pub const MIX_INTERVAL_MS: usize = 20;

/// Bytes of one stream that one tick takes at most (20 ms of audio).
pub const MIX_CHUNK_BYTES: usize = 640;

/// The sample of `data` that starts at byte `offset`, or silence (0) when
/// `data` holds no whole sample there.
pub open spec fn sample_or_silence(data: Seq<u8>, offset: int) -> int {
    if offset + 1 < data.len() {
        le_i16(data[offset], data[offset + 1])
    } else {
        0
    }
}

/// Number of samples in the mix of `a` and `b`: the longer input's length,
/// rounded down to whole samples.
pub open spec fn mix_sample_count(a: Seq<u8>, b: Seq<u8>) -> nat {
    (if a.len() >= b.len() {
        a.len()
    } else {
        b.len()
    }) / 2
}

/// The samples of the mix: the saturated sum of the samples of `a` and `b`
/// at the same position, a missing sample counting as silence.
pub open spec fn mixed_samples(a: Seq<u8>, b: Seq<u8>) -> Seq<int> {
    Seq::new(
        mix_sample_count(a, b),
        |k: int| clamp_i16(sample_or_silence(a, 2 * k) + sample_or_silence(b, 2 * k)),
    )
}

/// The bytes of the mix of `a` and `b`.
pub open spec fn spec_mix(a: Seq<u8>, b: Seq<u8>) -> Seq<u8> {
    pcm_bytes(mixed_samples(a, b))
}

/// Reads the s16le sample that starts at byte `offset` of `data`, or `None`
/// when `data` ends before the sample does.
pub fn read_s16le_sample(data: &[u8], offset: usize) -> (r: Option<i16>)
    requires
        offset < usize::MAX,
    ensures
        match r {
            Some(v) => offset + 1 < data@.len() && v as int == le_i16(
                data@[offset as int],
                data@[offset + 1],
            ),
            None => offset + 1 >= data@.len(),
        },
{
    if offset + 1 >= data.len() {
        return None;
    }
    Some(decode_sample(data[offset], data[offset + 1]))
}

/// Mixes two mono s16le streams: sample by sample, the sum of both
/// saturated to 16 bits; where one stream is shorter its missing samples
/// are silence. The result is as long as the longer input, rounded down to
/// whole samples.
pub fn mix_s16le_mono(a: &[u8], b: &[u8]) -> (mixed: Vec<u8>)
    ensures
        mixed@ == spec_mix(a@, b@),
{
    let longest = if a.len() >= b.len() {
        a.len()
    } else {
        b.len()
    };
    let output_len = longest / MIX_BYTES_PER_SAMPLE * MIX_BYTES_PER_SAMPLE;
    let ghost target = spec_mix(a@, b@);
    assert(target.len() == output_len);
    let mut mixed: Vec<u8> = Vec::with_capacity(output_len);
    let mut offset: usize = 0;
    while offset < output_len
        invariant
            output_len == target.len(),
            target == spec_mix(a@, b@),
            output_len <= a@.len() || output_len <= b@.len(),
            output_len % 2 == 0,
            offset % 2 == 0,
            offset <= output_len,
            mixed@.len() == offset,
            forall|i: int| 0 <= i < offset ==> mixed@[i] == target[i],
        decreases output_len - offset,
    {
        let sample_a: i32 = match read_s16le_sample(a, offset) {
            Some(v) => v as i32,
            None => 0,
        };
        let sample_b: i32 = match read_s16le_sample(b, offset) {
            Some(v) => v as i32,
            None => 0,
        };
        let sample = clamp_to_i16(sample_a + sample_b);
        let (lo, hi) = encode_sample(sample);
        let ghost k: int = offset as int / 2;
        assert(mixed_samples(a@, b@)[k] == sample as int);
        mixed.push(lo);
        mixed.push(hi);
        assert(target[offset as int] == lo);
        assert(target[offset + 1] == hi);
        offset = offset + 2;
    }
    assert(mixed@ =~= target);
    mixed
}

/// Mixing is symmetric in its two inputs.
pub proof fn lemma_mix_symmetric(a: Seq<u8>, b: Seq<u8>)
    ensures
        spec_mix(a, b) == spec_mix(b, a),
{
    assert(mixed_samples(a, b) =~= mixed_samples(b, a));
}

/// Mixing a stream of whole samples with nothing gives the stream back.
pub proof fn lemma_mix_with_nothing(a: Seq<u8>)
    requires
        a.len() % 2 == 0,
    ensures
        spec_mix(a, Seq::empty()) == a,
{
    let e = Seq::<u8>::empty();
    assert forall|k: int| 0 <= k < mix_sample_count(a, e) implies #[trigger] mixed_samples(a, e)[k]
        == samples_of(a)[k] by {
        lemma_le_i16_range(a[2 * k], a[2 * k + 1]);
    }
    assert(mixed_samples(a, e) =~= samples_of(a));
    lemma_pcm_bytes_of_samples(a);
}

/// Mixing a stream of whole samples with an equally long stream of silence
/// gives the stream back.
pub proof fn lemma_mix_with_silence(a: Seq<u8>)
    requires
        a.len() % 2 == 0,
    ensures
        spec_mix(a, Seq::new(a.len(), |i: int| 0u8)) == a,
{
    let z = Seq::new(a.len(), |i: int| 0u8);
    assert forall|k: int| 0 <= k < mix_sample_count(a, z) implies #[trigger] mixed_samples(a, z)[k]
        == samples_of(a)[k] by {
        lemma_le_i16_range(a[2 * k], a[2 * k + 1]);
    }
    assert(mixed_samples(a, z) =~= samples_of(a));
    lemma_pcm_bytes_of_samples(a);
}


/// Bytes that one drain takes from a buffer holding `available` bytes when
/// at most `max_bytes` are wanted: the smaller of the two, rounded down to
/// whole samples.
pub open spec fn chunk_len(available: int, max_bytes: int) -> int {
    (if available < max_bytes {
        available
    } else {
        max_bytes
    }) / 2 * 2
}

/// The whole samples of `data`: a trailing odd byte dropped.
pub open spec fn whole_samples(data: Seq<u8>) -> Seq<u8> {
    data.take(data.len() as int / 2 * 2)
}

/// Something that happens to a mixer input.
pub enum MixInputEvent {
    /// The stream delivered a chunk.
    Chunk(Seq<u8>),
    /// The mixer takes at most this many bytes.
    Drain(usize),
}

/// The buffer of a mixer input after `event`, and the bytes taken out.
pub open spec fn mix_input_step(buffer: Seq<u8>, event: MixInputEvent) -> (Seq<u8>, Seq<u8>) {
    match event {
        MixInputEvent::Chunk(data) => (buffer + whole_samples(data), Seq::empty()),
        MixInputEvent::Drain(max_bytes) => {
            let n = chunk_len(buffer.len() as int, max_bytes as int);
            (buffer.skip(n), buffer.take(n))
        },
    }
}

/// The buffer after `events`, starting from `buffer`, and all bytes taken
/// out meanwhile, in order.
pub open spec fn mix_input_run(buffer: Seq<u8>, events: Seq<MixInputEvent>) -> (Seq<u8>, Seq<u8>)
    decreases events.len(),
{
    if events.len() == 0 {
        (buffer, Seq::empty())
    } else {
        let (before, taken_before) = mix_input_run(buffer, events.drop_last());
        let (after, taken) = mix_input_step(before, events.last());
        (after, taken_before + taken)
    }
}

/// The whole samples of all chunks in `events`, in order.
pub open spec fn delivered_samples(events: Seq<MixInputEvent>) -> Seq<u8>
    decreases events.len(),
{
    if events.len() == 0 {
        Seq::empty()
    } else {
        delivered_samples(events.drop_last()) + match events.last() {
            MixInputEvent::Chunk(data) => whole_samples(data),
            _ => Seq::empty(),
        }
    }
}

/// A mixer input is a queue: what has been taken out, followed by what is
/// still buffered, is the first buffer followed by the whole samples of
/// every chunk delivered, in order.
pub proof fn lemma_mix_input_is_fifo(buffer: Seq<u8>, events: Seq<MixInputEvent>)
    ensures
        mix_input_run(buffer, events).1 + mix_input_run(buffer, events).0 == buffer
            + delivered_samples(events),
    decreases events.len(),
{
    if events.len() > 0 {
        let init = events.drop_last();
        lemma_mix_input_is_fifo(buffer, init);
        let (before, taken_before) = mix_input_run(buffer, init);
        match events.last() {
            MixInputEvent::Chunk(data) => {
                assert(taken_before + Seq::<u8>::empty() + (before + whole_samples(data)) =~= (
                taken_before + before) + whole_samples(data));
            },
            MixInputEvent::Drain(max_bytes) => {
                let n = chunk_len(before.len() as int, max_bytes as int);
                assert(taken_before + before.take(n) + before.skip(n) =~= taken_before + before);
                assert(delivered_samples(events) =~= delivered_samples(init));
            },
        }
    } else {
        assert(Seq::<u8>::empty() + buffer =~= buffer + Seq::<u8>::empty());
    }
}

/// A delivered chunk is buffered in full, after what was buffered before,
/// save one trailing byte when its length is odd; delivering takes nothing
/// out.
pub proof fn lemma_chunk_buffered_whole(buffer: Seq<u8>, data: Seq<u8>)
    ensures
        ({
            let (after, taken) = mix_input_step(buffer, MixInputEvent::Chunk(data));
            &&& taken.len() == 0
            &&& after.len() == buffer.len() + data.len() - data.len() % 2
            &&& forall|i: int| 0 <= i < buffer.len() ==> #[trigger] after[i] == buffer[i]
            &&& forall|i: int|
                0 <= i < data.len() - data.len() % 2 ==> #[trigger] after[buffer.len() + i]
                    == data[i]
        }),
{
    let (after, taken) = mix_input_step(buffer, MixInputEvent::Chunk(data));
    assert(data.len() as int / 2 * 2 == data.len() - data.len() % 2);
    assert(after == buffer + data.take(data.len() as int / 2 * 2));
}

/// One input of the mixer: the bytes of one stream that have arrived and
/// not been mixed yet, and whether its reader is still running.
pub struct MixInput {
    buffer: VecDeque<u8>,
    alive: bool,
}

impl MixInput {
    /// The bytes waiting to be mixed, oldest first.
    pub closed spec fn buffered(&self) -> Seq<u8> {
        self.buffer@
    }

    /// Whether the stream feeding this input may still deliver data.
    pub closed spec fn reading(&self) -> bool {
        self.alive
    }

    /// An empty input whose stream is still running.
    pub fn new() -> (input: MixInput)
        ensures
            input.buffered() == Seq::<u8>::empty(),
            input.reading(),
    {
        MixInput { buffer: VecDeque::new(), alive: true }
    }

    /// Appends a chunk that the stream delivered. A trailing odd byte is
    /// dropped, so the buffer only ever holds whole samples.
    pub fn push_chunk(&mut self, data: Vec<u8>)
        ensures
            (final(self).buffered(), Seq::<u8>::empty()) == mix_input_step(
                old(self).buffered(),
                MixInputEvent::Chunk(data@),
            ),
            final(self).buffered() == old(self).buffered() + data@.take(
                data@.len() as int / 2 * 2,
            ),
            final(self).reading() == old(self).reading(),
    {
        let mut data = data;
        let ghost original = data@;
        if data.len() % MIX_BYTES_PER_SAMPLE != 0 {
            data.truncate(data.len() / MIX_BYTES_PER_SAMPLE * MIX_BYTES_PER_SAMPLE);
        }
        assert(data@ =~= original.take(original.len() as int / 2 * 2));
        if data.len() == 0 {
            assert(old(self).buffered() + data@ =~= old(self).buffered());
            return;
        }
        let ghost start = self.buffer@;
        let n = data.len();
        let mut i: usize = 0;
        while i < n
            invariant
                n == data@.len(),
                i <= n,
                self.buffer@ == start + data@.take(i as int),
                self.alive == old(self).alive,
            decreases n - i,
        {
            self.buffer.push_back(data[i]);
            i = i + 1;
            assert(start + data@.take(i as int) =~= (start + data@.take(i - 1)).push(
                data@[i - 1],
            ));
        }
        assert(data@.take(n as int) =~= data@);
    }

    /// Records that the stream has ended; what is buffered stays.
    pub fn close(&mut self)
        ensures
            final(self).buffered() == old(self).buffered(),
            !final(self).reading(),
    {
        self.alive = false;
    }

    /// Whether the stream feeding this input may still deliver data.
    pub fn is_alive(&self) -> (alive: bool)
        ensures
            alive == self.reading(),
    {
        self.alive
    }
}

/// Takes the oldest whole samples of `input`, at most `max_bytes` bytes, out
/// of its buffer.
pub fn drain_input_chunk(input: &mut MixInput, max_bytes: usize) -> (chunk: Vec<u8>)
    ensures
        (final(input).buffered(), chunk@) == mix_input_step(
            old(input).buffered(),
            MixInputEvent::Drain(max_bytes),
        ),
        final(input).reading() == old(input).reading(),
{
    let available = input.buffer.len();
    let smaller = if available < max_bytes {
        available
    } else {
        max_bytes
    };
    let drain_len = smaller / MIX_BYTES_PER_SAMPLE * MIX_BYTES_PER_SAMPLE;
    let ghost start = input.buffer@;
    let mut chunk: Vec<u8> = Vec::with_capacity(drain_len);
    let mut i: usize = 0;
    while i < drain_len
        invariant
            drain_len <= start.len(),
            i <= drain_len,
            chunk@ == start.take(i as int),
            input.buffer@ == start.skip(i as int),
            input.alive == old(input).alive,
        decreases drain_len - i,
    {
        match input.buffer.pop_front() {
            Some(byte) => {
                chunk.push(byte);
            },
            None => {},
        }
        i = i + 1;
        assert(chunk@ =~= start.take(i as int));
        assert(input.buffer@ =~= start.skip(i as int));
    }
    chunk
}

/// What the mixer does after one tick.
pub enum MixTick {
    /// Both streams have ended and nothing is left to mix: the mixer stops.
    Finished,
    /// Nothing to send this tick.
    Idle,
    /// These mixed bytes go out.
    Mixed(Vec<u8>),
}

/// One tick of the mixer: takes up to [`MIX_CHUNK_BYTES`] from each input,
/// and mixes them; when both inputs had nothing, stops once both streams
/// have ended and waits otherwise.
pub fn mix_tick(system: &mut MixInput, mic: &mut MixInput) -> (tick: MixTick)
    ensures
        ({
            let n_sys = chunk_len(old(system).buffered().len() as int, MIX_CHUNK_BYTES as int);
            let n_mic = chunk_len(old(mic).buffered().len() as int, MIX_CHUNK_BYTES as int);
            let sys_chunk = old(system).buffered().take(n_sys);
            let mic_chunk = old(mic).buffered().take(n_mic);
            &&& final(system).buffered() == old(system).buffered().skip(n_sys)
            &&& final(mic).buffered() == old(mic).buffered().skip(n_mic)
            &&& final(system).reading() == old(system).reading()
            &&& final(mic).reading() == old(mic).reading()
            &&& match tick {
                MixTick::Finished => n_sys == 0 && n_mic == 0 && !old(system).reading() && !old(
                    mic,
                ).reading(),
                MixTick::Idle => (n_sys == 0 && n_mic == 0 && (old(system).reading() || old(
                    mic,
                ).reading())) || ((n_sys != 0 || n_mic != 0) && spec_mix(sys_chunk, mic_chunk).len()
                    == 0),
                MixTick::Mixed(bytes) => (n_sys != 0 || n_mic != 0) && bytes@ == spec_mix(
                    sys_chunk,
                    mic_chunk,
                ) && bytes@.len() > 0,
            }
        }),
{
    let system_chunk = drain_input_chunk(system, MIX_CHUNK_BYTES);
    let mic_chunk = drain_input_chunk(mic, MIX_CHUNK_BYTES);
    if system_chunk.len() == 0 && mic_chunk.len() == 0 {
        if !system.is_alive() && !mic.is_alive() {
            return MixTick::Finished;
        }
        return MixTick::Idle;
    }
    let mixed = mix_s16le_mono(system_chunk.as_slice(), mic_chunk.as_slice());
    if mixed.len() == 0 {
        MixTick::Idle
    } else {
        MixTick::Mixed(mixed)
    }
}

} // verus!
