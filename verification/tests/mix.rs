use my_translator::mixer::{
    drain_input_chunk, mix_s16le_mono, mix_tick, read_s16le_sample, MixInput, MixTick,
    MIX_CHUNK_BYTES,
};

fn samples_to_bytes(samples: &[i16]) -> Vec<u8> {
    samples
        .iter()
        .flat_map(|sample| sample.to_le_bytes())
        .collect()
}

fn bytes_to_samples(bytes: &[u8]) -> Vec<i16> {
    bytes
        .chunks_exact(2)
        .map(|chunk| i16::from_le_bytes([chunk[0], chunk[1]]))
        .collect()
}

#[test]
fn mix_s16le_mono_passes_through_single_source() {
    let a = samples_to_bytes(&[100, -200, 300]);

    assert_eq!(bytes_to_samples(&mix_s16le_mono(&a, &[])), [100, -200, 300]);
}

#[test]
fn mix_s16le_mono_sums_sources_with_clipping() {
    let a = samples_to_bytes(&[1000, 30_000, -30_000]);
    let b = samples_to_bytes(&[2000, 30_000, -30_000]);

    assert_eq!(
        bytes_to_samples(&mix_s16le_mono(&a, &b)),
        [3000, i16::MAX, i16::MIN]
    );
}

#[test]
fn mix_is_symmetric() {
    let a = samples_to_bytes(&[5, -7, 32_000, 1]);
    let b = samples_to_bytes(&[-3, 9, 1_000]);
    assert_eq!(mix_s16le_mono(&a, &b), mix_s16le_mono(&b, &a));
    assert_eq!(bytes_to_samples(&mix_s16le_mono(&a, &b)), [2, 2, i16::MAX, 1]);
}

#[test]
fn mix_with_silence_is_identity() {
    let a = samples_to_bytes(&[12, -12, 32_767, -32_768]);
    let silence = vec![0u8; a.len()];
    assert_eq!(mix_s16le_mono(&a, &silence), a);
}

#[test]
fn mix_drops_trailing_odd_byte() {
    // five bytes: two whole samples and one stray byte
    let a = vec![1u8, 0, 2, 0, 9];
    let out = mix_s16le_mono(&a, &[]);
    assert_eq!(out, vec![1, 0, 2, 0]);
    // the shorter input ends inside a sample: that sample counts as silence
    let b = vec![3u8, 0, 7];
    assert_eq!(bytes_to_samples(&mix_s16le_mono(&a, &b)), [4, 2]);
}

#[test]
fn mix_of_nothing_is_empty() {
    assert!(mix_s16le_mono(&[], &[]).is_empty());
    assert!(mix_s16le_mono(&[1], &[]).is_empty());
}

#[test]
fn mix_negative_clipping_exact() {
    let a = samples_to_bytes(&[-20_000]);
    let b = samples_to_bytes(&[-20_000]);
    assert_eq!(bytes_to_samples(&mix_s16le_mono(&a, &b)), [i16::MIN]);
    let c = samples_to_bytes(&[-16_384]);
    assert_eq!(bytes_to_samples(&mix_s16le_mono(&c, &c)), [i16::MIN]);
}

#[test]
fn read_sample_in_and_out_of_range() {
    let data = vec![0x34u8, 0x12, 0xFF, 0xFF, 0x00];
    assert_eq!(read_s16le_sample(&data, 0), Some(0x1234));
    assert_eq!(read_s16le_sample(&data, 2), Some(-1));
    assert_eq!(read_s16le_sample(&data, 3), Some(0x00FF));
    assert_eq!(read_s16le_sample(&data, 4), None);
    assert_eq!(read_s16le_sample(&data, 100), None);
    assert_eq!(read_s16le_sample(&[0x00, 0x80], 0), Some(i16::MIN));
}

#[test]
fn mix_input_is_a_queue_of_whole_samples() {
    let mut input = MixInput::new();
    assert!(input.is_alive());
    input.push_chunk(vec![1, 2, 3]);
    input.push_chunk(vec![]);
    input.push_chunk(vec![4, 5, 6, 7]);
    // the odd byte 3 was dropped
    assert_eq!(drain_input_chunk(&mut input, 3), vec![1, 2]);
    assert_eq!(drain_input_chunk(&mut input, 100), vec![4, 5, 6, 7]);
    assert_eq!(drain_input_chunk(&mut input, 100), Vec::<u8>::new());
    input.close();
    assert!(!input.is_alive());
}

#[test]
fn mix_input_drain_keeps_rest_in_order() {
    let mut input = MixInput::new();
    input.push_chunk((0u8..10).collect());
    assert_eq!(drain_input_chunk(&mut input, 4), vec![0, 1, 2, 3]);
    assert_eq!(drain_input_chunk(&mut input, 0), Vec::<u8>::new());
    assert_eq!(drain_input_chunk(&mut input, 5), vec![4, 5, 6, 7]);
    assert_eq!(drain_input_chunk(&mut input, 5), vec![8, 9]);
}

#[test]
fn mix_tick_mixes_waits_and_finishes() {
    let mut system = MixInput::new();
    let mut mic = MixInput::new();
    match mix_tick(&mut system, &mut mic) {
        MixTick::Idle => {}
        _ => panic!("both inputs empty and alive: the mixer waits"),
    }
    system.push_chunk(samples_to_bytes(&[100, 200]));
    mic.push_chunk(samples_to_bytes(&[1]));
    match mix_tick(&mut system, &mut mic) {
        MixTick::Mixed(bytes) => assert_eq!(bytes_to_samples(&bytes), [101, 200]),
        _ => panic!("expected mixed audio"),
    }
    system.close();
    match mix_tick(&mut system, &mut mic) {
        MixTick::Idle => {}
        _ => panic!("the microphone is still alive"),
    }
    mic.close();
    match mix_tick(&mut system, &mut mic) {
        MixTick::Finished => {}
        _ => panic!("both ended and drained"),
    }
}

#[test]
fn mix_tick_takes_at_most_one_chunk() {
    let mut system = MixInput::new();
    let mut mic = MixInput::new();
    system.push_chunk(vec![1u8; MIX_CHUNK_BYTES + 6]);
    match mix_tick(&mut system, &mut mic) {
        MixTick::Mixed(bytes) => assert_eq!(bytes.len(), MIX_CHUNK_BYTES),
        _ => panic!("expected mixed audio"),
    }
    assert_eq!(drain_input_chunk(&mut system, 1000), vec![1u8; 6]);
    assert_eq!(MIX_CHUNK_BYTES, 640);
}
