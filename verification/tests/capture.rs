use my_translator::capture::{drain_s16le_samples, drain_stereo_s16le_to_mono};
use my_translator::commands::{check_not_capturing, check_permissions, parse_capture_source, CaptureSource};
use my_translator::pcm::{clamp_to_i16, decode_sample, encode_sample};

fn stereo(frames: &[(i16, i16)]) -> Vec<u8> {
    let mut out = Vec::new();
    for (l, r) in frames {
        out.extend_from_slice(&l.to_le_bytes());
        out.extend_from_slice(&r.to_le_bytes());
    }
    out
}

fn mono(bytes: &[u8]) -> Vec<i16> {
    bytes
        .chunks_exact(2)
        .map(|c| i16::from_le_bytes([c[0], c[1]]))
        .collect()
}

#[test]
fn drain_mono_keeps_odd_byte() {
    let mut pending = vec![1u8, 2, 3, 4, 5];
    assert_eq!(drain_s16le_samples(&mut pending), vec![1, 2, 3, 4]);
    assert_eq!(pending, vec![5]);
    pending.push(6);
    assert_eq!(drain_s16le_samples(&mut pending), vec![5, 6]);
    assert!(pending.is_empty());
}

#[test]
fn drain_mono_of_one_byte_is_nothing() {
    let mut pending = vec![9u8];
    assert!(drain_s16le_samples(&mut pending).is_empty());
    assert_eq!(pending, vec![9]);
    let mut empty: Vec<u8> = Vec::new();
    assert!(drain_s16le_samples(&mut empty).is_empty());
}

#[test]
fn downmix_averages_toward_zero() {
    let mut pending = stereo(&[(100, 300), (-3, 0), (3, 0), (i16::MAX, i16::MAX), (i16::MIN, i16::MIN), (i16::MIN, i16::MAX)]);
    pending.extend_from_slice(&[7, 8, 9]);
    let out = drain_stereo_s16le_to_mono(&mut pending);
    assert_eq!(mono(&out), [200, -1, 1, i16::MAX, i16::MIN, 0]);
    assert_eq!(pending, vec![7, 8, 9]);
}

#[test]
fn downmix_of_duplicated_channels_is_the_channel() {
    let samples: [i16; 5] = [0, -1, 1, 12_345, -32_768];
    let frames: Vec<(i16, i16)> = samples.iter().map(|s| (*s, *s)).collect();
    let mut pending = stereo(&frames);
    assert_eq!(mono(&drain_stereo_s16le_to_mono(&mut pending)), samples);
    assert!(pending.is_empty());
}

#[test]
fn downmix_of_partial_frame_is_nothing() {
    let mut pending = vec![1u8, 2, 3];
    assert!(drain_stereo_s16le_to_mono(&mut pending).is_empty());
    assert_eq!(pending, vec![1, 2, 3]);
}

#[test]
fn sample_codec_roundtrip() {
    for v in [i16::MIN, -300, -1, 0, 1, 255, 256, i16::MAX] {
        let (lo, hi) = encode_sample(v);
        assert_eq!([lo, hi], v.to_le_bytes());
        assert_eq!(decode_sample(lo, hi), v);
    }
    assert_eq!(clamp_to_i16(40_000), i16::MAX);
    assert_eq!(clamp_to_i16(-40_000), i16::MIN);
    assert_eq!(clamp_to_i16(-5), -5);
}

#[test]
fn capture_sources_by_name() {
    assert_eq!(parse_capture_source("system"), Ok(CaptureSource::System));
    assert_eq!(parse_capture_source("microphone"), Ok(CaptureSource::Microphone));
    assert_eq!(parse_capture_source("both"), Ok(CaptureSource::Both));
    assert_eq!(parse_capture_source("System"), Err("Unknown source: System".to_string()));
    assert_eq!(parse_capture_source(""), Err("Unknown source: ".to_string()));
}

#[test]
fn second_start_is_refused() {
    assert_eq!(check_not_capturing(false), Ok(()));
    assert_eq!(check_not_capturing(true), Err("Already capturing".to_string()));
}

#[test]
fn permissions_are_unknown() {
    let status = check_permissions();
    assert_eq!(status.screen_recording, "unknown");
    assert_eq!(status.microphone, "unknown");
}
