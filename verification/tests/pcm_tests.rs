use pcm_decoder::accum::DecodedFrame;
use pcm_decoder::cache::{DecodeStep, PCMDecoder};
use pcm_decoder::DecodeError;
use pcm_decoder::pipeline::{MixOrder, SampleFormat};
use pcm_decoder::plan::{plan_blocks, CHUNK_FRAMES, FLUSH_BLOCKS};
use pcm_decoder::policy::{packet_action, LoopAction, StreamEvent};

fn bits(x: f32) -> u32 {
    x.to_bits()
}

fn val(b: u32) -> f32 {
    f32::from_bits(b)
}

fn interleave(chans: &[Vec<f32>]) -> Vec<u32> {
    let frames = chans[0].len();
    let mut out = Vec::new();
    for f in 0..frames {
        for ch in chans {
            out.push(bits(ch[f]));
        }
    }
    out
}

fn close(a: f32, b: f32) -> bool {
    let diff = (a - b).abs();
    diff <= 1e-5 * (1.0 + a.abs().max(b.abs()))
}

#[test]
fn equal_rate_identity_mix_after() {
    let n = 100;
    let ch0: Vec<f32> = (0..n).map(|i| (i as f32 * 0.37).sin() * 0.8).collect();
    let ch1: Vec<f32> = (0..n).map(|i| (i as f32 * 0.11).cos() * 0.5).collect();
    let frames = vec![DecodedFrame {
        rate: 48_000,
        channels: 2,
        samples: interleave(&[ch0.clone(), ch1.clone()]),
    }];
    let mut dec = PCMDecoder::new();
    let step = dec.decode(&frames, 48_000, 48_000).unwrap();
    assert!(matches!(step, DecodeStep::Stored));
    assert_eq!(dec.get_size(), n);
    let mut dest = vec![0u32; n];
    assert!(dec.copy(&mut dest));
    for i in 0..n {
        let expected = (ch0[i] + ch1[i]) / 2.0;
        assert!(close(val(dest[i]), expected), "frame {}", i);
    }
}

#[test]
fn equal_rate_identity_mix_first() {
    let n = 64;
    let ch0: Vec<f32> = (0..n).map(|i| (i as f32 * 0.2).sin()).collect();
    let ch1: Vec<f32> = (0..n).map(|i| (i as f32 * 0.3).sin()).collect();
    let frames = vec![DecodedFrame {
        rate: 48_000,
        channels: 2,
        samples: interleave(&[ch0.clone(), ch1.clone()]),
    }];
    let mut dec = PCMDecoder::with_mode(SampleFormat::Binary32, MixOrder::BeforeResample);
    let step = dec.decode(&frames, 48_000, 48_000).unwrap();
    assert!(matches!(step, DecodeStep::Stored));
    assert_eq!(dec.get_size(), n);
    let mut dest = vec![0u32; n];
    assert!(dec.copy(&mut dest));
    for i in 0..n {
        let expected = (ch0[i] + ch1[i]) / 2.0;
        assert!(close(val(dest[i]), expected), "frame {}", i);
    }
}

#[test]
fn channel_mismatch_fails_and_preserves_cache() {
    let mut dec = PCMDecoder::new();
    let first = vec![DecodedFrame {
        rate: 48_000,
        channels: 1,
        samples: vec![bits(0.25), bits(0.5)],
    }];
    let step = dec.decode(&first, 48_000, 48_000).unwrap();
    assert!(matches!(step, DecodeStep::Stored));
    assert_eq!(dec.get_size(), 2);

    let bad = vec![
        DecodedFrame {
            rate: 44_100,
            channels: 2,
            samples: vec![bits(0.1), bits(0.2), bits(0.3), bits(0.4)],
        },
        DecodedFrame {
            rate: 44_100,
            channels: 1,
            samples: vec![bits(0.9)],
        },
    ];
    let err = dec.decode(&bad, 44_100, 48_000);
    assert!(err.is_err());
    // The prior cached buffer is untouched.
    assert_eq!(dec.get_size(), 2);
    let mut dest = vec![0u32; 2];
    assert!(dec.copy(&mut dest));
    assert_eq!(val(dest[0]), 0.25);
    assert_eq!(val(dest[1]), 0.5);
}

#[test]
fn empty_input_short_circuit() {
    let mut dec = PCMDecoder::new();
    let step = dec.decode(&Vec::new(), 44_100, 48_000).unwrap();
    assert!(matches!(step, DecodeStep::Stored));
    assert_eq!(dec.get_size(), 0);

    // A zero source rate also short-circuits to an empty buffer.
    let frames = vec![DecodedFrame {
        rate: 0,
        channels: 2,
        samples: vec![bits(0.1), bits(0.2)],
    }];
    let step = dec.decode(&frames, 0, 48_000).unwrap();
    assert!(matches!(step, DecodeStep::Stored));
    assert_eq!(dec.get_size(), 0);

    // The slot holds a (zero-length) buffer, so a copy reports success.
    let mut dest: Vec<u32> = Vec::new();
    assert!(dec.copy(&mut dest));
    assert!(dest.is_empty());
}

#[test]
fn zero_channel_frames_are_skipped() {
    let mut dec = PCMDecoder::new();
    let frames = vec![
        DecodedFrame { rate: 48_000, channels: 0, samples: vec![bits(9.0)] },
        DecodedFrame { rate: 48_000, channels: 1, samples: vec![bits(0.5)] },
    ];
    let step = dec.decode(&frames, 48_000, 48_000).unwrap();
    assert!(matches!(step, DecodeStep::Stored));
    assert_eq!(dec.get_size(), 1);
    let mut dest = vec![0u32; 1];
    assert!(dec.copy(&mut dest));
    assert_eq!(val(dest[0]), 0.5);
}

#[test]
fn cache_lifecycle_free_then_queries() {
    let mut dec = PCMDecoder::new();
    let frames = vec![DecodedFrame {
        rate: 48_000,
        channels: 1,
        samples: vec![bits(0.1), bits(0.2), bits(0.3)],
    }];
    dec.decode(&frames, 48_000, 48_000).unwrap();
    assert_eq!(dec.get_size(), 3);
    let mut dest = vec![0u32; 3];
    assert!(dec.copy(&mut dest));

    dec.free();
    assert_eq!(dec.get_size(), 0);
    let mut dest2 = vec![7u32; 3];
    assert!(!dec.copy(&mut dest2));
    // The destination is untouched by a failed copy.
    assert_eq!(dest2, vec![7u32; 3]);
    // Releasing again is idempotent.
    dec.free();
    assert_eq!(dec.get_size(), 0);
}

#[test]
fn quantization_bounds_and_values() {
    let inputs: Vec<f32> = vec![
        0.0, 0.4, 0.5, 0.6, -0.5, -1.4, 1.6, 100.25, -100.75, 32767.4, 32767.6, -32768.4,
        -40000.0, 99999.0, 1e-30, -1e-30, 12345.5,
    ];
    let frames = vec![DecodedFrame {
        rate: 48_000,
        channels: 1,
        samples: inputs.iter().map(|x| bits(*x)).collect(),
    }];
    let mut dec = PCMDecoder::with_mode(SampleFormat::Int16, MixOrder::AfterResample);
    let step = dec.decode(&frames, 48_000, 48_000).unwrap();
    assert!(matches!(step, DecodeStep::Stored));
    assert_eq!(dec.get_size(), inputs.len());
    let mut dest = vec![0i16; inputs.len()];
    assert!(dec.copy_i16(&mut dest));
    for i in 0..inputs.len() {
        // The mean of one channel is the sample itself; the quantized value
        // equals the independently clamped, rounded one.
        let expected = inputs[i].clamp(-32768.0, 32767.0).round() as i16;
        assert_eq!(dest[i], expected, "sample {} = {}", i, inputs[i]);
        assert!(dest[i] >= -32768 && dest[i] <= 32767);
    }
}

#[test]
fn quantization_nonfinite_inputs() {
    let frames = vec![DecodedFrame {
        rate: 48_000,
        channels: 1,
        samples: vec![
            f32::NAN.to_bits(),
            f32::INFINITY.to_bits(),
            f32::NEG_INFINITY.to_bits(),
        ],
    }];
    let mut dec = PCMDecoder::with_mode(SampleFormat::Int16, MixOrder::AfterResample);
    dec.decode(&frames, 48_000, 48_000).unwrap();
    let mut dest = vec![0i16; 3];
    assert!(dec.copy_i16(&mut dest));
    assert_eq!(dest[0], 0);
    assert_eq!(dest[1], 32767);
    assert_eq!(dest[2], -32768);
}

#[test]
fn plan_blocks_partition() {
    let blocks = plan_blocks(4410);
    assert_eq!(blocks.len(), 2);
    assert_eq!(blocks[0].start, 0);
    assert_eq!(blocks[0].take, CHUNK_FRAMES);
    assert_eq!(blocks[1].start, 4096);
    assert_eq!(blocks[1].take, 314);
    assert_eq!(FLUSH_BLOCKS, 3);
    assert!(plan_blocks(0).is_empty());
    let exact = plan_blocks(8192);
    assert_eq!(exact.len(), 2);
    assert_eq!(exact[1].take, CHUNK_FRAMES);
}

#[test]
fn packet_policy_actions() {
    assert_eq!(packet_action(StreamEvent::ResetRequired), LoopAction::Reset);
    assert_eq!(packet_action(StreamEvent::EndOfInput), LoopAction::Stop);
    assert_eq!(packet_action(StreamEvent::TransientDecodeError), LoopAction::Skip);
    assert_eq!(packet_action(StreamEvent::FatalError), LoopAction::Abort);
    assert_eq!(packet_action(StreamEvent::ForeignTrackPacket), LoopAction::Skip);
    assert_eq!(packet_action(StreamEvent::FrameReady), LoopAction::Consume);
}

#[test]
fn mixdown_accuracy_against_hardware() {
    // The bit-pattern arithmetic must agree with the machine's own binary32
    // mean within rounding.
    let a: Vec<f32> = vec![0.1, -0.7, 1.5e-3, 123.456, -9.8e5, 3.25e-8, 0.0, -0.0];
    let b: Vec<f32> = vec![0.9, 0.65, -2.5e-3, -23.456, 9.9e5, 1.75e-8, -0.0, 0.0];
    let c: Vec<f32> = vec![0.5, 0.5, 0.5, 0.5, 0.5, 0.5, 0.5, 0.5];
    let frames = vec![DecodedFrame {
        rate: 48_000,
        channels: 3,
        samples: interleave(&[a.clone(), b.clone(), c.clone()]),
    }];
    let mut dec = PCMDecoder::new();
    dec.decode(&frames, 48_000, 48_000).unwrap();
    let mut dest = vec![0u32; a.len()];
    assert!(dec.copy(&mut dest));
    for i in 0..a.len() {
        let expected = (a[i] + b[i] + c[i]) / 3.0;
        assert!(close(val(dest[i]), expected), "frame {}: {} vs {}", i, val(dest[i]), expected);
    }
}

#[test]
fn copy_rejects_undersized_destination() {
    let mut dec = PCMDecoder::new();
    let frames = vec![DecodedFrame {
        rate: 48_000,
        channels: 1,
        samples: vec![bits(0.1), bits(0.2)],
    }];
    dec.decode(&frames, 48_000, 48_000).unwrap();
    let mut small = vec![0u32; 1];
    assert!(!dec.copy(&mut small));
    assert_eq!(small, vec![0u32; 1]);
}

#[test]
fn ragged_resampler_output_is_config_error() {
    let mut dec = PCMDecoder::new();
    // Seed the cache so we can see it is preserved on failure.
    let frames = vec![DecodedFrame {
        rate: 48_000,
        channels: 1,
        samples: vec![bits(0.5)],
    }];
    dec.decode(&frames, 48_000, 48_000).unwrap();
    assert_eq!(dec.get_size(), 1);

    let ragged = vec![vec![bits(0.1), bits(0.2)], vec![bits(0.3)]];
    let err = dec.complete_chunked(&ragged, 2, 44_100, 48_000);
    assert_eq!(err.unwrap_err(), DecodeError::ResamplerConfigFailure);
    assert_eq!(dec.get_size(), 1);
}

#[test]
fn mean_tracks_hardware_across_magnitudes() {
    // Sweep magnitudes from subnormal to huge, both signs, and hold the
    // two-channel mean to the machine's own binary32 arithmetic.
    let mut values: Vec<f32> = Vec::new();
    let mut x = 1.0e-40f32;
    while x < 1.0e38 {
        values.push(x);
        values.push(-x * 0.7);
        values.push(x * 1.3333);
        x *= 97.0;
    }
    let n = values.len() / 2 * 2;
    let a: Vec<f32> = values[..n / 2].to_vec();
    let b: Vec<f32> = values[n / 2..n].to_vec();
    let frames = vec![DecodedFrame {
        rate: 48_000,
        channels: 2,
        samples: interleave(&[a.clone(), b.clone()]),
    }];
    let mut dec = PCMDecoder::new();
    dec.decode(&frames, 48_000, 48_000).unwrap();
    let mut dest = vec![0u32; a.len()];
    assert!(dec.copy(&mut dest));
    for i in 0..a.len() {
        let expected = (a[i] + b[i]) / 2.0;
        assert!(
            close(val(dest[i]), expected),
            "pair ({}, {}): {} vs {}",
            a[i],
            b[i],
            val(dest[i]),
            expected
        );
    }
}
