use pcm_decoder::accum::DecodedFrame;
use pcm_decoder::cache::{DecodeStep, PCMDecoder};
use pcm_decoder::pipeline::{MixOrder, SampleFormat};
use rubato::audioadapter::Adapter;
use rubato::audioadapter_buffers::owned::InterleavedOwned;
use rubato::{Async, Fft, FixedAsync, FixedSync, PolynomialDegree, Resampler};

fn bits(x: f32) -> u32 {
    x.to_bits()
}

fn val(b: u32) -> f32 {
    f32::from_bits(b)
}

fn tone(n: usize, rate: f32, freq: f32, amp: f32) -> Vec<f32> {
    (0..n)
        .map(|i| (2.0 * std::f32::consts::PI * freq * i as f32 / rate).sin() * amp)
        .collect()
}

/// Feed one zero-padded block of the per-channel runs through the filter and
/// append its output to the collected channels.
fn feed_block(
    resampler: &mut dyn Resampler<f32>,
    runs: &[Vec<u32>],
    start: usize,
    take: usize,
    chunk: usize,
    out_ch: &mut [Vec<u32>],
) {
    let channels = runs.len();
    let mut interleaved = vec![0f32; channels * chunk];
    for f in 0..take {
        for c in 0..channels {
            interleaved[f * channels + c] = val(runs[c][start + f]);
        }
    }
    let input = InterleavedOwned::new_from(interleaved, channels, chunk).unwrap();
    let output = resampler.process(&input, None).unwrap();
    let frames = output.frames();
    for c in 0..channels {
        for f in 0..frames {
            out_ch[c].push(bits(output.read_sample(c, f).unwrap()));
        }
    }
}

/// End-to-end chunked scenario: 100 ms of a two-channel 44.1 kHz tone comes
/// out as 100 ms at 48 kHz.
#[test]
fn end_to_end_chunked_scenario() {
    let n = 4410usize;
    let source = 44_100u32;
    let target = 48_000u32;
    let ch0 = tone(n, 44_100.0, 440.0, 0.5);
    let ch1 = tone(n, 44_100.0, 440.0, 0.25);
    // Two packets, to exercise accumulation across frames.
    let split = 2048usize;
    let mut p1 = Vec::new();
    let mut p2 = Vec::new();
    for i in 0..n {
        let dst = if i < split { &mut p1 } else { &mut p2 };
        dst.push(bits(ch0[i]));
        dst.push(bits(ch1[i]));
    }
    let frames = vec![
        DecodedFrame { rate: source, channels: 2, samples: p1 },
        DecodedFrame { rate: source, channels: 2, samples: p2 },
    ];
    let mut dec = PCMDecoder::new();
    let step = dec.decode(&frames, source, target).unwrap();
    let (runs, blocks) = match step {
        DecodeStep::NeedChunked { runs, blocks } => (runs, blocks),
        _ => panic!("expected the chunked resample step"),
    };
    assert_eq!(runs.len(), 2);
    assert_eq!(runs[0].len(), n);
    assert_eq!(blocks.len(), 2);

    let chunk = 4096usize;
    let mut resampler = Fft::<f32>::new(
        source as usize,
        target as usize,
        chunk,
        runs.len(),
        FixedSync::Input,
    )
    .unwrap();
    assert_eq!(resampler.input_frames_next(), chunk);
    let mut out_ch: Vec<Vec<u32>> = vec![Vec::new(); runs.len()];
    for b in &blocks {
        feed_block(&mut resampler, &runs, b.start, b.take, chunk, &mut out_ch);
    }
    for _ in 0..3 {
        feed_block(&mut resampler, &runs, 0, 0, chunk, &mut out_ch);
    }
    dec.complete_chunked(&out_ch, n, source, target).unwrap();

    // 4410 frames at 44.1 kHz are 100 ms; at 48 kHz that is 4800 frames.
    let size = dec.get_size();
    assert!(size as u64 >= (n as u64) * (target as u64) / (source as u64));
    assert_eq!(size, 4800);

    // The output carries real signal, not silence.
    let mut dest = vec![0u32; size];
    assert!(dec.copy(&mut dest));
    let energy: f32 = dest.iter().map(|b| val(*b) * val(*b)).sum();
    assert!(energy > 1.0);
}

/// The single-shot strategy resamples the whole mixed run in one call sized
/// to its length; the output length is the resampler's own produced length.
#[test]
fn single_shot_mono_resample() {
    let n = 2000usize;
    let source = 44_100u32;
    let target = 48_000u32;
    let mono_in = tone(n, 44_100.0, 330.0, 0.4);
    let frames = vec![DecodedFrame {
        rate: source,
        channels: 1,
        samples: mono_in.iter().map(|x| bits(*x)).collect(),
    }];
    let mut dec = PCMDecoder::with_mode(SampleFormat::Binary32, MixOrder::BeforeResample);
    let step = dec.decode(&frames, source, target).unwrap();
    let mono = match step {
        DecodeStep::NeedSingle { mono } => mono,
        _ => panic!("expected the single-shot resample step"),
    };
    assert_eq!(mono.len(), n);

    let ratio = target as f64 / source as f64;
    let mut resampler = Async::<f32>::new_poly(
        ratio,
        2.0,
        PolynomialDegree::Cubic,
        mono.len(),
        1,
        FixedAsync::Input,
    )
    .unwrap();
    let needed = resampler.input_frames_next();
    let mut interleaved = vec![0f32; needed];
    for (i, b) in mono.iter().enumerate() {
        interleaved[i] = val(*b);
    }
    let input = InterleavedOwned::new_from(interleaved, 1, needed).unwrap();
    let output = resampler.process(&input, None).unwrap();
    let produced = output.frames();
    let mut out = Vec::new();
    for f in 0..produced {
        out.push(bits(output.read_sample(0, f).unwrap()));
    }
    dec.complete_mono(out);
    assert_eq!(dec.get_size(), produced);
    // Roughly the converted length.
    let expected = (n as f64 * ratio) as i64;
    assert!((dec.get_size() as i64 - expected).abs() < 200);
}
