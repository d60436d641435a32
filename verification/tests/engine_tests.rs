//! Behavioural tests of the overlap block engine with sample-moving
//! transforms: the one-window delay, independence from how the stream
//! is chopped into blocks, silence handling, and reset.
use prismatine::engine::FFTHelper;
use prismatine::transform::{IdentityTransform, WindowTransform};

/// A transform that negates every sample of the window, to observe
/// that the engine really hands each completed window to the transform
/// before draining it.
struct Negate;

impl WindowTransform<f32> for Negate {
    fn apply(&mut self, _ch: usize, w: &mut Vec<f32>) {
        for x in w.iter_mut() {
            *x = -*x;
        }
    }
}

fn run_in_chunks(
    engine: &mut FFTHelper<f32>,
    input: &[Vec<f32>],
    chunk_sizes: &[usize],
) -> Vec<Vec<f32>> {
    let channels = input.len();
    let n = input[0].len();
    let mut out: Vec<Vec<f32>> = vec![Vec::new(); channels];
    let mut start = 0;
    let mut chunk_idx = 0;
    while start < n {
        let mut size = chunk_sizes[chunk_idx % chunk_sizes.len()];
        chunk_idx += 1;
        if size == 0 {
            size = 1;
        }
        if start + size > n {
            size = n - start;
        }
        let mut block: Vec<Vec<f32>> = input
            .iter()
            .map(|ch| ch[start..start + size].to_vec())
            .collect();
        let mut tr = IdentityTransform;
        engine.process(&mut block, &mut tr);
        for (c, ch) in block.into_iter().enumerate() {
            out[c].extend_from_slice(&ch);
        }
        start += size;
    }
    out
}

#[test]
fn identity_delay_whole_block() {
    let mut engine = FFTHelper::new(1, 4, 0.0f32);
    let mut block = vec![vec![1.0, 2.0, 3.0, 4.0, 5.0, 6.0, 7.0, 8.0]];
    let mut tr = IdentityTransform;
    engine.process(&mut block, &mut tr);
    assert_eq!(block[0], vec![0.0, 0.0, 0.0, 0.0, 1.0, 2.0, 3.0, 4.0]);
}

#[test]
fn identity_delay_one_sample_at_a_time() {
    let input = vec![(1..=8).map(|i| i as f32).collect::<Vec<f32>>()];
    let mut engine = FFTHelper::new(1, 4, 0.0f32);
    let out = run_in_chunks(&mut engine, &input, &[1]);
    assert_eq!(out[0], vec![0.0, 0.0, 0.0, 0.0, 1.0, 2.0, 3.0, 4.0]);
}

#[test]
fn any_partition_is_bit_identical() {
    // A ramp through several partitions must agree bit for bit with the
    // whole-stream run, shifted by exactly one window.
    let n = 300;
    let w = 32;
    let ramp: Vec<f32> = (0..n).map(|i| 0.25 * i as f32 - 7.0).collect();
    let input = vec![ramp.clone()];

    let mut reference = FFTHelper::new(1, w, 0.0f32);
    let ref_out = run_in_chunks(&mut reference, &input, &[n]);

    for chunks in [
        vec![1usize],
        vec![7, 3, 1, 50],
        vec![31],
        vec![32],
        vec![33],
        vec![299, 1],
    ] {
        let mut engine = FFTHelper::new(1, w, 0.0f32);
        let out = run_in_chunks(&mut engine, &input, &chunks);
        assert_eq!(out, ref_out);
    }
    for t in 0..n {
        let expected = if t < w { 0.0 } else { ramp[t - w] };
        assert_eq!(ref_out[0][t].to_bits(), expected.to_bits());
    }
}

#[test]
fn silence_stays_silence() {
    // Window size 1024, 2 channels, 2048 zero samples: the first window
    // of output is the pre-fill latency, and all of it is exactly zero.
    let mut engine = FFTHelper::new(2, 1024, 0.0f32);
    let mut block = vec![vec![0.0f32; 2048], vec![0.0f32; 2048]];
    let mut tr = IdentityTransform;
    engine.process(&mut block, &mut tr);
    for ch in &block {
        assert_eq!(ch.len(), 2048);
        for &x in ch {
            assert_eq!(x.to_bits(), 0.0f32.to_bits());
        }
    }
}

#[test]
fn transform_rewrites_each_window() {
    let mut engine = FFTHelper::new(1, 4, 0.0f32);
    let mut block = vec![(1..=12).map(|i| i as f32).collect::<Vec<f32>>()];
    let mut tr = Negate;
    engine.process(&mut block, &mut tr);
    let expected: Vec<f32> = vec![
        0.0, 0.0, 0.0, 0.0, -1.0, -2.0, -3.0, -4.0, -5.0, -6.0, -7.0, -8.0,
    ];
    assert_eq!(block[0], expected);
}

#[test]
fn channels_are_independent() {
    let mut engine = FFTHelper::new(2, 3, 0.0f32);
    let mut block = vec![
        vec![1.0, 2.0, 3.0, 4.0, 5.0, 6.0],
        vec![10.0, 20.0, 30.0, 40.0, 50.0, 60.0],
    ];
    let mut tr = IdentityTransform;
    engine.process(&mut block, &mut tr);
    assert_eq!(block[0], vec![0.0, 0.0, 0.0, 1.0, 2.0, 3.0]);
    assert_eq!(block[1], vec![0.0, 0.0, 0.0, 10.0, 20.0, 30.0]);
}

#[test]
fn reset_replays_like_a_fresh_engine() {
    // After a whole number of windows, clearing the buffers restores
    // the fresh engine's outputs for the same input.
    let input = vec![(1..=8).map(|i| i as f32).collect::<Vec<f32>>()];
    let mut engine = FFTHelper::new(1, 4, 0.0f32);
    let first = run_in_chunks(&mut engine, &input, &[3, 5]);
    engine.reset();
    let replay = run_in_chunks(&mut engine, &input, &[8]);
    assert_eq!(replay, first);
}

#[test]
fn reset_clears_buffered_content() {
    // Half a window goes in, then reset: the stale samples must never
    // drain out.
    let mut engine = FFTHelper::new(1, 4, 0.0f32);
    let mut block = vec![vec![9.0f32, 9.0, 9.0, 9.0]];
    let mut tr = IdentityTransform;
    engine.process(&mut block, &mut tr);
    engine.reset();
    let mut quiet = vec![vec![0.0f32; 8]];
    engine.process(&mut quiet, &mut tr);
    for &x in &quiet[0] {
        assert_eq!(x, 0.0);
    }
}

#[test]
fn empty_block_changes_nothing() {
    let mut engine = FFTHelper::new(1, 4, 0.0f32);
    let mut tr = IdentityTransform;
    let mut first = vec![vec![1.0f32, 2.0, 3.0]];
    engine.process(&mut first, &mut tr);
    let mut empty: Vec<Vec<f32>> = vec![Vec::new()];
    engine.process(&mut empty, &mut tr);
    assert!(empty[0].is_empty());
    let mut rest = vec![vec![4.0f32, 5.0, 6.0]];
    engine.process(&mut rest, &mut tr);
    assert_eq!(rest[0], vec![0.0, 1.0, 2.0]);
}

#[test]
fn latency_equals_window_size() {
    let engine = FFTHelper::new(2, 1024, 0.0f32);
    assert_eq!(engine.latency_samples(), 1024);
    assert_eq!(engine.num_channels(), 2);
}

#[test]
fn samples_move_without_arithmetic() {
    // The engine moves samples; it never computes on them. NaN bit
    // patterns and negative zero must come out bit-identical.
    let weird = [f32::NAN, -0.0f32, f32::INFINITY, f32::MIN_POSITIVE];
    let mut engine = FFTHelper::new(1, 2, 0.0f32);
    let mut block = vec![vec![weird[0], weird[1], weird[2], weird[3], 0.0, 0.0]];
    let mut tr = IdentityTransform;
    engine.process(&mut block, &mut tr);
    assert_eq!(block[0][2].to_bits(), weird[0].to_bits());
    assert_eq!(block[0][3].to_bits(), weird[1].to_bits());
    assert_eq!(block[0][4].to_bits(), weird[2].to_bits());
    assert_eq!(block[0][5].to_bits(), weird[3].to_bits());
}
