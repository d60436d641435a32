//! Tests of the engine driving a spectral DC-removal transform: a
//! forward real transform, the zero-frequency bin cleared, a gain
//! compensation of one over the window size, and the inverse transform
//! back into the window, exactly as the effect's remove-DC mode runs it.
use prismatine::engine::FFTHelper;
use prismatine::transform::WindowTransform;
use realfft::num_complex::Complex;
use realfft::{ComplexToReal, RealFftPlanner, RealToComplex};
use std::sync::Arc;

struct DcRemove {
    r2c: Arc<dyn RealToComplex<f32>>,
    c2r: Arc<dyn ComplexToReal<f32>>,
    spectrum: Vec<Complex<f32>>,
    scratch: Vec<Complex<f32>>,
    gain_compensation: f32,
}

impl DcRemove {
    fn new(window_size: usize) -> Self {
        let mut planner = RealFftPlanner::new();
        let r2c = planner.plan_fft_forward(window_size);
        let c2r = planner.plan_fft_inverse(window_size);
        let spectrum = r2c.make_output_vec();
        let scratch_len = r2c.get_scratch_len().max(c2r.get_scratch_len());
        DcRemove {
            r2c,
            c2r,
            spectrum,
            scratch: vec![Complex::new(0.0, 0.0); scratch_len],
            gain_compensation: 1.0 / window_size as f32,
        }
    }
}

impl WindowTransform<f32> for DcRemove {
    fn apply(&mut self, _ch: usize, w: &mut Vec<f32>) {
        self.r2c
            .process_with_scratch(w, &mut self.spectrum, &mut self.scratch)
            .unwrap();
        self.spectrum[0] = Complex::new(0.0, 0.0);
        for c in self.spectrum.iter_mut() {
            *c *= self.gain_compensation;
        }
        self.c2r
            .process_with_scratch(&mut self.spectrum, w, &mut self.scratch)
            .unwrap();
    }
}

#[test]
fn dc_only_window_comes_out_near_zero() {
    // A constant-valued window is pure DC: once the DC bin is cleared,
    // the window that drains out must be (approximately) zero.
    let w = 64;
    let mut engine = FFTHelper::new(1, w, 0.0f32);
    let mut input = vec![1.0f32; w];
    input.extend(vec![0.0f32; w]);
    let mut block = vec![input];
    let mut tr = DcRemove::new(w);
    engine.process(&mut block, &mut tr);
    for t in 0..w {
        assert_eq!(block[0][t], 0.0);
    }
    let mut mean = 0.0f64;
    for t in w..2 * w {
        assert!(block[0][t].abs() <= 1e-5, "sample {t} = {}", block[0][t]);
        mean += block[0][t] as f64;
    }
    assert!((mean / w as f64).abs() <= 1e-6);
}

#[test]
fn zero_mean_sine_window_round_trips() {
    // A zero-mean sinusoid whose period divides the window size has no
    // DC component, so removing the DC bin must reproduce it up to
    // transform round-trip error.
    let w = 64;
    let period = 16;
    let sine: Vec<f32> = (0..w)
        .map(|i| (2.0 * std::f32::consts::PI * i as f32 / period as f32).sin())
        .collect();
    let mut input = sine.clone();
    input.extend(vec![0.0f32; w]);
    let mut engine = FFTHelper::new(1, w, 0.0f32);
    let mut block = vec![input];
    let mut tr = DcRemove::new(w);
    engine.process(&mut block, &mut tr);
    for t in 0..w {
        let got = block[0][w + t];
        let want = sine[t];
        assert!(
            (got - want).abs() <= 1e-5,
            "sample {t}: got {got}, want {want}"
        );
    }
}

#[test]
fn ramp_with_dc_removal_stays_bounded() {
    // A constant positive-slope ramp for three whole windows with DC
    // removal engaged: by the second output window the analysis window
    // has had its DC removed, so each output window has near-zero mean
    // and bounded amplitude, not a growing offset.
    let w = 1024;
    let slope = 0.01f32;
    let n = 3 * w;
    let ramp: Vec<f32> = (0..n).map(|i| slope * i as f32).collect();
    let mut engine = FFTHelper::new(2, w, 0.0f32);
    let mut block = vec![ramp.clone(), ramp];
    let mut tr = DcRemove::new(w);
    engine.process(&mut block, &mut tr);
    for ch in &block {
        for (start, end) in [(w, 2 * w), (2 * w, 3 * w)] {
            let mut mean = 0.0f64;
            let mut peak = 0.0f32;
            for t in start..end {
                mean += ch[t] as f64;
                peak = peak.max(ch[t].abs());
            }
            mean /= w as f64;
            assert!(mean.abs() <= 1e-3, "window mean {mean}");
            // the ramp's within-window swing is slope * w; with the DC
            // (the window's average) removed the peak stays near half
            // that, and in particular does not track the raw offset,
            // which reaches slope * 3 * w by the end.
            assert!(peak <= slope * w as f32, "window peak {peak}");
        }
        // the second and third output windows are the same de-trended
        // shape: the amplitude does not grow from window to window.
        let mut max_diff = 0.0f32;
        for t in 0..w {
            max_diff = max_diff.max((ch[w + t] - ch[2 * w + t]).abs());
        }
        assert!(max_diff <= 1e-3, "windows diverge by {max_diff}");
    }
}
