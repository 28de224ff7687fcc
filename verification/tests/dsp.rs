//! The parts of the effects, driven with the arithmetic of this machine.

use hypemuzik::dsp::arith::Calc;
use hypemuzik::dsp::bands::{active_bands, boost_share, channel_of, filter_kind, BoostShare, FilterKind};
use hypemuzik::dsp::chain::{standard, Stage};
use hypemuzik::dsp::compander::{
    empty_compander_meter, must_apply, BlockGains, CompanderMeter, Control, CTRL_INTERVAL,
};
use hypemuzik::dsp::convolver::{MonoConvolver, CONV_BLOCK, CONV_FFT};
use hypemuzik::dsp::delay::{DelayLine, Ring};
use hypemuzik::dsp::limiter::{frame_peak, Limiter, PeakWindow};
use hypemuzik::dsp::oversample::{polyphase, NUM_TAPS};
use hypemuzik::dsp::spatial::{
    ears, spatial_path, speakers, surround_active, Feed, HrtfConvolver, SpatialPath,
};
use hypemuzik::dsp::tuning::{gain_factor, limiter_timing, LIMITER_CEILING};
use hypemuzik::types::{CompanderState, SpatialMode, SurroundSpeakers};
use realfft::num_complex::Complex;
use realfft::RealFftPlanner;

fn math(c: Calc, a: u32, b: u32) -> u32 {
    let (x, y) = (f32::from_bits(a), f32::from_bits(b));
    let v = match c {
        Calc::Add => x + y,
        Calc::Sub => x - y,
        Calc::Mul => x * y,
        Calc::Div => x / y,
        Calc::Exp => x.exp(),
        Calc::Round => x.round(),
        Calc::TenTo => 10f32.powf(x),
        Calc::Count => return x as u32,
        other => panic!("a limiter does not need {other:?}"),
    };
    v.to_bits()
}

struct Limiting {
    stage: Limiter,
}

fn lookahead_frames(sample_rate: f32) -> usize {
    limiter_timing(sample_rate.to_bits(), &math).0
}

impl Limiting {
    fn new(sample_rate: f32, channels: usize, ceiling_db: f32) -> Limiting {
        let (ahead, release) = limiter_timing(sample_rate.to_bits(), &math);
        let mut stage = Limiter::new(LIMITER_CEILING, release, ahead, channels);
        stage.set_params(true, gain_factor(ceiling_db.to_bits(), &math));
        Limiting { stage }
    }

    fn process(&mut self, buffer: &mut [f32], channels: usize) {
        let mut bits: Vec<u32> = buffer.iter().map(|x| x.to_bits()).collect();
        self.stage.process(&mut bits, channels, &math);
        for (x, b) in buffer.iter_mut().zip(bits) {
            *x = f32::from_bits(b);
        }
    }
}

#[test]
fn a_limiter_that_is_off_is_identity_and_one_that_is_reshaped_starts_anew() {
    let mut lim = Limiting::new(48_000.0, 2, -0.3);
    lim.stage.set_params(false, 0.5f32.to_bits());
    let mut buffer = vec![3.0f32, -3.0];
    lim.process(&mut buffer, 2);
    assert_eq!(buffer, vec![3.0, -3.0]);
    lim.stage.set_params(true, 0.5f32.to_bits());
    lim.stage.prepare(0.5f32.to_bits(), 1, 0);
    let mut mono = vec![0.25f32, 0.5, 2.0, 0.5, 0.5];
    lim.process(&mut mono, 1);
    assert_eq!(mono, vec![0.0, 0.25, 0.125, 0.5, 0.3125]);
    let mut pair = vec![0.25f32, 0.125];
    lim.process(&mut pair, 2);
    assert_eq!(pair, vec![0.0, 0.0]);
}

#[test]
fn holds_output_below_ceiling() {
    let sample_rate = 48_000.0;
    let ceiling_lin = 10f32.powf(-0.3 / 20.0);
    let mut lim = Limiting::new(sample_rate, 2, -0.3);
    let frames = 48_000;
    let mut buffer = vec![0.0f32; frames * 2];
    for f in 0..frames {
        let s = (f as f32 / sample_rate * 2.0 * std::f32::consts::PI * 220.0).sin() * 4.0;
        buffer[f * 2] = s;
        buffer[f * 2 + 1] = s;
    }
    lim.process(&mut buffer, 2);
    let peak = buffer.iter().fold(0.0f32, |m, &x| m.max(x.abs()));
    assert!(peak <= ceiling_lin + 1e-3, "peak {peak} exceeded ceiling {ceiling_lin}");
}

struct NaiveLimiter {
    ceiling_lin: f32,
    delay: Vec<f32>,
    write_idx: usize,
    lookahead_frames: usize,
    release_coeff: f32,
    gain: f32,
}

impl NaiveLimiter {
    fn new(sample_rate: f32, channels: usize, ceiling_db: f32) -> Self {
        let lookahead_frames = lookahead_frames(sample_rate);
        let tau = (100.0 / 1000.0) * sample_rate;
        Self {
            ceiling_lin: 10f32.powf(ceiling_db / 20.0),
            delay: vec![0.0; lookahead_frames * channels.max(1)],
            write_idx: 0,
            lookahead_frames,
            release_coeff: 1.0 - (-1.0 / tau).exp(),
            gain: 1.0,
        }
    }

    fn process(&mut self, buffer: &mut [f32], channels: usize) {
        let frames = buffer.len() / channels;
        for f in 0..frames {
            let base = f * channels;
            let mut window_peak = 0.0f32;
            for &queued in self.delay.iter() {
                let a = queued.abs();
                if a > window_peak {
                    window_peak = a;
                }
            }
            for ch in 0..channels {
                let a = buffer[base + ch].abs();
                if a > window_peak {
                    window_peak = a;
                }
            }
            let target = if window_peak > self.ceiling_lin {
                self.ceiling_lin / window_peak
            } else {
                1.0
            };
            self.gain += (1.0 - self.gain) * self.release_coeff;
            if self.gain > target {
                self.gain = target;
            }
            let slot = self.write_idx * channels;
            for ch in 0..channels {
                let out = self.delay[slot + ch] * self.gain;
                self.delay[slot + ch] = buffer[base + ch];
                buffer[base + ch] = out;
            }
            self.write_idx = (self.write_idx + 1) % self.lookahead_frames;
        }
    }
}

fn assert_matches_naive(signal: &[f32], channels: usize, label: &str) {
    let sample_rate = 48_000.0;
    let ceiling_db = -0.3;
    let mut fast = Limiting::new(sample_rate, channels, ceiling_db);
    let mut fast_buf = signal.to_vec();
    let mut off = 0;
    for chunk in [37usize, 480, 1, 999, 256].iter().cycle() {
        if off >= fast_buf.len() {
            break;
        }
        let end = (off + chunk * channels).min(fast_buf.len());
        fast.process(&mut fast_buf[off..end], channels);
        off = end;
    }
    let mut naive = NaiveLimiter::new(sample_rate, channels, ceiling_db);
    let mut naive_buf = signal.to_vec();
    naive.process(&mut naive_buf, channels);
    for (i, (&a, &b)) in fast_buf.iter().zip(naive_buf.iter()).enumerate() {
        assert!(
            a.to_bits() == b.to_bits(),
            "{label}: sample {i} differs: window={a} naive={b}"
        );
    }
}

#[test]
fn matches_naive_on_impulse() {
    let mut signal = vec![0.0f32; 4_000 * 2];
    signal[100 * 2] = 4.0;
    signal[100 * 2 + 1] = -4.0;
    signal[2_500 * 2] = 2.0;
    assert_matches_naive(&signal, 2, "impulse");
}

#[test]
fn matches_naive_on_sine_burst() {
    let sample_rate = 48_000.0;
    let burst = 6_000;
    let mut signal: Vec<f32> = (0..burst)
        .flat_map(|f| {
            let s = (f as f32 / sample_rate * 2.0 * std::f32::consts::PI * 220.0).sin() * 2.0;
            [s, s * 0.8]
        })
        .collect();
    signal.extend(std::iter::repeat_n(0.0, 6_000 * 2));
    assert_matches_naive(&signal, 2, "sine burst");
}

#[test]
fn matches_naive_on_noise() {
    let mut seed = 0x1234_5678u32;
    let mut next = || {
        seed = seed.wrapping_mul(1_664_525).wrapping_add(1_013_904_223);
        (seed >> 8) as f32 / (1 << 24) as f32 * 6.0 - 3.0
    };
    let signal: Vec<f32> = (0..12_000 * 2).map(|_| next()).collect();
    assert_matches_naive(&signal, 2, "noise");
    let mono: Vec<f32> = (0..12_000).map(|_| next()).collect();
    assert_matches_naive(&mono, 1, "noise mono");
}

#[test]
fn transparent_below_ceiling() {
    let sample_rate = 48_000.0;
    let mut lim = Limiting::new(sample_rate, 1, -0.3);
    let frames = 4_000;
    let input: Vec<f32> = (0..frames)
        .map(|f| (f as f32 / sample_rate * 2.0 * std::f32::consts::PI * 440.0).sin() * 0.2)
        .collect();
    let mut buffer = input.clone();
    lim.process(&mut buffer, 1);
    let latency = (5.0 / 1000.0 * sample_rate) as usize;
    for i in (latency + 100)..frames {
        assert!(
            (buffer[i] - input[i - latency]).abs() < 1e-3,
            "sample {i}: {} vs {}",
            buffer[i],
            input[i - latency]
        );
    }
}

#[test]
fn the_window_forgets_old_peaks() {
    let mut w = PeakWindow::new(2);
    let got: Vec<u32> = [5, 1, 2, 3, 0, 0, 0].iter().map(|&v| w.push(v)).collect();
    assert_eq!(got, vec![5, 5, 5, 3, 3, 3, 0]);
    assert_eq!(frame_peak(&vec![(-2.0f32).to_bits(), f32::NAN.to_bits(), 1.5f32.to_bits()]), 2.0f32.to_bits());
}

type Parts = Vec<Vec<(u32, u32)>>;

fn as_bits(spectrum: &[Complex<f32>]) -> Vec<(u32, u32)> {
    spectrum.iter().map(|c| (c.re.to_bits(), c.im.to_bits())).collect()
}

fn prepare_channel(ir: &[f32]) -> Parts {
    let mut planner = RealFftPlanner::<f32>::new();
    let fft = planner.plan_fft_forward(CONV_FFT);
    let num = ir.len().div_ceil(CONV_BLOCK).max(1);
    let mut partitions = Vec::with_capacity(num);
    for p in 0..num {
        let mut buf = vec![0.0f32; CONV_FFT];
        let start = p * CONV_BLOCK;
        let end = (start + CONV_BLOCK).min(ir.len());
        buf[..end - start].copy_from_slice(&ir[start..end]);
        let mut spec = fft.make_output_vec();
        fft.process(&mut buf, &mut spec).unwrap();
        partitions.push(as_bits(&spec));
    }
    partitions
}

struct Convolving {
    stage: MonoConvolver,
}

impl Convolving {
    fn new(max_partitions: usize) -> Convolving {
        Convolving { stage: MonoConvolver::new(max_partitions) }
    }

    fn process(&mut self, input: &[f32], out: &mut [f32], ir: &Parts) {
        let mut planner = RealFftPlanner::<f32>::new();
        let fft = planner.plan_fft_forward(CONV_FFT);
        let ifft = planner.plan_fft_inverse(CONV_FFT);
        let forward = |window: &Vec<u32>| {
            let mut samples: Vec<f32> = window.iter().map(|&b| f32::from_bits(b)).collect();
            let mut spectrum = fft.make_output_vec();
            fft.process(&mut samples, &mut spectrum).unwrap();
            as_bits(&spectrum)
        };
        let back = |bins: &Vec<(u32, u32)>| {
            let mut acc: Vec<Complex<f32>> = bins
                .iter()
                .map(|&(re, im)| Complex::new(f32::from_bits(re), f32::from_bits(im)))
                .collect();
            let mut samples = vec![0.0f32; CONV_FFT];
            ifft.process(&mut acc, &mut samples).unwrap();
            samples.iter().map(|v| v.to_bits()).collect()
        };
        let input: Vec<u32> = input.iter().map(|v| v.to_bits()).collect();
        let wet = self.stage.process(&input, ir, &forward, &back, &math);
        assert_eq!(wet.len(), input.len());
        for (y, bits) in out.iter_mut().zip(wet) {
            *y = f32::from_bits(bits);
        }
    }
}

fn direct_conv(x: &[f32], h: &[f32]) -> Vec<f32> {
    let mut y = vec![0.0f32; x.len()];
    for n in 0..x.len() {
        let mut acc = 0.0;
        for (k, &hk) in h.iter().enumerate() {
            if n >= k {
                acc += x[n - k] * hk;
            }
        }
        y[n] = acc;
    }
    y
}

#[test]
fn unit_impulse_ir_is_delayed_passthrough() {
    let ir = prepare_channel(&[1.0]);
    let mut mc = Convolving::new(1);
    let x: Vec<f32> = (0..CONV_BLOCK * 4).map(|i| (i as f32 * 0.05).sin()).collect();
    let mut y = vec![0.0; x.len()];
    mc.process(&x, &mut y, &ir);
    for i in 0..(x.len() - CONV_BLOCK) {
        assert!(
            (y[i + CONV_BLOCK] - x[i]).abs() < 1e-4,
            "delayed passthrough mismatch at {i}: {} vs {}",
            y[i + CONV_BLOCK],
            x[i]
        );
    }
}

#[test]
fn matches_direct_convolution() {
    let h: Vec<f32> = (0i32..600)
        .map(|i| 0.9f32.powi(i) * if i % 2 == 0 { 1.0 } else { -0.5 })
        .collect();
    let ir = prepare_channel(&h);
    let max_parts = h.len().div_ceil(CONV_BLOCK);
    let mut mc = Convolving::new(max_parts);
    let x: Vec<f32> = (0..CONV_BLOCK * 10).map(|i| (i as f32 * 0.03).sin()).collect();
    let mut y = vec![0.0; x.len()];
    mc.process(&x, &mut y, &ir);
    let reference = direct_conv(&x, &h);
    for i in 0..(x.len() - CONV_BLOCK) {
        assert!(
            (y[i + CONV_BLOCK] - reference[i]).abs() < 1e-2,
            "conv mismatch at {i}: {} vs {}",
            y[i + CONV_BLOCK],
            reference[i]
        );
    }
}

#[test]
fn chunking_invariance() {
    let h: Vec<f32> = (0..300).map(|i| (i as f32 * 0.1).cos()).collect();
    let ir = prepare_channel(&h);
    let parts = h.len().div_ceil(CONV_BLOCK);
    let x: Vec<f32> = (0..2000).map(|i| (i as f32 * 0.02).sin()).collect();

    let mut a = Convolving::new(parts);
    let mut ya = vec![0.0; x.len()];
    a.process(&x, &mut ya, &ir);

    let mut b = Convolving::new(parts);
    let mut yb = vec![0.0; x.len()];
    let mut off = 0;
    for chunk in [37usize, 100, 1, 256, 511].iter().cycle() {
        if off >= x.len() {
            break;
        }
        let end = (off + chunk).min(x.len());
        b.process(&x[off..end], &mut yb[off..end], &ir);
        off = end;
    }
    for i in 0..x.len() {
        assert!((ya[i] - yb[i]).abs() < 1e-5, "chunking differs at {i}");
    }
}

#[test]
fn taps_are_stored_by_phase() {
    let taps: Vec<u32> = (0..NUM_TAPS as u32).collect();
    let p = polyphase(&taps);
    assert_eq!(p[0..3], [0, 4, 8]);
    assert_eq!(p[34..37], [1, 5, 9]);
    assert_eq!(p[135], 135);
}

#[test]
fn standard_chain_includes_compander() {
    let chain = standard();
    assert!(chain.len() >= 10, "compander should be in the standard chain");
    let at = |s: Stage| chain.iter().position(|&x| x == s).unwrap();
    assert!(at(Stage::Convolver) < at(Stage::Compander));
    assert_eq!(chain.last(), Some(&Stage::Limiter));
}

#[test]
fn delay_lines_give_back_what_was_stored() {
    let mut line = DelayLine::new(3);
    let got: Vec<u32> = (1..=6).map(|x| line.process(x, 3)).collect();
    assert_eq!(got, vec![0, 0, 0, 1, 2, 3]);
    assert_eq!(line.process(9, 0), 9);
    assert_eq!(line.process(10, 1), 9);
    assert_eq!(line.process(11, 100), 6);
    let mut ring = Ring::new(vec![1, 2, 3]);
    assert_eq!((*ring.tap(1), *ring.tap(3), ring.len()), (3, 1, 3));
    ring.push(4);
    assert_eq!((*ring.tap(1), *ring.tap(3)), (4, 2));
}

#[test]
fn the_meter_keeps_the_deepest_reduction() {
    let mut g = BlockGains::new();
    for v in [-1.0f32, -6.0, -2.0, f32::NAN] {
        g.note(3, v.to_bits());
    }
    let mut meter = CompanderMeter::new();
    g.publish(true, &mut meter);
    assert_eq!(f32::from_bits(meter.load()[3]), -6.0);
    assert_eq!(meter.load()[0], 0);
    meter.store_band(9, (-3.0f32).to_bits());
    assert_eq!(f32::from_bits(meter.load()[9]), -3.0);
    g.publish(false, &mut meter);
    assert_eq!(meter.load(), [0; 10]);
    assert_eq!(empty_compander_meter().load(), CompanderMeter::default().load());
}

#[test]
fn gains_are_computed_once_in_an_interval() {
    let mut c = Control::new();
    let ticks: Vec<bool> = (0..17).map(|_| c.tick()).collect();
    let at: Vec<usize> = (0..17).filter(|&i| ticks[i]).collect();
    assert_eq!(at, vec![0, CTRL_INTERVAL, 2 * CTRL_INTERVAL]);
}

#[test]
fn equal_settings_are_not_applied_again() {
    let a = CompanderState::default();
    assert!(must_apply(None, a));
    assert!(!must_apply(Some(a), a));
    let zero = CompanderState { makeup_db: (-0.0f32).to_bits(), ..a };
    assert!(!must_apply(Some(a), zero), "both zeros are the same gain");
    let louder = CompanderState { makeup_db: 1.0f32.to_bits(), ..a };
    assert!(must_apply(Some(a), louder));
    let bad = CompanderState { ratio: f32::NAN.to_bits(), ..a };
    assert!(must_apply(Some(bad), bad), "what is not a number is never the same");
}

#[test]
fn spatial_paths() {
    let half = 0.5f32.to_bits();
    assert_eq!(spatial_path(false, 2, half, SpatialMode::Hrtf), SpatialPath::Bypass);
    assert_eq!(spatial_path(true, 1, half, SpatialMode::Hrtf), SpatialPath::Bypass);
    assert_eq!(spatial_path(true, 2, 0, SpatialMode::Hrtf), SpatialPath::Bypass);
    assert_eq!(spatial_path(true, 2, half, SpatialMode::Hrtf), SpatialPath::Hrtf);
    assert_eq!(spatial_path(true, 2, half, SpatialMode::Crossfeed), SpatialPath::Crossfeed);
    assert!(!HrtfConvolver::default().is_loaded());
}

#[test]
fn speakers_feed_the_near_ear_directly() {
    let mut s = SurroundSpeakers::default();
    s.surround_r = false;
    let ring = speakers(s);
    assert_eq!(ring.len(), 6);
    assert_eq!(ring[4].feed, Feed::Rear);
    assert_eq!(ears(ring[0], 7, 3), (7, 3));
    assert_eq!(ears(ring[1], 7, 3), (3, 7));
    assert_eq!(ears(ring[5], 7, 3), (0, 0));
    let one = 1.0f32.to_bits();
    assert!(surround_active(true, one, one, 0));
    assert!(surround_active(true, one, 0, one));
    assert!(!surround_active(true, one, 0, 0));
    assert!(!surround_active(true, 0, one, one));
    assert!(!surround_active(false, one, one, one));
}

#[test]
fn filter_names_and_channels() {
    assert_eq!(filter_kind("lowShelf"), FilterKind::LowShelf);
    assert_eq!(filter_kind("HSC"), FilterKind::HighShelf);
    assert_eq!(filter_kind("peaking"), FilterKind::Peaking);
    assert_eq!(filter_kind("anything"), FilterKind::Identity);
    assert_eq!(active_bands(10), 10);
    assert_eq!(active_bands(99), 24);
    assert_eq!(channel_of(5, 2, 2), Some(1));
    assert_eq!(channel_of(5, 3, 2), None);
    assert_eq!(boost_share(0.05f32.to_bits()), BoostShare::Full);
    assert_eq!(boost_share(0.2f32.to_bits()), BoostShare::Partial);
    assert_eq!(boost_share(0.4f32.to_bits()), BoostShare::Least);
}
