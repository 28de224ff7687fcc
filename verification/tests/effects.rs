//! The effects, with the arithmetic of this machine.

use hypemuzik::dsp::arith::Calc;
use hypemuzik::dsp::band::{fast_level_db, BandCompressor, Curve, Speeds};
use hypemuzik::dsp::bands::{filter_kind, FilterKind};
use hypemuzik::dsp::bass::{BassBoost, Gain};
use hypemuzik::dsp::biquad::{Biquad, Coeffs};
use hypemuzik::dsp::chain::{AudioProcessor, ProcessChain};
use hypemuzik::dsp::compander::CompanderMeter;
use hypemuzik::dsp::delay::{CombLine, HeldFrames, PreDelay};
use hypemuzik::dsp::design::{correction_filters, graphic_filters, oversampling_taps};
use hypemuzik::dsp::equalizer::{GraphicEq, HeadphoneCorrection};
use hypemuzik::dsp::multiband::Compander;
use hypemuzik::dsp::oversample::{latency_samples, Oversampler4x, NUM_TAPS, OVERSAMPLE};
use hypemuzik::dsp::room::{RoomEffects, RoomReverb};
use hypemuzik::dsp::saturation::{shape, Saturation};
use hypemuzik::dsp::spatializer::Spatializer;
use hypemuzik::dsp::stages::{
    new_limiter, new_reverb, new_spatializer, prepare_limiter, prepare_spatializer,
    set_spatializer, BassStage, CompanderStage, EqStage, HeadphoneStage, RoomStage,
    SaturationStage, SurroundStage,
};
use hypemuzik::dsp::surround::{SpeakerSetup, Surround3D};
use hypemuzik::dsp::tuning::{
    bass_settings, compander_curve, compander_speeds, compute_drive_makeup, crossover_freqs,
    db_to_lin, delay_in_samples, filter_keep, gain_factor, limiter_timing, lookahead_samples,
    pre_delay_room, reverb_plan, room_plan, room_tuning, speaker_setups, SHELF_Q,
};
use hypemuzik::presets::iso_centers;
use hypemuzik::types::{
    BassBoostState, CompanderState, EngineState, EqState, HeadphoneCorrectionState, ParametricBand,
    RoomState, SaturationState, SpatialMode, SpatializerState, Surround3DState, SurroundSpeakers,
};
use hypemuzik::wide::Wide;
use realfft::RealFftPlanner;

fn math(c: Calc, a: u32, b: u32) -> u32 {
    let (x, y) = (f32::from_bits(a), f32::from_bits(b));
    let v = match c {
        Calc::Add => x + y,
        Calc::Sub => x - y,
        Calc::Mul => x * y,
        Calc::Div => x / y,
        Calc::Tanh => x.tanh(),
        Calc::Exp => x.exp(),
        Calc::Power => (a as i32 - 127) as f32,
        Calc::Sin => x.sin(),
        Calc::Cos => x.cos(),
        Calc::Sqrt => x.sqrt(),
        Calc::Log10 => x.log10(),
        Calc::TenTo => 10f32.powf(x),
        Calc::Round => x.round(),
        Calc::Whole => a as f32,
        Calc::Count => return x as u32,
    };
    v.to_bits()
}

fn wide(c: Wide, a: u64, b: u64) -> u64 {
    let (x, y) = (f64::from_bits(a), f64::from_bits(b));
    let v = match c {
        Wide::Add => x + y,
        Wide::Sub => x - y,
        Wide::Mul => x * y,
        Wide::Div => x / y,
        Wide::Sin => x.sin(),
        Wide::Cos => x.cos(),
        Wide::Sqrt => x.sqrt(),
        Wide::Log10 => x.log10(),
        Wide::TenTo => 10f64.powf(x),
        Wide::Whole => a as f64,
        Wide::Widen => f32::from_bits(a as u32) as f64,
        Wide::Narrow => return (x as f32).to_bits() as u64,
    };
    v.to_bits()
}

fn bits(x: f32) -> u32 {
    x.to_bits()
}

fn on_bits(buffer: &mut [f32], run: impl FnOnce(&mut Vec<u32>)) {
    let mut block: Vec<u32> = buffer.iter().map(|x| x.to_bits()).collect();
    run(&mut block);
    for (x, b) in buffer.iter_mut().zip(block) {
        *x = f32::from_bits(b);
    }
}

fn section(set: impl FnOnce(&mut Biquad)) -> Coeffs {
    let mut b = Biquad::identity();
    set(&mut b);
    b.coeffs()
}

fn peaking(sr: f32, f0: f32, gain: f32, q: f32) -> Coeffs {
    section(|b| b.set_peaking(bits(sr), bits(f0), bits(gain), bits(q), &wide))
}

fn low_shelf(sr: f32, f0: f32, gain: f32, q: f32) -> Coeffs {
    section(|b| b.set_low_shelf(bits(sr), bits(f0), bits(gain), bits(q), &wide))
}

fn lowpass(sr: f32, f0: f32, q: f32) -> Coeffs {
    section(|b| b.set_lowpass(bits(sr), bits(f0), bits(q), &wide))
}

fn highpass(sr: f32, f0: f32, q: f32) -> Coeffs {
    section(|b| b.set_highpass(bits(sr), bits(f0), bits(q), &wide))
}

fn tuned(c: Coeffs) -> Biquad {
    let mut b = Biquad::identity();
    b.assign(c);
    b
}

fn step(b: &mut Biquad, x: f32) -> f32 {
    f32::from_bits(b.process_sample(bits(x), &math))
}

#[test]
fn peaking_at_zero_db_is_identity() {
    let mut bq = tuned(peaking(48_000.0, 1_000.0, 0.0, 4.318));
    for i in 0..256 {
        let x = (i as f32 * 0.05).sin();
        let y = step(&mut bq, x);
        assert!((y - x).abs() < 1e-5, "expected {x}, got {y}");
    }
}

#[test]
fn low_shelf_at_zero_db_is_identity() {
    let mut bq = tuned(low_shelf(48_000.0, 120.0, 0.0, 0.707));
    for i in 0..256 {
        let x = (i as f32 * 0.07).sin();
        assert!((step(&mut bq, x) - x).abs() < 1e-5);
    }
}

#[test]
fn low_shelf_boost_raises_dc_gain() {
    let mut bq = tuned(low_shelf(48_000.0, 200.0, 6.0, 0.707));
    let mut y = 0.0;
    for _ in 0..2000 {
        y = step(&mut bq, 1.0);
    }
    assert!(y > 1.5, "expected ~+6 dB (×2) low boost, got {y}");
}

#[test]
fn lowpass_passes_dc_attenuates_hf() {
    let mut lp = tuned(lowpass(48_000.0, 1_000.0, std::f32::consts::FRAC_1_SQRT_2));
    let mut y = 0.0;
    for _ in 0..4000 {
        y = step(&mut lp, 1.0);
    }
    assert!((y - 1.0).abs() < 0.05, "LP DC gain ~1, got {y}");
    lp.reset();
    let mut peak = 0.0f32;
    for i in 0..4000 {
        let x = (2.0 * std::f32::consts::PI * 12_000.0 * i as f32 / 48_000.0).sin();
        peak = peak.max(step(&mut lp, x).abs());
    }
    assert!(peak < 0.3, "12kHz through 1kHz LP should be small, got {peak}");
}

fn normalized(b0: f64, b1: f64, b2: f64, a0: f64, a1: f64, a2: f64) -> Coeffs {
    Coeffs {
        b0: bits((b0 / a0) as f32),
        b1: bits((b1 / a0) as f32),
        b2: bits((b2 / a0) as f32),
        a1: bits((a1 / a0) as f32),
        a2: bits((a2 / a0) as f32),
    }
}

/// The angle of a frequency, kept below half the sample rate, and the width of a filter there.
fn angle(sample_rate: f32, f0: f32, q: f32) -> (f64, f64) {
    let fs = sample_rate as f64;
    let f0 = (f0 as f64).clamp(1.0, fs * 0.495);
    let w0 = 2.0 * std::f64::consts::PI * f0 / fs;
    (w0.cos(), w0.sin() / (2.0 * (q as f64).max(1e-4)))
}

fn peaking_formula(sample_rate: f32, f0: f32, gain_db: f32, q: f32) -> Coeffs {
    let (cos, alpha) = angle(sample_rate, f0, q);
    let a = 10f64.powf(gain_db as f64 / 40.0);
    normalized(
        1.0 + alpha * a,
        -2.0 * cos,
        1.0 - alpha * a,
        1.0 + alpha / a,
        -2.0 * cos,
        1.0 - alpha / a,
    )
}

fn low_shelf_formula(sample_rate: f32, f0: f32, gain_db: f32, q: f32) -> Coeffs {
    let (cos, alpha) = angle(sample_rate, f0, q);
    let a = 10f64.powf(gain_db as f64 / 40.0);
    let t = 2.0 * a.sqrt() * alpha;
    normalized(
        a * ((a + 1.0) - (a - 1.0) * cos + t),
        2.0 * a * ((a - 1.0) - (a + 1.0) * cos),
        a * ((a + 1.0) - (a - 1.0) * cos - t),
        (a + 1.0) + (a - 1.0) * cos + t,
        -2.0 * ((a - 1.0) + (a + 1.0) * cos),
        (a + 1.0) + (a - 1.0) * cos - t,
    )
}

fn lowpass_formula(sample_rate: f32, f0: f32, q: f32) -> Coeffs {
    let (cos, alpha) = angle(sample_rate, f0, q);
    let b1 = 1.0 - cos;
    normalized(b1 / 2.0, b1, b1 / 2.0, 1.0 + alpha, -2.0 * cos, 1.0 - alpha)
}

fn highpass_formula(sample_rate: f32, f0: f32, q: f32) -> Coeffs {
    let (cos, alpha) = angle(sample_rate, f0, q);
    let b = (1.0 + cos) / 2.0;
    normalized(b, -(1.0 + cos), b, 1.0 + alpha, -2.0 * cos, 1.0 - alpha)
}

fn high_shelf_formula(sample_rate: f32, f0: f32, gain_db: f32, q: f32) -> Coeffs {
    let (cos, alpha) = angle(sample_rate, f0, q);
    let a = 10f64.powf(gain_db as f64 / 40.0);
    let t = 2.0 * a.sqrt() * alpha;
    normalized(
        a * ((a + 1.0) + (a - 1.0) * cos + t),
        -2.0 * a * ((a - 1.0) + (a + 1.0) * cos),
        a * ((a + 1.0) + (a - 1.0) * cos - t),
        (a + 1.0) - (a - 1.0) * cos + t,
        2.0 * ((a - 1.0) - (a + 1.0) * cos),
        (a + 1.0) - (a - 1.0) * cos - t,
    )
}

#[test]
fn designs_have_the_coefficients_of_their_formulas() {
    for &(sr, f0, gain, q) in &[
        (48_000.0f32, 1_000.0f32, 6.0f32, 1.0f32),
        (44_100.0, 110.0, -4.5, 0.707),
        (44_100.0, 40_000.0, 3.0, 4.318),
        (96_000.0, 0.0, -12.0, 0.0),
        (8_000.0, 3_999.0, 0.0, 2.0),
    ] {
        assert_eq!(peaking(sr, f0, gain, q), peaking_formula(sr, f0, gain, q));
        assert_eq!(low_shelf(sr, f0, gain, q), low_shelf_formula(sr, f0, gain, q));
        assert_eq!(lowpass(sr, f0, q), lowpass_formula(sr, f0, q));
        assert_eq!(highpass(sr, f0, q), highpass_formula(sr, f0, q));
        let high = section(|b| b.set_high_shelf(bits(sr), bits(f0), bits(gain), bits(q), &wide));
        assert_eq!(high, high_shelf_formula(sr, f0, gain, q));
    }
}

#[test]
fn a_name_that_is_not_known_filters_nothing() {
    let named = |kind: &str| {
        section(|b| {
            b.set_peaking(bits(48_000.0), bits(500.0), bits(9.0), bits(1.0), &wide);
            b.set_from_kind(kind, bits(48_000.0), bits(1_000.0), bits(6.0), bits(1.0), &wide)
        })
    };
    assert_eq!(named("peaking"), peaking(48_000.0, 1_000.0, 6.0, 1.0));
    assert_eq!(named("LSC"), low_shelf(48_000.0, 1_000.0, 6.0, 1.0));
    assert_eq!(named("lowShelf"), named("low_shelf"));
    assert_eq!(named("HSC"), high_shelf_formula(48_000.0, 1_000.0, 6.0, 1.0));
    assert_eq!(named("notch"), Biquad::identity().coeffs());
}

#[test]
fn a_retuned_section_keeps_its_memory() {
    let mut b = tuned(peaking(48_000.0, 1_000.0, 6.0, 1.0));
    step(&mut b, 1.0);
    let (z1, z2) = (b.z1, b.z2);
    b.set_lowpass(bits(48_000.0), bits(200.0), bits(1.0), &wide);
    assert_eq!((b.z1, b.z2), (z1, z2));
    assert_ne!(z1, 0);
}

#[test]
fn settings_have_the_values_of_their_formulas() {
    let sr = 44_100.0f32;
    let pi = std::f32::consts::PI;
    assert_eq!(gain_factor(bits(-6.0), &math), bits(10f32.powf(-6.0 / 20.0)));
    assert_eq!(filter_keep(bits(850.0), bits(sr), &math), bits((-2.0 * pi * 850.0 / sr).exp()));
    assert_eq!(delay_in_samples(bits(0.0003), bits(sr), &math), 13);
    assert_eq!(delay_in_samples(bits(0.0), bits(sr), &math), 1);
    let (ahead, release) = limiter_timing(bits(sr), &math);
    assert_eq!(ahead, 221);
    assert_eq!(release, bits(1.0 - (-1.0f32 / ((100.0 / 1000.0) * sr)).exp()));
    assert_eq!(lookahead_samples(bits(sr), &math), 132);
    assert_eq!(db_to_lin(bits(6.0), &math), bits((6.0f32 * 0.115_129_255).exp()));
    let s = bass_settings(&BassBoostState::default(), bits(sr), &math);
    assert_eq!(s.low_keep, bits((-2.0 * pi * 160.0 / sr).exp()));
    assert_eq!(s.watch_keep, bits((-2.0 * pi * 120.0 / sr).exp()));
    assert_eq!(s.attack_keep, bits((-1.0 / (10.0 * 0.001 * sr)).exp()));
    assert_eq!(s.release_keep, bits((-1.0 / (150.0 * 0.001 * sr)).exp()));
    let freqs = crossover_freqs(&math);
    assert_eq!(freqs.len(), 9);
    assert_eq!(freqs[0], bits((31.0f32 * 62.0).sqrt()));
    assert_eq!(freqs[8], bits((8000.0f32 * 16000.0).sqrt()));
    assert_eq!(compute_drive_makeup(bits(-3.0), &math).0, bits(1.0));
    assert_eq!(compute_drive_makeup(bits(3.0), &math).0, bits(10.0));
}

#[test]
fn speakers_stand_where_they_should() {
    let setups = speaker_setups(bits(48_000.0), &math);
    let theta = 135.0f32.to_radians();
    let itd = (0.0875 / 343.0) * (theta + theta.sin());
    let front_bias = (1.0 + theta.cos()) * 0.5;
    let shadow_hz = 700.0 + 1300.0 * front_bias;
    let rear = SpeakerSetup {
        feed_gain: bits(0.55),
        delay: (itd * 48_000.0).round().max(1.0) as usize,
        keep: bits((-2.0 * std::f32::consts::PI * shadow_hz / 48_000.0).exp()),
        far_gain: bits(0.30 + 0.70 * front_bias),
    };
    assert_eq!(setups[5], rear);
    assert_eq!(setups[4], rear);
    assert_eq!(setups[0], setups[1]);
    assert_eq!((setups[0].feed_gain, setups[2].feed_gain), (bits(1.0), bits(0.6)));
    assert!(setups[0].delay < setups[2].delay && setups[2].delay < setups[4].delay);
}

#[test]
fn rooms_have_the_sizes_of_their_formulas() {
    let plan = room_plan(true, bits(48_000.0), &math);
    let scale = 48_000.0f32 / 44_100.0;
    assert_eq!(plan.combs[0], (1116.0 * scale * 2.0) as usize + 16);
    assert_eq!(plan.combs[7], (1617.0 * scale * 2.0) as usize + 16);
    assert_eq!(plan.diffusers, vec![605, 480, 371, 244]);
    assert_eq!(room_plan(false, bits(0.0), &math).diffusers, vec![1, 1, 1, 1]);
    assert_eq!(pre_delay_room(bits(48_000.0), &math), 12_016);
    let mut state = RoomState::default();
    state.room_size = bits(7.0);
    state.decay = bits(7.0);
    state.pre_delay = bits(500.0);
    let t = room_tuning(&state, bits(44_100.0), &math);
    assert_eq!(t.left[0], 2232);
    assert_eq!(t.right[7], 3280);
    assert_eq!(t.feedback, bits(0.98));
    assert_eq!(t.pre_delay, (200.0f32 * 0.001 * 44_100.0) as usize);
    assert_eq!(t.damp, bits(0.45 * 0.4));
    assert_eq!(t.rest, bits(1.0 - 0.45 * 0.4));
    assert_eq!(t.diffusion, bits(0.3 + 0.55 * 0.4));
    let reverb = reverb_plan(false, bits(44_100.0), &math);
    assert_eq!(reverb.combs, vec![1139, 1211, 1300, 1379]);
    assert_eq!(reverb.diffusers, vec![579, 464]);
}

#[test]
fn highpass_blocks_dc_passes_hf() {
    let mut hp = tuned(highpass(48_000.0, 1_000.0, std::f32::consts::FRAC_1_SQRT_2));
    let mut y = 0.0;
    for _ in 0..4000 {
        y = step(&mut hp, 1.0);
    }
    assert!(y.abs() < 0.05, "HP blocks DC, got {y}");
}

fn db(gain_db: f32) -> f32 {
    f32::from_bits(gain_factor(bits(gain_db), &math))
}

#[test]
fn applies_plus_six_db_as_linear_doubling() {
    let mut gain = Gain::new();
    gain.set_params(bits(db(6.0)));
    let mut buffer = vec![0.5f32; 64];
    on_bits(&mut buffer, |b| gain.process(b, &math));
    for &y in &buffer {
        assert!((y - 0.5 * 1.995).abs() < 0.01, "got {y}");
    }
}

#[test]
fn zero_db_is_identity() {
    let mut gain = Gain::default();
    gain.set_params(bits(db(0.0)));
    let input = vec![0.3f32, -0.7, 0.1, -0.2];
    let mut buffer = input.clone();
    on_bits(&mut buffer, |b| gain.process(b, &math));
    assert_eq!(buffer, input);
}

fn eq_filters(sample_rate: f32, bands: &[f32; 31]) -> Vec<Coeffs> {
    graphic_filters(bits(sample_rate), &bands.map(f32::to_bits), &wide)
}

#[test]
fn flat_eq_is_identity() {
    let mut eq = EqStage::new(bits(48_000.0), 2, &wide);
    eq.set_params(&EqState::default(), &math, &wide);
    let mut eq = eq.stage;
    let input: Vec<f32> = (0..1024).map(|i| (i as f32 * 0.03).sin() * 0.5).collect();
    let mut buffer = input.clone();
    on_bits(&mut buffer, |b| eq.process(b, 2, &math));
    for (i, (&y, &x)) in buffer.iter().zip(input.iter()).enumerate() {
        assert!((y - x).abs() < 1e-4, "sample {i}: expected {x}, got {y}");
    }
}

fn response_db_at(eq: &mut GraphicEq, sample_rate: f32, freq_hz: f32) -> f32 {
    const N: usize = 16_384;
    let mut ir = vec![0.0f32; N];
    ir[0] = 1.0;
    on_bits(&mut ir, |b| eq.process(b, 1, &math));
    let mut planner = RealFftPlanner::<f32>::new();
    let fft = planner.plan_fft_forward(N);
    let mut spectrum = fft.make_output_vec();
    fft.process(&mut ir, &mut spectrum).unwrap();
    let bin = (freq_hz / sample_rate * N as f32).round() as usize;
    20.0 * spectrum[bin].norm().max(1e-12).log10()
}

#[test]
fn single_band_boost_is_localized() {
    let sample_rate = 48_000.0;
    assert_eq!(iso_centers()[17] as f32 / 10.0, 1_000.0);
    let mut bands = [0.0f32; 31];
    bands[17] = 6.0;
    let filters = eq_filters(sample_rate, &bands);
    let mut eq = GraphicEq::new(1, &filters);
    let at_1k = response_db_at(&mut eq, sample_rate, 1_000.0);
    let mut eq2 = GraphicEq::new(1, &filters);
    let at_8k = response_db_at(&mut eq2, sample_rate, 8_000.0);
    assert!((at_1k - 6.0).abs() < 1.5, "expected ~+6 dB at 1 kHz, got {at_1k:.2} dB");
    assert!(at_8k.abs() < 1.0, "expected ~0 dB at 8 kHz, got {at_8k:.2} dB");
}

#[test]
fn headphone_disabled_is_identity() {
    let mut hc = HeadphoneCorrection::new(2);
    hc.set_params(false, bits(1.0));
    let input = vec![0.2f32, -0.5, 0.3, -0.1];
    let mut buf = input.clone();
    on_bits(&mut buf, |b| hc.process(b, 2, &math));
    assert_eq!(buf, input);
}

#[test]
fn applies_parametric_band() {
    assert_eq!(filter_kind("peaking"), FilterKind::Peaking);
    let band = ParametricBand {
        kind: "peaking".to_string(),
        freq: bits(1_000.0),
        gain: bits(6.0),
        q: bits(1.0),
    };
    let mut hc = HeadphoneStage::new(bits(48_000.0), 1);
    let state =
        HeadphoneCorrectionState { enabled: true, preamp: 0, bands: vec![band.clone()] };
    hc.set_params(&state, &math, &wide);
    let mut hc = hc.stage;
    assert_eq!(correction_filters(bits(48_000.0), &vec![band; 30], &wide).len(), 24);
    let sr = 48_000.0;
    let input: Vec<f32> = (0..4800)
        .map(|n| (n as f32 / sr * 2.0 * std::f32::consts::PI * 1_000.0).sin() * 0.3)
        .collect();
    let mut buf = input.clone();
    on_bits(&mut buf, |b| hc.process(b, 1, &math));
    let rms = |s: &[f32]| (s.iter().map(|v| v * v).sum::<f32>() / s.len() as f32).sqrt();
    assert!(rms(&buf) > rms(&input) * 1.3, "expected boost at 1 kHz");
}

#[test]
fn a_channel_without_filters_is_left_alone() {
    let mut hc = HeadphoneCorrection::new(1);
    hc.set_params(true, bits(2.0));
    hc.set_bands(&Vec::new());
    let mut buf = vec![1.0f32, 1.0, 0.5, 0.25];
    on_bits(&mut buf, |b| hc.process(b, 2, &math));
    assert_eq!(buf, vec![2.0, 1.0, 1.0, 0.25]);
}

fn reverb(sample_rate: f32) -> RoomReverb {
    new_reverb(bits(sample_rate), &math)
}

#[test]
fn impulse_produces_a_decaying_decorrelated_tail() {
    let mut rv = reverb(48_000.0);
    let mut tail = 0.0;
    let mut decorr = 0.0;
    let _ = rv.process(bits(1.0), &math);
    for _ in 0..20_000 {
        let (l, r) = rv.process(bits(0.0), &math);
        let (l, r) = (f32::from_bits(l), f32::from_bits(r));
        tail += l.abs() + r.abs();
        decorr += (l - r).abs();
    }
    assert!(tail > 0.1, "expected a reverb tail, got {tail}");
    assert!(decorr > 0.0, "left/right should be decorrelated");
}

#[test]
fn sustained_input_stays_bounded() {
    let mut rv = reverb(48_000.0);
    let mut peak = 0.0_f32;
    for i in 0..96_000 {
        let x = if (i / 50) % 2 == 0 { 0.9 } else { -0.9 };
        let (l, r) = rv.process(bits(x), &math);
        peak = peak.max(f32::from_bits(l).abs()).max(f32::from_bits(r).abs());
    }
    assert!(peak < 4.0, "reverb output should stay bounded, peak={peak}");
}

fn room(enabled: bool, wet: f32, decay: f32, room_size: f32) -> RoomEffects {
    let mut r = RoomStage::new(bits(48_000.0), &math);
    let state = RoomState {
        enabled,
        room_size: bits(room_size),
        decay: bits(decay),
        damping: bits(0.3),
        pre_delay: bits(5.0),
        diffusion: bits(0.5),
        wet_dry: bits(wet),
        active_preset_id: None,
    };
    r.set_params(&state, &math);
    r.stage
}

fn stereo(pairs: &[(f32, f32)]) -> Vec<f32> {
    pairs.iter().flat_map(|&(l, r)| [l, r]).collect()
}

fn sine(freq: f32, frames: usize) -> Vec<f32> {
    (0..frames)
        .flat_map(|i| {
            let s = (2.0 * std::f32::consts::PI * freq * i as f32 / 48_000.0).sin() * 0.5;
            [s, s]
        })
        .collect()
}

fn energy(b: &[f32]) -> f32 {
    b.iter().map(|x| x * x).sum()
}

#[test]
fn room_disabled_is_identity() {
    let mut rv = room(false, 0.3, 0.4, 0.4);
    let input = stereo(&[(0.5, -0.3), (0.2, 0.4)]);
    let mut buf = input.clone();
    on_bits(&mut buf, |b| rv.process(b, 2, &math));
    assert_eq!(buf, input);
}

#[test]
fn fully_dry_is_identity() {
    let mut rv = room(true, 0.0, 0.5, 0.5);
    let input = stereo(&[(0.5, -0.3), (0.2, 0.4)]);
    let mut buf = input.clone();
    on_bits(&mut buf, |b| rv.process(b, 2, &math));
    assert_eq!(buf, input);
}

#[test]
fn produces_a_decaying_tail() {
    let mut rv = room(true, 0.5, 0.6, 0.5);
    let mut buf = sine(440.0, 4_800);
    buf.extend(std::iter::repeat_n(0.0, 24_000 * 2));
    on_bits(&mut buf, |b| rv.process(b, 2, &math));
    let tail = &buf[(4_800 + 4_800) * 2..];
    assert!(energy(tail) > 1e-3, "expected a reverb tail, got {}", energy(tail));
}

#[test]
fn fills_both_channels_decorrelated_for_mono() {
    let mut rv = room(true, 0.6, 0.6, 0.6);
    let mut buf = sine(440.0, 9_600);
    on_bits(&mut buf, |b| rv.process(b, 2, &math));
    let region = &buf[4_800 * 2..];
    let diff: f32 = region.chunks(2).map(|c| (c[0] - c[1]).abs()).sum();
    assert!(diff > 0.1, "reverb channels should decorrelate: {diff}");
}

#[test]
fn longer_decay_gives_a_longer_tail() {
    let burst = 4_800;
    let make = |decay: f32| {
        let mut rv = room(true, 1.0, decay, 0.5);
        let mut buf = sine(440.0, burst);
        buf.extend(std::iter::repeat_n(0.0, 48_000 * 2));
        on_bits(&mut buf, |b| rv.process(b, 2, &math));
        energy(&buf[(burst + 24_000) * 2..])
    };
    let short = make(0.1);
    let long = make(0.9);
    assert!(long > short * 2.0, "more decay → longer tail: long={long} short={short}");
}

#[test]
fn stays_bounded_under_sustained_input() {
    let mut rv = room(true, 1.0, 0.95, 1.0);
    let mut buf = stereo(&[(0.9, -0.9), (-0.8, 0.8), (0.95, 0.95)].repeat(4_000));
    on_bits(&mut buf, |b| rv.process(b, 2, &math));
    assert!(buf.iter().all(|&x| x.abs() <= 4.0), "reverb must stay bounded");
}

#[test]
fn a_single_channel_hears_both_sides_of_the_room() {
    let mut rv = room(true, 0.25, 0.5, 0.5);
    let mut buf = vec![0.5f32; 8];
    on_bits(&mut buf, |b| rv.process(b, 1, &math));
    assert_eq!(buf, vec![0.375; 8]);
}

fn spatializer(amount: f32, mode: SpatialMode) -> Spatializer {
    let mut sp = new_spatializer(bits(48_000.0), &math, &wide);
    set_spatializer(&mut sp, &SpatializerState { enabled: true, amount: bits(amount), mode });
    sp
}

fn side_energy(buf: &[f32]) -> f32 {
    buf.chunks(2).map(|c| (c[0] - c[1]).abs()).sum()
}

#[test]
fn amount_zero_is_identity() {
    let mut sp = spatializer(0.5, SpatialMode::Crossfeed);
    sp.set_params(false, bits(0.5), SpatialMode::Crossfeed);
    let input = stereo(&[(0.5, -0.3), (0.2, 0.4)]);
    let mut buf = input.clone();
    on_bits(&mut buf, |b| sp.process(b, 2, &math));
    assert_eq!(buf, input);
    sp.set_params(true, bits(0.0), SpatialMode::Hrtf);
    on_bits(&mut buf, |b| sp.process(b, 2, &math));
    assert_eq!(buf, input);
    assert!(!sp.hrtf_loaded());
}

#[test]
fn crossfeed_feeds_opposite_ear_after_interaural_delay() {
    let mut sp = spatializer(1.0, SpatialMode::Crossfeed);
    let mut frames = vec![(1.0_f32, 0.0_f32)];
    frames.extend(std::iter::repeat_n((0.0, 0.0), 63));
    let mut buf = stereo(&frames);
    on_bits(&mut buf, |b| sp.process(b, 2, &math));
    assert!(buf[0] > 0.4, "expected direct left, got {}", buf[0]);
    let right: Vec<f32> = buf.chunks(2).map(|c| c[1]).collect();
    let first_nonzero = right.iter().position(|&x| x.abs() > 1e-6);
    assert!(
        matches!(first_nonzero, Some(i) if i >= 6),
        "right-ear bleed should be delayed; first nonzero at {first_nonzero:?}"
    );
}

#[test]
fn crossfeed_narrows_hard_panned_content() {
    let mut sp = spatializer(1.0, SpatialMode::Crossfeed);
    let input = stereo(&[(0.6, 0.1); 96]);
    let mut buf = input.clone();
    on_bits(&mut buf, |b| sp.process(b, 2, &math));
    assert!(
        side_energy(&buf) < side_energy(&input),
        "crossfeed should narrow: {} !< {}",
        side_energy(&buf),
        side_energy(&input)
    );
}

#[test]
fn hrtf_images_wider_than_crossfeed() {
    let input = stereo(&[(0.6, 0.1); 96]);
    let mut cf = spatializer(1.0, SpatialMode::Crossfeed);
    let mut cf_buf = input.clone();
    on_bits(&mut cf_buf, |b| cf.process(b, 2, &math));
    let mut hr = spatializer(1.0, SpatialMode::Hrtf);
    let mut hr_buf = input.clone();
    on_bits(&mut hr_buf, |b| hr.process(b, 2, &math));
    assert!(
        side_energy(&hr_buf) > side_energy(&cf_buf),
        "HRTF should be wider than crossfeed: {} !> {}",
        side_energy(&hr_buf),
        side_energy(&cf_buf)
    );
}

#[test]
fn modes_produce_distinct_output() {
    let input = stereo(&[(0.4, -0.2), (0.1, 0.5), (-0.3, 0.2), (0.25, 0.25)].repeat(16));
    let mut cf = spatializer(0.8, SpatialMode::Crossfeed);
    let mut a = input.clone();
    on_bits(&mut a, |b| cf.process(b, 2, &math));
    let mut hr = spatializer(0.8, SpatialMode::Hrtf);
    let mut b = input.clone();
    on_bits(&mut b, |x| hr.process(x, 2, &math));
    assert!(a != b, "crossfeed and HRTF modes must produce different output");
}

#[test]
fn output_is_bounded() {
    for mode in [SpatialMode::Crossfeed, SpatialMode::Hrtf] {
        let mut sp = spatializer(1.0, mode);
        let mut buf = stereo(&[(0.9, -0.9), (-0.8, 0.8), (0.95, 0.95)].repeat(64));
        on_bits(&mut buf, |b| sp.process(b, 2, &math));
        assert!(buf.iter().all(|&x| x.abs() < 2.0), "output blew up in {mode:?}");
    }
}

fn surround(enabled: bool, intensity: f32, subwoofer: f32, on: SurroundSpeakers) -> Surround3D {
    let mut sp = SurroundStage::new(bits(48_000.0), &math);
    let (intensity, subwoofer) = (bits(intensity), bits(subwoofer));
    sp.set_params(&Surround3DState { enabled, intensity, subwoofer, speakers: on }, &math);
    sp.stage
}

fn played(sp: &mut Surround3D, input: &[f32]) -> Vec<f32> {
    let mut buf = input.to_vec();
    on_bits(&mut buf, |b| sp.process(b, 2, &math));
    buf
}

#[test]
fn surround3d_disabled_is_identity() {
    let mut sp = surround(false, 0.5, 0.5, SurroundSpeakers::default());
    let input = stereo(&[(0.5, -0.3), (0.2, 0.4)]);
    assert_eq!(played(&mut sp, &input), input);
}

#[test]
fn intensity_zero_is_identity() {
    let mut sp = surround(true, 0.0, 0.5, SurroundSpeakers::default());
    let input = stereo(&[(0.5, -0.3), (0.2, 0.4), (0.1, 0.1)]);
    assert_eq!(played(&mut sp, &input), input);
}

#[test]
fn enabled_changes_signal_but_stays_bounded() {
    let mut sp = surround(true, 1.0, 0.5, SurroundSpeakers::default());
    let input = sine(440.0, 256);
    let buf = played(&mut sp, &input);
    assert!(buf != input, "surround should transform the signal");
    assert!(buf.iter().all(|&x| x.abs() < 2.0), "output blew up");
}

#[test]
fn disabling_a_speaker_changes_output() {
    let input = sine(440.0, 256);
    let a = played(&mut surround(true, 1.0, 0.0, SurroundSpeakers::default()), &input);
    let mut rest = SurroundSpeakers::default();
    rest.surround_l = false;
    rest.surround_r = false;
    let b = played(&mut surround(true, 1.0, 0.0, rest), &input);
    assert!(a != b, "toggling the rear speakers must change the output");
}

#[test]
fn subwoofer_level_adds_low_frequency_energy() {
    let input = sine(60.0, 1024);
    let no_sub = played(&mut surround(true, 1.0, 0.0, SurroundSpeakers::default()), &input);
    let full_sub = played(&mut surround(true, 1.0, 1.0, SurroundSpeakers::default()), &input);
    assert!(
        energy(&full_sub) > energy(&no_sub),
        "more subwoofer should add low-frequency energy: {} !> {}",
        energy(&full_sub),
        energy(&no_sub)
    );
}

#[test]
fn intensity_scales_the_effect() {
    let input = sine(440.0, 256);
    let h = played(&mut surround(true, 0.5, 0.0, SurroundSpeakers::default()), &input);
    let f = played(&mut surround(true, 1.0, 0.0, SurroundSpeakers::default()), &input);
    let dev = |buf: &[f32]| -> f32 { buf.iter().zip(&input).map(|(a, b)| (a - b).abs()).sum() };
    assert!(
        dev(&f) > dev(&h),
        "higher intensity should diverge further from dry: {} !> {}",
        dev(&f),
        dev(&h)
    );
}

#[test]
fn the_third_channel_is_not_played() {
    let mut sp = surround(true, 1.0, 0.5, SurroundSpeakers::default());
    let mut buf = vec![0.5f32, -0.5, 0.125, 0.25, 0.75, -0.125];
    on_bits(&mut buf, |b| sp.process(b, 3, &math));
    assert_eq!((buf[2], buf[5]), (0.125, -0.125));
    assert_ne!(buf[0], 0.5);
}

fn bass(channels: usize, enabled: bool, amount: f32, harmonics: bool, adaptive: bool) -> BassBoost {
    let mut b = BassStage::new(bits(48_000.0), channels, &math, &wide);
    let state = BassBoostState { enabled, amount: bits(amount), harmonics, adaptive };
    b.set_params(&state, &math, &wide);
    b.stage
}

fn boosted(b: &mut BassBoost, x: f32) -> f32 {
    let mut s = vec![bits(x)];
    b.process(&mut s, 1, &math);
    f32::from_bits(s[0])
}

#[test]
fn bass_boost_disabled_is_identity() {
    let mut b = bass(2, false, 0.0, false, false);
    let input = vec![0.3f32, -0.4, 0.1, -0.2];
    let mut buf = input.clone();
    on_bits(&mut buf, |x| b.process(x, 2, &math));
    assert_eq!(buf, input);
}

#[test]
fn enabled_boosts_low_frequencies() {
    let mut b = bass(1, true, 6.0, false, false);
    let mut y = 0.0;
    for _ in 0..3000 {
        y = boosted(&mut b, 1.0);
    }
    assert!(y > 1.4, "expected low-shelf boost, got {y}");
}

#[test]
fn adaptive_false_matches_static() {
    let mut b1 = bass(1, true, 6.0, false, false);
    let mut b2 = bass(1, true, 6.0, false, false);
    let signal: Vec<f32> = (0..4096)
        .map(|i| {
            let t = i as f32 / 48_000.0;
            (2.0 * std::f32::consts::PI * 60.0 * t).sin() * 0.5
                + (2.0 * std::f32::consts::PI * 1_000.0 * t).sin() * 0.2
        })
        .collect();
    let mut buf1 = signal.clone();
    let mut buf2 = signal.clone();
    on_bits(&mut buf1, |x| b1.process(x, 1, &math));
    on_bits(&mut buf2, |x| b2.process(x, 1, &math));
    for (a, b) in buf1.iter().zip(buf2.iter()) {
        assert!((a - b).abs() < 1e-6, "adaptive=false output diverged: {a} vs {b}");
    }
}

#[test]
fn a_full_boost_is_the_shelf_bit_for_bit() {
    let signal: Vec<u32> = (0..2048).map(|i| bits((i as f32 * 0.013).sin() * 0.02)).collect();
    // The second one adapts, but to bass as quiet as this it gives the full boost.
    for adaptive in [false, true] {
        let mut boost = bass(1, true, 6.0, false, adaptive);
        let mut shelf = Biquad::identity();
        shelf.assign(low_shelf(48_000.0, 110.0, 6.0, f32::from_bits(SHELF_Q)));
        let mut buffer = signal.clone();
        boost.process(&mut buffer, 1, &math);
        let shelved: Vec<u32> = signal.iter().map(|&x| shelf.process_sample(x, &math)).collect();
        assert_eq!(buffer, shelved);
        assert_ne!(buffer, signal);
    }
}

fn bass_levels(amp: f32, warmup: usize) -> (f32, f32) {
    let sr = 48_000.0f32;
    let measure = 4_800usize;
    let mut fixed = bass(1, true, 6.0, false, false);
    let mut adaptive = bass(1, true, 6.0, false, true);
    let (mut rms_static, mut rms_adaptive) = (0.0f32, 0.0f32);
    for i in 0..warmup + measure {
        let t = i as f32 / sr;
        let x = (2.0 * std::f32::consts::PI * 60.0 * t).sin() * amp;
        let s = boosted(&mut fixed, x);
        let a = boosted(&mut adaptive, x);
        if i >= warmup {
            rms_static += s * s;
            rms_adaptive += a * a;
        }
    }
    ((rms_static / measure as f32).sqrt(), (rms_adaptive / measure as f32).sqrt())
}

#[test]
fn adaptive_reduces_boost_on_loud_bass() {
    let (rms_static, rms_adaptive) = bass_levels(0.9, 96_000);
    assert!(
        rms_adaptive < rms_static,
        "adaptive should reduce boost on loud bass: adaptive_rms={rms_adaptive:.4} static_rms={rms_static:.4}"
    );
}

#[test]
fn adaptive_full_boost_on_quiet_bass() {
    let (rms_static, rms_adaptive) = bass_levels(0.04, 48_000);
    let ratio = rms_adaptive / rms_static;
    assert!(
        ratio > 0.92,
        "quiet bass should get ≈full static boost: ratio={ratio:.4} (adaptive_rms={rms_adaptive:.4} static_rms={rms_static:.4})"
    );
}

#[test]
fn bass_boost_stays_bounded() {
    let mut b = bass(2, true, 12.0, true, true);
    let mut buf: Vec<f32> = (0..8192)
        .map(|i| {
            if i % 3 == 0 {
                1.0
            } else if i % 3 == 1 {
                -1.0
            } else {
                0.5
            }
        })
        .collect();
    on_bits(&mut buf, |x| b.process(x, 2, &math));
    for (i, &x) in buf.iter().enumerate() {
        assert!(x.is_finite(), "sample {i} is not finite: {x}");
        assert!(x.abs() < 20.0, "sample {i} out of expected range: {x}");
    }
}

fn oversampler() -> Oversampler4x {
    let (up, down) = oversampling_taps(&wide);
    Oversampler4x::new(&up, &down)
}

#[test]
fn taps_have_the_values_of_their_formula() {
    let pi = std::f64::consts::PI;
    let taps = NUM_TAPS as f64;
    let m = (taps - 1.0) / 2.0;
    let fc = 0.5 / OVERSAMPLE as f64;
    let mut h: Vec<f64> = (0..NUM_TAPS)
        .map(|n| {
            let x = 2.0 * fc * (n as f64 - m);
            let sinc = if x.abs() < 1e-12 { 1.0 } else { (pi * x).sin() / (pi * x) };
            let w = 0.42 - 0.5 * (2.0 * pi * n as f64 / (taps - 1.0)).cos()
                + 0.08 * (4.0 * pi * n as f64 / (taps - 1.0)).cos();
            sinc * w
        })
        .collect();
    let dc: f64 = h.iter().sum();
    for v in h.iter_mut() {
        *v /= dc;
    }
    let down: Vec<u32> = h.iter().map(|v| bits(*v as f32)).collect();
    let up: Vec<u32> = h.iter().map(|v| bits((*v * OVERSAMPLE as f64) as f32)).collect();
    assert_eq!(oversampling_taps(&wide), (up, down));
}

fn make_sine(freq: f32, sr: f32, n: usize) -> Vec<f32> {
    (0..n).map(|i| (2.0 * std::f32::consts::PI * freq / sr * i as f32).sin()).collect()
}

fn roundtrip(input: &[f32]) -> Vec<f32> {
    let mut ov = oversampler();
    let up: Vec<[u32; 4]> = input.iter().map(|x| ov.upsample(bits(*x), &math)).collect();
    up.iter().map(|four| f32::from_bits(ov.downsample(four, &math))).collect()
}

fn peak_of(s: &[f32]) -> f32 {
    s.iter().map(|&v| v.abs()).fold(0.0f32, f32::max)
}

#[test]
fn latency_reported() {
    assert_eq!(latency_samples(), 33);
}

#[test]
fn roundtrip_group_delay_matches_reported_latency() {
    const IMPULSE_POS: usize = 64;
    let mut input = vec![0.0f32; 512];
    input[IMPULSE_POS] = 1.0;
    let out = roundtrip(&input);
    let lat = latency_samples();
    let centre = IMPULSE_POS + lat;
    let mut asym = 0.0f32;
    let mut total = 0.0f32;
    for d in 1..=24usize {
        let l = out[centre - d];
        let r = out[centre + d];
        asym += (l - r) * (l - r);
        total += l * l + r * r;
    }
    let rel = (asym / total.max(1e-12)).sqrt();
    assert!(rel < 0.02, "relative asymmetry {rel:.4}, latency {lat}");
}

#[test]
fn roundtrip_passband_unity() {
    let n = 4096;
    let input = make_sine(1_000.0, 48_000.0, n);
    let output = roundtrip(&input);
    let skip = (latency_samples() * 2 + 4).min(n / 2);
    let in_peak = peak_of(&input[skip..]);
    let out_peak = peak_of(&output[skip..]);
    let err = (out_peak - in_peak).abs() / in_peak;
    assert!(err < 0.03, "passband amplitude error {:.2}%", err * 100.0);
}

#[test]
fn dc_gain_unity() {
    let n = 2048;
    let output = roundtrip(&vec![0.5f32; n]);
    let skip = (latency_samples() * 2 + 8).min(n / 2);
    let tail = &output[skip..];
    let out_avg = tail.iter().copied().sum::<f32>() / tail.len() as f32;
    let err = (out_avg - 0.5).abs();
    assert!(err < 0.015, "DC gain error {err:.5} (expected 0.5, got {out_avg:.5})");
}

#[test]
fn near_nyquist_attenuated() {
    let n = 4096;
    let input = make_sine(22_000.0, 48_000.0, n);
    let output = roundtrip(&input);
    let skip = (latency_samples() * 2).min(n / 2);
    let in_peak = peak_of(&input[skip..]);
    let out_peak = peak_of(&output[skip..]);
    assert!(
        out_peak < in_peak * 0.1,
        "22 kHz should be attenuated ≥20 dB; in={in_peak:.4}, out={out_peak:.4}"
    );
}

#[test]
fn low_freq_energy_preserved() {
    let n = 4096;
    let input: Vec<f32> = (0..n)
        .map(|i| {
            let t = i as f32 / 48_000.0;
            ((2.0 * std::f32::consts::PI * 200.0 * t).sin()
                + (2.0 * std::f32::consts::PI * 500.0 * t).sin()
                + (2.0 * std::f32::consts::PI * 1_000.0 * t).sin())
                / 3.0
        })
        .collect();
    let output = roundtrip(&input);
    let skip = (latency_samples() * 2).min(n / 2);
    let in_rms = rms(&input[skip..]);
    let out_rms = rms(&output[skip..]);
    let err = (out_rms - in_rms).abs() / in_rms;
    assert!(err < 0.05, "low-freq RMS error {:.2}%", err * 100.0);
}

#[test]
fn a_reset_oversampler_is_silent() {
    let mut ov = oversampler();
    for _ in 0..40 {
        let four = ov.upsample(bits(1.0), &math);
        ov.downsample(&four, &math);
    }
    ov.reset();
    assert_eq!(ov.upsample(0, &math), [0; 4]);
    assert_eq!(ov.downsample(&[0; 4], &math), 0);
}

fn rms(buf: &[f32]) -> f32 {
    (buf.iter().map(|&v| v * v).sum::<f32>() / buf.len() as f32).sqrt()
}

fn saturation(enabled: bool, drive: f32, mix: f32) -> Saturation {
    let mut s = SaturationStage::new(&math, &wide);
    s.set_params(&SaturationState { enabled, drive: bits(drive), mix: bits(mix) }, &math);
    s.stage
}

#[test]
fn makeup_is_the_ratio_of_the_loudness() {
    let drive = 1.0f32 + 0.5 * 9.0;
    let squares: f32 = (0..256)
        .map(|i| {
            let x = 0.5 * (2.0 * std::f32::consts::PI * i as f32 / 256.0).sin();
            let s = f32::from_bits(shape(bits(x), bits(drive), &math));
            s * s
        })
        .fold(0.0f32, |a, b| a + b)
        / 256.0;
    let makeup = (0.5 / 2.0_f32.sqrt()) / squares.sqrt().max(1e-6);
    assert_eq!(compute_drive_makeup(bits(0.5), &math), (bits(drive), bits(makeup)));
}

#[test]
fn saturation_disabled_is_identity() {
    let mut sat = saturation(false, 0.5, 1.0);
    let input: Vec<f32> = (0..512)
        .map(|i| (i as f32 * 0.01).sin() * 0.8)
        .flat_map(|v| [v, v])
        .collect();
    let mut buf = input.clone();
    on_bits(&mut buf, |b| sat.process(b, 2, &math));
    assert_eq!(buf, input, "disabled must be bit-exact identity");
}

#[test]
fn mix_zero_is_dry_delayed() {
    let lat = latency_samples();
    let frames = 512;
    let mut sat = saturation(true, 0.5, 0.0);
    let input: Vec<f32> = (0..frames)
        .flat_map(|i| {
            let s = (2.0 * std::f32::consts::PI * 440.0 / 48_000.0 * i as f32).sin() * 0.5;
            [s, s]
        })
        .collect();
    let mut buf = input.clone();
    on_bits(&mut buf, |b| sat.process(b, 2, &math));
    for f in lat..frames {
        let got_l = buf[f * 2];
        let expected = input[(f - lat) * 2];
        assert!((got_l - expected).abs() < 1e-5, "frame {f}: expected {expected:.6}, got {got_l:.6}");
    }
}

fn saturated(enabled: bool, drive: f32, freq: f32, amp: f32, n: usize) -> Vec<f32> {
    let mut sat = saturation(enabled, drive, 1.0);
    let mut buf: Vec<f32> = (0..n)
        .map(|i| (2.0 * std::f32::consts::PI * freq / 48_000.0 * i as f32).sin() * amp)
        .collect();
    on_bits(&mut buf, |b| sat.process(b, 1, &math));
    buf
}

fn magnitude_at(sig: &[f32], freq: f32) -> f32 {
    let n = sig.len();
    let mut buf = sig.to_vec();
    let mut planner = RealFftPlanner::<f32>::new();
    let fft = planner.plan_fft_forward(n);
    let mut spec = fft.make_output_vec();
    fft.process(&mut buf, &mut spec).unwrap();
    let bin = (freq / 48_000.0 * n as f32).round() as usize;
    spec[bin.min(spec.len() - 1)].norm() / n as f32
}

#[test]
fn produces_even_harmonic() {
    let skip = latency_samples() * 2 + 64;
    let on = saturated(true, 0.9, 1_000.0, 0.8, 8192);
    let off = saturated(false, 0.9, 1_000.0, 0.8, 8192);
    let mag_on = magnitude_at(&on[skip..], 2_000.0);
    let mag_off = magnitude_at(&off[skip..], 2_000.0);
    assert!(
        mag_on > mag_off * 5.0,
        "2nd harmonic should be clearly higher with saturation on: on={mag_on:.6}, off={mag_off:.6}"
    );
}

#[test]
fn makeup_keeps_level_roughly_stable() {
    let on = saturated(true, 0.5, 440.0, 0.5, 96_000);
    let off = saturated(false, 0.5, 440.0, 0.5, 96_000);
    let ratio = rms(&on[6_000..]) / rms(&off[6_000..]).max(1e-9);
    assert!(ratio > 0.794 && ratio < 1.259, "makeup should keep loudness within ±2 dB: ratio={ratio:.4}");
}

#[test]
fn saturation_stays_bounded() {
    let mut sat = saturation(true, 1.0, 1.0);
    let mut buf: Vec<f32> = (0..2048)
        .flat_map(|i| {
            let v = if i % 2 == 0 { 10.0 } else { -10.0 };
            [v, -v]
        })
        .collect();
    on_bits(&mut buf, |b| sat.process(b, 2, &math));
    assert!(buf.iter().all(|&x| x.abs() <= 4.0), "output must stay within ±4: max={}", peak_of(&buf));
}

#[test]
fn antialias_smoke() {
    let buf = saturated(true, 1.0, 15_000.0, 0.5, 8192);
    assert!(buf.iter().all(|&x| x.abs() <= 4.0), "output must stay ≤4");
    let mag = magnitude_at(&buf[latency_samples() * 2 + 64..], 15_000.0);
    assert!(mag > 0.01, "15 kHz fundamental must survive saturation: mag={mag:.6}");
}

#[derive(Clone, Copy)]
struct Setup {
    threshold_db: f32,
    ratio: f32,
    knee_db: f32,
    attack_ms: f32,
    release_ms: f32,
    makeup_db: f32,
    gate_db: f32,
    expander_ratio: f32,
}

fn state(s: Setup) -> CompanderState {
    CompanderState {
        enabled: true,
        threshold_db: bits(s.threshold_db),
        ratio: bits(s.ratio),
        knee_db: bits(s.knee_db),
        attack_ms: bits(s.attack_ms),
        release_ms: bits(s.release_ms),
        makeup_db: bits(s.makeup_db),
        gate_db: bits(s.gate_db),
        expander_ratio: bits(s.expander_ratio),
    }
}

fn curve(s: Setup) -> Curve {
    compander_curve(&state(s))
}

fn speeds(sample_rate: f32, s: Setup) -> Speeds {
    compander_speeds(&state(s), bits(sample_rate), &math)
}

fn ahead(sample_rate: f32) -> usize {
    lookahead_samples(bits(sample_rate), &math)
}

fn factor(db: f32) -> f32 {
    f32::from_bits(db_to_lin(bits(db), &math))
}

fn lin_to_db(lin: f32) -> f32 {
    if lin < 1e-10 {
        -200.0
    } else {
        lin.ln() * 8.685_889
    }
}

struct Companding {
    stage: Compander,
    meter: CompanderMeter,
}

impl Companding {
    fn new(enabled: bool, s: Setup) -> Companding {
        let mut c = CompanderStage::new(bits(48_000.0), &math, &wide);
        c.set_params(&CompanderState { enabled, ..state(s) }, &math);
        Companding { stage: c.stage, meter: CompanderMeter::new() }
    }

    fn process(&mut self, buffer: &mut [f32], channels: usize) {
        let (stage, meter) = (&mut self.stage, &mut self.meter);
        on_bits(buffer, |b| stage.process(b, channels, meter, &math));
    }

    fn reductions(&self) -> Vec<f32> {
        self.meter.load().iter().map(|b| f32::from_bits(*b)).collect()
    }
}

fn flat() -> Setup {
    Setup {
        ratio: 1.0,
        gate_db: -200.0,
        knee_db: 0.0,
        makeup_db: 0.0,
        threshold_db: -18.0,
        attack_ms: 1.0,
        release_ms: 1.0,
        expander_ratio: 1.0,
    }
}

fn tone(freq: f32, amp: f32, frames: usize) -> Vec<f32> {
    (0..frames)
        .flat_map(|i| {
            let s = (2.0 * std::f32::consts::PI * freq * i as f32 / 48_000.0).sin() * amp;
            [s, s]
        })
        .collect()
}

#[test]
fn compander_disabled_is_identity() {
    let mut c = Companding::new(false, flat());
    let input: Vec<f32> = (0..256).map(|i| (i as f32 * 0.01).sin() * 0.5).collect();
    let mut pair: Vec<f32> = input.iter().flat_map(|&x| [x, x]).collect();
    let orig = pair.clone();
    c.process(&mut pair, 2);
    assert_eq!(pair, orig, "disabled compander must be bit-exact identity");
    let mut mono = input.clone();
    c.process(&mut mono, 1);
    assert_eq!(mono, input, "disabled compander must be bit-exact identity (mono)");
}

#[test]
fn flat_compander_reconstructs_input() {
    let sr = 48_000.0_f32;
    let l_samples = ahead(sr);
    let signal: Vec<f32> = (0..32_768)
        .flat_map(|i| {
            let t = i as f32 / sr;
            let s = (2.0 * std::f32::consts::PI * 100.0 * t).sin() * 0.3
                + (2.0 * std::f32::consts::PI * 1000.0 * t).sin() * 0.3
                + (2.0 * std::f32::consts::PI * 8000.0 * t).sin() * 0.3;
            [s, s * 0.9]
        })
        .collect();
    let mut c = Companding::new(true, flat());
    let prime = 4096 * 2;
    let mut prime_buf = signal[..prime].to_vec();
    c.process(&mut prime_buf, 2);
    let mut out_buf = signal[prime..].to_vec();
    let in_slice = &signal[prime..];
    c.process(&mut out_buf, 2);
    let out_shifted = &out_buf[l_samples * 2..];
    let in_ref = &in_slice[..out_shifted.len()];
    let diff: Vec<f32> = out_shifted.iter().zip(in_ref.iter()).map(|(o, i)| o - i).collect();
    let rel_err = rms(&diff) / rms(in_ref);
    assert!(rel_err < 0.02, "must reconstruct input with <2% RMS error, got {:.4}%", rel_err * 100.0);
}

#[test]
fn fast_attack_reduces_faster_than_slow() {
    let loud = |attack_ms: f32| Setup {
        ratio: 10.0,
        threshold_db: -30.0,
        knee_db: 0.0,
        gate_db: -90.0,
        attack_ms,
        release_ms: 200.0,
        makeup_db: 0.0,
        expander_ratio: 1.0,
    };
    let signal = tone(1000.0, 0.95, 4096);
    let mut fast_buf = signal.clone();
    Companding::new(true, loud(1.0)).process(&mut fast_buf, 2);
    let mut slow_buf = signal.clone();
    Companding::new(true, loud(100.0)).process(&mut slow_buf, 2);
    let target = 0.95 * 0.5;
    let ls = ahead(48_000.0);
    let settled_idx = |buf: &[f32]| -> usize {
        let start = ls.min(buf.len() / 2);
        for i in start..(buf.len() / 2) {
            if buf[i * 2].abs() < target {
                let check_end = (i + 50).min(buf.len() / 2);
                if (i..check_end).all(|j| buf[j * 2].abs() < target) {
                    return i;
                }
            }
        }
        buf.len() / 2
    };
    let fast_idx = settled_idx(&fast_buf);
    let slow_idx = settled_idx(&slow_buf);
    assert!(fast_idx < slow_idx, "fast={fast_idx} slow={slow_idx}");
}

#[test]
fn meter_reports_reduction_under_compression() {
    let heavy = Setup {
        ratio: 20.0,
        threshold_db: -40.0,
        knee_db: 0.0,
        gate_db: -90.0,
        attack_ms: 1.0,
        release_ms: 50.0,
        makeup_db: 0.0,
        expander_ratio: 1.0,
    };
    let mut c = Companding::new(true, heavy);
    let signal = tone(1000.0, 0.9, 4096);
    let mut prime = signal.clone();
    c.process(&mut prime, 2);
    let mut buf = signal.clone();
    c.process(&mut buf, 2);
    let gr = c.reductions();
    assert!(gr.iter().any(|&g| g < -1.0), "meter must report GR < −1 dB on at least one band; got {gr:?}");
    c.stage.set_enabled(false);
    let mut buf2 = signal.clone();
    c.process(&mut buf2, 2);
    let gr_off = c.reductions();
    assert!(gr_off.iter().all(|&g| g.abs() < 0.01), "disabled compander must leave meter at ~0 dB; got {gr_off:?}");
}

#[test]
fn compander_stays_bounded() {
    let mut c = Companding::new(
        true,
        Setup {
            ratio: 2.5,
            threshold_db: -18.0,
            knee_db: 8.0,
            gate_db: -70.0,
            attack_ms: 15.0,
            release_ms: 45.0,
            makeup_db: 6.0,
            expander_ratio: 2.0,
        },
    );
    let mut buf: Vec<f32> = (0..8192).flat_map(|_| [1.0_f32, -1.0_f32]).collect();
    c.process(&mut buf, 2);
    assert!(buf.iter().all(|&x| x.abs() <= 4.0), "compander output must stay within ±4.0");
}

#[test]
fn loud_input_is_compressed() {
    let mut c = Companding::new(
        true,
        Setup {
            ratio: 8.0,
            threshold_db: -20.0,
            knee_db: 0.0,
            gate_db: -90.0,
            attack_ms: 1.0,
            release_ms: 5.0,
            makeup_db: 0.0,
            expander_ratio: 1.0,
        },
    );
    let signal = tone(1000.0, 0.9, 4096);
    let mut prime = signal.clone();
    c.process(&mut prime, 2);
    let mut buf = signal.clone();
    c.process(&mut buf, 2);
    let in_peak = peak_of(&signal);
    let out_peak = peak_of(&buf[buf.len() / 2..]);
    assert!(
        out_peak < in_peak * 0.7,
        "compression should reduce level significantly: in_peak={in_peak:.3}, out_peak={out_peak:.3}"
    );
}

struct RefBand {
    env_db: f32,
    gain_smoothed_db: f32,
    attack_coeff: f32,
    release_coeff: f32,
    gain_declick_coeff: f32,
    ring: Vec<f32>,
    ring_pos: usize,
}

impl RefBand {
    fn new(sr: f32, attack_ms: f32, release_ms: f32) -> RefBand {
        let a = (attack_ms * 0.001).max(0.001);
        let r = (release_ms * 0.001).max(0.001);
        RefBand {
            env_db: -96.0,
            gain_smoothed_db: 0.0,
            attack_coeff: 1.0 - (-1.0 / (a * sr)).exp(),
            release_coeff: 1.0 - (-1.0 / (r * sr)).exp(),
            gain_declick_coeff: 1.0 - (-1.0 / (0.002 * sr)).exp(),
            ring: vec![0.0; ahead(sr).max(1)],
            ring_pos: 0,
        }
    }

    fn process(&mut self, x: f32, curve: &Curve, makeup: f32) -> f32 {
        let peak_db = lin_to_db(x.abs());
        if peak_db > self.env_db {
            self.env_db += self.attack_coeff * (peak_db - self.env_db);
        } else {
            self.env_db += self.release_coeff * (peak_db - self.env_db);
        }
        let raised = self.env_db + 96.0;
        self.env_db = (if raised.abs() < 1e-18 { 0.0 } else { raised }) - 96.0;
        let gain_db = f32::from_bits(curve.compute_gain(bits(self.env_db), &math));
        self.gain_smoothed_db += self.gain_declick_coeff * (gain_db - self.gain_smoothed_db);
        let g = factor(self.gain_smoothed_db) * makeup;
        let pos = self.ring_pos;
        let delayed = self.ring[pos];
        self.ring[pos] = x;
        self.ring_pos = (self.ring_pos + 1) % self.ring.len();
        delayed * g
    }
}

#[test]
fn decimated_band_matches_per_frame_reference() {
    let sr = 48_000.0_f32;
    let setup = Setup {
        ratio: 4.0,
        threshold_db: -30.0,
        knee_db: 0.0,
        gate_db: -90.0,
        attack_ms: 5.0,
        release_ms: 50.0,
        makeup_db: 0.0,
        expander_ratio: 1.0,
    };
    let signal: Vec<f32> = (0..14_400)
        .map(|i| {
            let amp = if i < 7_200 { 0.9 } else { 0.02 };
            (2.0 * std::f32::consts::PI * 1_000.0 * i as f32 / sr).sin() * amp
        })
        .collect();
    let mut band = BandCompressor::new(
        curve(setup),
        speeds(sr, setup),
        bits(factor(0.0)),
        ahead(sr),
    );
    let mut reference = RefBand::new(sr, 5.0, 50.0);
    let mut err_sq = 0.0_f64;
    let mut ref_sq = 0.0_f64;
    let mut max_diff = 0.0_f32;
    for &x in &signal {
        let got = f32::from_bits(band.process_frame_mono(bits(x), &math));
        let want = reference.process(x, &curve(setup), factor(0.0));
        let d = (got - want).abs();
        max_diff = max_diff.max(d);
        err_sq += (d as f64) * (d as f64);
        ref_sq += (want as f64) * (want as f64);
    }
    let rel_rms = (err_sq / ref_sq.max(1e-30)).sqrt();
    assert!(rel_rms < 0.001, "rel RMS error {:.4}% (max sample diff {max_diff:.6})", rel_rms * 100.0);
    assert!(max_diff < 0.005, "max sample deviation too large: {max_diff:.6}");
}

#[test]
fn fast_db_conversion_is_accurate() {
    let fast = |lin: f32| f32::from_bits(fast_level_db(bits(lin), &math));
    let mut lin = 2e-10_f32;
    let mut max_err = 0.0_f32;
    while lin < 4.0 {
        max_err = max_err.max((lin_to_db(lin) - fast(lin)).abs());
        lin *= 1.001;
    }
    assert!(max_err < 1e-3, "must be within 0.001 dB, got {max_err}");
    assert_eq!(fast(0.0), -200.0);
    assert_eq!(fast(9e-11), -200.0);
}

#[test]
fn mono_matches_dual_mono_stereo() {
    let setup = Setup {
        ratio: 4.0,
        threshold_db: -24.0,
        knee_db: 6.0,
        gate_db: -70.0,
        attack_ms: 10.0,
        release_ms: 80.0,
        makeup_db: 3.0,
        expander_ratio: 2.0,
    };
    let mono: Vec<f32> = (0..8_192)
        .map(|i| (2.0 * std::f32::consts::PI * 500.0 * i as f32 / 48_000.0).sin() * 0.8)
        .collect();
    let mut mono_buf = mono.clone();
    Companding::new(true, setup).process(&mut mono_buf, 1);
    let mut stereo_buf: Vec<f32> = mono.iter().flat_map(|&x| [x, x]).collect();
    Companding::new(true, setup).process(&mut stereo_buf, 2);
    for (f, &m) in mono_buf.iter().enumerate() {
        let l = stereo_buf[f * 2];
        assert!(m.to_bits() == l.to_bits(), "frame {f}: mono path {m} != dual-mono stereo left {l}");
    }
}

#[test]
fn quiet_below_gate_is_expanded_down() {
    let mut c = Companding::new(
        true,
        Setup {
            ratio: 1.0,
            threshold_db: 0.0,
            knee_db: 0.0,
            gate_db: -20.0,
            attack_ms: 1.0,
            release_ms: 1.0,
            makeup_db: 0.0,
            expander_ratio: 4.0,
        },
    );
    let signal = tone(1000.0, 0.01, 4096);
    let mut prime = signal.clone();
    c.process(&mut prime, 2);
    let mut buf = signal.clone();
    c.process(&mut buf, 2);
    let in_rms = rms(&signal[signal.len() / 2..]);
    let out_rms = rms(&buf[buf.len() / 2..]);
    assert!(out_rms < in_rms * 0.9, "in_rms={in_rms:.6}, out_rms={out_rms:.6}");
}

#[test]
fn curves_have_the_gains_of_their_formulas() {
    let c = Curve {
        threshold: bits(-20.0),
        ratio: bits(4.0),
        knee: bits(8.0),
        gate: bits(-60.0),
        expander_ratio: bits(3.0),
    };
    let gain = |level: f32| f32::from_bits(c.compute_gain(bits(level), &math));
    assert_eq!(gain(-40.0), 0.0);
    assert_eq!(gain(-70.0), -20.0);
    assert_eq!(gain(-18.0), -0.375);
    assert_eq!(gain(-12.0), -4.5);
    let hard = Curve { knee: bits(0.0), ..c };
    assert_eq!(f32::from_bits(hard.compute_gain(bits(-12.0), &math)), -6.0);
}

#[test]
fn frames_wait_for_the_look_ahead() {
    let mut none = HeldFrames::new(0);
    assert_eq!(none.process(1, 2), (1, 2));
    assert_eq!(none.process_left(3), 3);
    let mut two = HeldFrames::new(2);
    assert_eq!(two.process(1, 10), (0, 0));
    assert_eq!(two.process(2, 20), (0, 0));
    assert_eq!(two.process(3, 30), (1, 10));
    assert_eq!(two.process_left(4), 2);
    assert_eq!(two.process(5, 50), (3, 30));
    assert_eq!(two.process(6, 60), (4, 20));
}

#[test]
fn combs_and_rooms_have_their_own_delays() {
    let mut line = CombLine::new(3, 9);
    for x in [1, 2, 3] {
        line.store(x);
    }
    assert_eq!(line.read(), 1);
    line.set_delay(0);
    assert_eq!(line.read(), 3);
    let mut pre = PreDelay::new(4);
    assert_eq!(pre.process(7, 0), 7);
    assert_eq!(pre.process(8, 2), 0);
    assert_eq!(pre.process(9, 2), 0);
    assert_eq!(pre.process(10, 2), 8);
    assert_eq!(pre.process(11, 100), 8);
    let mut short = PreDelay::new(0);
    assert_eq!(short.process(5, 3), 0);
    assert_eq!(short.process(6, 3), 5);
}

/// A stage that runs a function.
struct Running {
    run: Box<dyn FnMut(&mut Vec<u32>, usize)>,
    formats: Vec<(u32, usize)>,
    settings: usize,
}

fn running(run: impl FnMut(&mut Vec<u32>, usize) + 'static) -> Running {
    Running { run: Box::new(run), formats: Vec::new(), settings: 0 }
}

impl AudioProcessor for Running {
    fn prepare(&mut self, rate: u32, channels: usize) {
        self.formats.push((rate, channels));
    }

    fn process(&mut self, buffer: &mut Vec<u32>, channels: usize) {
        (self.run)(buffer, channels);
        // A stage that was made ready and set once adds nothing of its own.
        assert_eq!((self.formats.len(), self.settings), (1, 1));
    }

    fn set_params(&mut self, _params: &EngineState) {
        self.settings += 1;
    }
}

#[test]
fn empty_chain_is_identity() {
    let mut chain: ProcessChain<Running> = ProcessChain::new();
    chain.prepare(bits(48_000.0), 2);
    assert!(chain.is_empty());
    let original: Vec<f32> = (0..512).map(|i| (i as f32 * 0.001).sin()).collect();
    let mut buffer = original.clone();
    on_bits(&mut buffer, |b| chain.process(b, 2));
    assert_eq!(buffer, original, "empty chain must not alter the signal");
}

#[test]
fn chain_tracks_length() {
    let mut chain: ProcessChain<Running> = ProcessChain::new();
    assert_eq!(chain.len(), 0);
    assert!(chain.is_empty());
    chain.push(running(|_, _| {}));
    assert_eq!(chain.len(), 1);
    assert!(!chain.is_empty());
}

#[test]
fn blocks_run_through_the_stages_in_their_order() {
    let mut chain: ProcessChain<Running> = ProcessChain::new();
    chain.prepare(bits(44_100.0), 1);
    chain.push(running(|b, _| b.iter_mut().for_each(|x| *x += 1)));
    chain.push(running(|b, c| b.iter_mut().for_each(|x| *x *= 10 * c as u32)));
    chain.set_params(&EngineState::default());
    let mut block = vec![1, 2];
    chain.process(&mut block, 3);
    assert_eq!(block, vec![60, 90]);
}

#[test]
fn stages_are_tuned_again_where_settings_moved() {
    let (sr, step) = (bits(48_000.0), f32::EPSILON);
    let boost = |amount: f32| BassBoostState {
        enabled: true,
        amount: bits(amount),
        harmonics: false,
        adaptive: false,
    };
    let mut b = BassStage::new(sr, 1, &math, &wide);
    b.set_params(&boost(step), &math, &wide);
    assert_eq!(b.amount, 0, "a step of rounding is no change");
    b.set_params(&boost(3.0), &math, &wide);
    assert_eq!(b.amount, bits(3.0));
    b.prepare(bits(44_100.0), 2, &math, &wide);
    assert_eq!((b.rate, b.amount, b.stage.current().enabled), (bits(44_100.0), bits(3.0), true));

    let mut s = SaturationStage::new(&math, &wide);
    let first = s.settings;
    s.set_params(&SaturationState { enabled: true, drive: bits(0.3), mix: bits(2.0) }, &math);
    assert_eq!((s.settings.drive, s.settings.makeup), (first.drive, first.makeup));
    assert_eq!((s.drive, s.mix, s.settings.enabled), (bits(0.3), bits(2.0), true));
    s.set_params(&SaturationState { enabled: true, drive: bits(1.0), mix: bits(2.0) }, &math);
    assert_eq!(s.settings.drive, bits(10.0));
    s.prepare(&wide);
    assert_eq!(s.settings.drive, bits(10.0));

    let mut r = RoomStage::new(sr, &math);
    let fresh = r.tune;
    r.set_params(&RoomState::default(), &math);
    assert_eq!(r.tune, fresh);
    r.set_params(&RoomState { decay: bits(7.0), ..RoomState::default() }, &math);
    assert_eq!(r.tune.decay, bits(1.0), "settings are cut to their range");
    r.prepare(bits(96_000.0), &math);
    assert_eq!((r.rate, r.tune.decay), (bits(96_000.0), bits(1.0)));

    let mut c = CompanderStage::new(sr, &math, &wide);
    assert!(c.applied.is_none());
    c.set_params(&CompanderState::default(), &math);
    assert_eq!(c.applied, Some(CompanderState::default()));
    c.prepare(sr, &math, &wide);
    assert!(c.applied.is_none());

    let mut e = EqStage::new(sr, 2, &wide);
    let mut gains = EqState::default();
    gains.bands[3] = bits(6.0);
    e.set_params(&gains, &math, &wide);
    assert_eq!(e.bands, gains.bands);
    e.prepare(sr, 1, &wide);
    assert_eq!(e.bands, gains.bands);

    let mut h = HeadphoneStage::new(sr, 2);
    let band = |gain: f32| ParametricBand {
        kind: "lowShelf".into(),
        freq: bits(100.0),
        gain: bits(gain),
        q: bits(0.7),
    };
    let profile = |gain: f32| HeadphoneCorrectionState {
        enabled: true,
        preamp: 0,
        bands: vec![band(gain)],
    };
    h.set_params(&profile(0.0), &math, &wide);
    h.set_params(&profile(-0.0), &math, &wide);
    assert_eq!(h.bands, vec![band(0.0)], "the same numbers are the same profile");
    h.set_params(&profile(2.0), &math, &wide);
    assert_eq!(h.bands, vec![band(2.0)]);
    h.prepare(sr, 1, &wide);

    let mut ring = SurroundStage::new(sr, &math);
    let on = Surround3DState { enabled: true, ..Surround3DState::default() };
    ring.set_params(&on, &math);
    ring.prepare(bits(44_100.0), &math);
    assert_eq!(ring.state, on);
    let mut lim = new_limiter(sr, 2, &math);
    prepare_limiter(&mut lim, sr, 1, &math);
    let mut sp = spatializer(0.5, SpatialMode::Hrtf);
    prepare_spatializer(&mut sp, bits(44_100.0), &math, &wide);
    assert!(!sp.hrtf_loaded());
}

/// A stage that doubles every sample.
struct Doubling;

impl AudioProcessor for Doubling {
    fn prepare(&mut self, _rate: u32, _channels: usize) {}

    fn process(&mut self, buffer: &mut Vec<u32>, _channels: usize) {
        for b in buffer.iter_mut() {
            *b = bits(f32::from_bits(*b) * 2.0);
        }
    }

    fn set_params(&mut self, _params: &EngineState) {}
}

#[test]
fn a_chain_without_power_passes_audio_through() {
    let mut chain: ProcessChain<Doubling> = ProcessChain::new();
    chain.push(Doubling);
    let heard = |chain: &mut ProcessChain<Doubling>| {
        let mut buffer = vec![1.0f32, -0.5];
        on_bits(&mut buffer, |b| chain.process(b, 2));
        buffer
    };
    assert_eq!(heard(&mut chain), [2.0, -1.0]);
    chain.set_params(&EngineState { power: false, ..EngineState::default() });
    assert_eq!(heard(&mut chain), [1.0, -0.5]);
    chain.set_params(&EngineState { power: true, ..EngineState::default() });
    assert_eq!(heard(&mut chain), [2.0, -1.0]);
}

#[test]
fn the_limiter_does_not_mind_how_audio_is_cut() {
    let rate = bits(48_000.0);
    let signal: Vec<u32> = (0..4000).map(|i| bits((i as f32 * 0.07).sin() * 1.9)).collect();
    let mut whole = new_limiter(rate, 2, &math);
    let mut at_once = signal.clone();
    whole.process(&mut at_once, 2, &math);
    let mut parts = new_limiter(rate, 2, &math);
    let mut cut: Vec<u32> = Vec::new();
    for piece in [&signal[..0], &signal[..1234], &signal[1234..1236], &signal[1236..]] {
        let mut block = piece.to_vec();
        parts.process(&mut block, 2, &math);
        cut.extend(block);
    }
    assert_eq!(at_once, cut);
    assert_ne!(at_once, signal);
}

#[test]
fn a_mono_block_is_compressed_as_each_side_of_a_pair() {
    let rate = bits(48_000.0);
    let state = CompanderState { enabled: true, ..CompanderState::default() };
    let made = || {
        let mut s = CompanderStage::new(rate, &math, &wide);
        s.set_params(&state, &math);
        s.stage
    };
    let (mut one, mut pair) = (made(), made());
    let (mut single, mut double) = (CompanderMeter::new(), CompanderMeter::new());
    let mut mono: Vec<u32> = (0..3000).map(|i| bits((i as f32 * 0.11).sin() * 0.9)).collect();
    let mut stereo: Vec<u32> = mono.iter().flat_map(|&x| [x, x]).collect();
    one.process(&mut mono, 1, &mut single, &math);
    pair.process(&mut stereo, 2, &mut double, &math);
    let doubled: Vec<u32> = mono.iter().flat_map(|&x| [x, x]).collect();
    assert_eq!(stereo, doubled);
    assert_eq!(single.load(), double.load());
}
