//! The effects of a device together, with the arithmetic and the transforms of this machine.

use hypemuzik::dsp::arith::Calc;
use hypemuzik::dsp::bass::Gain;
use hypemuzik::dsp::chain::standard;
use hypemuzik::dsp::compander::CompanderMeter;
use hypemuzik::dsp::convolver::{CONV_BLOCK, CONV_FFT};
use hypemuzik::dsp::impulse::{ImpulseResponse, ImpulseStage};
use hypemuzik::dsp::rack::Rack;
use hypemuzik::dsp::stages::{
    new_limiter, new_spatializer, set_gain, set_limiter, set_spatializer, BassStage,
    CompanderStage, EqStage, HeadphoneStage, RoomStage, SurroundStage,
};
use hypemuzik::dsp::tuning::limiter_timing;
use hypemuzik::types::{ConvolverState, EngineState};
use hypemuzik::wide::Wide;
use realfft::num_complex::Complex;
use realfft::RealFftPlanner;

fn math(c: Calc, a: u32, b: u32) -> u32 {
    let (x, y) = (f32::from_bits(a), f32::from_bits(b));
    let v = match c {
        Calc::Add => x + y,
        Calc::Sub => x - y,
        Calc::Mul => x * y,
        Calc::Div => x / y,
        Calc::Tanh => x.tanh(),
        Calc::Exp => x.exp(),
        Calc::Power => (a as i32 - 127) as f32,
        Calc::Sin => x.sin(),
        Calc::Cos => x.cos(),
        Calc::Sqrt => x.sqrt(),
        Calc::Log10 => x.log10(),
        Calc::TenTo => 10f32.powf(x),
        Calc::Round => x.round(),
        Calc::Whole => a as f32,
        Calc::Count => return x as u32,
    };
    v.to_bits()
}

fn wide(c: Wide, a: u64, b: u64) -> u64 {
    let (x, y) = (f64::from_bits(a), f64::from_bits(b));
    let v = match c {
        Wide::Add => x + y,
        Wide::Sub => x - y,
        Wide::Mul => x * y,
        Wide::Div => x / y,
        Wide::Sin => x.sin(),
        Wide::Cos => x.cos(),
        Wide::Sqrt => x.sqrt(),
        Wide::Log10 => x.log10(),
        Wide::TenTo => 10f64.powf(x),
        Wide::Whole => a as f64,
        Wide::Widen => f32::from_bits(a as u32) as f64,
        Wide::Narrow => return (x as f32).to_bits() as u64,
    };
    v.to_bits()
}

fn bits(x: f32) -> u32 {
    x.to_bits()
}

fn forward(window: &Vec<u32>) -> Vec<(u32, u32)> {
    let fft = RealFftPlanner::<f32>::new().plan_fft_forward(CONV_FFT);
    let mut samples: Vec<f32> = window.iter().map(|&b| f32::from_bits(b)).collect();
    let mut spectrum = fft.make_output_vec();
    fft.process(&mut samples, &mut spectrum).unwrap();
    spectrum.iter().map(|c| (bits(c.re), bits(c.im))).collect()
}

fn back(bins: &Vec<(u32, u32)>) -> Vec<u32> {
    let fft = RealFftPlanner::<f32>::new().plan_fft_inverse(CONV_FFT);
    let mut sums: Vec<Complex<f32>> =
        bins.iter().map(|&(re, im)| Complex::new(f32::from_bits(re), f32::from_bits(im))).collect();
    let mut samples = vec![0.0f32; CONV_FFT];
    fft.process(&mut sums, &mut samples).unwrap();
    samples.iter().map(|&v| bits(v)).collect()
}

/// A response of one part that delays by `late` samples and multiplies by `factor`.
fn echo(late: usize, factor: f32) -> Vec<Vec<(u32, u32)>> {
    let mut part = vec![0u32; CONV_FFT];
    part[late] = bits(factor);
    vec![forward(&part)]
}

fn tone(n: usize, loud: f32) -> Vec<f32> {
    (0..n).map(|i| (i as f32 * 0.01).sin() * loud).collect()
}

fn through(buffer: &[f32], run: impl FnOnce(&mut Vec<u32>)) -> Vec<f32> {
    let mut block: Vec<u32> = buffer.iter().map(|&x| bits(x)).collect();
    run(&mut block);
    block.into_iter().map(f32::from_bits).collect()
}

fn rack(state: &EngineState) -> Rack {
    let rate = bits(48_000.0);
    let mut rack = Rack::new(rate, 2, &math, &wide);
    rack.prepare(rate, 2, &math, &wide);
    rack.set_params(state, &math, &wide);
    rack
}

#[test]
fn standard_chain_is_identity_when_all_off() {
    let mut state = EngineState::default();
    state.eq.enabled = false;
    state.power = true;
    let mut chain = rack(&state);
    assert!(standard().len() >= 8, "convolver should be in the standard chain");
    let original = tone(1024, 0.3);
    let buf = through(&original, |b| chain.process(b, 2, &forward, &back, &math));
    assert!(buf.iter().all(|&x| x.abs() <= 1.0));
    // Nothing but the limiter is on, which is late and leaves quiet audio alone.
    let late = limiter_timing(bits(48_000.0), &math).0 * 2;
    assert_eq!(buf[late..], original[..1024 - late]);
}

#[test]
fn idle_effects_leave_audio_alone() {
    let mut state = EngineState::default();
    state.eq.enabled = false;
    state.output.limiter_enabled = false;
    let mut chain = rack(&state);
    let original = tone(512, 3.0);
    assert_eq!(through(&original, |b| chain.process(b, 2, &forward, &back, &math)), original);
    assert_eq!(chain.meter.load(), [0; 10]);
}

fn loud_state() -> EngineState {
    let mut state = EngineState::default();
    state.eq.bands[5] = bits(6.0);
    state.eq.pre_gain = bits(-3.0);
    state.bass.enabled = true;
    state.bass.amount = bits(8.0);
    state.spatializer.enabled = true;
    state.spatializer.amount = bits(0.5);
    state.surround3d.enabled = true;
    state.surround3d.intensity = bits(0.6);
    state.room.enabled = true;
    state.room.wet_dry = bits(0.4);
    state.convolver.enabled = true;
    state.convolver.wet_dry = bits(0.5);
    state.compander.enabled = true;
    state.output.gain_db = bits(-2.0);
    state
}

#[test]
fn the_effects_run_one_behind_the_other() {
    let state = loud_state();
    let rate = bits(48_000.0);
    let response = || ImpulseResponse { channels: vec![echo(3, 0.5)] };
    let mut all = Rack::new(rate, 2, &math, &wide);
    all.convolver.set_response(response());
    all.set_params(&state, &math, &wide);
    let original = tone(1400, 0.8);
    let together = through(&original, |b| all.process(b, 2, &forward, &back, &math));

    let mut headphone = HeadphoneStage::new(rate, 2);
    headphone.set_params(&state.headphone, &math, &wide);
    let mut eq = EqStage::new(rate, 2, &wide);
    eq.set_params(&state.eq, &math, &wide);
    let mut bass = BassStage::new(rate, 2, &math, &wide);
    bass.set_params(&state.bass, &math, &wide);
    let mut spatializer = new_spatializer(rate, &math, &wide);
    set_spatializer(&mut spatializer, &state.spatializer);
    let mut surround = SurroundStage::new(rate, &math);
    surround.set_params(&state.surround3d, &math);
    let mut room = RoomStage::new(rate, &math);
    room.set_params(&state.room, &math);
    let mut convolver = ImpulseStage::new();
    convolver.set_response(response());
    convolver.set_params(&state.convolver, &math);
    let mut compander = CompanderStage::new(rate, &math, &wide);
    compander.set_params(&state.compander, &math);
    let mut meter = CompanderMeter::new();
    let mut gain = Gain::new();
    set_gain(&mut gain, &state.output, &math);
    let mut limiter = new_limiter(rate, 2, &math);
    set_limiter(&mut limiter, &state.output, &math);
    let one_by_one = through(&original, |b| {
        headphone.stage.process(b, 2, &math);
        eq.stage.process(b, 2, &math);
        bass.stage.process(b, 2, &math);
        spatializer.process(b, 2, &math);
        surround.stage.process(b, 2, &math);
        room.stage.process(b, 2, &math);
        convolver.process(b, 2, &forward, &back, &math);
        compander.stage.process(b, 2, &mut meter, &math);
        gain.process(b, &math);
        limiter.process(b, 2, &math);
    });
    assert_eq!(together, one_by_one);
    assert_eq!(all.meter.load(), meter.load());
    assert_ne!(together, original);
}

#[test]
fn a_rack_without_power_passes_audio_through() {
    let mut chain = rack(&EngineState { power: false, ..loud_state() });
    let original = tone(600, 0.8);
    assert_eq!(through(&original, |b| chain.process(b, 2, &forward, &back, &math)), original);
    chain.set_params(&loud_state(), &math, &wide);
    assert_ne!(through(&original, |b| chain.process(b, 2, &forward, &back, &math)), original);
}

#[test]
fn responses_are_mixed_in() {
    let mut stage = ImpulseStage::new();
    let on = |wet: f32, gain_db: f32| ConvolverState {
        enabled: true,
        wet_dry: bits(wet),
        ir_gain_db: bits(gain_db),
        ..ConvolverState::default()
    };
    let original: Vec<f32> = (0..2 * 700).map(|i| (i % 50) as f32 * 0.01).collect();
    // Without a response the stage passes audio through, and when it is off.
    stage.set_params(&on(1.0, 0.0), &math);
    assert_eq!(through(&original, |b| stage.process(b, 2, &forward, &back, &math)), original);
    stage.set_response(ImpulseResponse { channels: vec![echo(0, 1.0), echo(5, 0.5)] });
    stage.set_params(&ConvolverState { enabled: false, ..on(1.0, 0.0) }, &math);
    assert_eq!(through(&original, |b| stage.process(b, 2, &forward, &back, &math)), original);
    // Each channel runs through its own response, late by a block.
    stage.set_params(&on(1.0, 0.0), &math);
    let wet = through(&original, |b| stage.process(b, 2, &forward, &back, &math));
    for n in 0..700 {
        let want = |late: usize, c: usize| {
            if n < CONV_BLOCK + late {
                0.0
            } else {
                original[(n - CONV_BLOCK - late) * 2 + c]
            }
        };
        assert!((wet[2 * n] - want(0, 0)).abs() < 1e-4, "left sample {n}");
        assert!((wet[2 * n + 1] - want(5, 1) * 0.5).abs() < 1e-4, "right sample {n}");
    }
    // Half of the result and half of the signal, with the result a factor of ten down.
    stage.prepare();
    stage.set_params(&on(0.5, -20.0), &math);
    let half = through(&original, |b| stage.process(b, 2, &forward, &back, &math));
    for n in CONV_BLOCK..700 {
        let want = original[2 * n] * 0.5 + original[2 * (n - CONV_BLOCK)] * 0.05;
        assert!((half[2 * n] - want).abs() < 1e-4, "left sample {n}");
    }
    // Another number of channels starts anew, and the last response serves the others.
    let three = vec![0.25f32; 3 * 10];
    let out = through(&three, |b| stage.process(b, 3, &forward, &back, &math));
    assert!(out.iter().all(|&x| x == 0.125));
}

#[test]
fn the_effects_do_not_mind_how_audio_is_cut() {
    let made = || {
        let mut all = rack(&loud_state());
        all.convolver.set_response(ImpulseResponse { channels: vec![echo(3, 0.5), echo(9, 0.7)] });
        all
    };
    let original = tone(1600, 0.8);
    let mut whole = made();
    let at_once = through(&original, |b| whole.process(b, 2, &forward, &back, &math));
    let mut parts = made();
    let mut cut = Vec::new();
    for piece in [&original[..300], &original[300..302], &original[302..302], &original[302..]] {
        cut.extend(through(piece, |b| parts.process(b, 2, &forward, &back, &math)));
    }
    assert_eq!(at_once, cut);
}
