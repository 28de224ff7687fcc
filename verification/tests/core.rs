//! Parameters, presets, stores and imports.

use hypemuzik::apo_ids::{
    Guid, APO_REGKEY, CLSID_GUID, CLSID_REGKEY, CLSID_STR, DISABLE_PROTECTED_AUDIO_DG_KEY,
    FX_PROPERTIES_PKEY,
};
use hypemuzik::apo_ipc::{
    apply_pod, check_after_copy, check_before_copy, read_seqlock, write_seqlock, EngineParamsPod,
    ReadStep, SeqlockCell,
};
use hypemuzik::autoeq_db::{self, AutoEqEntry};
use hypemuzik::chain_presets::{ChainPreset, ChainPresetStore};
use hypemuzik::ddc_library::{self, BundledDdc};
use hypemuzik::dsp::arith::Calc;
use hypemuzik::error::{AppInfo, HmError, IpcError};
use hypemuzik::graphic_eq_import::{
    interpolate_to_iso_bands as interpolate, parse_graphic_eq, place_of, recommended_preamp, Place,
};
use hypemuzik::headphones;
use hypemuzik::license::{LicenseError, LicenseStatus};
use hypemuzik::media_store::{
    available, count_available, directories, new_playlist, page, page_bounds, renamed_rows,
    PlaylistItems, PlaylistRow,
};
use hypemuzik::presets::{
    band_place, builtin_curves, builtins, curve, iso_bits, iso_centers, BandPlace,
};
use hypemuzik::store::{
    changed_rows, check_delete, check_update, custom_preset, no_preset, to_preset,
};
use hypemuzik::types::{
    BassBoostState, CompanderState, ConvolverState, EngineState, HeadphoneProfile, LibraryTrack,
    MeterFrame, SaturationState, ScriptState, SpatialMode, BAND_COUNT,
};
use hypemuzik::vdc_import::{
    cascade_response_db, parse_vdc, vdc_to_iso_bands as vdc_bands, VdcCurve,
};
use hypemuzik::wide::Wide;

fn f(v: f32) -> u32 {
    v.to_bits()
}

fn v(bits: u32) -> f32 {
    f32::from_bits(bits)
}

#[test]
fn clsid_string_and_guid_agree() {
    assert_eq!(CLSID_STR, "{7B1C4A20-9D3E-4E8A-9F2C-11AA22BB33CC}");
    assert_eq!(Guid(CLSID_GUID).to_u128(), 0x7B1C4A20_9D3E_4E8A_9F2C_11AA22BB33CC);
}

#[test]
fn registry_paths_are_hklm_relative_and_stable() {
    assert_eq!(
        CLSID_REGKEY,
        "SOFTWARE\\Classes\\CLSID\\{7B1C4A20-9D3E-4E8A-9F2C-11AA22BB33CC}"
    );
    assert!(APO_REGKEY.ends_with(CLSID_STR));
    assert_eq!(
        DISABLE_PROTECTED_AUDIO_DG_KEY,
        "SOFTWARE\\Microsoft\\Windows\\CurrentVersion\\Audio"
    );
    assert_eq!(FX_PROPERTIES_PKEY, "{d04e05a6-594b-4fb6-a80d-01af5eed7d1d}");
}

#[test]
fn pod_roundtrips_through_engine_state() {
    let mut st = EngineState::default();
    st.power = true;
    st.master_volume = f(0.75);
    st.eq.enabled = true;
    st.eq.pre_gain = f(-3.0);
    st.eq.bands[0] = f(6.0);
    let pod = EngineParamsPod::from_state(&st, true);
    let mut back = EngineState::default();
    apply_pod(&pod, &mut back);
    assert!(back.power);
    assert!((v(back.master_volume) - 0.75).abs() < 1e-6);
    assert!(back.eq.enabled);
    assert!((v(back.eq.pre_gain) + 3.0).abs() < 1e-6);
    assert!((v(back.eq.bands[0]) - 6.0).abs() < 1e-6);
}

#[test]
fn seqlock_reads_last_consistent_write() {
    let mut cell = SeqlockCell::zeroed();
    let a = EngineParamsPod::from_state(&EngineState::default(), true);
    write_seqlock(&mut cell, &a);
    assert_eq!(cell.version % 2, 0, "version must be left even after a completed write");
    let got = read_seqlock(&cell).expect("a write happened, so a read must succeed");
    assert_eq!(got.active, 1);
}

#[test]
fn seqlock_none_before_first_write() {
    let cell = SeqlockCell::zeroed();
    assert!(read_seqlock(&cell).is_none());
}

#[test]
fn seqlock_second_write_replaces_first() {
    let mut cell = SeqlockCell::zeroed();
    let mut st = EngineState::default();
    st.eq.bands[3] = f(2.0);
    write_seqlock(&mut cell, &EngineParamsPod::from_state(&st, true));

    st.eq.bands[3] = f(-5.0);
    st.master_volume = f(0.4);
    write_seqlock(&mut cell, &EngineParamsPod::from_state(&st, true));

    let got = read_seqlock(&cell).expect("written twice");
    assert!((v(got.eq_bands[3]) + 5.0).abs() < 1e-6);
    assert!((v(got.master_volume) - 0.4).abs() < 1e-6);
}

#[test]
fn apply_pod_covers_every_carried_stage() {
    let mut st = EngineState::default();
    st.bass.enabled = true;
    st.bass.amount = f(4.5);
    st.bass.harmonics = true;
    st.bass.adaptive = true;
    st.spatializer.enabled = true;
    st.spatializer.amount = f(0.6);
    st.spatializer.mode = SpatialMode::Hrtf;
    st.surround3d.enabled = true;
    st.surround3d.intensity = f(0.7);
    st.surround3d.subwoofer = f(0.2);
    st.surround3d.speakers.side_l = false;
    st.surround3d.speakers.surround_r = false;
    st.room.enabled = true;
    st.room.room_size = f(0.8);
    st.room.decay = f(0.6);
    st.room.damping = f(0.3);
    st.room.pre_delay = f(20.0);
    st.room.diffusion = f(0.9);
    st.room.wet_dry = f(0.5);
    st.output.gain_db = f(3.0);
    st.output.limiter_enabled = false;
    st.output.ceiling_db = f(-1.0);

    let pod = EngineParamsPod::from_state(&st, true);
    let mut back = EngineState::default();
    apply_pod(&pod, &mut back);

    assert_eq!(back.bass, st.bass);
    assert_eq!(back.spatializer, st.spatializer);
    assert_eq!(back.surround3d, st.surround3d);
    assert_eq!(back.room.enabled, st.room.enabled);
    assert_eq!(back.room.room_size, st.room.room_size);
    assert_eq!(back.room.decay, st.room.decay);
    assert_eq!(back.room.damping, st.room.damping);
    assert_eq!(back.room.pre_delay, st.room.pre_delay);
    assert_eq!(back.room.diffusion, st.room.diffusion);
    assert_eq!(back.room.wet_dry, st.room.wet_dry);
    assert_eq!(back.output.gain_db, st.output.gain_db);
    assert_eq!(back.output.limiter_enabled, st.output.limiter_enabled);
    assert_eq!(back.output.ceiling_db, st.output.ceiling_db);
}

#[test]
fn pod_is_plain_old_data() {
    fn assert_copy<T: Copy>() {}
    assert_copy::<EngineParamsPod>();
    assert!(std::mem::size_of::<EngineParamsPod>() < 512);
}

#[test]
fn a_written_cell_is_read_at_every_version() {
    let mut first = EngineParamsPod::zero();
    first.eq_bands[0] = 7;
    for version in [0, 1, 2, 3, u32::MAX - 3, u32::MAX - 2, u32::MAX - 1, u32::MAX] {
        let mut cell = SeqlockCell { version, payload: EngineParamsPod::zero() };
        write_seqlock(&mut cell, &first);
        assert!(cell.version != 0 && cell.version % 2 == 0, "behind {version}");
        assert_eq!(read_seqlock(&cell).map(|p| p.eq_bands[0]), Some(7), "behind {version}");
        write_seqlock(&mut cell, &EngineParamsPod::zero());
        assert_eq!(read_seqlock(&cell).map(|p| p.eq_bands[0]), Some(0));
    }
    assert!(read_seqlock(&SeqlockCell::zeroed()).is_none());
}

#[test]
fn a_write_under_way_is_noticed() {
    assert_eq!(check_before_copy(0), Some(ReadStep::Never));
    assert_eq!(check_before_copy(3), Some(ReadStep::Retry));
    assert_eq!(check_before_copy(4), None);
    assert_eq!(check_after_copy(4, 4), ReadStep::Snapshot);
    assert_eq!(check_after_copy(4, 5), ReadStep::Retry);
}

fn entry(name: &str) -> AutoEqEntry {
    AutoEqEntry {
        name: name.to_string(),
        source: "oratory1990".to_string(),
        url: format!("https://example.com/{}", name.replace(' ', "%20")),
    }
}

fn index() -> Vec<AutoEqEntry> {
    let mut all: Vec<AutoEqEntry> = (0..3100).map(|i| entry(&format!("Generic Model {i}"))).collect();
    for name in [
        "Sennheiser HD 600 (2020)",
        "Sennheiser HD 600",
        "Sennheiser HD 650",
        "Sony WH-1000XM4",
        "Apple AirPods Pro",
        "Moondrop Aria",
    ] {
        all.push(entry(name));
    }
    all
}

#[test]
fn index_parses_and_is_substantial() {
    let all = index();
    let n = autoeq_db::len(&all);
    assert!(n > 3000, "index should hold thousands (got {n})");
    assert!(!autoeq_db::is_empty(&all));
}

#[test]
fn finds_known_models() {
    let all = index();
    for needle in ["Sennheiser HD 600", "Sony WH-1000XM4", "AirPods Pro", "Moondrop Aria"] {
        let hits = autoeq_db::search(&all, needle, 10);
        assert!(!hits.is_empty(), "expected at least one hit for {needle:?}");
        let name = needle.to_lowercase();
        let top = hits[0].name.to_lowercase();
        for term in name.split_whitespace() {
            assert!(
                top.contains(term),
                "top hit {:?} for {needle:?} is missing term {term:?}",
                hits[0].name
            );
        }
        assert!(hits[0].url.starts_with("https://"));
    }
}

#[test]
fn empty_query_returns_empty() {
    let all = index();
    assert!(autoeq_db::search(&all, "", 50).is_empty());
    assert!(autoeq_db::search(&all, "   ", 50).is_empty());
}

#[test]
fn limit_is_respected() {
    let all = index();
    let hits = autoeq_db::search(&all, "e", 5);
    assert_eq!(hits.len(), 5);
    assert!(autoeq_db::search(&all, "hd", 0).is_empty());
}

#[test]
fn exact_match_outranks_substring() {
    let all = index();
    let hits = autoeq_db::search(&all, "Sennheiser HD 600", 20);
    let exact = hits
        .iter()
        .position(|e| e.name == "Sennheiser HD 600")
        .expect("exact HD 600 present");
    let variant = hits.iter().position(|e| e.name.contains("HD 600 (2020)"));
    if let Some(v) = variant {
        assert!(exact < v, "exact match should rank before the (2020) variant");
    }
    assert_eq!((exact, variant), (0, Some(1)));
}

#[test]
fn all_terms_must_match() {
    let all = index();
    assert!(autoeq_db::search(&all, "sennheiser zzqqxx", 50).is_empty());
    assert!(!autoeq_db::search(&all, "sennheiser hd", 50).is_empty());
}

fn pack() -> Vec<BundledDdc> {
    (0..520)
        .map(|i| BundledDdc {
            name: format!("Preset {i}"),
            vdc: format!("SR_44100:1,0,0,0,0\nSR_48000:{},0,0,0,0", i + 1),
        })
        .collect()
}

#[test]
fn library_is_substantial() {
    let all = pack();
    let n = ddc_library::len(&all);
    assert!(n > 500, "expected the full pack, got {n}");
    assert!(!ddc_library::is_empty(&all));
}

#[test]
fn every_bundled_preset_resolves_to_finite_bands() {
    let all = pack();
    for name in ddc_library::names(&all) {
        let body = ddc_library::get(&all, &name).expect("listed name must resolve");
        assert!(body.contains("SR_"), "{name} has no SR_ line");
        let bands = vdc_to_iso_bands(body).unwrap_or_else(|e| panic!("{name} failed to import: {e}"));
        assert!(bands.iter().all(|g| g.is_finite()), "{name} produced non-finite bands");
    }
}

#[test]
fn unknown_name_is_none() {
    assert!(ddc_library::get(&pack(), "definitely not a real preset name ~~~").is_none());
}

#[test]
fn names_are_unique() {
    let mut all = ddc_library::names(&pack());
    let total = all.len();
    all.sort();
    all.dedup();
    assert_eq!(all.len(), total, "bundled preset names must be unique");
}

fn chain_state(volume: f32) -> EngineState {
    let mut st = EngineState::default();
    st.master_volume = f(volume);
    st
}

#[test]
fn save_then_list_roundtrips() {
    let mut store = ChainPresetStore::open(None);
    store.save("Warm", chain_state(1.0), 1000).unwrap();
    store.save("Punch", chain_state(1.5), 1001).unwrap();
    let list = store.list();
    assert_eq!(list.len(), 2);
    assert_eq!(list[0].name, "Warm");
    assert_eq!(list[1].name, "Punch");
    assert_eq!(list[0].state.master_volume, f(1.0));
    assert_eq!(list[1].state.master_volume, f(1.5));
}

#[test]
fn delete_removes() {
    let mut store = ChainPresetStore::open(None);
    let p1 = store.save("Keep", EngineState::default(), 5).unwrap();
    let p2 = store.save("Remove", EngineState::default(), 5).unwrap();
    store.delete(&p2).unwrap();
    let list = store.list();
    assert_eq!(list.len(), 1);
    assert_eq!(list[0].id, p1);
    assert_eq!(list[0].name, "Keep");
    match store.delete(&p2) {
        Err(HmError::NotFound(what)) => assert_eq!(what, format!("chain preset {p2}")),
        other => panic!("expected an error, got {other:?}"),
    }
}

#[test]
fn list_empty_when_absent() {
    let store = ChainPresetStore::open(None);
    assert!(store.list().is_empty());
}

#[test]
fn upsert_imported_assigns_fresh_id() {
    let mut store = ChainPresetStore::open(None);
    let existing = store.save("Existing", EngineState::default(), 7).unwrap();
    let import = ChainPreset {
        id: existing.clone(),
        name: "Imported".to_string(),
        state: EngineState::default(),
    };
    let stored = store.upsert_imported(import, 7);
    assert_ne!(stored, existing);
    let list = store.list();
    assert_eq!(list.len(), 2);
    let ids: Vec<&str> = list.iter().map(|p| p.id.as_str()).collect();
    assert_eq!(ids.len(), 2);
    assert_ne!(ids[0], ids[1]);
}

#[test]
fn a_taken_id_is_not_given_again() {
    let taken = ChainPreset {
        id: "71".to_string(),
        name: "Older".to_string(),
        state: EngineState::default(),
    };
    let mut store = ChainPresetStore::open(Some(vec![taken]));
    assert_eq!(store.save("Newer", EngineState::default(), 7).unwrap(), "72");
    assert_eq!(store.save("Newest", EngineState::default(), 7).unwrap(), "73");
    store.delete("72").unwrap();
    assert_eq!(store.save("Again", EngineState::default(), 7).unwrap(), "72");
}

#[test]
fn persists_across_reopen() {
    let mut store = ChainPresetStore::open(None);
    store.save("Persistent", EngineState::default(), 9).unwrap();
    let mut kept: Vec<ChainPreset> = Vec::new();
    for p in store.list() {
        kept.push(ChainPreset {
            id: p.id.clone(),
            name: p.name.clone(),
            state: EngineState::default(),
        });
    }
    let store2 = ChainPresetStore::open(Some(kept));
    assert_eq!(store2.list().len(), 1);
    assert_eq!(store2.list()[0].name, "Persistent");
}

#[test]
fn unique_ids_on_rapid_save() {
    let mut store = ChainPresetStore::open(None);
    store.save("A", EngineState::default(), 3).unwrap();
    store.save("B", EngineState::default(), 3).unwrap();
    store.save("C", EngineState::default(), 3).unwrap();
    let list = store.list();
    assert_eq!(list.len(), 3);
    let mut ids: Vec<&str> = list.iter().map(|p| p.id.as_str()).collect();
    ids.sort_unstable();
    ids.dedup();
    assert_eq!(ids.len(), 3, "all three ids must be distinct");
    assert!(matches!(
        store.save("  ", EngineState::default(), 3),
        Err(HmError::Invalid(_))
    ));
}

/// Reads a curve with the numbers of this machine.
fn curve_of(input: &str) -> Result<Vec<(f32, f32)>, String> {
    let number = |t: &str| t.parse::<f32>().map(f).map_err(|e| e.to_string());
    Ok(parse_graphic_eq(input, &number)?.into_iter().map(|(a, b)| (v(a), v(b))).collect())
}

fn centers() -> [f32; BAND_COUNT] {
    iso_centers().map(|t| t as f32 / 10.0)
}

fn math(c: Calc, a: u32, b: u32) -> u32 {
    let (x, y) = (v(a), v(b));
    f(match c {
        Calc::Add => x + y,
        Calc::Sub => x - y,
        Calc::Mul => x * y,
        Calc::Div => x / y,
        Calc::Log10 => x.log10(),
        Calc::Round => x.round(),
        Calc::Whole => a as f32,
        other => panic!("a curve does not need {other:?}"),
    })
}

fn wide(c: Wide, a: u64, b: u64) -> u64 {
    let (x, y) = (f64::from_bits(a), f64::from_bits(b));
    let r = match c {
        Wide::Add => x + y,
        Wide::Sub => x - y,
        Wide::Mul => x * y,
        Wide::Div => x / y,
        Wide::Sin => x.sin(),
        Wide::Cos => x.cos(),
        Wide::Sqrt => x.sqrt(),
        Wide::Log10 => x.log10(),
        Wide::Widen => v(a as u32) as f64,
        Wide::Narrow => return f(x as f32) as u64,
        other => panic!("a correction does not need {other:?}"),
    };
    r.to_bits()
}

fn interpolate_to_iso_bands(curve: &[(f32, f32)]) -> [f32; BAND_COUNT] {
    let bits: Vec<(u32, u32)> = curve.iter().map(|&(a, b)| (f(a), f(b))).collect();
    interpolate(&bits, &math).map(v)
}

#[test]
fn bands_have_the_gain_of_their_place() {
    let bands = interpolate_to_iso_bands(&[(100.0, 2.0), (1000.0, 4.0), (1000.0, 8.0)]);
    assert_eq!(bands[7], 2.0);
    assert_eq!(bands[0], 2.0);
    let t = (315.0f32.log10() - 100.0f32.log10()) / (1000.0f32.log10() - 100.0f32.log10());
    assert_eq!(bands[12], 2.0 + 2.0 * t);
    assert_eq!(bands[17], 8.0);
    assert_eq!(interpolate_to_iso_bands(&[]), [0.0; BAND_COUNT]);
    assert_eq!(iso_bits().map(v), centers());
    let points = vec![(f(100.0), 0), (f(1000.0), 0), (f(4000.0), 0)];
    assert_eq!(place_of(&points, f(100.0)), Place::First);
    assert_eq!(place_of(&points, f(1000.0)), Place::Between(0));
    assert_eq!(place_of(&points, f(1001.0)), Place::Between(1));
    assert_eq!(place_of(&points, f(4000.0)), Place::Last);
    assert_eq!(place_of(&Vec::new(), f(1.0)), Place::Nowhere);
}

fn preamp(bands: &[f32; BAND_COUNT]) -> f32 {
    v(recommended_preamp(&bands.map(f)))
}

#[test]
fn parses_labeled_and_unlabeled() {
    let a = curve_of("GraphicEQ: 20 -1.0; 1000 0.0; 20000 -3.0").unwrap();
    let b = curve_of("20 -1.0; 1000 0.0; 20000 -3.0").unwrap();
    assert_eq!(a, b);
    assert_eq!(a.len(), 3);
    assert_eq!(a[1], (1000.0, 0.0));
}

#[test]
fn graphic_eq_import_rejects_malformed() {
    assert!(curve_of("").is_err());
    assert!(curve_of("GraphicEQ: ").is_err());
    assert!(curve_of("100 ; 200 1").is_err());
}

#[test]
fn faults_of_a_curve_are_told() {
    assert_eq!(curve_of("").unwrap_err(), "no (freq, gain) points found");
    assert_eq!(curve_of("100 ; 200 1").unwrap_err(), "missing gain in '100'");
    assert!(curve_of("abc 1").unwrap_err().starts_with("bad frequency 'abc 1': "));
    assert!(curve_of("100 x").unwrap_err().starts_with("bad gain '100 x': "));
    let sorted = curve_of("300 1; 100 2; 200 3").unwrap();
    assert_eq!(sorted, vec![(100.0, 2.0), (200.0, 3.0), (300.0, 1.0)]);
}

#[test]
fn interpolation_hits_exact_points() {
    let idx = centers().iter().position(|&f| (f - 1000.0).abs() < 0.5).unwrap();
    let curve = vec![(20.0, 0.0), (1000.0, 6.0), (20000.0, 0.0)];
    let bands = interpolate_to_iso_bands(&curve);
    assert!((bands[idx] - 6.0).abs() < 1e-3, "got {}", bands[idx]);
}

#[test]
fn preamp_is_clip_proof() {
    let curve = vec![(20.0, 3.0), (1000.0, 9.0), (20000.0, -2.0)];
    let bands = interpolate_to_iso_bands(&curve);
    let pre = preamp(&bands);
    let peak = bands.iter().cloned().fold(f32::NEG_INFINITY, f32::max);
    assert!(peak + pre <= 1e-4, "peak {peak} + preamp {pre} must be <= 0");
    assert_eq!(pre, -peak);
}

#[test]
fn preamp_zero_when_no_positive_gain() {
    let bands = [-3.0f32; BAND_COUNT];
    assert_eq!(preamp(&bands), 0.0);
}

#[test]
fn single_point_curve_clamps_all_bands() {
    let bands = interpolate_to_iso_bands(&[(1000.0, 4.0)]);
    assert!(
        bands.iter().all(|&g| (g - 4.0).abs() < 1e-4),
        "all bands should be 4.0 dB, got {bands:?}"
    );
}

/// Reads a correction with the numbers of this machine.
fn vdc_of(input: &str) -> Result<VdcCurve, String> {
    let number = |t: &str| t.parse::<f64>().map(f64::to_bits).map_err(|e| e.to_string());
    parse_vdc(input, &number, &|rate| format!("{}", f64::from_bits(rate)))
}

fn sections(c: &VdcCurve) -> Vec<[f64; 5]> {
    c.biquads.iter().map(|b| b.map(f64::from_bits)).collect()
}

fn response_db(biquads: &[[f64; 5]], sample_rate: f64, freq_hz: f64) -> f64 {
    let w = 2.0 * std::f64::consts::PI * freq_hz / sample_rate;
    let z1 = Complex { re: w.cos(), im: -w.sin() };
    let z2 = Complex { re: (2.0 * w).cos(), im: -(2.0 * w).sin() };
    let mut h = Complex { re: 1.0, im: 0.0 };
    for &[b0, b1, b2, a1, a2] in biquads {
        let num = Complex { re: b0, im: 0.0 } + z1 * b1 + z2 * b2;
        let den = Complex { re: 1.0, im: 0.0 } + z1 * a1 + z2 * a2;
        h = h * num / den;
    }
    20.0 * h.norm().max(1e-12).log10()
}

use realfft::num_complex::Complex;

fn vdc_to_iso_bands(input: &str) -> Result<[f32; BAND_COUNT], String> {
    Ok(vdc_bands(&vdc_of(input)?, &wide).map(v))
}

#[test]
fn responses_are_those_of_the_filters() {
    let vdc = "SR_44100:1.02,-1.9,0.91,1.9,-0.93,0.98,-1.7,0.8,1.7,-0.78";
    let c = vdc_of(vdc).unwrap();
    let s = sections(&c);
    for (got, at) in vdc_to_iso_bands(vdc).unwrap().iter().zip(centers()) {
        let want = response_db(&s, 44_100.0, at as f64);
        assert!((*got as f64 - want).abs() < 1e-4, "{at}: {got} for {want}");
    }
}

#[test]
fn a_pole_is_deeply_attenuated() {
    let c = VdcCurve {
        sample_rate: 80f64.to_bits(),
        biquads: vec![[1f64, 0.0, 0.0, 0.0, 1.0].map(f64::to_bits)],
    };
    let db = cascade_response_db(&c.biquads, c.sample_rate, 20f64.to_bits(), &wide);
    assert_eq!(f64::from_bits(db), f64::NEG_INFINITY);
    assert_eq!(vdc_bands(&c, &wide).map(v)[0], -120.0);
}

#[test]
fn identity_biquad_is_flat_zero_db() {
    let c = vdc_of("SR_48000:1,0,0,0,0").unwrap();
    assert_eq!(f64::from_bits(c.sample_rate), 48_000.0);
    assert_eq!(c.biquads.len(), 1);
    let bands = vdc_to_iso_bands("SR_48000:1,0,0,0,0").unwrap();
    assert!(bands.iter().all(|&g| g.abs() < 1e-4), "got {bands:?}");
}

#[test]
fn pure_gain_biquad_is_flat_gain() {
    let bands = vdc_to_iso_bands("SR_44100:2,0,0,0,0").unwrap();
    let expect = 20.0 * 2.0_f32.log10();
    assert!(
        bands.iter().all(|&g| (g - expect).abs() < 1e-3),
        "expected {expect} dB, got {bands:?}"
    );
}

#[test]
fn prefers_44100_then_48000() {
    let body = "SR_48000:2,0,0,0,0\nSR_44100:4,0,0,0,0\nSR_96000:8,0,0,0,0";
    let c = vdc_of(body).unwrap();
    assert_eq!(f64::from_bits(c.sample_rate), 44_100.0);
    assert_eq!(sections(&c)[0][0], 4.0);
}

#[test]
fn falls_back_to_first_when_no_preferred_rate() {
    let c = vdc_of("SR_96000:1,0,0,0,0\nSR_88200:1,0,0,0,0").unwrap();
    assert_eq!(f64::from_bits(c.sample_rate), 96_000.0);
}

#[test]
fn vdc_import_rejects_malformed() {
    assert!(vdc_of("").is_err());
    assert!(vdc_of("SR_48000:").is_err());
    assert!(vdc_of("SR_48000:1,0,0,0").is_err());
    assert!(vdc_of("SR_48000:1,0,oops,0,0").is_err());
}

#[test]
fn parses_scientific_notation_and_multiple_sections() {
    let c = vdc_of("SR_44100:1,0,0,0,0,1.0,-5.2E-14,0,0,0").unwrap();
    assert_eq!(c.biquads.len(), 2);
    assert!((sections(&c)[1][1] - -5.2e-14).abs() < 1e-20);
}

#[test]
fn feedback_terms_change_their_sign() {
    let c = vdc_of("SR_44100:1,2,3,4,-5").unwrap();
    assert_eq!(sections(&c), vec![[1.0, 2.0, 3.0, -4.0, 5.0]]);
}

#[test]
fn real_world_section_yields_finite_bounded_response() {
    let vdc = "SR_44100:0.998734355950096,-1.99282366314795,0.994268042195585,1.99282366314795,-0.993002398145681";
    let bands = vdc_to_iso_bands(vdc).unwrap();
    assert!(bands.iter().all(|g| g.is_finite()), "got {bands:?}");
    assert!(
        bands.iter().all(|&g| g.abs() < 24.0),
        "a single gentle peaking section shouldn't exceed 24 dB: {bands:?}"
    );
}

fn bands_of(id: &str) -> Vec<f32> {
    builtins(&math).into_iter().find(|p| p.id == id).unwrap().bands.map(v).to_vec()
}

#[test]
fn bands_of_presets_are_rounded_to_tenths() {
    let rock = builtin_curves().into_iter().find(|p| p.id == "builtin:rock").unwrap();
    let bands = bands_of("builtin:rock");
    assert_eq!(bands, curve(&rock.anchors, &math).map(v).to_vec());
    for (band, &c) in bands.iter().zip(iso_centers().iter()) {
        let want = match band_place(&rock.anchors, c) {
            BandPlace::Gain(g) => g as f32 / 10.0,
            BandPlace::Between(j) => {
                let (f0, g0) = rock.anchors[j];
                let (f1, g1) = rock.anchors[j + 1];
                let l = |f: f32| f.log10();
                let t = (l(c as f32 / 10.0) - l(f0 as f32)) / (l(f1 as f32) - l(f0 as f32));
                (g0 as f32 + (g1 - g0) as f32 * t).round() / 10.0
            }
        };
        assert_eq!(*band, want);
    }
    assert_eq!((bands[0], bands[30]), (5.0, 5.0));
}

#[test]
fn flat_preset_is_all_zero() {
    let flat = &builtins(&math)[0];
    assert_eq!(flat.id, "builtin:flat");
    assert!(flat.bands.iter().all(|&b| v(b) == 0.0));
}

#[test]
fn bass_boost_lifts_lows_not_highs() {
    let bands = bands_of("builtin:bass-boost");
    assert!(bands[0] > 4.0, "expected strong low boost");
    assert!(bands[30].abs() < 0.5, "highs should be untouched");
    assert_eq!(bands[0], 7.0);
}

#[test]
fn seeds_builtins_on_open() {
    let all = builtins(&math);
    assert!(all.len() >= 10, "expected the built-in genre presets");
    assert_eq!(all[0].id, "builtin:flat", "Flat should sort first");
    assert!(all.iter().all(|p| p.id.starts_with("builtin:")));
    assert!(all.iter().all(|p| p.builtin));
}

#[test]
fn builtin_presets_are_marked_and_bounded() {
    let all = builtins(&math);
    assert_eq!(all.len(), 12);
    for (i, p) in all.iter().enumerate() {
        assert!(all[..i].iter().all(|q| q.id != p.id), "{} comes twice", p.id);
        assert!(p.builtin && p.pre_gain == 0, "{}", p.id);
        assert!(p.bands.iter().all(|&b| (-6.0..=7.0).contains(&v(b))), "{}", p.id);
    }
    assert_eq!((all[11].id.as_str(), all[11].name.as_str()), ("builtin:podcast", "Podcast"));
    assert_eq!((v(all[11].bands[0]), v(all[11].bands[30])), (-6.0, -2.0));
}

#[test]
fn custom_preset_crud_roundtrip() {
    let mut bands = [0u32; 31];
    bands[10] = f(5.0);
    let saved = custom_preset("My Preset", bands, f(-2.0), 1_700_000_000_000_000_000).unwrap();
    assert!(saved.id.starts_with("custom:"));
    assert_eq!(saved.id, "custom:1700000000000000000");
    assert!(!saved.builtin);

    let row = saved.bands.to_vec();
    let fetched = to_preset(saved.id.clone(), saved.name.clone(), 0, &row, saved.pre_gain).unwrap();
    assert_eq!(v(fetched.bands[10]), 5.0);
    assert_eq!(v(fetched.pre_gain), -2.0);

    assert!(check_update(fetched.builtin, &fetched.id).is_ok());
    assert!(changed_rows(1, &fetched.id).is_ok());
    assert!(check_delete(&fetched.id).is_ok());
    assert!(matches!(no_preset(&saved.id), HmError::NotFound(_)));
}

#[test]
fn builtins_cannot_be_deleted_or_edited() {
    match check_delete("builtin:flat") {
        Err(HmError::Invalid(why)) => assert_eq!(why, "built-in presets cannot be deleted"),
        other => panic!("got {other:?}"),
    }
    match check_update(true, "builtin:flat") {
        Err(HmError::Invalid(why)) => assert_eq!(why, "built-in presets cannot be edited"),
        other => panic!("got {other:?}"),
    }
    assert!(check_update(true, "custom:1").is_err());
    assert!(check_update(false, "builtin:x").is_err());
}

#[test]
fn faults_of_the_preset_store() {
    assert!(matches!(custom_preset(" \t", [0; 31], 0, 1), Err(HmError::Invalid(_))));
    match changed_rows(0, "custom:9") {
        Err(HmError::NotFound(what)) => assert_eq!(what, "custom preset custom:9"),
        other => panic!("got {other:?}"),
    }
    match to_preset("x".into(), "n".into(), 1, &vec![0; 30], 0) {
        Err(HmError::Invalid(why)) => assert_eq!(why, "preset x has the wrong band count"),
        other => panic!("got {other:?}"),
    }
}

fn track(path: &str, title: &str) -> LibraryTrack {
    LibraryTrack {
        path: path.into(),
        title: title.into(),
        artist: Some("Artist".into()),
        album: None,
        genre: None,
        duration_secs: Some(123.0f64.to_bits()),
    }
}

#[test]
fn page_hides_unreachable_files() {
    let rows = vec![
        track("/no/such/drive/Music/gone.mp3", "aaa gone"),
        track("/here/present.mp3", "bbb present"),
        track("bare.mp3", "ccc bare"),
        track("/here/two.mp3", "ddd two"),
    ];
    let parents: Vec<Option<String>> = vec![
        Some("/no/such/drive/Music".into()),
        Some("/here".into()),
        None,
        Some("/here".into()),
    ];
    let dirs = directories(&parents);
    assert_eq!(dirs, vec!["/no/such/drive/Music", "/here"]);
    let up = available(&parents, &dirs, &vec![false, true]);
    assert_eq!(up, vec![false, true, true, true]);

    let p = page(&rows, &up);
    assert_eq!(p.scanned, 4, "all rows are scanned");
    assert_eq!(
        p.tracks.iter().map(|t| t.title.as_str()).collect::<Vec<_>>(),
        ["bbb present", "ccc bare", "ddd two"],
        "the unreachable track is hidden",
    );
    let first = page(&vec![rows[0].clone()], &vec![false]);
    assert_eq!(first.scanned, 1);
    assert!(first.tracks.is_empty(), "the page held only the gone track");
    assert_eq!(count_available(&up), 3);
    let bare = vec![Some(String::new())];
    assert!(directories(&bare).is_empty());
    assert_eq!(available(&bare, &Vec::new(), &Vec::new()), vec![true]);
    assert_eq!(page_bounds(-5, -5), (0, 0));
    assert_eq!(page_bounds(-5, 100), (0, 100));
    assert_eq!(page_bounds(7, 3), (7, 3));
}

#[test]
fn playlist_lifecycle() {
    let pl = new_playlist("  Favourites ", 42).unwrap();
    assert_eq!((pl.id.as_str(), pl.name.as_str()), ("pl:42", "Favourites"));
    let mut items = PlaylistItems::load(Vec::new());
    assert_eq!(items.add_to_playlist("/a.flac"), Some(0));
    assert_eq!(items.add_to_playlist("/b.mp3"), Some(1));
    assert_eq!(items.add_to_playlist("/a.flac"), None);
    assert_eq!(items.rows().len(), 2);

    items.reorder_playlist(&vec!["/b.mp3".to_string(), "/a.flac".to_string()]);
    assert_eq!(items.rows()[0].path, "/b.mp3");

    items.remove_from_playlist("/b.mp3");
    assert_eq!(items.rows().len(), 1);
    assert_eq!(items.rows()[0], PlaylistRow { position: 1, path: "/a.flac".into() });
    assert_eq!(items.add_to_playlist("/c.ogg"), Some(2));
    assert!(items.has("/c.ogg") && !items.has("/b.mp3"));
}

#[test]
fn faults_of_the_media_store() {
    match new_playlist("   ", 1) {
        Err(HmError::Invalid(why)) => assert_eq!(why, "playlist name is empty"),
        other => panic!("got {other:?}"),
    }
    match renamed_rows(0, "pl:7") {
        Err(HmError::NotFound(what)) => assert_eq!(what, "playlist pl:7"),
        other => panic!("got {other:?}"),
    }
    assert!(renamed_rows(1, "pl:7").is_ok());
}

#[test]
fn bass_boost_default_adaptive_is_false() {
    let b = BassBoostState::default();
    assert!(!b.adaptive);
    assert!(!EngineState::default().bass.adaptive);
}

#[test]
fn convolver_default_is_disabled_and_empty() {
    let c = ConvolverState::default();
    assert!(!c.enabled);
    assert_eq!(v(c.wet_dry), 1.0);
    assert_eq!(v(c.ir_gain_db), 0.0);
    assert!(c.ir_id.is_none());
    assert!(!c.ir_truncated);
    assert!(!EngineState::default().convolver.enabled);
}

#[test]
fn compander_default_is_disabled_with_mastering_defaults() {
    let c = CompanderState::default();
    assert!(!c.enabled);
    assert_eq!(v(c.threshold_db), -18.0);
    assert_eq!(v(c.ratio), 2.5);
    assert_eq!(v(c.knee_db), 8.0);
    assert_eq!(v(c.attack_ms), 15.0);
    assert_eq!(v(c.release_ms), 45.0);
    assert_eq!(v(c.makeup_db), 0.0);
    assert_eq!(v(c.gate_db), -70.0);
    assert_eq!(v(c.expander_ratio), 2.0);
    assert!(!EngineState::default().compander.enabled);
}

#[test]
fn saturation_default_is_disabled() {
    let s = SaturationState::default();
    assert!(!s.enabled);
    assert_eq!(v(s.drive), 0.3);
    assert_eq!(v(s.mix), 1.0);
    assert!(!EngineState::default().saturation.enabled);
}

#[test]
fn script_default_is_disabled_empty() {
    let s = ScriptState::default();
    assert!(!s.enabled);
    assert!(s.source.is_empty());
    assert!(!EngineState::default().script.enabled);
}

#[test]
fn errors_keep_their_words() {
    for (e, code, text) in [
        (HmError::NotFound("a".into()), "not_found", "not found: a"),
        (HmError::Invalid("b".into()), "invalid", "invalid input: b"),
        (HmError::Storage("c".into()), "storage", "storage error: c"),
        (HmError::Serde("d".into()), "serde", "serialization error: d"),
    ] {
        let ipc = IpcError::of(&e);
        assert_eq!((ipc.code.as_str(), ipc.message.as_str()), (code, text));
    }
    assert_eq!(IpcError::new("c", "m"), IpcError { code: "c".into(), message: "m".into() });
    let app = AppInfo::current("HypeMuzik", "1.2.3");
    assert_eq!((app.name.as_str(), app.version.as_str()), ("HypeMuzik", "1.2.3"));
    assert_eq!(MeterFrame::default().peak, [0, 0]);
    assert_ne!(LicenseStatus::Trial { days_left: 3 }, LicenseStatus::Licensed);
    assert_eq!(LicenseError::InvalidKey.text(), "invalid license key");
    assert_eq!(LicenseError::Storage("x".into()).text(), "license storage error: x");
}

#[test]
fn the_first_profile_with_an_id_is_found() {
    let p = |id: &str, brand: &str| HeadphoneProfile {
        id: id.into(),
        brand: brand.into(),
        model: "M".into(),
        preamp: 0,
        bands: Vec::new(),
    };
    let all = vec![p("a", "One"), p("b", "Two"), p("b", "Three")];
    assert_eq!(headphones::get(&all, "b").unwrap().brand, "Two");
    assert!(headphones::get(&all, "c").is_none());
}

#[test]
fn a_search_does_not_mind_case_and_white_space() {
    let all = index();
    let names = |query: &str, limit: usize| -> Vec<String> {
        autoeq_db::search(&all, query, limit).into_iter().map(|e| e.name).collect()
    };
    assert_eq!(names("sennheiser hd", 20), names("  SENNHEISER Hd\t\n", 20));
    let many = names("model", 50);
    assert_eq!(many.len(), 50);
    for few in [0, 1, 7, 50] {
        assert_eq!(names("model", few), many[..few]);
    }
    assert_eq!(names("hd 6", 2), names("hd 6", 20)[..2]);
}

#[test]
fn pages_cover_the_library() {
    let rows: Vec<LibraryTrack> = (0..11).map(|i| track("bare.mp3", &format!("{i:02}"))).collect();
    let up: Vec<bool> = (0..11).map(|i| i % 3 != 1 && !(4..8).contains(&i)).collect();
    let whole = page(&rows, &up);
    for limit in 1..13usize {
        let mut shown = Vec::new();
        let mut offset: usize = 0;
        while offset < rows.len() {
            let end = rows.len().min(offset + limit);
            let p = page(&rows[offset..end].to_vec(), &up[offset..end].to_vec());
            shown.extend(p.tracks.into_iter().map(|t| t.title));
            offset += p.scanned as usize;
        }
        assert_eq!(offset, 11);
        assert_eq!(shown, whole.tracks.iter().map(|t| t.title.clone()).collect::<Vec<_>>());
    }
}
