//! The mixer of apps, remote phones and stems.

use hypemuzik::platform::{
    basename, clamp_gain, default_controller, display_name, friendly_name, mute_set,
    running_audio_apps, sessions_of_app, volume_set, MacosSessionController, PlatformError,
    ProcessInfo, RawSession, SessionVolume, UnsupportedSessionController, WindowsSessionController,
};
use hypemuzik::encoding::JsonField;
use hypemuzik::remote::{
    bind_timeout_text, desktop_key, fresh_secret, keys_to_dial, known_desktop, pair_fields,
    pair_reply, pin_of, random_pin, read_pair_reply, stored_secret, waits_on, PairingDesk, Peers,
    RemotePeer, ALPN_LINK, ALPN_PAIR,
};
use hypemuzik::dsp::arith::Calc;
use hypemuzik::overlap::{pick_row, window_numbers, Overlap};
use hypemuzik::separation::{progress, separate};
use hypemuzik::stems::{
    cache_key, contract_of, interleave, model_input, models, parts, planar, start, stem_names,
    transition_window, Part, Start, StemError,
};

#[test]
fn friendly_name_strips_bundle_prefix() {
    assert_eq!(friendly_name("com.apple.Music"), "Music");
    assert_eq!(friendly_name("com.google.Chrome"), "Chrome");
    assert_eq!(friendly_name("Spotify"), "Spotify");
    assert_eq!(friendly_name("odd."), "odd.");
}

#[test]
fn enumeration_does_not_panic_and_remembers_intent() {
    let mut ctrl = MacosSessionController::new();
    let _ = ctrl.list_sessions(&Vec::new());
    ctrl.set_volume("com.example.app", 0.5f32.to_bits());
    ctrl.set_muted("com.example.app", true);
    let s = ctrl.desired("com.example.app");
    assert_eq!(f32::from_bits(s.volume), 0.5);
    assert!(s.muted);
    assert!(ctrl.supported());
}

#[test]
fn apps_are_listed_with_what_was_set() {
    let process = |running: Option<u32>, bundle: Option<&str>, pid: Option<i32>| ProcessInfo {
        running,
        bundle: bundle.map(String::from),
        pid,
    };
    let apps = running_audio_apps(&vec![
        process(Some(1), Some("com.apple.Music"), Some(5)),
        process(Some(0), Some("com.quiet"), Some(6)),
        process(None, Some("com.unknown"), Some(7)),
        process(Some(1), Some(""), Some(-8)),
        process(Some(1), None, None),
    ]);
    let ids: Vec<(&str, &str)> = apps.iter().map(|a| (a.id.as_str(), a.name.as_str())).collect();
    assert_eq!(
        ids,
        vec![("com.apple.Music", "Music"), ("pid:-8", "PID -8"), ("pid:0", "PID 0")]
    );
    let mut ctrl = MacosSessionController::new();
    ctrl.set_volume("pid:0", 7.0f32.to_bits());
    let list = ctrl.list_sessions(&apps);
    assert_eq!(f32::from_bits(list[2].volume), 1.0);
    assert_eq!(f32::from_bits(list[0].volume), 1.0);
    ctrl.set_volume("pid:0", (-1.0f32).to_bits());
    assert_eq!(ctrl.desired("pid:0").volume, 0);
    assert_eq!(clamp_gain(0.25f32.to_bits()), 0.25f32.to_bits());
}

#[test]
fn sessions_are_grouped_by_executable() {
    let session = |exe: Option<&str>, volume: Option<f32>| RawSession {
        exe: exe.map(String::from),
        level: volume.map(|v| SessionVolume { volume: Some(v.to_bits()), muted: Some(false) }),
    };
    let ctrl = WindowsSessionController::new();
    let list = ctrl.list_sessions(&vec![
        session(Some("C:\\Apps\\zoom.EXE"), Some(0.3)),
        session(Some("C:\\Apps\\Chrome.exe"), None),
        session(Some("D:/x/chrome.exe"), Some(0.7)),
        session(Some("C:\\Apps\\CHROME.exe"), Some(0.1)),
        session(None, Some(1.0)),
    ]);
    let got: Vec<(&str, &str, f32)> = list
        .iter()
        .map(|s| (s.id.as_str(), s.name.as_str(), f32::from_bits(s.volume)))
        .collect();
    assert_eq!(got, vec![("chrome.exe", "chrome", 0.7), ("zoom.exe", "zoom", 0.3)]);
    let exes = vec![Some("C:\\a\\Chrome.exe".to_string()), None, Some("chrome.EXE".to_string())];
    assert_eq!(sessions_of_app("chrome.exe", &exes), vec![0, 2]);
    assert_eq!(basename("a/b\\c.exe"), "c.exe");
    assert_eq!(display_name("C:\\Tool"), "Tool");
    assert!(ctrl.supported());
}

#[test]
fn failures_of_the_mixer_are_told() {
    assert!(volume_set(Ok(())).is_ok());
    assert_eq!(
        volume_set(Err("x".into())).unwrap_err().text(),
        "not supported on this platform: WASAPI set volume failed: x"
    );
    assert_eq!(
        mute_set(Err("x".into())).unwrap_err(),
        PlatformError::Unsupported("WASAPI set mute failed: x".into())
    );
    let none = UnsupportedSessionController::new("why");
    assert!(!none.supported() && none.list_sessions().is_empty());
    assert_eq!(none.unavailable_reason().as_deref(), Some("why"));
    assert_eq!(none.set_volume("a", 0), Err(PlatformError::Unsupported("why".into())));
    assert_eq!(none.set_muted("a", true), Err(PlatformError::Unsupported("why".into())));
    assert!(default_controller().unavailable_reason().unwrap().starts_with("Per-application"));
    assert_eq!(PlatformError::SessionNotFound("s".into()).text(), "audio session not found: s");
    assert_eq!(PlatformError::Os("s".into()).text(), "platform audio error: s");
}

#[test]
fn pins_have_six_digits() {
    assert_eq!(pin_of(&vec![0, 0, 7]), "000007");
    assert_eq!(pin_of(&vec![255, 255, 255]), "777215");
    let pins: Vec<String> = (0..20).map(|_| random_pin()).collect();
    assert!(pins.iter().all(|p| p.len() == 6 && p.chars().all(|c| c.is_ascii_digit())));
    assert!(pins.iter().any(|p| p != &pins[0]));
}

#[test]
fn a_pin_is_used_once_and_in_time() {
    let mut desk = PairingDesk::new();
    assert!(!desk.check_pin("123456", 0));
    let info = desk.start_pairing("endpoint", "123456", 100, 50);
    assert_eq!(info.qr, "hypemuzik://pair?ep=endpoint&pin=123456");
    assert_eq!((info.endpoint_id.as_str(), info.pin.as_str()), ("endpoint", "123456"));
    assert!(!desk.check_pin("000000", 110));
    assert!(!desk.check_pin("123456", 150));
    assert!(desk.check_pin("123456", 149));
    assert!(!desk.check_pin("123456", 120));
    desk.start_pairing("endpoint", "111111", 0, 10);
    desk.cancel_pairing();
    assert!(!desk.check_pin("111111", 1));
}

#[test]
fn phones_pair_again_and_are_forgotten() {
    let peer = |id: &str, token: &str| RemotePeer {
        id: id.into(),
        name: format!("Phone {id}"),
        token: token.into(),
    };
    let mut peers = Peers::load(None);
    peers.upsert_peer(peer("a", "1"));
    peers.upsert_peer(peer("b", "2"));
    peers.upsert_peer(peer("a", "3"));
    let got: Vec<(&str, &str)> =
        peers.list().iter().map(|p| (p.id.as_str(), p.token.as_str())).collect();
    assert_eq!(got, vec![("b", "2"), ("a", "3")]);
    let status = peers.remote_phones(&vec![None, Some(80)]);
    assert!(!status[0].online && status[1].online && status[1].port == Some(80));
    let connected = peers.connected(&vec![None, Some(80)]);
    assert_eq!((connected.len(), connected[0].id.as_str(), connected[0].port), (1, "a", 80));
    peers.forget("b");
    assert_eq!(peers.list().len(), 1);
}

#[test]
fn replies_and_keys_of_remote_phones() {
    let (yes, no) = (|| Ok(JsonField::Truth(true)), || Ok(JsonField::Truth(false)));
    let desk = || Ok(JsonField::Text("Desk".into()));
    let rejected = || Err("the desktop rejected the pairing code".to_string());
    assert_eq!(pair_reply(yes(), desk()), Ok("Desk".to_string()));
    assert_eq!(pair_reply(yes(), Ok(JsonField::Absent)), Ok("Desktop".to_string()));
    assert_eq!(pair_reply(yes(), Ok(JsonField::Number)), Ok("Desktop".to_string()));
    assert_eq!(pair_reply(no(), desk()), rejected());
    assert_eq!(pair_reply(Ok(JsonField::Absent), desk()), rejected());
    assert_eq!(pair_reply(Err("no JSON".into()), desk()), Err("no JSON".to_string()));
    assert_eq!(stored_secret(&vec![7; 32]), Some([7; 32]));
    assert_eq!(stored_secret(&vec![7; 31]), None);
    let key = fresh_secret().unwrap();
    assert_eq!(key.len(), 32);
    assert_ne!(key, vec![0; 32]);
    assert!(bind_timeout_text().contains("after 20s"));
    assert!(waits_on(0, false) && waits_on(59, false));
    assert!(!waits_on(60, false) && !waits_on(0, true));
    assert_ne!(ALPN_LINK, ALPN_PAIR);
}

#[test]
fn replies_are_read_from_their_bytes() {
    let read = |s: &str| read_pair_reply(s.as_bytes());
    assert_eq!(read(r#"{"accepted":true,"name":"Desk"}"#), Ok("Desk".to_string()));
    assert_eq!(read(r#"{"accepted":true}"#), Ok("Desktop".to_string()));
    assert_eq!(read(r#"{"accepted":true,"name":[]}"#), Ok("Desktop".to_string()));
    let rejected = || Err("the desktop rejected the pairing code".to_string());
    for s in [r#"{"accepted":false,"name":"Desk"}"#, r#"{"accepted":1}"#, "{}", "null", "3", r#""a""#] {
        assert_eq!(read(s), rejected(), "{s}");
    }
    assert!(read(r#"{"accepted":{},"name":null}"#).is_err());
    let broken = read("{").unwrap_err();
    assert!(broken.contains("EOF"), "{broken}");
    let fields = pair_fields("Phone", "123456", "tok");
    let fields: Vec<(&str, &str)> = fields.iter().map(|(k, v)| (k.as_str(), v.as_str())).collect();
    assert_eq!(fields, [("name", "Phone"), ("pin", "123456"), ("token", "tok")]);
}

#[test]
fn ids_are_read_into_keys() {
    let public = |seed: u8| iroh::SecretKey::from_bytes(&[seed; 32]).public();
    let (a, b) = (public(3), public(4));
    assert_eq!(desktop_key(&a.to_string()), Ok(*a.as_bytes()));
    assert_eq!(desktop_key("nonsense"), Err("bad desktop id: invalid length".to_string()));
    assert_eq!(
        desktop_key(&"z".repeat(64)),
        Err("bad desktop id: failed to decode hex string".to_string())
    );
    assert_eq!(known_desktop(Ok([1; 32])), Ok([1; 32]));
    assert_eq!(known_desktop(Err("why".into())), Err("bad desktop id: why".to_string()));

    let ports = vec![None, Some(80), None];
    let keys = vec![Ok([1; 32]), Ok([2; 32]), Err("why".to_string())];
    assert_eq!(keys_to_dial(&ports, &keys), vec![[1; 32]]);

    let mut peers = Peers::load(None);
    for id in [a.to_string(), b.to_string(), "nonsense".to_string()] {
        peers.upsert_peer(RemotePeer { id, name: String::new(), token: String::new() });
    }
    assert_eq!(peers.to_dial(&vec![Some(80), None, None]), vec![*b.as_bytes()]);
    assert_eq!(peers.to_dial(&vec![None, None, None]), vec![*a.as_bytes(), *b.as_bytes()]);
}

#[test]
fn unavailable_without_models() {
    assert_eq!(start(false, false, false, 1), Err(StemError::Unavailable));
    assert_eq!(start(false, true, false, 1), Ok(Start::UseCache));
    assert_eq!(start(false, false, true, 0), Err(StemError::Engine("empty input".into())));
    assert_eq!(start(false, false, true, 1), Ok(Start::Run));
}

#[test]
fn cancelled_separation_aborts_without_doing_work() {
    assert_eq!(start(true, false, false, 1), Err(StemError::Aborted));
    assert_eq!(start(true, true, true, 1), Err(StemError::Aborted));
    let runs = |_: usize, _: &Vec<u32>| -> Result<Vec<u32>, StemError> { panic!("a model ran") };
    let shows = |_: u32| panic!("progress was shown");
    let track = vec![0u32; 8];
    assert_eq!(
        separate(&track, 8, &runs, &|_, _| true, &shows, &math),
        Err(StemError::Aborted)
    );
}

#[test]
fn cache_key_is_stable_and_sanitized() {
    let k = cache_key(Some("My Song (2024)!"), 0, 0);
    assert!(k.starts_with("My_Song__2024__"));
    assert!(!k.contains('/') && !k.contains(' '));
    assert_eq!(k, "My_Song__2024__-0-0");
    assert_eq!(cache_key(None, 12, 34), "track-12-34");
    assert_eq!(cache_key(Some(&"x".repeat(60)), 1, 2).len(), 48 + 4);
    assert_ne!(cache_key(Some("a"), 1, 23), cache_key(Some("a"), 12, 3));
}

#[test]
fn transition_window_is_trapezoidal() {
    let w: Vec<f32> =
        transition_window(8).iter().map(|x| x.num as f32 / x.den as f32).collect();
    assert_eq!(w.len(), 8);
    assert_eq!(w[0], 0.0);
    assert_eq!(w[7], 0.0);
    assert_eq!(w[3], 1.0);
    assert_eq!(w[4], 1.0);
    assert!(w.iter().all(|&x| (0.0..=1.0).contains(&x)));
    assert!(transition_window(3).iter().all(|x| x.num == x.den));
}

#[test]
fn model_table_maps_rows_to_distinct_slots() {
    let all = models();
    let mut slots: Vec<usize> = all.iter().map(|m| m.slot).collect();
    slots.sort_unstable();
    assert_eq!(slots, vec![0, 1, 2, 3]);
    assert_eq!(
        (all[0].file.as_str(), all[0].row, all[0].slot),
        ("htdemucs_ft_vocals.onnx", 3, 0)
    );
    assert_eq!(stem_names(), vec!["vocals", "drums", "bass", "other"]);
}

#[test]
fn parts_overlap_and_cover_the_track() {
    let p = parts(20, 8);
    let got: Vec<(usize, usize)> = p.iter().map(|p| (p.offset, p.take)).collect();
    assert_eq!(got, vec![(0, 8), (6, 8), (12, 8), (18, 2)]);
    assert!(parts(0, 8).is_empty());
    let (l, r) = planar(&vec![1, 2, 3, 4, 5, 6]);
    assert_eq!((l.clone(), r.clone()), (vec![1, 3, 5], vec![2, 4, 6]));
    assert_eq!(interleave(&l, &r), vec![1, 2, 3, 4, 5, 6]);
    assert_eq!(
        model_input(&l, &r, Part { offset: 1, take: 2 }, 3),
        vec![3, 5, 0, 4, 6, 0]
    );
}

fn math(c: Calc, a: u32, b: u32) -> u32 {
    let (x, y) = (f32::from_bits(a), f32::from_bits(b));
    let v = match c {
        Calc::Add => x + y,
        Calc::Mul => x * y,
        Calc::Div => x / y,
        Calc::Whole => a as f32,
        other => panic!("stems do not need {other:?}"),
    };
    v.to_bits()
}

#[test]
fn overlapping_parts_add_up_to_the_track() {
    let bits = |v: &[f32]| v.iter().map(|x| x.to_bits()).collect::<Vec<u32>>();
    let left: Vec<f32> = (0..20).map(|i| i as f32 * 0.25).collect();
    let right: Vec<f32> = (0..20).map(|i| -(i as f32)).collect();
    let window = window_numbers(8, &math);
    assert_eq!(window, bits(&[0.0, 1.0, 1.0, 1.0, 1.0, 1.0, 1.0, 0.0]));
    let mut mix = Overlap::new(20);
    for part in parts(20, 8) {
        let stem = model_input(&bits(&left), &bits(&right), part, 8);
        mix.add_part(2, part, &stem, &window, &math);
        mix.add_weights(part, &window, &math);
    }
    let got = mix.finish(2, &math);
    for i in 1..19 {
        assert_eq!(f32::from_bits(got[2 * i]), left[i], "frame {i}");
        assert_eq!(f32::from_bits(got[2 * i + 1]), right[i], "frame {i}");
    }
    assert_eq!((got[0], got[1]), (0, 0), "the first frame has no weight");
    assert!(mix.finish(0, &math).iter().all(|&b| b == 0), "other stems are silent");
}

#[test]
fn a_track_is_separated_by_all_models() {
    let track: Vec<f32> = (0..40).map(|i| i as f32 * 0.25 - 4.0).collect();
    let mix: Vec<u32> = track.iter().map(|x| x.to_bits()).collect();
    // The model with a number multiplies by it.
    let run = |i: usize, x: &Vec<u32>| -> Result<Vec<u32>, StemError> {
        Ok(x.iter().map(|&b| (f32::from_bits(b) * i as f32).to_bits()).collect())
    };
    let shown = std::cell::RefCell::new(Vec::new());
    let report = |v: u32| shown.borrow_mut().push(f32::from_bits(v));
    let stems = separate(&mix, 8, &run, &|_, _| false, &report, &math).unwrap();
    assert_eq!(stems.len(), 4);
    for (i, stem) in stems.iter().enumerate() {
        assert_eq!(stem.len(), mix.len());
        for k in 2..38 {
            assert_eq!(f32::from_bits(stem[k]), track[k] * i as f32, "stem {i}, sample {k}");
        }
    }
    let shown = shown.into_inner();
    assert_eq!(shown.len(), parts(20, 8).len());
    assert_eq!(shown[0], 0.02 + 1.0 / shown.len() as f32 * 0.96);
    assert_eq!(progress(1, 2, &math), (0.02f32 + 0.5 * 0.96).to_bits());

    let asked = std::cell::RefCell::new(Vec::new());
    let stop = |part: usize, model: usize| {
        asked.borrow_mut().push((part, model));
        part == 1 && model == 1
    };
    assert_eq!(separate(&mix, 8, &run, &stop, &|_| {}, &math), Err(StemError::Aborted));
    assert_eq!(
        asked.into_inner(),
        vec![(0, 0), (0, 1), (0, 2), (0, 3), (1, 0), (1, 1)],
        "the question comes before every run"
    );
    let fails = |i: usize, x: &Vec<u32>| -> Result<Vec<u32>, StemError> {
        if i == 2 { Err(StemError::Engine("bass".into())) } else { Ok(x.clone()) }
    };
    assert_eq!(
        separate(&mix, 8, &fails, &|_, _| false, &|_| {}, &math),
        Err(StemError::Engine("bass".into()))
    );
}

#[test]
fn models_yield_the_row_they_are_trusted_for() {
    let all: Vec<u32> = (0..16).collect();
    assert_eq!(pick_row(&all, 0, 2), Some(vec![0, 1, 2, 3]));
    assert_eq!(pick_row(&all, 3, 2), Some(vec![12, 13, 14, 15]));
    assert_eq!(pick_row(&all[..15].to_vec(), 3, 2), None);
}

#[test]
fn descriptions_of_models_have_defaults() {
    let c = contract_of(None, None, None);
    assert_eq!((c.input.as_str(), c.output.as_str(), c.segment), ("mix", "stems", 343_980));
    let c = contract_of(Some("i".into()), Some("o".into()), Some(0));
    assert_eq!((c.input.as_str(), c.output.as_str(), c.segment), ("i", "o", 1));
    assert_eq!(StemError::Unavailable.text(), "the stem models aren't installed yet (run scripts/get_stems_model.sh)");
    assert_eq!(StemError::Engine("x".into()).text(), "stem engine error: x");
    assert_eq!(StemError::Io("x".into()).text(), "io error: x");
    assert_eq!(StemError::Aborted.text(), "stem separation aborted");
}
