//! Phones on the network.

use base64::engine::general_purpose::STANDARD;
use base64::Engine;
use hypemuzik::bonjour::{parse_txt_quoted, watch, Sightings};
use hypemuzik::encoding::{base64, hex, png_data_uri, random_hex};
use hypemuzik::link::{
    best_host, device_name, discovered, ip_host, located, parse_phone, player_host,
    player_properties, sanitize_ext, Address, Artwork, LinkState, Paired, PhoneDevice, PhoneTrack, Ping, Reply, ServiceRecord,
};

fn empty() -> LinkState {
    LinkState::load("me".to_string(), Vec::new()).0
}

fn paired(id: &str, host: &str, port: u16, token: &str) -> Paired {
    Paired {
        id: id.into(),
        name: "Phone".into(),
        host: host.into(),
        port,
        token: token.into(),
    }
}

fn answer<T>(status: u16, body: Result<T, String>) -> Reply<T> {
    Reply::Answer { status, status_text: format!("{status} Some Text"), body }
}

#[test]
fn self_id_is_generated_and_persists_across_loads() {
    let (first, fresh) = LinkState::load(String::new(), Vec::new());
    let id = first.self_id();
    assert!(fresh);
    assert!(!id.is_empty(), "a self id should be generated");
    assert_eq!(id.len(), 32);
    let (second, fresh) = LinkState::load(id.clone(), Vec::new());
    assert!(!fresh);
    assert_eq!(second.self_id(), id, "self id must persist across loads");
    assert_ne!(LinkState::load(String::new(), Vec::new()).0.self_id(), id);
}

#[test]
fn pairing_is_stored_streamable_and_revocable() {
    let mut link = empty();
    link.remember(Paired {
        id: "phone1".into(),
        name: "iPhone".into(),
        host: "192.168.1.5".into(),
        port: 8080,
        token: "tok123".into(),
    });

    let paired = link.paired();
    assert_eq!(paired.len(), 1);
    assert_eq!(paired[0].id, "phone1");
    assert_eq!(paired[0].host, "192.168.1.5");

    let (url, headers) = link.stream_target("phone1", "42", "mp3").unwrap();
    assert_eq!(url, "http://192.168.1.5:8080/stream/42.mp3");
    assert_eq!(
        headers,
        vec![("Authorization".to_string(), "Bearer tok123".to_string())]
    );

    assert!(link.stream_target("nope", "1", "mp3").is_err(), "unknown device must error");

    link.unpair("phone1");
    assert!(link.paired().is_empty(), "unpair must remove the device");
}

#[test]
fn remember_replaces_an_existing_pairing() {
    let mut link = empty();
    for token in ["old", "new"] {
        link.remember(paired("p", "10.0.0.2", 9000, token));
    }
    assert_eq!(link.paired().len(), 1, "re-pairing must not duplicate");
    let (_, headers) = link.stream_target("p", "1", "flac").unwrap();
    assert_eq!(headers[0].1, "Bearer new", "token should be the latest");
}

#[test]
fn discovery_refreshes_a_paired_phones_changed_address() {
    let mut link = empty();
    link.remember(paired("p", "192.168.1.5", 8080, "t"));
    assert!(link.update_addresses(&[PhoneDevice {
        id: "p".into(),
        name: "Phone".into(),
        host: "192.168.1.99".into(),
        port: 9000,
    }]));
    let (url, _) = link.stream_target("p", "1", "mp3").unwrap();
    assert_eq!(url, "http://192.168.1.99:9000/stream/1.mp3");

    assert!(!link.update_addresses(&[PhoneDevice {
        id: "stranger".into(),
        name: "X".into(),
        host: "10.0.0.1".into(),
        port: 1,
    }]));
    assert_eq!(link.paired().len(), 1);
}

#[test]
fn token_resolution_authenticates_and_streams_casts() {
    let mut link = empty();
    link.remember(paired("p", "10.0.0.9", 7000, "abc"));

    assert!(link.is_known_token("abc"));
    assert!(!link.is_known_token("nope"));
    assert!(!link.is_known_token(""), "empty token is never known");

    let (url, headers) = link.stream_target_for_token("abc", "12", "mp3").unwrap();
    assert_eq!(url, "http://10.0.0.9:7000/stream/12.mp3");
    assert_eq!(headers[0].1, "Bearer abc");
    assert!(link.stream_target_for_token("nope", "12", "mp3").is_none());
    assert!(link.stream_target_for_token("", "12", "mp3").is_none());
}

#[test]
fn sanitize_ext_only_allows_known_audio_extensions() {
    assert_eq!(sanitize_ext("mp3"), ".mp3");
    assert_eq!(sanitize_ext(".FLAC"), ".flac");
    assert_eq!(sanitize_ext("m4a"), ".m4a");
    assert_eq!(sanitize_ext("exe"), "");
    assert_eq!(sanitize_ext(""), "");
}

#[test]
fn ipv6_hosts_are_bracketed() {
    let v4 = Address { text: "192.168.1.9".into(), v4: true };
    let v6 = Address { text: "fe80::1".into(), v4: false };
    assert_eq!(ip_host(&v4), "192.168.1.9");
    assert_eq!(ip_host(&v6), "[fe80::1]");
}

#[test]
fn phones_are_reached_at_ipv4_addresses_first() {
    let address = |text: &str, v4: bool| Address { text: text.into(), v4 };
    let both = vec![address("fe80::1", false), address("10.0.0.7", true)];
    assert_eq!(best_host(&both).as_deref(), Some("10.0.0.7"));
    assert_eq!(best_host(&vec![address("fe80::1", false)]).as_deref(), Some("[fe80::1]"));
    assert!(best_host(&Vec::new()).is_none());
    let phone = || PhoneDevice { id: "p".into(), name: "P".into(), host: "p.local".into(), port: 1 };
    assert_eq!(located(phone(), &both).host, "10.0.0.7");
    assert_eq!(located(phone(), &Vec::new()), phone());
}

#[test]
fn a_pairing_request_names_this_desktop() {
    let fields = empty().pair_fields("123456", "Desk");
    let fields: Vec<(&str, &str)> = fields.iter().map(|(k, v)| (k.as_str(), v.as_str())).collect();
    assert_eq!(fields, [("pin", "123456"), ("deviceId", "me"), ("deviceName", "Desk")]);
}

#[test]
fn a_phone_that_answers_is_paired() {
    let mut link = empty();
    let d = link.pair("1.2.3.4", 80, "Phone", "p", answer(200, Ok("tok".to_string()))).unwrap();
    assert_eq!((d.id.as_str(), d.port), ("p", 80));
    assert!(link.is_known_token("tok"));
    let refused = link.pair("1.2.3.4", 80, "Phone", "q", answer(403, Ok(String::new())));
    assert!(refused.is_err());
    let away = link.pair("1.2.3.4", 80, "Phone", "q", Reply::Unreachable("no route".into()));
    assert!(away.unwrap_err().contains("no route"));
    assert_eq!(link.paired().len(), 1);
    let ping = Ping { id: String::new(), name: "P".into() };
    let d = link.pair_by_address("5.6.7.8", 90, answer(200, Ok(ping))).unwrap();
    assert_eq!((d.host.as_str(), d.port), ("5.6.7.8", 90));
    assert!(!d.id.is_empty());
}

#[test]
fn media_of_a_paired_phone_is_read() {
    let mut link = empty();
    link.remember(paired("p", "h", 1, "t"));
    let art = Artwork { content_type: Some("image/png".into()), bytes: b"foo".to_vec() };
    assert_eq!(
        link.artwork_data_uri("p", answer(200, Ok(art))).as_deref(),
        Some("data:image/png;base64,Zm9v")
    );
    let art = Artwork { content_type: None, bytes: b"foo".to_vec() };
    assert_eq!(link.artwork_data_uri("q", answer(200, Ok(art))), None);
    assert_eq!(link.lyrics("p", answer(200, Ok("la".to_string()))).as_deref(), Some("la"));
    assert_eq!(link.lyrics("p", answer(404, Ok("la".to_string()))), None);
    let track = PhoneTrack {
        id: "9".into(),
        title: "T".into(),
        artist: Some("Artist".into()),
        album: None,
        duration_ms: Some(1000),
        ext: "m4a".into(),
        folder: Some("Rock".into()),
        has_art: true,
    };
    assert_eq!(link.library("p", answer(200, Ok(vec![track]))).unwrap().len(), 1);
    assert!(link.library("p", answer(500, Ok(Vec::new()))).is_err());
    assert_eq!(link.library("q", answer(200, Ok(Vec::new()))).unwrap_err(), "device not paired");
    let (url, token) = link.target("p", "/library").unwrap();
    assert_eq!((url.as_str(), token.as_str()), ("http://h:1/library", "t"));
}

#[test]
fn records_of_phones_are_read() {
    let mut record = ServiceRecord {
        fullname: "My Phone._hypemuzik._tcp.local.".into(),
        role: Some("source".into()),
        id: Some("abc".into()),
        name: Some("My Phone".into()),
        addresses: vec![
            Address { text: "fe80::1".into(), v4: false },
            Address { text: "10.0.0.7".into(), v4: true },
        ],
        port: 4000,
    };
    let d = parse_phone(&record).unwrap();
    assert_eq!((d.id.as_str(), d.host.as_str(), d.port), ("abc", "10.0.0.7", 4000));
    record.role = Some("player".into());
    assert!(parse_phone(&record).is_none());
    let dev = |id: &str, name: &str, port: u16| PhoneDevice {
        id: id.into(),
        name: name.into(),
        host: "h".into(),
        port,
    };
    let found = discovered(&vec![dev("1", "zed", 1), dev("2", "Ann", 1), dev("1", "zed", 2)]);
    let names: Vec<(&str, u16)> = found.iter().map(|d| (d.name.as_str(), d.port)).collect();
    assert_eq!(names, vec![("Ann", 1), ("zed", 2)]);
}

#[test]
fn the_desktop_introduces_itself() {
    assert!(!device_name(None).is_empty());
    assert!(!player_properties("Desk", "id1").is_empty());
    assert!(player_host("id1").ends_with(".local."));
}

#[test]
fn quoted_pairs_are_read() {
    let pairs = parse_txt_quoted("\"role=source\" \"id=abc\" \"name=My Phone\"");
    assert!(pairs.contains(&("role".to_string(), "source".to_string())));
    assert!(pairs.contains(&("name".to_string(), "My Phone".to_string())));
    let mut seen = Sightings::new();
    assert!(watch(&mut seen, "not a record").is_none());
}

#[test]
fn base64_matches_rfc4648() {
    assert_eq!(base64(b""), "");
    assert_eq!(base64(b"f"), "Zg==");
    assert_eq!(base64(b"fo"), "Zm8=");
    assert_eq!(base64(b"foo"), "Zm9v");
    assert_eq!(base64(b"Man"), "TWFu");
    assert_eq!(base64(b"hello"), "aGVsbG8=");
    assert_eq!(base64(&[0u8, 255, 128]), "AP+A");
}

#[test]
fn base64_is_put_together_from_groups_and_read_back() {
    let data: Vec<u8> = (0..=255).chain(0..=9).collect();
    for n in [0, 1, 2, 3, 4, 5, 6, 100, 266] {
        let text = base64(&data[..n]);
        assert_eq!(STANDARD.decode(&text).unwrap(), &data[..n]);
        let padding = (3 - n % 3) % 3;
        assert!(text.ends_with(&"="[..padding.min(1)]));
        assert_eq!(text.matches('=').count(), padding);
        assert_eq!(text.trim_end_matches('=').len(), text.len() - padding);
        assert_eq!(base64(&data[..6]) + &text, base64(&[&data[..6], &data[..n]].concat()));
    }
}

#[test]
fn bytes_are_written_as_text() {
    assert_eq!(hex(&[0, 15, 255]), "000fff");
    assert_eq!(png_data_uri(b"foo"), "data:image/png;base64,Zm9v");
    let a = random_hex(16);
    assert_eq!(a.len(), 32);
    assert!(a.chars().all(|c| c.is_ascii_hexdigit()));
    assert_ne!(a, random_hex(16));
}
