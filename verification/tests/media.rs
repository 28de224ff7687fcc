//! TV channels, radio stations and the TV player.

use hypemuzik::media::{MediaError, TransportProgress, TransportState};
use hypemuzik::radio::{
    by_country as radio_by_country, country_path, hosts, read_answer, search as radio_search,
    search_path, seed_filtered, to_station, urlencode, RbStation,
};
use hypemuzik::tv::{
    by_category, by_country, cache_path, categories, check_alive, fetched_text, index_url, is_alpha2,
    is_fresh, is_health_fresh, parse_extinf, parse_m3u, playlist_url, probe_headers, probe_is_alive,
    probe_workers, quality_from_name, record_probe, search, stored_text, TvHealthCache, HEALTH_TTL_NANOS, TTL_NANOS,
};
use hypemuzik::types::{RadioStation, TvChannel};
use hypemuzik::video::{build_args, is_running, ChildStatus, PlayRequest, VideoError};

fn chan(id: &str, url: &str) -> TvChannel {
    TvChannel {
        id: id.into(),
        name: id.into(),
        url: url.into(),
        logo: None,
        group: None,
        country: None,
        user_agent: None,
        referrer: None,
        quality: None,
    }
}

#[test]
fn a_200_that_is_not_a_playlist_is_not_alive() {
    assert!(!probe_is_alive(200, "<!doctype html><title>domain parked</title>", "text/html"));
}

#[test]
fn a_real_playlist_body_is_alive() {
    assert!(probe_is_alive(200, "#EXTM3U\n#EXT-X-STREAM-INF:...", "text/plain"));
}

#[test]
fn an_hls_content_type_is_alive_even_without_the_marker() {
    assert!(probe_is_alive(206, "\x00\x01binary", "application/vnd.apple.mpegurl"));
    assert!(probe_is_alive(200, "", "application/octet-stream"));
}

#[test]
fn a_non_2xx_is_dead_regardless_of_body() {
    assert!(!probe_is_alive(404, "#EXTM3U tricked you", "application/vnd.apple.mpegurl"));
    assert!(!probe_is_alive(403, "#EXTM3U", "application/vnd.apple.mpegurl"));
    assert!(!probe_is_alive(500, "#EXTM3U", "text/plain"));
}

#[test]
fn a_verdict_expires_after_the_ttl() {
    let now: u64 = 10 * HEALTH_TTL_NANOS;
    let old = now - HEALTH_TTL_NANOS - 1_000_000_000;
    assert!(is_health_fresh(now, now));
    assert!(!is_health_fresh(old, now));
}

#[test]
fn the_cache_serves_a_fresh_verdict_without_probing() {
    let mut cache = TvHealthCache::new();
    let now = 1_000;
    cache.store("http://alive/x.m3u8", true, now);
    cache.store("http://dead/y.m3u8", false, now);

    assert_eq!(cache.fresh("http://alive/x.m3u8", now), Some(true));
    assert_eq!(cache.fresh("http://dead/y.m3u8", now), Some(false));
    assert_eq!(cache.fresh("http://unknown/z.m3u8", now), None);

    let (live, todo) = check_alive(
        &[chan("a", "http://alive/x.m3u8"), chan("b", "http://dead/y.m3u8")],
        &cache,
        now,
    );
    assert_eq!(live, vec!["a".to_string()]);
    assert!(todo.is_empty(), "nothing is left to probe");
}

#[test]
fn verdicts_are_shared_by_url_across_ids() {
    let mut cache = TvHealthCache::new();
    cache.store("http://same/s.m3u8", true, 5);
    let (live, _) = check_alive(
        &[chan("id1", "http://same/s.m3u8"), chan("id2", "http://same/s.m3u8")],
        &cache,
        5,
    );
    assert_eq!(live.len(), 2, "both ids sharing the live url are alive");
}

#[test]
fn unknown_channels_are_probed_and_remembered() {
    let mut cache = TvHealthCache::new();
    let channels = [chan("a", "http://a"), chan("b", "http://b")];
    let (mut live, todo) = check_alive(&channels, &cache, 7);
    assert_eq!(todo, vec![0, 1]);
    assert_eq!(probe_workers(todo.len()), 2);
    assert_eq!(probe_workers(500), 16);
    record_probe(&channels[0], true, &mut cache, 8, &mut live);
    record_probe(&channels[1], false, &mut cache, 8, &mut live);
    assert_eq!(live, vec!["a".to_string()]);
    assert_eq!(cache.fresh("http://b", 9), Some(false));
    assert_eq!(cache.fresh("http://b", 8 + HEALTH_TTL_NANOS), None);
}

#[test]
fn categories_are_non_empty_and_slugged() {
    let c = categories();
    assert!(c.iter().any(|x| x.id == "news"));
    assert!(c.iter().all(|x| x.id.chars().all(|ch| ch.is_ascii_lowercase())));
}

#[test]
fn parses_a_full_entry_with_inline_and_vlcopt_headers() {
    let m3u = "#EXTM3U\n\
        #EXTINF:-1 tvg-id=\"1Plus1.ua@SD\" tvg-logo=\"https://l/logo.png\" \
        http-user-agent=\"Mozilla/5.0\" group-title=\"General;Music\",1+1 International (720p)\n\
        #EXTVLCOPT:http-referrer=https://ref.example/\n\
        http://host.example/stream.m3u8\n";
    let chans = parse_m3u(m3u, None);
    assert_eq!(chans.len(), 1);
    let c = &chans[0];
    assert_eq!(c.id, "1Plus1.ua@SD");
    assert_eq!(c.name, "1+1 International (720p)");
    assert_eq!(c.url, "http://host.example/stream.m3u8");
    assert_eq!(c.logo.as_deref(), Some("https://l/logo.png"));
    assert_eq!(c.group.as_deref(), Some("General"));
    assert_eq!(c.country.as_deref(), Some("UA"));
    assert_eq!(c.user_agent.as_deref(), Some("Mozilla/5.0"));
    assert_eq!(c.referrer.as_deref(), Some("https://ref.example/"));
    assert_eq!(c.quality.as_deref(), Some("720p"));
    assert!(probe_headers(c).contains(&("user-agent".to_string(), "Mozilla/5.0".to_string())));
}

#[test]
fn default_country_applies_when_id_has_none() {
    let m3u = "#EXTINF:-1 tvg-id=\"SomeChannel\" group-title=\"News\",Some Channel\n\
        https://host/stream.m3u8\n";
    let chans = parse_m3u(m3u, Some("UG"));
    assert_eq!(chans[0].country.as_deref(), Some("UG"));
}

#[test]
fn skips_entries_without_a_valid_url_and_malformed_lines() {
    let m3u = "#EXTM3U\n\
        #EXTINF:-1 tvg-id=\"A.us\",Channel A\n\
        not-a-url\n\
        #EXTINF:-1 tvg-id=\"B.us\",Channel B\n\
        https://ok/stream.m3u8\n\
        garbage line with no extinf\n";
    let chans = parse_m3u(m3u, None);
    assert_eq!(chans.len(), 1);
    assert_eq!(chans[0].name, "Channel B");
}

#[test]
fn id_falls_back_to_url_when_tvg_id_missing() {
    let m3u = "#EXTINF:-1 group-title=\"News\",No Id Channel\n\
        https://host/noid.m3u8\n";
    let chans = parse_m3u(m3u, None);
    assert_eq!(chans[0].id, "https://host/noid.m3u8");
}

#[test]
fn quality_parser_finds_resolution_or_nothing() {
    assert_eq!(quality_from_name("BBC One HD (1080p)").as_deref(), Some("1080p"));
    assert_eq!(quality_from_name("CNN (480p) [Not 24/7]").as_deref(), Some("480p"));
    assert_eq!(quality_from_name("Plain Channel").as_deref(), None);
}

#[test]
fn invalid_country_and_category_codes_return_empty_without_network() {
    assert!(by_country("zzz", None).is_empty());
    assert!(by_country("1", None).is_empty());
    assert!(by_category("", None).is_empty());
    let text = "#EXTINF:-1,X\nhttp://x\n";
    assert!(by_country("zzz", Some(text)).is_empty());
    assert!(by_category("", Some(text)).is_empty());
    assert_eq!(by_country(" Ug ", Some(text))[0].country.as_deref(), Some("UG"));
    assert_eq!(by_category("News", Some(text)).len(), 1);
}

#[test]
fn categories_have_all_their_channels() {
    let text: String = (0..700).map(|i| format!("#EXTINF:-1,C{i}\nhttp://x/{i}\n")).collect();
    let all = by_category("news", Some(&text));
    assert_eq!(all.len(), 700);
    assert_eq!(all[699].name, "C699");
    assert_eq!(search("", &all, &Vec::new()).len(), 600, "a search shows fewer");
}

#[test]
fn commas_inside_quotation_marks_belong_to_the_attributes() {
    let c = parse_extinf(
        "-1 http-user-agent=\"Mozilla/5.0 (KHTML, like Gecko)\" group-title=\"News\",BBC",
        None,
    );
    assert_eq!(c.name, "BBC");
    assert_eq!(c.user_agent.as_deref(), Some("Mozilla/5.0 (KHTML, like Gecko)"));
    assert_eq!(c.group.as_deref(), Some("News"));
    assert_eq!(parse_extinf("-1 tvg-id=\"a\",One, Two \"x\", Three", None).name, "One, Two \"x\", Three");
    assert_eq!(parse_extinf("-1 tvg-id=\"a,b\"", None).id, "a,b");
    let open = parse_extinf("-1 tvg-id=\"A.us,Ch A, HD", None);
    assert_eq!((open.id.as_str(), open.name.as_str()), ("", "Ch A, HD"));
    assert_eq!(parse_extinf("-1 tvg-id=\"A.us", None).name, "");
}

#[test]
fn searches_fall_back_to_the_bundled_channels() {
    let mut a = chan("a", "http://a");
    a.name = "Jazz One".into();
    let mut b = chan("b", "http://b");
    b.country = Some("UG".into());
    let seed = vec![a.clone(), b.clone()];
    assert_eq!(search("jazz", &Vec::new(), &seed).len(), 1);
    assert_eq!(search("", &Vec::new(), &seed).len(), 2);
    assert_eq!(search("zzz", &Vec::new(), &seed).len(), 0);
    assert_eq!(search("jazz", &vec![b], &vec![a]).len(), 0);
}

#[test]
fn stored_playlists_age() {
    assert!(is_fresh(Some(TTL_NANOS - 1)));
    assert!(!is_fresh(Some(TTL_NANOS)));
    assert!(!is_fresh(None));
    assert_eq!(stored_text(true, Some("x".into())), Some("x".to_string()));
    assert_eq!(stored_text(false, Some("x".into())), None);
    assert_eq!(fetched_text(None, Some("old".into())), Some("old".to_string()));
    assert_eq!(fetched_text(Some("new".into()), Some("old".into())), Some("new".to_string()));
    assert_eq!(cache_path("countries", "ug"), "tv/countries/ug.m3u");
    assert!(is_alpha2("ug") && !is_alpha2("ugx") && !is_alpha2("u1"));
}

fn station(name: &str, genre: Option<&str>, country: Option<&str>) -> RadioStation {
    RadioStation {
        id: name.into(),
        name: name.into(),
        url: "http://s".into(),
        genre: genre.map(String::from),
        country: country.map(String::from),
        favicon: None,
    }
}

fn raw(url: &str, resolved: Option<&str>, tags: Option<&str>) -> RbStation {
    RbStation {
        stationuuid: "u".into(),
        name: "N".into(),
        url_resolved: resolved.map(String::from),
        url: url.into(),
        tags: tags.map(String::from),
        country: Some(String::new()),
        favicon: Some("http://icon".into()),
    }
}

#[test]
fn seed_filter_matches_name() {
    let seed = vec![
        station("Radio Jazz", None, None),
        station("B", Some("Rock"), None),
        station("C", None, Some("Uganda")),
    ];
    assert_eq!(seed_filtered("", &seed).len(), seed.len());
    assert!(seed_filtered("zzzzz-no-such-station", &seed).len() <= seed.len());
    assert_eq!(seed_filtered(" JAZZ ", &seed)[0].name, "Radio Jazz");
    assert_eq!(seed_filtered("rock", &seed)[0].name, "B");
    assert_eq!(seed_filtered("ugan", &seed)[0].name, "C");
}

#[test]
fn a_search_always_shows_something() {
    let seed = vec![station("Radio Jazz", None, None)];
    assert_eq!(radio_search("jazz", None, &seed).len(), 1);
    assert_eq!(radio_search("jazz", Some(Vec::new()), &seed).len(), 1);
    let found = radio_search("jazz", Some(vec![station("X", None, None)]), &seed);
    assert_eq!(found[0].name, "X");
    assert!(radio_by_country("u1", Some(vec![station("X", None, None)])).is_empty());
    assert!(radio_by_country("ug", None).is_empty());
    assert_eq!(radio_by_country(" ug", Some(vec![station("X", None, None)])).len(), 1);
}

#[test]
fn stations_are_read_from_the_directory() {
    let s = to_station(&raw("http://a", Some("https://b"), Some(" jazz , blues"))).unwrap();
    assert_eq!((s.url.as_str(), s.genre.as_deref()), ("https://b", Some("jazz")));
    assert_eq!((s.country, s.favicon.as_deref()), (None, Some("http://icon")));
    let s = to_station(&raw("http://a", Some(""), Some(" ,x"))).unwrap();
    assert_eq!((s.url.as_str(), s.genre), ("http://a", None));
    assert!(to_station(&raw("rtsp://a", None, None)).is_none());
    assert!(read_answer(None, None).is_none());
    assert!(read_answer(Some(500), Some(vec![raw("http://a", None, None)])).is_none());
    assert!(read_answer(Some(200), None).is_none());
    let got = read_answer(Some(200), Some(vec![raw("x", None, None), raw("http://a", None, None)]));
    assert_eq!(got.unwrap().len(), 1);
}

#[test]
fn requests_to_the_directory_are_escaped() {
    assert_eq!(urlencode("a b&c~\u{e9}"), "a%20b%26c~%C3%A9");
    assert_eq!(
        search_path("  "),
        "/json/stations/search?order=clickcount&reverse=true&hidebroken=true&limit=60"
    );
    assert_eq!(
        search_path(" bbc 1 "),
        "/json/stations/search?name=bbc%201&hidebroken=true&order=clickcount&reverse=true&limit=60"
    );
    assert_eq!(
        country_path("ug").as_deref(),
        Some("/json/stations/search?countrycode=UG&hidebroken=true&order=clickcount&reverse=true&limit=300")
    );
    assert_eq!(country_path("ugx"), None);
    assert_eq!(hosts().len(), 3);
    assert!(hosts()[0].starts_with("https://de1."));
}

fn req() -> PlayRequest {
    PlayRequest {
        url: "https://example.com/live/stream.m3u8".to_string(),
        title: "Test Channel".to_string(),
        user_agent: None,
        referrer: None,
    }
}

#[test]
fn args_show_a_window_and_the_url_last_after_a_terminator() {
    let args = build_args(&req());
    assert!(args.iter().any(|a| a.starts_with("--force-window")));
    assert!(args.iter().any(|a| a == "--osc=yes"));
    assert_eq!(args.last().unwrap(), "https://example.com/live/stream.m3u8");
    let dashdash = args.iter().position(|a| a == "--").unwrap();
    assert_eq!(dashdash, args.len() - 2);
}

#[test]
fn headers_are_passed_only_when_present_and_non_empty() {
    let mut r = req();
    r.user_agent = Some("Mozilla/5.0".to_string());
    r.referrer = Some(String::new());
    let args = build_args(&r);
    assert!(args.iter().any(|a| a == "--user-agent=Mozilla/5.0"));
    assert!(!args.iter().any(|a| a.starts_with("--referrer")));
}

#[test]
fn title_becomes_the_media_title() {
    let args = build_args(&req());
    assert!(args.iter().any(|a| a == "--force-media-title=Test Channel"));
}

#[test]
fn the_player_runs_only_while_its_process_does() {
    assert!(is_running(Some(ChildStatus::Running)));
    assert!(!is_running(Some(ChildStatus::Exited)));
    assert!(!is_running(Some(ChildStatus::Unknown)));
    assert!(!is_running(None));
    assert_eq!(
        VideoError::Spawn("gone".into()).text(),
        "the TV player (mpv) could not be started: gone"
    );
}

#[test]
fn media_errors_are_told() {
    assert_eq!(MediaError::Open("x".into()).text(), "could not open media: x");
    assert_eq!(MediaError::UnsupportedFormat("x".into()).text(), "unsupported media format: x");
    assert_eq!(MediaError::Decode("x".into()).text(), "decode error: x");
    assert_eq!(MediaError::Network("x".into()).text(), "network error: x");
    assert_eq!(TransportState::default(), TransportState::Stopped);
    let p = TransportProgress { position_secs: 1.5f64.to_bits(), duration_secs: None };
    assert_eq!(f64::from_bits(p.position_secs), 1.5);
}

#[test]
fn playlists_have_addresses() {
    assert_eq!(playlist_url("countries", "de"), "https://iptv-org.github.io/iptv/countries/de.m3u");
    assert_eq!(index_url(), "https://iptv-org.github.io/iptv/index.m3u");
}
