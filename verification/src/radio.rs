//! The directory of internet radio stations: what is asked of it, how its answers are read, and
//! what is shown in its place when it cannot be reached.

use vstd::prelude::*;
use crate::text::{chars_of, contains_text, find_char, join3, starts_with, string_of, trim};
use crate::tv::is_alpha2;
use crate::types::{RadioStation, RadioStationView};

verus! {

/// A station as the directory describes it.
#[derive(Debug, PartialEq, Eq)]
pub struct RbStation {
    pub stationuuid: String,
    pub name: String,
    pub url_resolved: Option<String>,
    pub url: String,
    pub tags: Option<String>,
    pub country: Option<String>,
    pub favicon: Option<String>,
}

/// The content of an [`RbStation`].
pub struct RbStationView {
    pub stationuuid: Seq<char>,
    pub name: Seq<char>,
    pub url_resolved: Option<Seq<char>>,
    pub url: Seq<char>,
    pub tags: Option<Seq<char>>,
    pub country: Option<Seq<char>>,
    pub favicon: Option<Seq<char>>,
}

impl View for RbStation {
    type V = RbStationView;

    open spec fn view(&self) -> RbStationView {
        RbStationView {
            stationuuid: self.stationuuid@,
            name: self.name@,
            url_resolved: crate::types::text_of(self.url_resolved),
            url: self.url@,
            tags: crate::types::text_of(self.tags),
            country: crate::types::text_of(self.country),
            favicon: crate::types::text_of(self.favicon),
        }
    }
}

/// The contents of stations as the directory describes them.
pub open spec fn raw_views(raw: Seq<RbStation>) -> Seq<RbStationView> {
    raw.map_values(|s: RbStation| s@)
}

/// A web address.
pub open spec fn web(url: Seq<char>) -> bool {
    crate::text::starts(url, "http"@)
}

/// The address of a station: the resolved one where it is a web address.
pub open spec fn address_of(s: RbStationView) -> Seq<char> {
    match s.url_resolved {
        Some(u) if web(u) => u,
        _ => s.url,
    }
}

/// The first of the tags, without white space around it, where it is not blank.
pub open spec fn genre_of(tags: Option<Seq<char>>) -> Option<Seq<char>> {
    match tags {
        Some(t) => {
            let first = crate::text::trimmed(t.take(crate::text::char_from(t, ',', 0)));
            if first.len() == 0 {
                None
            } else {
                Some(first)
            }
        },
        None => None,
    }
}

/// A text that is not empty.
pub open spec fn filled(s: Option<Seq<char>>) -> Option<Seq<char>> {
    match s {
        Some(t) if t.len() > 0 => Some(t),
        _ => None,
    }
}

/// The station of a description; there is none without a web address.
pub open spec fn station_of(s: RbStationView) -> Option<RadioStationView> {
    if web(address_of(s)) {
        Some(
            RadioStationView {
                id: s.stationuuid,
                name: s.name,
                url: address_of(s),
                genre: genre_of(s.tags),
                country: filled(s.country),
                favicon: filled(s.favicon),
            },
        )
    } else {
        None
    }
}

fn keep_filled(s: &Option<String>) -> (r: Option<String>)
    ensures
        crate::types::text_of(r) == filled(crate::types::text_of(*s)),
{
    match s {
        Some(t) => if t.as_str().is_empty() {
            None
        } else {
            Some(t.clone())
        },
        None => None,
    }
}

fn first_tag(tags: &Option<String>) -> (r: Option<String>)
    ensures
        crate::types::text_of(r) == genre_of(crate::types::text_of(*tags)),
{
    match tags {
        Some(t) => {
            let v = chars_of(t.as_str());
            let end: usize = find_char(v.as_slice(), ',', 0);
            proof {
                crate::text::lemma_char_from(t@, ',', 0);
                assert(v@.subrange(0, end as int) =~= t@.take(crate::text::char_from(t@, ',', 0)));
            }
            let first = trim(string_of(v.as_slice(), 0, end).as_str());
            if first.as_str().is_empty() {
                None
            } else {
                Some(first)
            }
        },
        None => None,
    }
}

/// Reads a description of the directory.
pub fn to_station(s: &RbStation) -> (r: Option<RadioStation>)
    ensures
        match r {
            Some(station) => station_of(s@) == Some(station@),
            None => station_of(s@) is None,
        },
{
    let url = match &s.url_resolved {
        Some(u) => if starts_with(u.as_str(), "http") {
            u.clone()
        } else {
            s.url.clone()
        },
        None => s.url.clone(),
    };
    assert(url@ == address_of(s@));
    if !starts_with(url.as_str(), "http") {
        return None;
    }
    Some(
        RadioStation {
            id: s.stationuuid.clone(),
            name: s.name.clone(),
            url,
            genre: first_tag(&s.tags),
            country: keep_filled(&s.country),
            favicon: keep_filled(&s.favicon),
        },
    )
}

/// The stations of the descriptions that have one, in order.
pub open spec fn stations_of(raw: Seq<RbStationView>) -> Seq<RadioStationView>
    decreases raw.len(),
{
    if raw.len() == 0 {
        Seq::empty()
    } else {
        let before = stations_of(raw.drop_last());
        match station_of(raw.last()) {
            Some(s) => before.push(s),
            None => before,
        }
    }
}

/// Whether an answer of the directory can be used.
pub open spec fn usable(status: Option<u16>, raw: Option<Vec<RbStation>>) -> bool {
    status matches Some(code) && 200 <= code < 300 && raw is Some
}

/// The stations of an answer of one of the hosts, given its status, where it answered at all, and
/// its body, where it could be decoded. Without a result the next host is asked.
pub fn read_answer(status: Option<u16>, raw: Option<Vec<RbStation>>) -> (r: Option<
    Vec<RadioStation>,
>)
    ensures
        match r {
            Some(stations) => usable(status, raw) && crate::types::station_views(stations@)
                == stations_of(raw_views(raw->0@)),
            None => !usable(status, raw),
        },
{
    match (status, raw) {
        (Some(code), Some(raw)) => {
            if code < 200 || code >= 300 {
                return None;
            }
            let ghost all = raw_views(raw@);
            let mut out: Vec<RadioStation> = Vec::new();
            let mut i: usize = 0;
            proof {
                assert(all.take(0) =~= Seq::empty());
                assert(crate::types::station_views(out@) =~= Seq::empty());
            }
            while i < raw.len()
                invariant
                    i <= raw@.len(),
                    all == raw_views(raw@),
                    crate::types::station_views(out@) == stations_of(all.take(i as int)),
                decreases raw@.len() - i,
            {
                let ghost before = crate::types::station_views(out@);
                proof {
                    assert(all.take(i + 1).drop_last() =~= all.take(i as int));
                    assert(all.take(i + 1).last() == raw@[i as int]@);
                }
                if let Some(station) = to_station(&raw[i]) {
                    let ghost view = station@;
                    out.push(station);
                    assert(crate::types::station_views(out@) =~= before.push(view));
                }
                i += 1;
            }
            assert(all.take(i as int) =~= all);
            Some(out)
        },
        _ => None,
    }
}

/// Every station that is shown from the directory has a web address.
pub proof fn law_stations_have_web_addresses(raw: Seq<RbStationView>, i: int)
    requires
        0 <= i < stations_of(raw).len(),
    ensures
        web(stations_of(raw)[i].url),
    decreases raw.len(),
{
    if raw.len() > 0 {
        let before = stations_of(raw.drop_last());
        if i < before.len() {
            law_stations_have_web_addresses(raw.drop_last(), i);
        }
    }
}

/// The text, or nothing.
pub open spec fn or_empty(s: Option<Seq<char>>) -> Seq<char> {
    match s {
        Some(t) => t,
        None => Seq::empty(),
    }
}

/// The station is found by a query in lower case: its name, its genre or its country holds it.
pub open spec fn matches_query(s: RadioStationView, q: Seq<char>) -> bool {
    ||| crate::text::contains(crate::text::lowercase(s.name), q)
    ||| crate::text::contains(crate::text::lowercase(or_empty(s.genre)), q)
    ||| crate::text::contains(crate::text::lowercase(or_empty(s.country)), q)
}

/// The stations that a query in lower case finds, in order.
pub open spec fn found(seed: Seq<RadioStationView>, q: Seq<char>) -> Seq<RadioStationView>
    decreases seed.len(),
{
    if seed.len() == 0 {
        Seq::empty()
    } else {
        let before = found(seed.drop_last(), q);
        if matches_query(seed.last(), q) {
            before.push(seed.last())
        } else {
            before
        }
    }
}

/// The bundled stations that a query finds; a blank query finds all.
pub open spec fn seed_found(seed: Seq<RadioStationView>, query: Seq<char>) -> Seq<RadioStationView> {
    let q = crate::text::lowercase(crate::text::trimmed(query));
    if q.len() == 0 {
        seed
    } else {
        found(seed, q)
    }
}

fn lower_of(s: &Option<String>) -> (r: String)
    ensures
        r@ == crate::text::lowercase(or_empty(crate::types::text_of(*s))),
{
    match s {
        Some(t) => t.as_str().to_lowercase(),
        None => {
            proof {
                reveal_strlit("");
                assert(""@ =~= Seq::empty());
            }
            "".to_lowercase()
        },
    }
}

/// A text, in lower case, has a query in it that is given in lower case too.
pub open spec fn tells_of(text: Seq<char>, query: Seq<char>) -> bool {
    exists|at: int| #[trigger]
        crate::text::stands_at(
            crate::text::lowercase(text),
            crate::text::lowercase(crate::text::trimmed(query)),
            at,
        )
}

/// A station tells of a query in its name, in its genre or in its country.
pub open spec fn station_tells_of(s: RadioStationView, query: Seq<char>) -> bool {
    ||| tells_of(s.name, query)
    ||| s.genre matches Some(genre) && tells_of(genre, query)
    ||| s.country matches Some(country) && tells_of(country, query)
}

proof fn lemma_tells(text: Seq<char>, query: Seq<char>)
    ensures
        tells_of(text, query) <==> crate::text::contains(
            crate::text::lowercase(text),
            crate::text::lowercase(crate::text::trimmed(query)),
        ),
{
    let q = crate::text::lowercase(crate::text::trimmed(query));
    crate::text::lemma_find(crate::text::lowercase(text), q, 0);
    if tells_of(text, query) {
        let at = choose|at: int| #[trigger]
            crate::text::stands_at(crate::text::lowercase(text), q, at);
        assert(crate::text::stands_at(crate::text::lowercase(text), q, at));
    }
}

proof fn lemma_matches(s: RadioStationView, query: Seq<char>)
    requires
        crate::text::lowercase(crate::text::trimmed(query)).len() > 0,
    ensures
        matches_query(s, crate::text::lowercase(crate::text::trimmed(query)))
            <==> station_tells_of(s, query),
{
    let q = crate::text::lowercase(crate::text::trimmed(query));
    lemma_tells(s.name, query);
    let nothing = Seq::<char>::empty();
    assert(crate::text::ascii(nothing));
    crate::text::lemma_find(crate::text::lowercase(nothing), q, 0);
    assert(crate::text::lowercase(nothing).len() == 0);
    match s.genre {
        Some(genre) => {
            lemma_tells(genre, query);
        },
        None => {},
    }
    match s.country {
        Some(country) => {
            lemma_tells(country, query);
        },
        None => {},
    }
}

proof fn lemma_kept(seed: Seq<RadioStationView>, q: Seq<char>, s: RadioStationView)
    ensures
        found(seed, q).contains(s) <==> seed.contains(s) && matches_query(s, q),
        found(seed, q).len() <= seed.len(),
    decreases seed.len(),
{
    if seed.len() > 0 {
        let before = seed.drop_last();
        lemma_kept(before, q, s);
        let less = found(before, q);
        let all = found(seed, q);
        assert(seed[seed.len() - 1] == seed.last());
        if before.contains(s) {
            let k = choose|k: int| 0 <= k < before.len() && before[k] == s;
            assert(seed[k] == s);
        }
        if seed.contains(s) {
            let k = choose|k: int| 0 <= k < seed.len() && seed[k] == s;
            if k < before.len() {
                assert(before[k] == s);
            }
        }
        if less.contains(s) {
            let k = choose|k: int| 0 <= k < less.len() && less[k] == s;
            assert(all[k] == s);
        }
        if matches_query(seed.last(), q) {
            assert(all[less.len() as int] == seed.last());
        }
        if all.contains(s) {
            let k = choose|k: int| 0 <= k < all.len() && all[k] == s;
            if k < less.len() {
                assert(less[k] == s);
            }
        }
    }
}

/// The bundled stations are searched by name, genre and country: those that tell of the query in one
/// of these are found, and no others. A query of white space finds all.
pub proof fn law_stations_are_found_by_name_genre_and_country(
    seed: Seq<RadioStationView>,
    query: Seq<char>,
    s: RadioStationView,
)
    ensures
        crate::text::lowercase(crate::text::trimmed(query)).len() == 0 ==> seed_found(seed, query)
            == seed,
        crate::text::lowercase(crate::text::trimmed(query)).len() > 0 ==> (seed_found(
            seed,
            query,
        ).contains(s) <==> seed.contains(s) && station_tells_of(s, query)),
{
    let q = crate::text::lowercase(crate::text::trimmed(query));
    if q.len() > 0 {
        lemma_matches(s, query);
        lemma_kept(seed, q, s);
    }
}

/// A station is reached at the address that the directory has resolved, where that is a web address,
/// and else at the one it was entered with; it keeps its id and its name, and what is not told of it
/// is left out. Every station of the directory with a web address is shown.
pub proof fn law_stations_are_shown_as_they_are(raw: Seq<RbStationView>, i: int)
    requires
        0 <= i < raw.len(),
    ensures
        raw[i].url_resolved is Some && crate::text::starts(raw[i].url_resolved->0, "http"@) ==> (
        station_of(raw[i]) matches Some(s) && s.url == raw[i].url_resolved->0),
        raw[i].url_resolved is None && crate::text::starts(raw[i].url, "http"@) ==> (station_of(
            raw[i],
        ) matches Some(s) && s.url == raw[i].url),
        station_of(raw[i]) matches Some(s) ==> {
            &&& s.id == raw[i].stationuuid
            &&& s.name == raw[i].name
            &&& raw[i].country is Some && raw[i].country->0.len() > 0 ==> s.country == raw[i].country
            &&& raw[i].favicon is Some && raw[i].favicon->0.len() > 0 ==> s.favicon == raw[i].favicon
            &&& raw[i].tags is None ==> s.genre is None
            &&& stations_of(raw).contains(s)
        },
    decreases raw.len(),
{
    let before = raw.drop_last();
    let all = stations_of(raw);
    if let Some(s) = station_of(raw[i]) {
        if i < before.len() {
            assert(before[i] == raw[i]);
            law_stations_are_shown_as_they_are(before, i);
            let k = choose|k: int| 0 <= k < stations_of(before).len() && stations_of(before)[k] == s;
            assert(all[k] == s);
        } else {
            assert(all[all.len() - 1] == s);
        }
    }
}

/// The bundled stations that a query finds.
pub fn seed_filtered(query: &str, seed: &Vec<RadioStation>) -> (r: Vec<RadioStation>)
    ensures
        crate::types::station_views(r@) == seed_found(crate::types::station_views(seed@), query@),
{
    let q = trim(query).as_str().to_lowercase();
    let all: bool = q.as_str().is_empty();
    let ghost views = crate::types::station_views(seed@);
    let mut out: Vec<RadioStation> = Vec::new();
    let mut i: usize = 0;
    proof {
        assert(views.take(0) =~= Seq::empty());
        assert(crate::types::station_views(out@) =~= Seq::empty());
    }
    while i < seed.len()
        invariant
            i <= seed@.len(),
            views == crate::types::station_views(seed@),
            crate::types::station_views(out@) == (if all {
                views.take(i as int)
            } else {
                found(views.take(i as int), q@)
            }),
        decreases seed@.len() - i,
    {
        let ghost before = crate::types::station_views(out@);
        let s = &seed[i];
        proof {
            assert(views.take(i + 1).drop_last() =~= views.take(i as int));
            assert(views.take(i + 1).last() == s@);
            assert(views.take(i + 1) =~= views.take(i as int).push(s@));
        }
        let hit: bool = all || contains_text(s.name.as_str().to_lowercase().as_str(), q.as_str())
            || contains_text(lower_of(&s.genre).as_str(), q.as_str()) || contains_text(
            lower_of(&s.country).as_str(),
            q.as_str(),
        );
        if hit {
            out.push(s.clone());
            assert(crate::types::station_views(out@) =~= before.push(s@));
        }
        i += 1;
    }
    assert(views.take(i as int) =~= views);
    out
}

/// What a search shows: what the directory found, and where that is nothing, or the directory gave
/// no answer, the bundled stations that the query finds. It never fails.
pub fn search(query: &str, remote: Option<Vec<RadioStation>>, seed: &Vec<RadioStation>) -> (r: Vec<
    RadioStation,
>)
    ensures
        crate::types::station_views(r@) == (match remote {
            Some(stations) if stations@.len() > 0 => crate::types::station_views(stations@),
            _ => seed_found(crate::types::station_views(seed@), query@),
        }),
{
    match remote {
        Some(stations) => {
            if stations.len() > 0 {
                return stations;
            }
        },
        None => {},
    }
    seed_filtered(query, seed)
}

/// The stations of a country, by its two-letter code: none for a bad code, nor where the directory
/// gave no answer.
pub fn by_country(code: &str, remote: Option<Vec<RadioStation>>) -> (r: Vec<RadioStation>)
    ensures
        crate::types::station_views(r@) == (match remote {
            Some(stations) if crate::tv::alpha2(crate::text::trimmed(code@)) =>
                crate::types::station_views(stations@),
            _ => Seq::empty(),
        }),
{
    if is_alpha2(trim(code).as_str()) {
        if let Some(stations) = remote {
            return stations;
        }
    }
    let none: Vec<RadioStation> = Vec::new();
    assert(crate::types::station_views(none@) =~= Seq::empty());
    none
}

/// The hosts of the directory, in the order in which they are asked.
pub open spec fn host_table() -> Seq<Seq<char>> {
    seq![
        "https://de1.api.radio-browser.info"@,
        "https://nl1.api.radio-browser.info"@,
        "https://at1.api.radio-browser.info"@,
    ]
}

/// The hosts of the directory, in the order in which they are asked.
pub fn hosts() -> (r: Vec<String>)
    ensures
        crate::text::texts(r@) == host_table(),
{
    let mut out: Vec<String> = Vec::new();
    out.push("https://de1.api.radio-browser.info".to_owned());
    out.push("https://nl1.api.radio-browser.info".to_owned());
    out.push("https://at1.api.radio-browser.info".to_owned());
    assert(crate::text::texts(out@) =~= host_table());
    out
}

/// A byte that stands for itself in an address.
pub open spec fn unreserved(b: u8) -> bool {
    ||| 65 <= b <= 90
    ||| 97 <= b <= 122
    ||| 48 <= b <= 57
    ||| b == 45
    ||| b == 95
    ||| b == 46
    ||| b == 126
}

/// The hexadecimal digit of a value below sixteen, in upper case.
pub open spec fn upper_hex(n: int) -> char {
    if n < 10 {
        ('0' as u32 + n) as char
    } else {
        ('A' as u32 + (n - 10)) as char
    }
}

/// How a byte is written in an address.
pub open spec fn escape(b: u8) -> Seq<char> {
    if unreserved(b) {
        seq![b as char]
    } else {
        seq!['%', upper_hex(b as int / 16), upper_hex(b as int % 16)]
    }
}

/// How bytes are written in an address.
pub open spec fn escaped(bytes: Seq<u8>) -> Seq<char>
    decreases bytes.len(),
{
    if bytes.len() == 0 {
        Seq::empty()
    } else {
        escaped(bytes.drop_last()) + escape(bytes.last())
    }
}

/// How a text is written in an address: the bytes of its UTF-8 form, escaped where they need it.
pub open spec fn url_encoded(s: Seq<char>) -> Seq<char> {
    escaped(vstd::utf8::encode_utf8(s))
}

fn upper_hex_char(n: u8) -> (c: char)
    requires
        n < 16,
    ensures
        c == upper_hex(n as int),
{
    if n < 10 {
        (48 + n) as char
    } else {
        (65 + (n - 10)) as char
    }
}

/// Writes a text as part of an address.
pub fn urlencode(s: &str) -> (r: String)
    ensures
        r@ == url_encoded(s@),
{
    let bytes = s.as_bytes();
    let mut out = String::new();
    let mut i: usize = 0;
    assert(bytes@.take(0) =~= Seq::empty());
    while i < bytes.len()
        invariant
            i <= bytes@.len(),
            out@ == escaped(bytes@.take(i as int)),
        decreases bytes@.len() - i,
    {
        let b: u8 = bytes[i];
        let ghost before = out@;
        assert(bytes@.take(i + 1).drop_last() =~= bytes@.take(i as int));
        if (b >= 65 && b <= 90) || (b >= 97 && b <= 122) || (b >= 48 && b <= 57) || b == 45 || b
            == 95 || b == 46 || b == 126 {
            out.push(b as char);
        } else {
            out.push('%');
            out.push(upper_hex_char(b / 16));
            out.push(upper_hex_char(b % 16));
        }
        assert(out@ =~= before + escape(b));
        i += 1;
    }
    assert(bytes@.take(i as int) =~= bytes@);
    out
}

/// A character that may stand in the query of an address.
pub open spec fn query_char(c: char) -> bool {
    c == '%' || (0 <= c as u32 <= 127 && unreserved(c as u32 as u8))
}

/// Whatever the text, only unreserved characters and escapes are written.
pub proof fn law_urlencode_is_safe(s: Seq<char>, i: int)
    requires
        0 <= i < url_encoded(s).len(),
    ensures
        query_char(url_encoded(s)[i]),
{
    lemma_escaped(vstd::utf8::encode_utf8(s), i);
}

proof fn lemma_escaped(bytes: Seq<u8>, i: int)
    requires
        0 <= i < escaped(bytes).len(),
    ensures
        query_char(escaped(bytes)[i]),
    decreases bytes.len(),
{
    if bytes.len() > 0 {
        let before = escaped(bytes.drop_last());
        if i < before.len() {
            lemma_escaped(bytes.drop_last(), i);
        } else {
            assert(escaped(bytes)[i] == escape(bytes.last())[i - before.len()]);
        }
    }
}

/// What is asked of a host for a query: the most popular stations, or those with a name.
pub fn search_path(query: &str) -> (r: String)
    ensures
        r@ == (if crate::text::trimmed(query@).len() == 0 {
            "/json/stations/search?order=clickcount&reverse=true&hidebroken=true&limit=60"@
        } else {
            "/json/stations/search?name="@ + url_encoded(crate::text::trimmed(query@))
                + "&hidebroken=true&order=clickcount&reverse=true&limit=60"@
        }),
{
    let q = trim(query);
    if q.as_str().is_empty() {
        return "/json/stations/search?order=clickcount&reverse=true&hidebroken=true&limit=60".to_owned();
    }
    join3(
        "/json/stations/search?name=",
        urlencode(q.as_str()).as_str(),
        "&hidebroken=true&order=clickcount&reverse=true&limit=60",
    )
}

/// What is asked of a host for a country; nothing for a bad code.
pub fn country_path(code: &str) -> (r: Option<String>)
    ensures
        match r {
            Some(path) => crate::tv::alpha2(crate::text::trimmed(code@)) && path@
                == "/json/stations/search?countrycode="@ + crate::text::uppercase(
                crate::text::trimmed(code@),
            ) + "&hidebroken=true&order=clickcount&reverse=true&limit=300"@,
            None => !crate::tv::alpha2(crate::text::trimmed(code@)),
        },
{
    let c = trim(code);
    if !is_alpha2(c.as_str()) {
        return None;
    }
    Some(
        join3(
            "/json/stations/search?countrycode=",
            c.as_str().to_uppercase().as_str(),
            "&hidebroken=true&order=clickcount&reverse=true&limit=300",
        ),
    )
}

} // verus!
