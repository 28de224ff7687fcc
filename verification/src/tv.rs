//! The directory of free-to-air television: playlists of channels, the questions put to them, and
//! which channels are known to be on the air.

use vstd::prelude::*;
use crate::text::{chars_of, contains_text, find, find_char, find_digits_end, join3, lower_ascii, same_text, starts_with, string_of, trim};
use crate::types::{TvCategory, TvChannel, TvChannelView};

verus! {

/// Where the playlists are.
pub const BASE: &'static str = "https://iptv-org.github.io/iptv";

/// How long a stored playlist counts as fresh, in nanoseconds: seven days.
pub const TTL_NANOS: u128 = 604_800_000_000_000;

/// The most channels that a search, or browsing the whole directory, shows.
pub const MAX_RESULTS: usize = 600;

/// How long a verdict on a channel is trusted, in nanoseconds: one hour.
pub const HEALTH_TTL_NANOS: u64 = 3_600_000_000_000;

/// How many channels are probed at once.
pub const HEALTH_CONCURRENCY: usize = 16;

/// The categories: the slug and the name of each.
pub open spec fn category_table() -> Seq<(Seq<char>, Seq<char>)> {
    seq![
        ("news"@, "News"@),
        ("sports"@, "Sports"@),
        ("movies"@, "Movies"@),
        ("music"@, "Music"@),
        ("kids"@, "Kids"@),
        ("entertainment"@, "Entertainment"@),
        ("general"@, "General"@),
        ("documentary"@, "Documentary"@),
        ("comedy"@, "Comedy"@),
        ("culture"@, "Culture"@),
        ("education"@, "Education"@),
        ("family"@, "Family"@),
        ("lifestyle"@, "Lifestyle"@),
        ("science"@, "Science"@),
        ("travel"@, "Travel"@),
        ("weather"@, "Weather"@),
        ("business"@, "Business"@),
        ("cooking"@, "Cooking"@),
        ("religious"@, "Religious"@),
        ("series"@, "Series"@),
        ("animation"@, "Animation"@),
        ("classic"@, "Classic"@),
        ("outdoor"@, "Outdoor"@),
        ("relax"@, "Relax"@),
        ("legislative"@, "Legislative"@),
        ("shop"@, "Shopping"@),
    ]
}

fn category(id: &str, name: &str) -> (r: TvCategory)
    ensures
        r.id@ == id@,
        r.name@ == name@,
{
    TvCategory { id: id.to_owned(), name: name.to_owned() }
}

/// The categories that can be browsed.
pub fn categories() -> (r: Vec<TvCategory>)
    ensures
        r@.map_values(|c: TvCategory| (c.id@, c.name@)) == category_table(),
{
    let mut out: Vec<TvCategory> = Vec::new();
    out.push(category("news", "News"));
    out.push(category("sports", "Sports"));
    out.push(category("movies", "Movies"));
    out.push(category("music", "Music"));
    out.push(category("kids", "Kids"));
    out.push(category("entertainment", "Entertainment"));
    out.push(category("general", "General"));
    out.push(category("documentary", "Documentary"));
    out.push(category("comedy", "Comedy"));
    out.push(category("culture", "Culture"));
    out.push(category("education", "Education"));
    out.push(category("family", "Family"));
    out.push(category("lifestyle", "Lifestyle"));
    out.push(category("science", "Science"));
    out.push(category("travel", "Travel"));
    out.push(category("weather", "Weather"));
    out.push(category("business", "Business"));
    out.push(category("cooking", "Cooking"));
    out.push(category("religious", "Religious"));
    out.push(category("series", "Series"));
    out.push(category("animation", "Animation"));
    out.push(category("classic", "Classic"));
    out.push(category("outdoor", "Outdoor"));
    out.push(category("relax", "Relax"));
    out.push(category("legislative", "Legislative"));
    out.push(category("shop", "Shopping"));
    assert(out@.map_values(|c: TvCategory| (c.id@, c.name@)) =~= category_table());
    out
}

/// Two ASCII letters.
pub open spec fn alpha2(code: Seq<char>) -> bool {
    code.len() == 2 && crate::text::ascii_letter(code[0]) && crate::text::ascii_letter(code[1])
}

/// Whether a code is two ASCII letters.
pub fn is_alpha2(code: &str) -> (r: bool)
    ensures
        r == alpha2(code@),
{
    let v = chars_of(code);
    v.len() == 2 && is_letter(v[0]) && is_letter(v[1])
}

fn is_letter(c: char) -> (r: bool)
    ensures
        r == crate::text::ascii_letter(c),
{
    (c >= 'a' && c <= 'z') || (c >= 'A' && c <= 'Z')
}

/// A character of a slug.
pub open spec fn slug_char(c: char) -> bool {
    crate::text::ascii_letter(c) || crate::text::digit(c) || c == '-'
}

/// A slug is not empty.
pub open spec fn slug(s: Seq<char>) -> bool {
    s.len() > 0 && forall|i: int| 0 <= i < s.len() ==> slug_char(#[trigger] s[i])
}

/// Whether a text is a slug.
pub fn is_slug(s: &str) -> (r: bool)
    ensures
        r == slug(s@),
{
    let v = chars_of(s);
    let mut i: usize = 0;
    while i < v.len()
        invariant
            v@ == s@,
            i <= v@.len(),
            forall|k: int| 0 <= k < i ==> slug_char(#[trigger] s@[k]),
        decreases v@.len() - i,
    {
        let c: char = v[i];
        if !(is_letter(c) || (c >= '0' && c <= '9') || c == '-') {
            assert(!slug_char(s@[i as int]));
            return false;
        }
        i += 1;
    }
    v.len() > 0
}

/// What stands between quotation marks behind `key=`, without white space around it, where it is
/// not blank.
pub open spec fn attr_of(attrs: Seq<char>, key: Seq<char>) -> Option<Seq<char>> {
    let needle = key + "=\""@ + ""@;
    match crate::text::find_from(attrs, needle, 0) {
        None => None,
        Some(at) => {
            let start = at + needle.len();
            let end = crate::text::char_from(attrs, '"', start);
            if end >= attrs.len() {
                None
            } else {
                let v = crate::text::trimmed(attrs.subrange(start, end));
                if v.len() == 0 {
                    None
                } else {
                    Some(v)
                }
            }
        },
    }
}

/// The value of an attribute.
pub fn attr(attrs: &str, key: &str) -> (r: Option<String>)
    ensures
        crate::types::text_of(r) == attr_of(attrs@, key@),
{
    let v = chars_of(attrs);
    let needle = chars_of(join3(key, "=\"", "").as_str());
    match find(v.as_slice(), needle.as_slice(), 0) {
        None => None,
        Some(at) => {
            let n: usize = v.len();
            let start: usize = at + needle.len();
            let end: usize = find_char(v.as_slice(), '"', start);
            if end >= v.len() {
                None
            } else {
                let value = trim(string_of(v.as_slice(), start, end).as_str());
                if value.as_str().is_empty() {
                    None
                } else {
                    Some(value)
                }
            }
        },
    }
}

/// The first of the groups that `;` separates, where it is not blank.
pub open spec fn first_group_of(g: Seq<char>) -> Option<Seq<char>> {
    let v = crate::text::trimmed(g.subrange(0, crate::text::char_from(g, ';', 0)));
    if v.len() == 0 {
        None
    } else {
        Some(v)
    }
}

/// The first of the groups that `;` separates.
pub fn first_group(g: &str) -> (r: Option<String>)
    ensures
        crate::types::text_of(r) == first_group_of(g@),
{
    let v = chars_of(g);
    let end: usize = find_char(v.as_slice(), ';', 0);
    let value = trim(string_of(v.as_slice(), 0, end).as_str());
    if value.as_str().is_empty() {
        None
    } else {
        Some(value)
    }
}

/// The place behind the last dot before `end`, or the start.
pub open spec fn behind_dot(s: Seq<char>, end: int) -> int
    decreases end,
{
    if end <= 0 || end > s.len() || s[end - 1] == '.' {
        end
    } else {
        behind_dot(s, end - 1)
    }
}

/// The country in an id such as `Name.ug@SD`: what stands behind the last dot in front of the
/// first `@`, in upper case, where it is two letters.
pub open spec fn country_in_id(id: Seq<char>) -> Option<Seq<char>> {
    let base = id.subrange(0, crate::text::char_from(id, '@', 0));
    let cc = base.subrange(behind_dot(base, base.len() as int), base.len() as int);
    if alpha2(crate::text::lowercase(cc)) {
        Some(crate::text::uppercase(cc))
    } else {
        None
    }
}

/// The country in an id.
pub fn country_from_tvg_id(id: &str) -> (r: Option<String>)
    ensures
        crate::types::text_of(r) == country_in_id(id@),
{
    let v = chars_of(id);
    let end: usize = find_char(v.as_slice(), '@', 0);
    let ghost base = id@.subrange(0, end as int);
    let mut at: usize = end;
    while at > 0 && v[at - 1] != '.'
        invariant
            v@ == id@,
            base == id@.subrange(0, end as int),
            at <= end <= v@.len(),
            behind_dot(base, at as int) == behind_dot(base, end as int),
        decreases at,
    {
        at -= 1;
    }
    let cc = string_of(v.as_slice(), at, end);
    assert(cc@ =~= base.subrange(at as int, end as int));
    if is_alpha2(cc.as_str().to_lowercase().as_str()) {
        Some(cc.as_str().to_uppercase())
    } else {
        None
    }
}

/// The first run of digits from `pos` on with a `p` behind it, as in `720p`.
pub open spec fn quality_from(s: Seq<char>, pos: int) -> Option<Seq<char>>
    decreases s.len() - pos,
{
    if !(0 <= pos < s.len()) {
        None
    } else if crate::text::digit(s[pos]) {
        let end = crate::text::digits_end(s, pos);
        proof {
            crate::text::lemma_digits_end(s, pos + 1);
        }
        if end < s.len() && (s[end] == 'p' || s[end] == 'P') {
            Some(s.subrange(pos, end).push('p'))
        } else {
            quality_from(s, end)
        }
    } else {
        quality_from(s, pos + 1)
    }
}

/// The picture size in the name of a channel.
pub fn quality_from_name(name: &str) -> (r: Option<String>)
    ensures
        crate::types::text_of(r) == quality_from(name@, 0),
{
    let v = chars_of(name);
    let mut i: usize = 0;
    while i < v.len()
        invariant
            v@ == name@,
            i <= v@.len(),
            quality_from(name@, i as int) == quality_from(name@, 0),
        decreases v@.len() - i,
    {
        if v[i] >= '0' && v[i] <= '9' {
            proof {
                crate::text::lemma_digits_end(name@, i + 1);
            }
            let end: usize = find_digits_end(v.as_slice(), i);
            if end < v.len() && (v[end] == 'p' || v[end] == 'P') {
                let mut out = string_of(v.as_slice(), i, end);
                out.push('p');
                return Some(out);
            }
            i = end;
        } else {
            i += 1;
        }
    }
    None
}

/// Where the list of attributes ends: at the first comma from `from` on that stands outside
/// quotation marks, or at the end of the text. `quoted` says whether `from` stands between them.
/// Where the last quotation mark is never closed, the list ends at the first comma of all.
pub open spec fn list_end(s: Seq<char>, from: int, quoted: bool) -> int
    decreases s.len() - from,
{
    if !(0 <= from < s.len()) {
        if quoted {
            crate::text::char_from(s, ',', 0)
        } else {
            from
        }
    } else if s[from] == ',' && !quoted {
        from
    } else {
        list_end(s, from + 1, quoted != (s[from] == '"'))
    }
}

fn find_list_end(v: &[char]) -> (r: usize)
    ensures
        r == list_end(v@, 0, false),
        r <= v@.len() <= usize::MAX,
{
    let n: usize = v.len();
    let mut quoted: bool = false;
    let mut i: usize = 0;
    while i < n && (v[i] != ',' || quoted)
        invariant
            i <= n == v@.len(),
            list_end(v@, i as int, quoted) == list_end(v@, 0, false),
        decreases n - i,
    {
        if v[i] == '"' {
            quoted = !quoted;
        }
        i += 1;
    }
    if i >= n && quoted {
        return find_char(v, ',', 0);
    }
    i
}

/// The channel that an `#EXTINF` line announces; its address is still to come. Its country is the
/// one it names, else the one in its id, else `country`. Commas inside quotation marks belong to the
/// attributes, those behind the end of the list to the name.
pub open spec fn announced(rest: Seq<char>, country: Option<Seq<char>>) -> TvChannelView {
    let comma = list_end(rest, 0, false);
    let attrs = rest.subrange(0, comma);
    let name = if comma < rest.len() {
        crate::text::trimmed(rest.subrange(comma + 1, rest.len() as int))
    } else {
        Seq::empty()
    };
    let id = match attr_of(attrs, "tvg-id"@) {
        Some(v) => v,
        None => Seq::empty(),
    };
    TvChannelView {
        id,
        name,
        url: Seq::empty(),
        logo: attr_of(attrs, "tvg-logo"@),
        group: match attr_of(attrs, "group-title"@) {
            Some(g) => first_group_of(g),
            None => None,
        },
        country: match attr_of(attrs, "tvg-country"@) {
            Some(c) => Some(c),
            None => match country_in_id(id) {
                Some(c) => Some(c),
                None => country,
            },
        },
        user_agent: attr_of(attrs, "http-user-agent"@),
        referrer: attr_of(attrs, "http-referrer"@),
        quality: quality_from(name, 0),
    }
}

/// Reads an `#EXTINF` line.
pub fn parse_extinf(rest: &str, default_country: Option<&str>) -> (r: TvChannel)
    ensures
        r@ == announced(
            rest@,
            match default_country {
                Some(c) => Some(c@),
                None => None,
            },
        ),
{
    let v = chars_of(rest);
    let comma: usize = find_list_end(v.as_slice());
    let attrs = string_of(v.as_slice(), 0, comma);
    let name = if comma < v.len() {
        trim(string_of(v.as_slice(), comma + 1, v.len()).as_str())
    } else {
        String::new()
    };
    let id = match attr(attrs.as_str(), "tvg-id") {
        Some(v) => v,
        None => String::new(),
    };
    let country = match attr(attrs.as_str(), "tvg-country") {
        Some(c) => Some(c),
        None => match country_from_tvg_id(id.as_str()) {
            Some(c) => Some(c),
            None => match default_country {
                Some(c) => Some(c.to_owned()),
                None => None,
            },
        },
    };
    let group = match attr(attrs.as_str(), "group-title") {
        Some(g) => first_group(g.as_str()),
        None => None,
    };
    let quality = quality_from_name(name.as_str());
    TvChannel {
        id,
        name,
        url: String::new(),
        logo: attr(attrs.as_str(), "tvg-logo"),
        group,
        country,
        user_agent: attr(attrs.as_str(), "http-user-agent"),
        referrer: attr(attrs.as_str(), "http-referrer"),
        quality,
    }
}

/// A text without quotation marks around it.
pub open spec fn unquoted(s: Seq<char>) -> Seq<char>
    decreases s.len(),
{
    if s.len() > 0 && s[0] == '"' {
        unquoted(s.subrange(1, s.len() as int))
    } else {
        crate::text::without_tail(s, '"')
    }
}

fn unquote(s: &str) -> (r: String)
    ensures
        r@ == unquoted(s@),
{
    let v = chars_of(s);
    let mut i: usize = 0;
    assert(s@.subrange(0, s@.len() as int) =~= s@);
    while i < v.len() && v[i] == '"'
        invariant
            v@ == s@,
            i <= v@.len(),
            unquoted(s@.subrange(i as int, s@.len() as int)) == unquoted(s@),
        decreases v@.len() - i,
    {
        assert(s@.subrange(i as int, s@.len() as int).subrange(1, s@.len() - i) =~= s@.subrange(
            i + 1,
            s@.len() as int,
        ));
        i += 1;
    }
    crate::text::trim_tail(string_of(v.as_slice(), i, v.len()).as_str(), '"')
}

/// An announced channel with the player option `opt`, which is `key=value`.
pub open spec fn with_option(c: TvChannelView, opt: Seq<char>) -> TvChannelView {
    let eq = crate::text::char_from(opt, '=', 0);
    if eq >= opt.len() {
        c
    } else {
        let key = crate::text::trimmed(opt.subrange(0, eq));
        let value = unquoted(crate::text::trimmed(opt.subrange(eq + 1, opt.len() as int)));
        if value.len() == 0 {
            c
        } else if key == "http-user-agent"@ {
            TvChannelView { user_agent: Some(value), ..c }
        } else if key == "http-referrer"@ {
            TvChannelView { referrer: Some(value), ..c }
        } else {
            c
        }
    }
}

/// Applies a player option to an announced channel.
pub fn apply_vlcopt(p: &mut TvChannel, opt: &str)
    ensures
        final(p)@ == with_option(old(p)@, opt@),
{
    let v = chars_of(opt);
    let eq: usize = find_char(v.as_slice(), '=', 0);
    if eq >= v.len() {
        return;
    }
    let key = trim(string_of(v.as_slice(), 0, eq).as_str());
    let value = unquote(trim(string_of(v.as_slice(), eq + 1, v.len()).as_str()).as_str());
    if value.as_str().is_empty() {
        return;
    }
    if same_text(key.as_str(), "http-user-agent") {
        p.user_agent = Some(value);
    } else if same_text(key.as_str(), "http-referrer") {
        p.referrer = Some(value);
    }
}

/// An announced channel at its address; a channel without an id is known by its address.
pub open spec fn placed(c: TvChannelView, url: Seq<char>) -> TvChannelView {
    TvChannelView {
        id: if c.id.len() == 0 {
            url
        } else {
            c.id
        },
        url,
        ..c
    }
}

/// What a line of a playlist, without white space around it, leaves announced, and the channel it
/// completes.
pub open spec fn line_effect(
    line: Seq<char>,
    country: Option<Seq<char>>,
    pending: Option<TvChannelView>,
) -> (Option<TvChannelView>, Option<TvChannelView>) {
    if line.len() == 0 {
        (pending, None)
    } else if crate::text::starts(line, "#EXTINF:"@) {
        (Some(announced(line.subrange("#EXTINF:"@.len() as int, line.len() as int), country)), None)
    } else if crate::text::starts(line, "#EXTVLCOPT:"@) {
        (
            match pending {
                Some(p) => Some(
                    with_option(
                        p,
                        line.subrange("#EXTVLCOPT:"@.len() as int, line.len() as int),
                    ),
                ),
                None => None,
            },
            None,
        )
    } else if line[0] == '#' {
        (pending, None)
    } else {
        match pending {
            Some(p) => if crate::text::starts(line, "http"@) {
                (None, Some(placed(p, line)))
            } else {
                (None, None)
            },
            None => (None, None),
        }
    }
}

/// The channels of a playlist from `pos` on, where `pending` is announced.
pub open spec fn channels_from(
    s: Seq<char>,
    pos: int,
    country: Option<Seq<char>>,
    pending: Option<TvChannelView>,
) -> Seq<TvChannelView>
    decreases s.len() + 1 - pos,
{
    if !(0 <= pos < s.len()) {
        Seq::empty()
    } else {
        let end = crate::text::char_from(s, '\n', pos);
        proof {
            crate::text::lemma_char_from(s, '\n', pos);
        }
        let line = crate::text::trimmed(s.subrange(pos, end));
        let (next, done) = line_effect(line, country, pending);
        let rest = channels_from(s, end + 1, country, next);
        match done {
            Some(c) => seq![c] + rest,
            None => rest,
        }
    }
}

/// The channels of a playlist.
pub open spec fn playlist_channels(text: Seq<char>, country: Option<Seq<char>>) -> Seq<
    TvChannelView,
> {
    channels_from(text, 0, country, None)
}

fn strip(line: &str, prefix: &str) -> (r: Option<String>)
    ensures
        match r {
            Some(t) => crate::text::starts(line@, prefix@) && t@ == line@.subrange(
                prefix@.len() as int,
                line@.len() as int,
            ),
            None => !crate::text::starts(line@, prefix@),
        },
{
    let v = chars_of(line);
    let n: usize = prefix.unicode_len();
    if starts_with(line, prefix) {
        Some(string_of(v.as_slice(), n, v.len()))
    } else {
        None
    }
}

spec fn pending_view(p: Option<TvChannel>) -> Option<TvChannelView> {
    match p {
        Some(c) => Some(c@),
        None => None,
    }
}

fn take_line(line: &str, default_country: Option<&str>, pending: Option<TvChannel>) -> (r: (
    Option<TvChannel>,
    Option<TvChannel>,
))
    ensures
        (pending_view(r.0), pending_view(r.1)) == line_effect(
            line@,
            match default_country {
                Some(c) => Some(c@),
                None => None,
            },
            pending_view(pending),
        ),
{
    if line.is_empty() {
        return (pending, None);
    }
    if let Some(rest) = strip(line, "#EXTINF:") {
        return (Some(parse_extinf(rest.as_str(), default_country)), None);
    }
    if let Some(opt) = strip(line, "#EXTVLCOPT:") {
        return match pending {
            Some(p) => {
                let mut q = p;
                apply_vlcopt(&mut q, opt.as_str());
                (Some(q), None)
            },
            None => (None, None),
        };
    }
    if line.get_char(0) == '#' {
        return (pending, None);
    }
    match pending {
        Some(p) => {
            if starts_with(line, "http") {
                let mut c = p;
                if c.id.as_str().is_empty() {
                    c.id = line.to_owned();
                }
                c.url = line.to_owned();
                (None, Some(c))
            } else {
                (None, None)
            }
        },
        None => (None, None),
    }
}

/// Reads a playlist. `default_country` is the country of channels that name none.
pub fn parse_m3u(text: &str, default_country: Option<&str>) -> (r: Vec<TvChannel>)
    ensures
        crate::types::channel_views(r@) == playlist_channels(
            text@,
            match default_country {
                Some(c) => Some(c@),
                None => None,
            },
        ),
{
    let ghost country = match default_country {
        Some(c) => Some(c@),
        None => None,
    };
    let v = chars_of(text);
    let n: usize = v.len();
    let mut out: Vec<TvChannel> = Vec::new();
    let mut pending: Option<TvChannel> = None;
    let mut pos: usize = 0;
    assert(crate::types::channel_views(out@) + playlist_channels(text@, country)
        =~= playlist_channels(text@, country));
    while pos < n
        invariant
            v@ == text@,
            n == v@.len(),
            pos <= n,
            country == (match default_country {
                Some(c) => Some(c@),
                None => None,
            }),
            crate::types::channel_views(out@) + channels_from(
                text@,
                pos as int,
                country,
                pending_view(pending),
            ) == playlist_channels(text@, country),
        decreases n - pos,
    {
        let end: usize = find_char(v.as_slice(), '\n', pos);
        let line = trim(string_of(v.as_slice(), pos, end).as_str());
        let (next, done) = take_line(line.as_str(), default_country, pending);
        let ghost before = crate::types::channel_views(out@);
        let ghost rest = channels_from(text@, end + 1, country, pending_view(next));
        if let Some(c) = done {
            let ghost view = c@;
            out.push(c);
            assert(crate::types::channel_views(out@) =~= before.push(view));
            assert(before + (seq![view] + rest) =~= crate::types::channel_views(out@) + rest);
        }
        pending = next;
        if end >= n {
            proof {
                assert(rest =~= Seq::empty());
                assert(crate::types::channel_views(out@) + rest =~= crate::types::channel_views(
                    out@,
                ));
            }
            return out;
        }
        pos = end + 1;
    }
    assert(crate::types::channel_views(out@) + Seq::<TvChannelView>::empty()
        =~= crate::types::channel_views(out@));
    out
}

/// Every channel of a playlist has an address that starts with `http`, and an id.
pub proof fn law_channels_have_an_address(
    s: Seq<char>,
    pos: int,
    country: Option<Seq<char>>,
    pending: Option<TvChannelView>,
)
    ensures
        forall|i: int|
            0 <= i < channels_from(s, pos, country, pending).len() ==> crate::text::starts(
                (#[trigger] channels_from(s, pos, country, pending)[i]).url,
                "http"@,
            ) && channels_from(s, pos, country, pending)[i].id.len() > 0,
    decreases s.len() + 1 - pos,
{
    if 0 <= pos < s.len() {
        reveal_strlit("http");
        let end = crate::text::char_from(s, '\n', pos);
        crate::text::lemma_char_from(s, '\n', pos);
        let line = crate::text::trimmed(s.subrange(pos, end));
        let (next, done) = line_effect(line, country, pending);
        law_channels_have_an_address(s, end + 1, country, next);
        let rest = channels_from(s, end + 1, country, next);
        let all = channels_from(s, pos, country, pending);
        assert forall|i: int| 0 <= i < all.len() implies crate::text::starts(
            (#[trigger] all[i]).url,
            "http"@,
        ) && all[i].id.len() > 0 by {
            if done is Some {
                if i > 0 {
                    assert(all[i] == rest[i - 1]);
                }
            } else {
                assert(all[i] == rest[i]);
            }
        }
    }
}

/// The code of a country as it stands in addresses, where it is one.
pub open spec fn country_key(code: Seq<char>) -> Option<Seq<char>> {
    let c = crate::text::lowercase(crate::text::trimmed(code));
    if alpha2(c) {
        Some(c)
    } else {
        None
    }
}

/// The slug of a category as it stands in addresses, where it is one.
pub open spec fn category_key(id: Seq<char>) -> Option<Seq<char>> {
    let c = crate::text::lowercase(crate::text::trimmed(id));
    if slug(c) {
        Some(c)
    } else {
        None
    }
}

/// The code of a country as it stands in addresses.
pub fn country_slug(code: &str) -> (r: Option<String>)
    ensures
        crate::types::text_of(r) == country_key(code@),
{
    let c = trim(code).as_str().to_lowercase();
    if is_alpha2(c.as_str()) {
        Some(c)
    } else {
        None
    }
}

/// The slug of a category as it stands in addresses.
pub fn category_slug(id: &str) -> (r: Option<String>)
    ensures
        crate::types::text_of(r) == category_key(id@),
{
    let c = trim(id).as_str().to_lowercase();
    if is_slug(c.as_str()) {
        Some(c)
    } else {
        None
    }
}

/// The address of the playlist of a country or a category: `kind` is `countries` or `categories`.
pub fn playlist_url(kind: &str, key: &str) -> (r: String)
    ensures
        r@ == BASE@ + "/"@ + kind@ + ("/"@ + key@ + ".m3u"@),
{
    let mut out = join3(BASE, "/", kind);
    out.append(join3("/", key, ".m3u").as_str());
    out
}

/// The address of the playlist of all channels.
pub fn index_url() -> (r: String)
    ensures
        r@ == BASE@ + "/index.m3u"@ + ""@,
{
    join3(BASE, "/index.m3u", "")
}

/// The path of a stored playlist below the directory of stored data.
pub fn cache_path(sub: &str, key: &str) -> (r: String)
    ensures
        r@ == "tv/"@ + sub@ + "/"@ + (key@ + ".m3u"@ + ""@),
{
    let mut out = join3("tv/", sub, "/");
    out.append(join3(key, ".m3u", "").as_str());
    out
}

/// The channels of a country, from the text of its playlist. A code that is not two letters has
/// none, and neither has a country whose playlist cannot be had.
pub fn by_country(code: &str, text: Option<&str>) -> (r: Vec<TvChannel>)
    ensures
        crate::types::channel_views(r@) == (match (country_key(code@), text) {
            (Some(c), Some(t)) => playlist_channels(t@, Some(crate::text::uppercase(c))),
            _ => Seq::empty(),
        }),
{
    match (country_slug(code), text) {
        (Some(c), Some(t)) => {
            let upper = c.as_str().to_uppercase();
            parse_m3u(t, Some(upper.as_str()))
        },
        _ => {
            let none: Vec<TvChannel> = Vec::new();
            assert(crate::types::channel_views(none@) =~= Seq::empty());
            none
        },
    }
}

/// The first `n` of a list, or all where there are fewer.
pub open spec fn first_of(s: Seq<TvChannelView>, n: int) -> Seq<TvChannelView> {
    if s.len() <= n {
        s
    } else {
        s.subrange(0, n)
    }
}

/// Every channel of a category, from the text of its playlist. A category whose playlist cannot be
/// had has none.
pub fn by_category(id: &str, text: Option<&str>) -> (r: Vec<TvChannel>)
    ensures
        crate::types::channel_views(r@) == (match (category_key(id@), text) {
            (Some(_), Some(t)) => playlist_channels(t@, None),
            _ => Seq::empty(),
        }),
{
    match (category_slug(id), text) {
        (Some(_), Some(t)) => parse_m3u(t, None),
        _ => {
            let none: Vec<TvChannel> = Vec::new();
            assert(crate::types::channel_views(none@) =~= Seq::empty());
            none
        },
    }
}

/// An optional text, in lower case, has `q` in it; a missing one counts as empty.
pub open spec fn mentions(t: Option<Seq<char>>, q: Seq<char>) -> bool {
    crate::text::contains(
        crate::text::lowercase(
            match t {
                Some(s) => s,
                None => ""@,
            },
        ),
        q,
    )
}

/// A channel that a query finds: by its name, its group or its country. The empty query finds all.
pub open spec fn found_by(c: TvChannelView, q: Seq<char>) -> bool {
    q.len() == 0 || mentions(Some(c.name), q) || mentions(c.group, q) || mentions(c.country, q)
}

/// The channels that a query finds.
pub open spec fn hits(all: Seq<TvChannelView>, q: Seq<char>) -> Seq<TvChannelView>
    decreases all.len(),
{
    if all.len() == 0 {
        Seq::empty()
    } else if found_by(all.last(), q) {
        hits(all.drop_last(), q).push(all.last())
    } else {
        hits(all.drop_last(), q)
    }
}

proof fn lemma_hits_prefix(all: Seq<TvChannelView>, q: Seq<char>, n: int)
    requires
        0 <= n <= all.len(),
    ensures
        hits(all.take(n), q).len() <= hits(all, q).len(),
        hits(all.take(n), q) == hits(all, q).subrange(0, hits(all.take(n), q).len() as int),
    decreases all.len(),
{
    if n == all.len() {
        assert(all.take(n) =~= all);
        assert(hits(all, q).subrange(0, hits(all, q).len() as int) =~= hits(all, q));
    } else {
        assert(all.drop_last().take(n) =~= all.take(n));
        lemma_hits_prefix(all.drop_last(), q, n);
        let a = hits(all.take(n), q);
        assert(hits(all, q).subrange(0, a.len() as int) =~= hits(all.drop_last(), q).subrange(
            0,
            a.len() as int,
        ));
    }
}

/// A query without white space around it and in lower case.
pub open spec fn query_key(query: Seq<char>) -> Seq<char> {
    crate::text::lowercase(crate::text::trimmed(query))
}

fn has(t: &Option<String>, q: &str) -> (r: bool)
    ensures
        r == mentions(crate::types::text_of(*t), q@),
{
    match t {
        Some(s) => contains_text(s.as_str().to_lowercase().as_str(), q),
        None => contains_text("".to_lowercase().as_str(), q),
    }
}

/// The channels that a query finds among all of them, or among the built-in ones where the
/// directory is empty: no more than a search shows, in their order.
pub fn search(query: &str, index: &Vec<TvChannel>, seed: &Vec<TvChannel>) -> (r: Vec<TvChannel>)
    ensures
        crate::types::channel_views(r@) == first_of(
            hits(
                crate::types::channel_views(
                    if index@.len() == 0 {
                        seed@
                    } else {
                        index@
                    },
                ),
                query_key(query@),
            ),
            MAX_RESULTS as int,
        ),
{
    let all = if index.len() == 0 {
        seed
    } else {
        index
    };
    let q = trim(query).as_str().to_lowercase();
    let ghost views = crate::types::channel_views(all@);
    let mut out: Vec<TvChannel> = Vec::new();
    let mut i: usize = 0;
    assert(views.take(0) =~= Seq::empty());
    assert(crate::types::channel_views(out@) =~= Seq::empty());
    while i < all.len()
        invariant
            i <= all@.len(),
            views == crate::types::channel_views(
                if index@.len() == 0 {
                    seed@
                } else {
                    index@
                },
            ),
            views == crate::types::channel_views(all@),
            q@ == query_key(query@),
            crate::types::channel_views(out@) == hits(views.take(i as int), q@),
            out@.len() <= MAX_RESULTS,
        decreases all@.len() - i,
    {
        if out.len() == MAX_RESULTS {
            proof {
                lemma_hits_prefix(views, q@, i as int);
                assert(crate::types::channel_views(out@).len() == out@.len());
                assert(crate::types::channel_views(out@) =~= first_of(
                    hits(views, q@),
                    MAX_RESULTS as int,
                ));
            }
            return out;
        }
        let c = &all[i];
        let ghost before = out@;
        assert(views.take(i + 1).drop_last() =~= views.take(i as int));
        assert(views.take(i + 1).last() == c@);
        if q.as_str().is_empty() || contains_text(
            c.name.as_str().to_lowercase().as_str(),
            q.as_str(),
        ) || has(&c.group, q.as_str()) || has(&c.country, q.as_str()) {
            out.push(c.clone());
            assert(crate::types::channel_views(out@) =~= crate::types::channel_views(before).push(
                c@,
            ));
        }
        i += 1;
    }
    assert(views.take(i as int) =~= views);
    assert(crate::types::channel_views(out@).len() == out@.len());
    out
}

/// Whether a stored playlist is fresh, by its age where it has one.
pub fn is_fresh(age_nanos: Option<u128>) -> (r: bool)
    ensures
        r == (age_nanos matches Some(age) && age < TTL_NANOS),
{
    match age_nanos {
        Some(age) => age < TTL_NANOS,
        None => false,
    }
}

/// The text of a playlist that needs no fetching: a fresh one that can be read.
pub fn stored_text(fresh: bool, stored: Option<String>) -> (r: Option<String>)
    ensures
        r == (if fresh {
            stored
        } else {
            None
        }),
{
    if fresh {
        stored
    } else {
        None
    }
}

/// The text of a playlist after fetching it: what was fetched, or else what is stored, however
/// old.
pub fn fetched_text(fetched: Option<String>, stored: Option<String>) -> (r: Option<String>)
    ensures
        r == (if fetched is Some {
            fetched
        } else {
            stored
        }),
{
    if fetched.is_some() {
        fetched
    } else {
        stored
    }
}

/// A text, in lower case, has a query in it that is given without white space around it and in lower
/// case too.
pub open spec fn speaks_of(text: Seq<char>, query: Seq<char>) -> bool {
    exists|at: int| #[trigger]
        crate::text::stands_at(
            crate::text::lowercase(text),
            crate::text::lowercase(crate::text::trimmed(query)),
            at,
        )
}

/// A channel speaks of a query in its name, in its group or in its country.
pub open spec fn channel_speaks_of(c: TvChannelView, query: Seq<char>) -> bool {
    ||| speaks_of(c.name, query)
    ||| c.group matches Some(group) && speaks_of(group, query)
    ||| c.country matches Some(country) && speaks_of(country, query)
}

proof fn lemma_speaks(text: Seq<char>, query: Seq<char>)
    ensures
        speaks_of(text, query) <==> crate::text::contains(
            crate::text::lowercase(text),
            query_key(query),
        ),
{
    crate::text::lemma_find(crate::text::lowercase(text), query_key(query), 0);
    if speaks_of(text, query) {
        let at = choose|at: int| #[trigger]
            crate::text::stands_at(
                crate::text::lowercase(text),
                crate::text::lowercase(crate::text::trimmed(query)),
                at,
            );
        assert(crate::text::stands_at(crate::text::lowercase(text), query_key(query), at));
    }
}

proof fn lemma_found(c: TvChannelView, query: Seq<char>)
    ensures
        found_by(c, query_key(query)) <==> query_key(query).len() == 0 || channel_speaks_of(c, query),
{
    lemma_speaks(c.name, query);
    match c.group {
        Some(group) => {
            lemma_speaks(group, query);
        },
        None => {
            lemma_nothing_speaks(query);
        },
    }
    match c.country {
        Some(country) => {
            lemma_speaks(country, query);
        },
        None => {
            lemma_nothing_speaks(query);
        },
    }
}

proof fn lemma_nothing_speaks(query: Seq<char>)
    ensures
        query_key(query).len() > 0 ==> !mentions(None, query_key(query)),
{
    reveal_strlit("");
    crate::text::lemma_find(crate::text::lowercase(""@), query_key(query), 0);
    assert(crate::text::ascii(""@));
}

/// A search goes by name, group and country: the channels of a directory that speak of the query in
/// one of these are found, and no others, each as often as it is listed and in the order of the list.
/// A query of white space finds all.
pub proof fn law_a_search_goes_by_name_group_and_country(
    all: Seq<TvChannelView>,
    query: Seq<char>,
    i: int,
)
    requires
        0 <= i < all.len(),
    ensures
        crate::text::lowercase(crate::text::trimmed(query)).len() > 0 ==> (hits(
            all,
            query_key(query),
        ).contains(all[i]) <==> channel_speaks_of(all[i], query)),
        crate::text::lowercase(crate::text::trimmed(query)).len() == 0 ==> hits(
            all,
            query_key(query),
        ) == all,
        forall|c: TvChannelView| #[trigger]
            hits(all, query_key(query)).contains(c) ==> all.contains(c),
        hits(all, query_key(query)).len() <= all.len(),
    decreases all.len(),
{
    let q = query_key(query);
    let before = all.drop_last();
    let found = hits(all, q);
    let less = hits(before, q);
    lemma_found(all.last(), query);
    assert(all.last() == all[all.len() - 1]);
    if before.len() > 0 {
        let k = if i < before.len() {
            i
        } else {
            0
        };
        law_a_search_goes_by_name_group_and_country(before, query, k);
        lemma_hits_inside(before, q);
    } else {
        assert(less.len() == 0);
        assert(before =~= Seq::empty());
    }
    lemma_hits_inside(all, q);
    if found_by(all.last(), q) {
        assert(found == less.push(all.last()));
        assert(found[less.len() as int] == all.last());
        assert forall|c: TvChannelView| less.contains(c) implies #[trigger] found.contains(c) by {
            let j = choose|j: int| 0 <= j < less.len() && less[j] == c;
            assert(found[j] == c);
        }
        if q.len() == 0 {
            assert(all =~= before.push(all.last()));
        }
    }
    if i < before.len() {
        assert(before[i] == all[i]);
        lemma_found(all[i], query);
        if q.len() > 0 && found.contains(all[i]) {
            let j = choose|j: int| 0 <= j < found.len() && found[j] == all[i];
            if j < less.len() {
                assert(less[j] == all[i]);
            }
        }
    } else if q.len() > 0 && found.contains(all[i]) {
        let j = choose|j: int| 0 <= j < found.len() && found[j] == all[i];
        lemma_hits_match(all, q, j);
    }
}

proof fn lemma_hits_match(all: Seq<TvChannelView>, q: Seq<char>, j: int)
    requires
        0 <= j < hits(all, q).len(),
    ensures
        found_by(hits(all, q)[j], q),
    decreases all.len(),
{
    if all.len() > 0 && j < hits(all.drop_last(), q).len() {
        lemma_hits_match(all.drop_last(), q, j);
    }
}

proof fn lemma_hits_inside(all: Seq<TvChannelView>, q: Seq<char>)
    ensures
        hits(all, q).len() <= all.len(),
        forall|c: TvChannelView| #[trigger] hits(all, q).contains(c) ==> all.contains(c),
    decreases all.len(),
{
    if all.len() > 0 {
        let before = all.drop_last();
        lemma_hits_inside(before, q);
        assert forall|c: TvChannelView| #[trigger] hits(all, q).contains(c) implies all.contains(
            c,
        ) by {
            let j = choose|j: int| 0 <= j < hits(all, q).len() && hits(all, q)[j] == c;
            if j < hits(before, q).len() {
                assert(hits(before, q)[j] == c);
                assert(hits(before, q).contains(c));
                assert(before.contains(c));
                let k = choose|k: int| 0 <= k < before.len() && before[k] == c;
                assert(all[k] == c);
            } else {
                assert(all[all.len() - 1] == c);
            }
        }
    }
}

/// What a search shows are the first channels that it finds, and all of them where there are no more
/// than six hundred; a channel alone in a directory is found by its own name, group and country.
pub proof fn law_a_channel_is_found_by_what_it_is(
    all: Seq<TvChannelView>,
    c: TvChannelView,
    word: Seq<char>,
    q: Seq<char>,
)
    requires
        crate::text::trimmed(word) == word,
        word == c.name || c.group == Some(word) || c.country == Some(word),
    ensures
        first_of(hits(seq![c], query_key(word)), MAX_RESULTS as int) == seq![c],
        hits(all, q).len() <= 600 ==> first_of(hits(all, q), MAX_RESULTS as int) == hits(all, q),
        first_of(hits(all, q), MAX_RESULTS as int).len() <= 600,
        first_of(hits(all, q), MAX_RESULTS as int).is_prefix_of(hits(all, q)),
{
    let one = seq![c];
    let low = crate::text::lowercase(word);
    assert(low.subrange(0, low.len() as int) =~= low);
    assert(crate::text::stands_at(low, crate::text::lowercase(crate::text::trimmed(word)), 0));
    assert(speaks_of(word, word));
    lemma_found(c, word);
    assert(one.drop_last() =~= Seq::<TvChannelView>::empty());
    assert(hits(one.drop_last(), query_key(word)) =~= Seq::empty());
    assert(one.last() == c);
    assert(hits(one, query_key(word)) =~= one);
    let found = hits(all, q);
    if found.len() > 600 {
        assert(found.subrange(0, 600) =~= found.take(600));
    }
}

/// Whether the answer of a stream means that it can be played: success, and a body with the mark of
/// a playlist or a type that says it is one.
pub open spec fn alive(status: u16, body_head: Seq<char>, content_type: Seq<char>) -> bool {
    let ct = crate::text::ascii_lowercase(content_type);
    200 <= status < 300 && (crate::text::contains(body_head, "#EXTM3U"@) || crate::text::contains(
        ct,
        "mpegurl"@,
    ) || crate::text::contains(ct, "vnd.apple"@) || crate::text::contains(ct, "octet-stream"@))
}

/// Whether the answer of a stream means that it can be played.
pub fn probe_is_alive(status: u16, body_head: &str, content_type: &str) -> (r: bool)
    ensures
        r == alive(status, body_head@, content_type@),
{
    if !(200 <= status && status < 300) {
        return false;
    }
    let ct = lower_ascii(content_type);
    contains_text(body_head, "#EXTM3U") || contains_text(ct.as_str(), "mpegurl") || contains_text(
        ct.as_str(),
        "vnd.apple",
    ) || contains_text(ct.as_str(), "octet-stream")
}

/// The headers of a probe: the start of the stream, and what its channel asks for.
pub fn probe_headers(ch: &TvChannel) -> (r: Vec<(String, String)>)
    ensures
        crate::bonjour::pair_texts(r@) == seq![("range"@, "bytes=0-2047"@)] + (match ch@.user_agent {
            Some(ua) => if ua.len() > 0 {
                seq![("user-agent"@, ua)]
            } else {
                Seq::empty()
            },
            None => Seq::empty(),
        }) + (match ch@.referrer {
            Some(r) => if r.len() > 0 {
                seq![("referer"@, r)]
            } else {
                Seq::empty()
            },
            None => Seq::empty(),
        }),
{
    let mut out: Vec<(String, String)> = Vec::new();
    out.push(("range".to_owned(), "bytes=0-2047".to_owned()));
    assert(crate::bonjour::pair_texts(out@) =~= seq![("range"@, "bytes=0-2047"@)]);
    let ghost first = out@;
    if let Some(ua) = &ch.user_agent {
        if !ua.as_str().is_empty() {
            out.push(("user-agent".to_owned(), ua.clone()));
            assert(crate::bonjour::pair_texts(out@) =~= crate::bonjour::pair_texts(first).push(
                ("user-agent"@, ua@),
            ));
        }
    }
    let ghost second = out@;
    if let Some(r) = &ch.referrer {
        if !r.as_str().is_empty() {
            out.push(("referer".to_owned(), r.clone()));
            assert(crate::bonjour::pair_texts(out@) =~= crate::bonjour::pair_texts(second).push(
                ("referer"@, r@),
            ));
        }
    }
    assert(crate::bonjour::pair_texts(out@) =~= seq![("range"@, "bytes=0-2047"@)] + (
    match ch@.user_agent {
        Some(ua) => if ua.len() > 0 {
            seq![("user-agent"@, ua)]
        } else {
            Seq::empty()
        },
        None => Seq::empty(),
    }) + (match ch@.referrer {
        Some(r) => if r.len() > 0 {
            seq![("referer"@, r)]
        } else {
            Seq::empty()
        },
        None => Seq::empty(),
    }));
    out
}

/// Whether a verdict taken at `at` is still trusted at `now`, both in nanoseconds; a verdict from
/// the future is.
pub open spec fn health_fresh(at: u64, now: u64) -> bool {
    now - at < HEALTH_TTL_NANOS
}

/// Whether a verdict is still trusted.
pub fn is_health_fresh(at: u64, now: u64) -> (r: bool)
    ensures
        r == health_fresh(at, now),
{
    if now < at {
        true
    } else {
        now - at < HEALTH_TTL_NANOS
    }
}

/// A verdict on a stream.
struct Health {
    url: String,
    alive: bool,
    at: u64,
}

spec fn health_from(seen: Seq<Health>, url: Seq<char>, from: int) -> Option<int>
    decreases seen.len() - from,
{
    if !(0 <= from < seen.len()) {
        None
    } else if seen[from].url@ == url {
        Some(from)
    } else {
        health_from(seen, url, from + 1)
    }
}

/// The verdicts on streams, by their addresses.
pub struct TvHealthCache {
    seen: Vec<Health>,
}

impl TvHealthCache {
    /// The verdict on a stream and when it was taken.
    pub closed spec fn verdict(&self, url: Seq<char>) -> Option<(bool, u64)> {
        match health_from(self.seen@, url, 0) {
            Some(i) => Some((self.seen@[i].alive, self.seen@[i].at)),
            None => None,
        }
    }

    /// No verdicts.
    pub fn new() -> (r: TvHealthCache)
        ensures
            forall|url: Seq<char>| #[trigger] r.verdict(url) is None,
    {
        TvHealthCache { seen: Vec::new() }
    }

    fn place(&self, url: &str) -> (r: Option<usize>)
        ensures
            match r {
                Some(i) => i < self.seen@.len() && health_from(self.seen@, url@, 0) == Some(
                    i as int,
                ),
                None => health_from(self.seen@, url@, 0) is None,
            },
    {
        let mut i: usize = 0;
        while i < self.seen.len()
            invariant
                i <= self.seen@.len(),
                health_from(self.seen@, url@, i as int) == health_from(self.seen@, url@, 0),
            decreases self.seen@.len() - i,
        {
            if same_text(self.seen[i].url.as_str(), url) {
                return Some(i);
            }
            i += 1;
        }
        None
    }

    /// The verdict on a stream, where there is one that is still trusted.
    pub fn fresh(&self, url: &str, now: u64) -> (r: Option<bool>)
        ensures
            r == (match self.verdict(url@) {
                Some((alive, at)) => if health_fresh(at, now) {
                    Some(alive)
                } else {
                    None
                },
                None => None,
            }),
    {
        match self.place(url) {
            Some(i) => {
                if is_health_fresh(self.seen[i].at, now) {
                    Some(self.seen[i].alive)
                } else {
                    None
                }
            },
            None => None,
        }
    }

    /// Stores a verdict in place of any earlier one on the same stream.
    pub fn store(&mut self, url: &str, alive: bool, now: u64)
        ensures
            final(self).verdict(url@) == Some((alive, now)),
            forall|other: Seq<char>|
                other != url@ ==> #[trigger] final(self).verdict(other) == old(self).verdict(other),
    {
        let ghost before = self.seen@;
        match self.place(url) {
            Some(i) => {
                proof {
                    lemma_health_from(before, url@, 0);
                }
                self.seen[i] = Health { url: url.to_owned(), alive, at: now };
                proof {
                    let now_seen = self.seen@;
                    assert forall|x: Seq<char>| #[trigger] health_from(now_seen, x, 0)
                        == health_from(before, x, 0) by {
                        lemma_same_urls(before, now_seen, x, 0);
                    }
                    assert forall|other: Seq<char>| other != url@ implies #[trigger] self.verdict(
                        other,
                    ) == old(self).verdict(other) by {
                        lemma_health_from(before, other, 0);
                        assert(health_from(now_seen, other, 0) == health_from(before, other, 0));
                    }
                    assert(health_from(now_seen, url@, 0) == Some(i as int));
                }
            },
            None => {
                self.seen.push(Health { url: url.to_owned(), alive, at: now });
                proof {
                    let now_seen = self.seen@;
                    assert forall|x: Seq<char>| x != url@ implies #[trigger] self.verdict(x) == old(
                        self,
                    ).verdict(x) by {
                        lemma_health_from(before, x, 0);
                        lemma_health_from(now_seen, x, 0);
                        if let Some(k) = health_from(before, x, 0) {
                            assert(now_seen[k] == before[k]);
                            let m = health_from(now_seen, x, 0)->0;
                            if m < k {
                                assert(now_seen[m] == before[m]);
                            }
                        } else if let Some(m) = health_from(now_seen, x, 0) {
                            if m < before.len() {
                                assert(now_seen[m] == before[m]);
                            }
                        }
                    }
                    lemma_health_from(before, url@, 0);
                    lemma_health_from(now_seen, url@, 0);
                    assert(now_seen[before.len() as int].url@ == url@);
                    let m = health_from(now_seen, url@, 0)->0;
                    if m < before.len() {
                        assert(now_seen[m] == before[m]);
                    }
                }
            },
        }
    }
}

proof fn lemma_health_from(seen: Seq<Health>, url: Seq<char>, from: int)
    requires
        0 <= from,
    ensures
        match health_from(seen, url, from) {
            Some(i) => from <= i < seen.len() && seen[i].url@ == url && forall|j: int|
                from <= j < i ==> (#[trigger] seen[j]).url@ != url,
            None => forall|j: int| from <= j < seen.len() ==> (#[trigger] seen[j]).url@ != url,
        },
    decreases seen.len() - from,
{
    if from < seen.len() && seen[from].url@ != url {
        lemma_health_from(seen, url, from + 1);
    }
}

proof fn lemma_same_urls(a: Seq<Health>, b: Seq<Health>, x: Seq<char>, from: int)
    requires
        a.len() == b.len(),
        forall|i: int| 0 <= i < a.len() ==> (#[trigger] a[i]).url@ == b[i].url@,
    ensures
        health_from(a, x, from) == health_from(b, x, from),
    decreases a.len() - from,
{
    if 0 <= from < a.len() {
        assert(a[from].url@ == b[from].url@);
        lemma_same_urls(a, b, x, from + 1);
    }
}

/// What the verdicts say of a channel at `now`.
pub open spec fn known_health(cache: TvHealthCache, c: TvChannelView, now: u64) -> Option<bool> {
    match cache.verdict(c.url) {
        Some((alive, at)) => if health_fresh(at, now) {
            Some(alive)
        } else {
            None
        },
        None => None,
    }
}

/// The ids of the channels that are known to be on the air.
pub open spec fn known_alive(channels: Seq<TvChannelView>, cache: TvHealthCache, now: u64) -> Seq<
    Seq<char>,
>
    decreases channels.len(),
{
    if channels.len() == 0 {
        Seq::empty()
    } else {
        let rest = known_alive(channels.drop_last(), cache, now);
        if known_health(cache, channels.last(), now) == Some(true) {
            rest.push(channels.last().id)
        } else {
            rest
        }
    }
}

/// The places of the channels of which nothing is known.
pub open spec fn unknown(channels: Seq<TvChannelView>, cache: TvHealthCache, now: u64) -> Seq<int>
    decreases channels.len(),
{
    if channels.len() == 0 {
        Seq::empty()
    } else {
        let rest = unknown(channels.drop_last(), cache, now);
        if known_health(cache, channels.last(), now) is None {
            rest.push(channels.len() - 1)
        } else {
            rest
        }
    }
}

/// The ids of the channels that are known to be on the air, and the places of those that are to
/// be probed.
pub fn check_alive(channels: &[TvChannel], cache: &TvHealthCache, now: u64) -> (r: (
    Vec<String>,
    Vec<usize>,
))
    ensures
        crate::text::texts(r.0@) == known_alive(
            crate::types::channel_views(channels@),
            *cache,
            now,
        ),
        r.1@.map_values(|i: usize| i as int) == unknown(
            crate::types::channel_views(channels@),
            *cache,
            now,
        ),
{
    let ghost all = crate::types::channel_views(channels@);
    let mut known: Vec<String> = Vec::new();
    let mut todo: Vec<usize> = Vec::new();
    let mut i: usize = 0;
    assert(all.take(0) =~= Seq::empty());
    assert(crate::text::texts(known@) =~= Seq::empty());
    assert(todo@.map_values(|i: usize| i as int) =~= Seq::empty());
    while i < channels.len()
        invariant
            i <= channels@.len(),
            all == crate::types::channel_views(channels@),
            crate::text::texts(known@) == known_alive(all.take(i as int), *cache, now),
            todo@.map_values(|i: usize| i as int) == unknown(all.take(i as int), *cache, now),
        decreases channels@.len() - i,
    {
        let c = &channels[i];
        let ghost k = known@;
        let ghost t = todo@;
        assert(all.take(i + 1).drop_last() =~= all.take(i as int));
        assert(all.take(i + 1).last() == c@);
        match cache.fresh(c.url.as_str(), now) {
            Some(true) => {
                known.push(c.id.clone());
                assert(crate::text::texts(known@) =~= crate::text::texts(k).push(c@.id));
            },
            Some(false) => {},
            None => {
                todo.push(i);
                assert(todo@.map_values(|i: usize| i as int) =~= t.map_values(
                    |i: usize| i as int,
                ).push(i as int));
            },
        }
        i += 1;
    }
    assert(all.take(i as int) =~= all);
    (known, todo)
}

/// How many probes run at once for so many channels.
pub fn probe_workers(todo: usize) -> (r: usize)
    ensures
        r == (if todo < HEALTH_CONCURRENCY {
            todo
        } else {
            HEALTH_CONCURRENCY
        }),
{
    if todo < HEALTH_CONCURRENCY {
        todo
    } else {
        HEALTH_CONCURRENCY
    }
}

/// Stores the verdict of a probe and adds the channel to those on the air where it is.
pub fn record_probe(
    channel: &TvChannel,
    ok: bool,
    cache: &mut TvHealthCache,
    now: u64,
    known: &mut Vec<String>,
)
    ensures
        final(cache).verdict(channel@.url) == Some((ok, now)),
        forall|other: Seq<char>|
            other != channel@.url ==> #[trigger] final(cache).verdict(other) == old(cache).verdict(
                other,
            ),
        crate::text::texts(final(known)@) == (if ok {
            crate::text::texts(old(known)@).push(channel@.id)
        } else {
            crate::text::texts(old(known)@)
        }),
{
    cache.store(channel.url.as_str(), ok, now);
    if ok {
        known.push(channel.id.clone());
        assert(crate::text::texts(known@) =~= crate::text::texts(old(known)@).push(channel@.id));
    }
}

/// A channel that a check knows to be on the air is one of those checked, and none is both known
/// and to be probed.
pub proof fn law_check_splits_channels(
    channels: Seq<TvChannelView>,
    cache: TvHealthCache,
    now: u64,
    i: int,
)
    requires
        0 <= i < channels.len(),
    ensures
        known_health(cache, channels[i], now) == Some(true) ==> known_alive(
            channels,
            cache,
            now,
        ).contains(channels[i].id),
        unknown(channels, cache, now).contains(i) <==> known_health(cache, channels[i], now) is None,
    decreases channels.len(),
{
    let head = channels.drop_last();
    let n = channels.len() - 1;
    let a = known_alive(head, cache, now);
    let u = unknown(head, cache, now);
    lemma_unknown_inside(head, cache, now);
    if i < n {
        law_check_splits_channels(head, cache, now, i);
        if known_health(cache, channels[i], now) == Some(true) {
            let k = choose|k: int| 0 <= k < a.len() && a[k] == channels[i].id;
            assert(known_alive(channels, cache, now)[k] == channels[i].id);
        }
        if u.contains(i) {
            let k = choose|k: int| 0 <= k < u.len() && u[k] == i;
            assert(unknown(channels, cache, now)[k] == i);
        }
        if unknown(channels, cache, now).contains(i) {
            let k = choose|k: int|
                0 <= k < unknown(channels, cache, now).len() && unknown(channels, cache, now)[k]
                    == i;
            assert(u[k] == i);
        }
    } else {
        if known_health(cache, channels[i], now) == Some(true) {
            assert(known_alive(channels, cache, now)[a.len() as int] == channels[i].id);
        }
        if known_health(cache, channels[i], now) is None {
            assert(unknown(channels, cache, now)[u.len() as int] == i);
        } else if unknown(channels, cache, now).contains(i) {
            let k = choose|k: int| 0 <= k < u.len() && u[k] == i;
            assert(u[k] < n);
        }
    }
}

proof fn lemma_unknown_inside(channels: Seq<TvChannelView>, cache: TvHealthCache, now: u64)
    ensures
        forall|k: int|
            0 <= k < unknown(channels, cache, now).len() ==> 0 <= #[trigger] unknown(
                channels,
                cache,
                now,
            )[k] < channels.len(),
    decreases channels.len(),
{
    if channels.len() > 0 {
        let u = unknown(channels.drop_last(), cache, now);
        let v = unknown(channels, cache, now);
        lemma_unknown_inside(channels.drop_last(), cache, now);
        assert forall|k: int| 0 <= k < v.len() implies 0 <= #[trigger] v[k] < channels.len() by {
            if k < u.len() {
                assert(v[k] == u[k]);
            }
        }
    }
}

/// The attributes of an announcement.
pub open spec fn attributes_in(rest: Seq<char>) -> Seq<char> {
    rest.subrange(0, list_end(rest, 0, false))
}

/// Each field of a channel follows an attribute of its own: announcements that agree in the attribute
/// agree in the field, whatever else they say, and one without the attribute leaves it out. The country
/// that is named goes before all others.
pub proof fn law_each_field_has_its_attribute(
    rest: Seq<char>,
    other: Seq<char>,
    country: Option<Seq<char>>,
    elsewhere: Option<Seq<char>>,
)
    ensures
        ({
            let (a, b) = (attributes_in(rest), attributes_in(other));
            let (c, d) = (announced(rest, country), announced(other, elsewhere));
            &&& attr_of(a, "tvg-logo"@) == attr_of(b, "tvg-logo"@) ==> c.logo == d.logo
            &&& attr_of(a, "tvg-logo"@) is None ==> c.logo is None
            &&& attr_of(a, "tvg-id"@) == attr_of(b, "tvg-id"@) ==> c.id == d.id
            &&& attr_of(a, "tvg-id"@) is None ==> c.id.len() == 0
            &&& attr_of(a, "group-title"@) == attr_of(b, "group-title"@) ==> c.group == d.group
            &&& attr_of(a, "group-title"@) is None ==> c.group is None
            &&& attr_of(a, "http-user-agent"@) == attr_of(b, "http-user-agent"@) ==> c.user_agent
                == d.user_agent
            &&& attr_of(a, "http-user-agent"@) is None ==> c.user_agent is None
            &&& attr_of(a, "http-referrer"@) == attr_of(b, "http-referrer"@) ==> c.referrer
                == d.referrer
            &&& attr_of(a, "http-referrer"@) is None ==> c.referrer is None
            &&& attr_of(a, "tvg-country"@) is Some && attr_of(a, "tvg-country"@) == attr_of(
                b,
                "tvg-country"@,
            ) ==> c.country == d.country
            &&& attr_of(a, "tvg-country"@) is None && country_in_id(c.id) is None ==> c.country
                == country
        }),
{
}

/// An attribute is what stands between the quotation marks behind its key, without white space around
/// it; a blank one is none, and so is one whose quotation mark is not closed.
pub proof fn law_an_attribute_stands_in_quotation_marks(
    lead: Seq<char>,
    key: Seq<char>,
    v: Seq<char>,
    tail: Seq<char>,
)
    requires
        forall|i: int| 0 <= i < v.len() ==> #[trigger] v[i] != '"',
        crate::text::find_from(
            lead + key + seq!['=', '"'] + v + seq!['"'] + tail,
            key + seq!['=', '"'],
            0,
        ) == Some(lead.len() as int),
    ensures
        ({
            let r = attr_of(lead + key + seq!['=', '"'] + v + seq!['"'] + tail, key);
            if crate::text::trimmed(v).len() == 0 {
                r is None
            } else {
                r == Some(crate::text::trimmed(v))
            }
        }),
{
    reveal_strlit("=\"");
    reveal_strlit("");
    let attrs = lead + key + seq!['=', '"'] + v + seq!['"'] + tail;
    let needle = key + "=\""@ + ""@;
    assert(needle =~= key + seq!['=', '"']);
    let start: int = lead.len() + needle.len() as int;
    lemma_closing_mark(attrs, start, start + v.len());
    assert(attrs.subrange(start, start + v.len()) =~= v);
}

proof fn lemma_closing_mark(s: Seq<char>, from: int, to: int)
    requires
        0 <= from <= to < s.len(),
        s[to] == '"',
        forall|i: int| from <= i < to ==> #[trigger] s[i] != '"',
    ensures
        crate::text::char_from(s, '"', from) == to,
    decreases to - from,
{
    if from < to {
        lemma_closing_mark(s, from + 1, to);
    }
}

/// A player option sets the header that it names, to its value without quotation marks, and no other
/// field; an option without a value sets nothing.
pub proof fn law_options_set_their_header(c: TvChannelView, opt: Seq<char>)
    ensures
        ({
            let d = with_option(c, opt);
            let eq = crate::text::char_from(opt, '=', 0);
            let key = crate::text::trimmed(opt.subrange(0, eq));
            let value = unquoted(crate::text::trimmed(opt.subrange(eq + 1, opt.len() as int)));
            &&& d == (TvChannelView { user_agent: d.user_agent, referrer: d.referrer, ..c })
            &&& d.user_agent == c.user_agent || d.referrer == c.referrer
            &&& eq < opt.len() && value.len() > 0 && key == "http-user-agent"@ ==> d.user_agent
                == Some(value)
            &&& eq < opt.len() && value.len() > 0 && key == "http-referrer"@ ==> d.referrer == Some(
                value,
            )
            &&& key != "http-user-agent"@ ==> d.user_agent == c.user_agent
            &&& key != "http-referrer"@ ==> d.referrer == c.referrer
        }),
{
    reveal_strlit("http-user-agent");
    reveal_strlit("http-referrer");
    assert("http-user-agent"@.len() != "http-referrer"@.len());
}

} // verus!
