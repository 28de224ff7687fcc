//! Phone Link: the phones this desktop is paired with, how they are reached and authenticated, and
//! what their replies mean.
//!
//! The network itself is outside: requests are sent, and replies handed in, by the caller.

use vstd::prelude::*;
use crate::encoding::{encode_standard, random_hex};
use crate::text::{chars_of, decimal_text, is_blank, join3, lower_ascii, same_text, string_of, text_precedes, trim, trim_suffix};

verus! {

/// The mDNS service type that both apps advertise and browse.
pub const SERVICE_TYPE: &'static str = "_hypemuzik._tcp.local.";

/// A phone on the network, or one already paired.
#[derive(Debug, PartialEq, Eq)]
pub struct PhoneDevice {
    /// The id that the phone advertises.
    pub id: String,
    pub name: String,
    pub host: String,
    pub port: u16,
}

/// The content of a [`PhoneDevice`].
pub struct PhoneDeviceView {
    pub id: Seq<char>,
    pub name: Seq<char>,
    pub host: Seq<char>,
    pub port: u16,
}

impl View for PhoneDevice {
    type V = PhoneDeviceView;

    open spec fn view(&self) -> PhoneDeviceView {
        PhoneDeviceView { id: self.id@, name: self.name@, host: self.host@, port: self.port }
    }
}

impl Clone for PhoneDevice {
    fn clone(&self) -> (r: PhoneDevice)
        ensures
            r@ == self@,
    {
        PhoneDevice {
            id: self.id.clone(),
            name: self.name.clone(),
            host: self.host.clone(),
            port: self.port,
        }
    }
}

/// One track of a phone's library.
#[derive(Debug, Clone, PartialEq, Eq)]
pub struct PhoneTrack {
    pub id: String,
    pub title: String,
    pub artist: Option<String>,
    pub album: Option<String>,
    pub duration_ms: Option<u64>,
    /// File extension, which becomes a format hint in the stream URL.
    pub ext: String,
    /// The name of the folder that holds the file on the phone.
    pub folder: Option<String>,
    pub has_art: bool,
}

/// A pairing: enough to reach the phone and authenticate without asking.
#[derive(Debug, PartialEq, Eq)]
pub struct Paired {
    pub id: String,
    pub name: String,
    pub host: String,
    pub port: u16,
    pub token: String,
}

/// The content of a [`Paired`].
pub struct PairedView {
    pub id: Seq<char>,
    pub name: Seq<char>,
    pub host: Seq<char>,
    pub port: u16,
    pub token: Seq<char>,
}

impl View for Paired {
    type V = PairedView;

    open spec fn view(&self) -> PairedView {
        PairedView {
            id: self.id@,
            name: self.name@,
            host: self.host@,
            port: self.port,
            token: self.token@,
        }
    }
}

impl Clone for Paired {
    fn clone(&self) -> (r: Paired)
        ensures
            r@ == self@,
    {
        Paired {
            id: self.id.clone(),
            name: self.name.clone(),
            host: self.host.clone(),
            port: self.port,
            token: self.token.clone(),
        }
    }
}

/// The contents of pairings.
pub open spec fn paired_views(s: Seq<Paired>) -> Seq<PairedView> {
    s.map_values(|d: Paired| d@)
}

/// The contents of devices.
pub open spec fn device_views(s: Seq<PhoneDevice>) -> Seq<PhoneDeviceView> {
    s.map_values(|d: PhoneDevice| d@)
}

/// The pairings but those with the given id.
pub open spec fn without(devices: Seq<PairedView>, id: Seq<char>) -> Seq<PairedView>
    decreases devices.len(),
{
    if devices.len() == 0 {
        devices
    } else {
        let rest = without(devices.drop_last(), id);
        if devices.last().id == id {
            rest
        } else {
            rest.push(devices.last())
        }
    }
}

/// The first pairing from `from` on with the given id.
pub open spec fn place_of(devices: Seq<PairedView>, id: Seq<char>, from: int) -> Option<int>
    decreases devices.len() - from,
{
    if !(0 <= from < devices.len()) {
        None
    } else if devices[from].id == id {
        Some(from)
    } else {
        place_of(devices, id, from + 1)
    }
}

/// The first pairing from `from` on with the given token.
pub open spec fn place_of_token(devices: Seq<PairedView>, token: Seq<char>, from: int) -> Option<int>
    decreases devices.len() - from,
{
    if !(0 <= from < devices.len()) {
        None
    } else if devices[from].token == token {
        Some(from)
    } else {
        place_of_token(devices, token, from + 1)
    }
}

/// The first of the discovered devices from `from` on with the given id.
pub open spec fn sighting(found: Seq<PhoneDeviceView>, id: Seq<char>, from: int) -> Option<int>
    decreases found.len() - from,
{
    if !(0 <= from < found.len()) {
        None
    } else if found[from].id == id {
        Some(from)
    } else {
        sighting(found, id, from + 1)
    }
}

/// A pairing at the address at which its phone was discovered, where it was.
pub open spec fn readdressed(d: PairedView, found: Seq<PhoneDeviceView>) -> PairedView {
    match sighting(found, d.id, 0) {
        Some(i) => PairedView { host: found[i].host, port: found[i].port, ..d },
        None => d,
    }
}

/// No two pairings have the same id.
pub open spec fn distinct_ids(devices: Seq<PairedView>) -> bool {
    forall|i: int, j: int|
        0 <= i < j < devices.len() ==> (#[trigger] devices[i]).id != (#[trigger] devices[j]).id
}

/// What forgetting an id leaves: nothing with that id, and everything else in its order.
pub proof fn lemma_without(devices: Seq<PairedView>, id: Seq<char>)
    ensures
        forall|i: int|
            0 <= i < without(devices, id).len() ==> (#[trigger] without(devices, id)[i]).id != id,
        forall|i: int|
            0 <= i < without(devices, id).len() ==> devices.contains(
                #[trigger] without(devices, id)[i],
            ),
        without(devices, id).len() <= devices.len(),
        distinct_ids(devices) ==> distinct_ids(without(devices, id)),
    decreases devices.len(),
{
    if devices.len() > 0 {
        let head = devices.drop_last();
        lemma_without(head, id);
        let rest = without(head, id);
        assert forall|i: int| 0 <= i < rest.len() implies devices.contains(#[trigger] rest[i]) by {
            let k = choose|k: int| 0 <= k < head.len() && head[k] == rest[i];
            assert(devices[k] == rest[i]);
        }
        assert(devices.contains(devices.last()));
        if distinct_ids(devices) {
            assert(distinct_ids(head));
            if devices.last().id != id {
                assert forall|i: int, j: int|
                    0 <= i < j < rest.push(devices.last()).len() implies (#[trigger] rest.push(
                    devices.last(),
                )[i]).id != (#[trigger] rest.push(devices.last())[j]).id by {
                    if j == rest.len() {
                        let k = choose|k: int| 0 <= k < head.len() && head[k] == rest[i];
                        assert(devices[k].id != devices[devices.len() - 1].id);
                    }
                }
            }
        }
    }
}

/// A search by id finds the first pairing with the id, and only fails where there is none.
pub proof fn lemma_place(devices: Seq<PairedView>, id: Seq<char>, from: int)
    requires
        0 <= from,
    ensures
        match place_of(devices, id, from) {
            Some(i) => from <= i < devices.len() && devices[i].id == id && forall|j: int|
                from <= j < i ==> (#[trigger] devices[j]).id != id,
            None => forall|j: int| from <= j < devices.len() ==> (#[trigger] devices[j]).id != id,
        },
    decreases devices.len() - from,
{
    if from < devices.len() && devices[from].id != id {
        lemma_place(devices, id, from + 1);
    }
}

/// An address with a path behind it.
pub open spec fn url_of(host: Seq<char>, port: u16, path: Seq<char>) -> Seq<char> {
    "http://"@ + host + ":"@ + crate::text::decimal(port as nat) + path
}

/// Writes an address with a path behind it.
pub fn url(host: &str, port: u16, path: &str) -> (r: String)
    ensures
        r@ == url_of(host@, port, path@),
{
    let mut out = join3("http://", host, ":");
    out.append(decimal_text(port as u64).as_str());
    out.append(path);
    out
}

/// A text without the dots at its start.
pub open spec fn undotted(s: Seq<char>) -> Seq<char>
    decreases s.len(),
{
    if s.len() > 0 && s[0] == '.' {
        undotted(s.subrange(1, s.len() as int))
    } else {
        s
    }
}

/// An extension that the decoder knows.
pub open spec fn known_ext(e: Seq<char>) -> bool {
    e == "mp3"@ || e == "aac"@ || e == "ogg"@ || e == "flac"@ || e == "m4a"@ || e == "wav"@
}

/// The suffix for an extension: a dot and its lower case form where the decoder knows it, and
/// nothing otherwise.
pub open spec fn ext_suffix(ext: Seq<char>) -> Seq<char> {
    let e = crate::text::ascii_lowercase(undotted(crate::text::trimmed(ext)));
    if known_ext(e) {
        "."@ + e + ""@
    } else {
        Seq::empty()
    }
}

/// The suffix for an extension.
pub fn sanitize_ext(ext: &str) -> (r: String)
    ensures
        r@ == ext_suffix(ext@),
{
    let v = chars_of(trim(ext).as_str());
    let mut i: usize = 0;
    assert(v@.subrange(0, v@.len() as int) =~= v@);
    while i < v.len() && v[i] == '.'
        invariant
            i <= v@.len(),
            undotted(v@.subrange(i as int, v@.len() as int)) == undotted(v@),
        decreases v@.len() - i,
    {
        assert(v@.subrange(i as int, v@.len() as int).subrange(1, v@.len() - i)
            =~= v@.subrange(i + 1, v@.len() as int));
        i += 1;
    }
    let e = lower_ascii(string_of(v.as_slice(), i, v.len()).as_str());
    if same_text(e.as_str(), "mp3") || same_text(e.as_str(), "aac") || same_text(e.as_str(), "ogg")
        || same_text(e.as_str(), "flac") || same_text(e.as_str(), "m4a") || same_text(
        e.as_str(),
        "wav",
    ) {
        join3(".", e.as_str(), "")
    } else {
        String::new()
    }
}

/// Where a track of a paired phone is streamed from.
pub open spec fn stream_url_of(d: PairedView, track: Seq<char>, ext: Seq<char>) -> Seq<char> {
    url_of(d.host, d.port, "/stream/"@ + track + ext_suffix(ext))
}

/// Whether `r` is the stream URL of a track with the header that authenticates the request.
pub open spec fn stream_shown(
    r: (String, Vec<(String, String)>),
    d: PairedView,
    track: Seq<char>,
    ext: Seq<char>,
) -> bool {
    &&& r.0@ == stream_url_of(d, track, ext)
    &&& r.1@.len() == 1
    &&& r.1@[0].0@ == "Authorization"@
    &&& r.1@[0].1@ == "Bearer "@ + d.token + ""@
}

/// The stream URL of a track with the header that authenticates the request.
pub fn stream_url(dev: &Paired, track_id: &str, ext: &str) -> (r: (String, Vec<(String, String)>))
    ensures
        stream_shown(r, dev@, track_id@, ext@),
{
    let path = join3("/stream/", track_id, sanitize_ext(ext).as_str());
    let target = url(dev.host.as_str(), dev.port, path.as_str());
    let mut headers: Vec<(String, String)> = Vec::new();
    headers.push(("Authorization".to_owned(), join3("Bearer ", dev.token.as_str(), "")));
    (target, headers)
}

/// What became of a request.
pub enum Reply<T> {
    /// No answer came, for the reason given.
    Unreachable(String),
    /// An answer came; `body` is what was read of it, or why it could not be read.
    Answer { status: u16, status_text: String, body: Result<T, String> },
}

/// A status that means success.
pub open spec fn success(status: u16) -> bool {
    200 <= status && status <= 299
}

fn is_success(status: u16) -> (r: bool)
    ensures
        r == success(status),
{
    200 <= status && status <= 299
}

/// A picture as a phone sends it.
pub struct Artwork {
    pub content_type: Option<String>,
    pub bytes: Vec<u8>,
}

/// How a phone introduces itself.
pub struct Ping {
    pub id: String,
    pub name: String,
}

/// The pairings of this desktop and its own id.
#[derive(Debug)]
pub struct LinkState {
    self_id: String,
    devices: Vec<Paired>,
}

/// The content of a [`LinkState`].
pub struct LinkStateView {
    pub self_id: Seq<char>,
    pub devices: Seq<PairedView>,
}

impl View for LinkState {
    type V = LinkStateView;

    closed spec fn view(&self) -> LinkStateView {
        LinkStateView { self_id: self.self_id@, devices: paired_views(self.devices@) }
    }
}

impl LinkState {
    /// The state as it was stored. A desktop without an id is given a random one of 32
    /// hexadecimal digits; the second result says whether that happened, so that the state is to
    /// be stored again.
    pub fn load(self_id: String, devices: Vec<Paired>) -> (r: (LinkState, bool))
        ensures
            r.0@.devices == paired_views(devices@),
            r.1 == (self_id@.len() == 0),
            !r.1 ==> r.0@.self_id == self_id@,
            r.1 ==> r.0@.self_id.len() == 32 && forall|i: int|
                0 <= i < 32 ==> crate::encoding::is_hex(#[trigger] r.0@.self_id[i]),
    {
        if self_id.as_str().is_empty() {
            (LinkState { self_id: random_hex(16), devices }, true)
        } else {
            (LinkState { self_id, devices }, false)
        }
    }

    /// This desktop's id.
    pub fn self_id(&self) -> (r: String)
        ensures
            r@ == self@.self_id,
    {
        self.self_id.clone()
    }

    /// What is posted to a phone to pair with it, each text under its key.
    pub fn pair_fields(&self, pin: &str, device_name: &str) -> (r: Vec<(String, String)>)
        ensures
            r@.map_values(|f: (String, String)| (f.0@, f.1@)) == seq![
                ("pin"@, pin@),
                ("deviceId"@, self@.self_id),
                ("deviceName"@, device_name@),
            ],
    {
        let mut out: Vec<(String, String)> = Vec::new();
        out.push(("pin".to_owned(), pin.to_owned()));
        out.push(("deviceId".to_owned(), self.self_id.clone()));
        out.push(("deviceName".to_owned(), device_name.to_owned()));
        assert(out@.map_values(|f: (String, String)| (f.0@, f.1@)) =~= seq![
            ("pin"@, pin@),
            ("deviceId"@, self@.self_id),
            ("deviceName"@, device_name@),
        ]);
        out
    }

    /// The pairings, with what authenticates them.
    pub fn devices(&self) -> (r: &Vec<Paired>)
        ensures
            paired_views(r@) == self@.devices,
    {
        &self.devices
    }

    /// The phones this desktop is paired with.
    pub fn paired(&self) -> (r: Vec<PhoneDevice>)
        ensures
            r@.len() == self@.devices.len(),
            forall|i: int|
                0 <= i < r@.len() ==> (#[trigger] r@[i])@ == (PhoneDeviceView {
                    id: self@.devices[i].id,
                    name: self@.devices[i].name,
                    host: self@.devices[i].host,
                    port: self@.devices[i].port,
                }),
    {
        let mut out: Vec<PhoneDevice> = Vec::new();
        let mut i: usize = 0;
        while i < self.devices.len()
            invariant
                i <= self.devices@.len(),
                out@.len() == i,
                self@.devices == paired_views(self.devices@),
                forall|k: int|
                    0 <= k < i ==> (#[trigger] out@[k])@ == (PhoneDeviceView {
                        id: self@.devices[k].id,
                        name: self@.devices[k].name,
                        host: self@.devices[k].host,
                        port: self@.devices[k].port,
                    }),
            decreases self.devices@.len() - i,
        {
            let d = &self.devices[i];
            out.push(
                PhoneDevice {
                    id: d.id.clone(),
                    name: d.name.clone(),
                    host: d.host.clone(),
                    port: d.port,
                },
            );
            i += 1;
        }
        out
    }

    /// Forgets the pairing with a phone.
    pub fn unpair(&mut self, device_id: &str)
        ensures
            final(self)@ == (LinkStateView {
                devices: without(old(self)@.devices, device_id@),
                ..old(self)@
            }),
    {
        let mut kept: Vec<Paired> = Vec::new();
        let mut i: usize = 0;
        let ghost all = paired_views(self.devices@);
        assert(all.take(0) =~= Seq::empty());
        assert(paired_views(kept@) =~= Seq::empty());
        while i < self.devices.len()
            invariant
                self == old(self),
                i <= self.devices@.len(),
                all == paired_views(self.devices@),
                paired_views(kept@) == without(all.take(i as int), device_id@),
            decreases self.devices@.len() - i,
        {
            let d = &self.devices[i];
            let ghost before = kept@;
            assert(all.take(i + 1).drop_last() =~= all.take(i as int));
            if !same_text(d.id.as_str(), device_id) {
                let copy = d.clone();
                kept.push(copy);
                assert(paired_views(kept@) =~= paired_views(before).push(d@));
            }
            i += 1;
        }
        assert(all.take(i as int) =~= all);
        self.devices = kept;
    }

    /// Stores a pairing in place of any earlier one with the same phone.
    pub fn remember(&mut self, dev: Paired)
        ensures
            final(self)@ == (LinkStateView {
                devices: without(old(self)@.devices, dev@.id).push(dev@),
                ..old(self)@
            }),
    {
        let id = dev.id.clone();
        self.unpair(id.as_str());
        let ghost before = self.devices@;
        self.devices.push(dev);
        assert(paired_views(self.devices@) =~= paired_views(before).push(dev@));
    }

    /// The pairing with a phone.
    pub fn find(&self, device_id: &str) -> (r: Result<Paired, String>)
        ensures
            match r {
                Ok(d) => place_of(self@.devices, device_id@, 0) matches Some(i) && d@
                    == self@.devices[i],
                Err(e) => place_of(self@.devices, device_id@, 0) is None && e@
                    == "device not paired"@,
            },
    {
        let mut i: usize = 0;
        while i < self.devices.len()
            invariant
                i <= self.devices@.len(),
                self@.devices == paired_views(self.devices@),
                place_of(self@.devices, device_id@, i as int) == place_of(
                    self@.devices,
                    device_id@,
                    0,
                ),
            decreases self.devices@.len() - i,
        {
            let d = &self.devices[i];
            if same_text(d.id.as_str(), device_id) {
                return Ok(d.clone());
            }
            i += 1;
        }
        Err("device not paired".to_owned())
    }

    /// Takes over the addresses of paired phones that were discovered again, and says whether any
    /// has changed.
    pub fn update_addresses(&mut self, discovered: &[PhoneDevice]) -> (changed: bool)
        ensures
            final(self)@.self_id == old(self)@.self_id,
            final(self)@.devices == old(self)@.devices.map_values(
                |d: PairedView| readdressed(d, device_views(discovered@)),
            ),
            changed == (final(self)@.devices != old(self)@.devices),
    {
        let ghost all = paired_views(self.devices@);
        let ghost found = device_views(discovered@);
        let mut out: Vec<Paired> = Vec::new();
        let mut changed = false;
        let mut i: usize = 0;
        while i < self.devices.len()
            invariant
                self == old(self),
                i <= self.devices@.len(),
                all == paired_views(self.devices@),
                found == device_views(discovered@),
                out@.len() == i,
                forall|k: int| 0 <= k < i ==> (#[trigger] out@[k])@ == readdressed(all[k], found),
                changed == (exists|k: int| 0 <= k < i && (#[trigger] out@[k])@ != all[k]),
            decreases self.devices@.len() - i,
        {
            let d = &self.devices[i];
            let mut copy = d.clone();
            let mut moved = false;
            let mut j: usize = 0;
            let mut seen = false;
            while j < discovered.len() && !seen
                invariant
                    d == self.devices@[i as int],
                    found == device_views(discovered@),
                    j <= discovered@.len(),
                    !seen ==> copy@ == d@ && !moved && sighting(found, d@.id, j as int) == sighting(
                        found,
                        d@.id,
                        0,
                    ),
                    seen ==> copy@ == readdressed(d@, found) && moved == (copy@ != d@),
                decreases discovered@.len() - j + (if seen {
                    0int
                } else {
                    1int
                }),
            {
                let f = &discovered[j];
                if same_text(f.id.as_str(), d.id.as_str()) {
                    moved = !same_text(d.host.as_str(), f.host.as_str()) || d.port != f.port;
                    copy.host = f.host.clone();
                    copy.port = f.port;
                    seen = true;
                } else {
                    j += 1;
                }
            }
            assert(copy@ == readdressed(all[i as int], found));
            let ghost before = out@;
            out.push(copy);
            proof {
                assert forall|k: int| 0 <= k < i + 1 implies (#[trigger] out@[k])@ == readdressed(
                    all[k],
                    found,
                ) by {
                    if k < i {
                        assert(out@[k] == before[k]);
                    }
                }
                if changed {
                    let k = choose|k: int| 0 <= k < i && (#[trigger] before[k])@ != all[k];
                    assert(out@[k]@ != all[k]);
                }
                if moved {
                    assert(out@[i as int]@ != all[i as int]);
                }
                if exists|k: int| 0 <= k < i + 1 && (#[trigger] out@[k])@ != all[k] {
                    let k = choose|k: int| 0 <= k < i + 1 && (#[trigger] out@[k])@ != all[k];
                    if k < i {
                        assert(before[k]@ != all[k]);
                    }
                }
            }
            changed = changed || moved;
            i += 1;
        }
        proof {
            assert(paired_views(out@) =~= all.map_values(|d: PairedView| readdressed(d, found)));
            if changed {
                let k = choose|k: int| 0 <= k < i && (#[trigger] out@[k])@ != all[k];
                assert(paired_views(out@)[k] != all[k]);
            } else {
                assert forall|k: int| 0 <= k < i implies paired_views(out@)[k] == all[k] by {
                    assert(out@[k]@ == all[k]);
                }
                assert(paired_views(out@) =~= all);
            }
        }
        self.devices = out;
        changed
    }
}

/// The reason why a library request fails, if it does.
pub open spec fn library_failure(
    state: LinkStateView,
    device_id: Seq<char>,
    reply: Reply<Vec<PhoneTrack>>,
) -> Option<Seq<char>> {
    if place_of(state.devices, device_id, 0) is None {
        Some("device not paired"@)
    } else {
        match reply {
            Reply::Unreachable(why) => Some("couldn't reach the phone: "@ + why@ + ""@),
            Reply::Answer { status, status_text, body } => if status == 401 {
                Some("pairing expired — pair with the phone again"@)
            } else if !success(status) {
                Some("couldn't load the library ("@ + status_text@ + ")"@)
            } else {
                match body {
                    Ok(_) => None,
                    Err(why) => Some(why@),
                }
            },
        }
    }
}

/// The reason why pairing fails, if it does.
pub open spec fn pairing_failure(reply: Reply<String>) -> Option<Seq<char>> {
    match reply {
        Reply::Unreachable(why) => Some("couldn't reach the phone: "@ + why@ + ""@),
        Reply::Answer { status, status_text, body } => if status == 403 {
            Some("incorrect or expired PIN"@)
        } else if !success(status) {
            Some("pairing failed ("@ + status_text@ + ")"@)
        } else {
            match body {
                Ok(_) => None,
                Err(why) => Some(why@),
            }
        },
    }
}

/// The reason why a phone cannot be asked who it is, if there is one.
pub open spec fn ping_failure(host: Seq<char>, port: u16, reply: Reply<Ping>) -> Option<Seq<char>> {
    match reply {
        Reply::Unreachable(why) => Some(
            "couldn't reach the phone at "@ + host + ":"@ + crate::text::decimal(port as nat) + ": "@
                + why@,
        ),
        Reply::Answer { status, status_text, body } => if !success(status) {
            Some("the phone didn't respond ("@ + status_text@ + ")"@)
        } else {
            match body {
                Ok(_) => None,
                Err(why) => Some(why@),
            }
        },
    }
}

/// The picture of a track as a `data:` URI: a phone that does not say what the picture is sends a
/// JPEG, and an empty picture is none.
pub open spec fn artwork_of(reply: Reply<Artwork>) -> Option<Seq<char>> {
    match reply {
        Reply::Answer { status, body: Ok(art), .. } => if success(status) && art.bytes@.len() > 0 {
            let kind = match art.content_type {
                Some(t) => t@,
                None => "image/jpeg"@,
            };
            Some("data:"@ + kind + ";base64,"@ + crate::encoding::base64_of(art.bytes@))
        } else {
            None
        },
        _ => None,
    }
}

/// The lyrics of a track: a reply of white space has none.
pub open spec fn lyrics_of(reply: Reply<String>) -> Option<Seq<char>> {
    match reply {
        Reply::Answer { status, body: Ok(text), .. } => if success(status)
            && crate::text::trimmed(text@).len() > 0 {
            Some(text@)
        } else {
            None
        },
        _ => None,
    }
}

impl LinkState {
    /// Where a request with the given path goes, and the token that authenticates it.
    pub fn target(&self, device_id: &str, path: &str) -> (r: Result<(String, String), String>)
        ensures
            match r {
                Ok((url, token)) => place_of(self@.devices, device_id@, 0) matches Some(i) && url@
                    == url_of(self@.devices[i].host, self@.devices[i].port, path@) && token@
                    == self@.devices[i].token,
                Err(e) => place_of(self@.devices, device_id@, 0) is None && e@
                    == "device not paired"@,
            },
    {
        match self.find(device_id) {
            Ok(dev) => Ok((url(dev.host.as_str(), dev.port, path), dev.token)),
            Err(e) => Err(e),
        }
    }

    /// Takes the answer to a pairing request, whose body is the token: where the phone accepts,
    /// the pairing is stored.
    pub fn pair(
        &mut self,
        host: &str,
        port: u16,
        name: &str,
        device_id: &str,
        reply: Reply<String>,
    ) -> (r: Result<PhoneDevice, String>)
        ensures
            match r {
                Ok(d) => {
                    &&& pairing_failure(reply) is None
                    &&& d@ == (PhoneDeviceView { id: device_id@, name: name@, host: host@, port })
                    &&& final(self)@ == (LinkStateView {
                        devices: without(old(self)@.devices, device_id@).push(
                            PairedView {
                                id: device_id@,
                                name: name@,
                                host: host@,
                                port,
                                token: reply->body->Ok_0@,
                            },
                        ),
                        ..old(self)@
                    })
                },
                Err(e) => pairing_failure(reply) == Some(e@) && final(self)@ == old(self)@,
            },
    {
        match reply {
            Reply::Unreachable(why) => Err(join3("couldn't reach the phone: ", why.as_str(), "")),
            Reply::Answer { status, status_text, body } => {
                if status == 403 {
                    return Err("incorrect or expired PIN".to_owned());
                }
                if !is_success(status) {
                    return Err(join3("pairing failed (", status_text.as_str(), ")"));
                }
                match body {
                    Ok(token) => {
                        self.remember(
                            Paired {
                                id: device_id.to_owned(),
                                name: name.to_owned(),
                                host: host.to_owned(),
                                port,
                                token,
                            },
                        );
                        Ok(
                            PhoneDevice {
                                id: device_id.to_owned(),
                                name: name.to_owned(),
                                host: host.to_owned(),
                                port,
                            },
                        )
                    },
                    Err(why) => Err(why),
                }
            },
        }
    }

    /// Takes the answer of a phone, known by its address alone, to the question who it is: the
    /// phone to pair with. One without an id is known by its address, one without a name as
    /// `Phone`.
    pub fn pair_by_address(&self, host: &str, port: u16, reply: Reply<Ping>) -> (r: Result<
        PhoneDevice,
        String,
    >)
        ensures
            match r {
                Ok(d) => {
                    &&& ping_failure(host@, port, reply) is None
                    &&& d@ == (PhoneDeviceView {
                        id: if reply->body->Ok_0.id@.len() == 0 {
                            host@ + ":"@ + crate::text::decimal(port as nat)
                        } else {
                            reply->body->Ok_0.id@
                        },
                        name: if reply->body->Ok_0.name@.len() == 0 {
                            "Phone"@
                        } else {
                            reply->body->Ok_0.name@
                        },
                        host: host@,
                        port,
                    })
                },
                Err(e) => ping_failure(host@, port, reply) == Some(e@),
            },
    {
        match reply {
            Reply::Unreachable(why) => {
                let mut text = join3("couldn't reach the phone at ", host, ":");
                text.append(decimal_text(port as u64).as_str());
                text.append(": ");
                text.append(why.as_str());
                Err(text)
            },
            Reply::Answer { status, status_text, body } => {
                if !is_success(status) {
                    return Err(join3("the phone didn't respond (", status_text.as_str(), ")"));
                }
                match body {
                    Ok(ping) => {
                        let id = if ping.id.as_str().is_empty() {
                            join3(host, ":", decimal_text(port as u64).as_str())
                        } else {
                            ping.id
                        };
                        let name = if ping.name.as_str().is_empty() {
                            "Phone".to_owned()
                        } else {
                            ping.name
                        };
                        Ok(PhoneDevice { id, name, host: host.to_owned(), port })
                    },
                    Err(why) => Err(why),
                }
            },
        }
    }

    /// Takes the answer to a request for the picture of a track, as a `data:` URI.
    pub fn artwork_data_uri(&self, device_id: &str, reply: Reply<Artwork>) -> (r: Option<String>)
        requires
            reply matches Reply::Answer { body: Ok(art), .. } ==> (art.bytes@.len() + 2) / 3 * 4
                <= isize::MAX,
        ensures
            match r {
                Some(uri) => place_of(self@.devices, device_id@, 0) is Some && artwork_of(reply)
                    == Some(uri@),
                None => place_of(self@.devices, device_id@, 0) is None || artwork_of(reply) is None,
            },
    {
        if self.find(device_id).is_err() {
            return None;
        }
        match reply {
            Reply::Answer { status, status_text: _, body: Ok(art) } => {
                if !is_success(status) || art.bytes.len() == 0 {
                    return None;
                }
                let kind = match art.content_type {
                    Some(t) => t,
                    None => "image/jpeg".to_owned(),
                };
                let mut out = join3("data:", kind.as_str(), ";base64,");
                out.append(encode_standard(art.bytes.as_slice()).as_str());
                Some(out)
            },
            _ => None,
        }
    }

    /// Takes the answer to a request for the lyrics of a track.
    pub fn lyrics(&self, device_id: &str, reply: Reply<String>) -> (r: Option<String>)
        ensures
            match r {
                Some(text) => place_of(self@.devices, device_id@, 0) is Some && lyrics_of(reply)
                    == Some(text@),
                None => place_of(self@.devices, device_id@, 0) is None || lyrics_of(reply) is None,
            },
    {
        if self.find(device_id).is_err() {
            return None;
        }
        match reply {
            Reply::Answer { status, status_text: _, body: Ok(text) } => {
                if !is_success(status) || is_blank(text.as_str()) {
                    return None;
                }
                Some(text)
            },
            _ => None,
        }
    }

    /// Takes the answer to a request for the tracks of a phone.
    pub fn library(&self, device_id: &str, reply: Reply<Vec<PhoneTrack>>) -> (r: Result<
        Vec<PhoneTrack>,
        String,
    >)
        ensures
            match r {
                Ok(tracks) => library_failure(self@, device_id@, reply) is None && reply->body->Ok_0
                    == tracks,
                Err(e) => library_failure(self@, device_id@, reply) == Some(e@),
            },
    {
        if let Err(e) = self.find(device_id) {
            return Err(e);
        }
        match reply {
            Reply::Unreachable(why) => Err(join3("couldn't reach the phone: ", why.as_str(), "")),
            Reply::Answer { status, status_text, body } => {
                if status == 401 {
                    return Err("pairing expired — pair with the phone again".to_owned());
                }
                if !is_success(status) {
                    return Err(join3("couldn't load the library (", status_text.as_str(), ")"));
                }
                body
            },
        }
    }

    /// Where a track is streamed from, with the header that authenticates the request.
    pub fn stream_target(&self, device_id: &str, track_id: &str, ext: &str) -> (r: Result<
        (String, Vec<(String, String)>),
        String,
    >)
        ensures
            match r {
                Ok(t) => place_of(self@.devices, device_id@, 0) matches Some(i) && stream_shown(
                    t,
                    self@.devices[i],
                    track_id@,
                    ext@,
                ),
                Err(e) => place_of(self@.devices, device_id@, 0) is None && e@
                    == "device not paired"@,
            },
    {
        match self.find(device_id) {
            Ok(dev) => Ok(stream_url(&dev, track_id, ext)),
            Err(e) => Err(e),
        }
    }

    /// The first pairing with a token, which is not empty.
    fn find_token(&self, token: &str) -> (r: Option<usize>)
        ensures
            match r {
                Some(i) => token@.len() > 0 && i < self.devices@.len() && place_of_token(
                    self@.devices,
                    token@,
                    0,
                ) == Some(i as int),
                None => token@.len() == 0 || place_of_token(self@.devices, token@, 0) is None,
            },
    {
        if token.is_empty() {
            return None;
        }
        let mut i: usize = 0;
        while i < self.devices.len()
            invariant
                token@.len() > 0,
                i <= self.devices@.len(),
                self@.devices == paired_views(self.devices@),
                place_of_token(self@.devices, token@, i as int) == place_of_token(
                    self@.devices,
                    token@,
                    0,
                ),
            decreases self.devices@.len() - i,
        {
            if same_text(self.devices[i].token.as_str(), token) {
                return Some(i);
            }
            i += 1;
        }
        None
    }

    /// Whether a token belongs to a paired phone. The empty token never does.
    pub fn is_known_token(&self, token: &str) -> (r: bool)
        ensures
            r == (token@.len() > 0 && place_of_token(self@.devices, token@, 0) is Some),
    {
        self.find_token(token).is_some()
    }

    /// Where a track of the phone with the given token is streamed from.
    pub fn stream_target_for_token(&self, token: &str, track_id: &str, ext: &str) -> (r: Option<
        (String, Vec<(String, String)>),
    >)
        ensures
            match r {
                Some(t) => {
                    &&& token@.len() > 0
                    &&& place_of_token(self@.devices, token@, 0) matches Some(i)
                    &&& stream_shown(t, self@.devices[i], track_id@, ext@)
                },
                None => token@.len() == 0 || place_of_token(self@.devices, token@, 0) is None,
            },
    {
        match self.find_token(token) {
            Some(i) => Some(stream_url(&self.devices[i], track_id, ext)),
            None => None,
        }
    }
}

/// Pairing again replaces: afterwards the phone is found with its new details, ids stay
/// distinct, and forgetting the phone then leaves what forgetting it before would have.
pub proof fn law_pairing_replaces(devices: Seq<PairedView>, dev: PairedView)
    requires
        distinct_ids(devices),
    ensures
        distinct_ids(without(devices, dev.id).push(dev)),
        place_of(without(devices, dev.id).push(dev), dev.id, 0) == Some(
            without(devices, dev.id).len() as int,
        ),
        without(without(devices, dev.id).push(dev), dev.id) == without(devices, dev.id),
{
    lemma_without(devices, dev.id);
    let rest = without(devices, dev.id);
    let now = rest.push(dev);
    lemma_place(now, dev.id, 0);
    assert(now[rest.len() as int] == dev);
    if let Some(i) = place_of(now, dev.id, 0) {
        if i < rest.len() {
            assert(now[i] == rest[i]);
        }
    }
    assert(now.drop_last() =~= rest);
    lemma_without_absent(rest, dev.id);
}

/// A phone that was paired is reached by its token at the address it was paired at: where no other
/// phone has the token, the pairing of the token is the phone's own, and its tracks are streamed from
/// its host and port with its token. Forgotten phones are reached no more.
pub proof fn law_a_token_leads_to_its_phone(
    devices: Seq<PairedView>,
    dev: PairedView,
    track: Seq<char>,
    ext: Seq<char>,
)
    requires
        forall|i: int|
            0 <= i < devices.len() && (#[trigger] devices[i]).id != dev.id ==> devices[i].token
                != dev.token,
    ensures
        ({
            let now = without(devices, dev.id).push(dev);
            &&& place_of_token(now, dev.token, 0) matches Some(i) && now[i] == dev
            &&& place_of_token(without(devices, dev.id), dev.token, 0) is None
            &&& place_of(without(devices, dev.id), dev.id, 0) is None
        }),
        stream_url_of(dev, track, ext) == "http://"@ + dev.host + ":"@ + crate::text::decimal(
            dev.port as nat,
        ) + ("/stream/"@ + track + ext_suffix(ext)),
{
    let rest = without(devices, dev.id);
    let now = rest.push(dev);
    lemma_without_tokens(devices, dev);
    lemma_no_token(rest, dev.token, 0);
    lemma_last_token(rest, dev, 0);
    lemma_place(rest, dev.id, 0);
}

proof fn lemma_without_tokens(devices: Seq<PairedView>, dev: PairedView)
    requires
        forall|i: int|
            0 <= i < devices.len() && (#[trigger] devices[i]).id != dev.id ==> devices[i].token
                != dev.token,
    ensures
        forall|i: int|
            0 <= i < without(devices, dev.id).len() ==> (#[trigger] without(
                devices,
                dev.id,
            )[i]).token != dev.token && without(devices, dev.id)[i].id != dev.id,
    decreases devices.len(),
{
    if devices.len() > 0 {
        let before = devices.drop_last();
        assert forall|i: int|
            0 <= i < before.len() && (#[trigger] before[i]).id != dev.id implies before[i].token
            != dev.token by {
            assert(before[i] == devices[i]);
        }
        lemma_without_tokens(before, dev);
        let rest = without(before, dev.id);
        let all = without(devices, dev.id);
        assert(devices.last() == devices[devices.len() - 1]);
        assert forall|i: int| 0 <= i < all.len() implies (#[trigger] all[i]).token != dev.token
            && all[i].id != dev.id by {
            if i < rest.len() {
                assert(all[i] == rest[i]);
            } else {
                assert(all[i] == devices.last());
            }
        }
    }
}

proof fn lemma_no_token(devices: Seq<PairedView>, token: Seq<char>, from: int)
    requires
        forall|i: int| 0 <= i < devices.len() ==> (#[trigger] devices[i]).token != token,
    ensures
        place_of_token(devices, token, from) is None,
    decreases devices.len() - from,
{
    if 0 <= from < devices.len() {
        lemma_no_token(devices, token, from + 1);
    }
}

proof fn lemma_last_token(rest: Seq<PairedView>, dev: PairedView, from: int)
    requires
        0 <= from <= rest.len(),
        forall|i: int| 0 <= i < rest.len() ==> (#[trigger] rest[i]).token != dev.token,
    ensures
        place_of_token(rest.push(dev), dev.token, from) == Some(rest.len() as int),
    decreases rest.len() - from,
{
    if from < rest.len() {
        assert(rest.push(dev)[from] == rest[from]);
        lemma_last_token(rest, dev, from + 1);
    } else {
        assert(rest.push(dev)[from] == dev);
    }
}

/// A phone with an IPv4 address is reached at one, whatever the order of its addresses, and a phone
/// with any address is reached.
pub proof fn law_ipv4_addresses_come_first(addresses: Seq<Address>, i: int)
    requires
        0 <= i < addresses.len(),
    ensures
        best_host_of(addresses) is Some,
        addresses[i].v4 ==> exists|k: int|
            0 <= k <= i && (#[trigger] addresses[k]).v4 && best_host_of(addresses) == Some(
                addresses[k].text@,
            ),
        (forall|k: int| 0 <= k < addresses.len() ==> !(#[trigger] addresses[k]).v4)
            ==> best_host_of(addresses) == Some("["@ + addresses[0].text@ + "]"@),
{
    lemma_first_v4(addresses, 0, i);
}

proof fn lemma_first_v4(addresses: Seq<Address>, from: int, i: int)
    requires
        0 <= from <= addresses.len(),
        0 <= i < addresses.len(),
    ensures
        match first_v4(addresses, from) {
            Some(k) => from <= k < addresses.len() && addresses[k].v4 && (from <= i
                && addresses[i].v4 ==> k <= i),
            None => from <= i ==> !addresses[i].v4,
        },
    decreases addresses.len() - from,
{
    if from < addresses.len() && !addresses[from].v4 {
        lemma_first_v4(addresses, from + 1, i);
    }
}

proof fn lemma_without_absent(devices: Seq<PairedView>, id: Seq<char>)
    requires
        forall|i: int| 0 <= i < devices.len() ==> (#[trigger] devices[i]).id != id,
    ensures
        without(devices, id) == devices,
    decreases devices.len(),
{
    if devices.len() > 0 {
        lemma_without_absent(devices.drop_last(), id);
        assert(devices.last() == devices[devices.len() - 1]);
        assert(devices.drop_last().push(devices.last()) =~= devices);
    }
}

/// A forgotten phone is not found, and no other phone is affected.
pub proof fn law_unpairing_forgets(devices: Seq<PairedView>, id: Seq<char>, other: Seq<char>)
    ensures
        place_of(without(devices, id), id, 0) is None,
        other != id ==> (place_of(without(devices, id), other, 0) is Some <==> place_of(
            devices,
            other,
            0,
        ) is Some),
{
    lemma_without(devices, id);
    lemma_place(without(devices, id), id, 0);
    lemma_place(without(devices, id), other, 0);
    lemma_place(devices, other, 0);
    if other != id {
        if let Some(i) = place_of(devices, other, 0) {
            lemma_without_keeps(devices, id, i);
            let k = choose|k: int|
                0 <= k < without(devices, id).len() && #[trigger] without(devices, id)[k]
                    == devices[i];
            assert(without(devices, id)[k].id == other);
        }
        if let Some(k) = place_of(without(devices, id), other, 0) {
            let d = without(devices, id)[k];
            assert(devices.contains(d));
            let i = choose|i: int| 0 <= i < devices.len() && devices[i] == d;
            assert(devices[i].id == other);
        }
    }
}

proof fn lemma_without_keeps(devices: Seq<PairedView>, id: Seq<char>, i: int)
    requires
        0 <= i < devices.len(),
        devices[i].id != id,
    ensures
        exists|k: int|
            0 <= k < without(devices, id).len() && #[trigger] without(devices, id)[k] == devices[i],
    decreases devices.len(),
{
    let head = devices.drop_last();
    let rest = without(head, id);
    if i == devices.len() - 1 {
        assert(without(devices, id)[rest.len() as int] == devices[i]);
    } else {
        lemma_without_keeps(head, id, i);
        let k = choose|k: int| 0 <= k < rest.len() && #[trigger] rest[k] == head[i];
        assert(without(devices, id)[k] == devices[i]);
    }
}

/// Discovery moves paired phones to new addresses and does nothing else: it adds no pairing,
/// removes none, and changes no id, name or token.
pub proof fn law_discovery_only_readdresses(
    devices: Seq<PairedView>,
    found: Seq<PhoneDeviceView>,
    i: int,
)
    requires
        0 <= i < devices.len(),
    ensures
        devices.map_values(|d: PairedView| readdressed(d, found)).len() == devices.len(),
        devices.map_values(|d: PairedView| readdressed(d, found))[i].id == devices[i].id,
        devices.map_values(|d: PairedView| readdressed(d, found))[i].name == devices[i].name,
        devices.map_values(|d: PairedView| readdressed(d, found))[i].token == devices[i].token,
{
}

/// An address of a phone, as it is written, and whether it is an IPv4 address.
pub struct Address {
    pub text: String,
    pub v4: bool,
}

/// An address as the host of a URL: IPv6 addresses stand in brackets.
pub open spec fn host_of(a: Address) -> Seq<char> {
    if a.v4 {
        a.text@
    } else {
        "["@ + a.text@ + "]"@
    }
}

/// An address as the host of a URL.
pub fn ip_host(addr: &Address) -> (r: String)
    ensures
        r@ == host_of(*addr),
{
    if addr.v4 {
        addr.text.clone()
    } else {
        join3("[", addr.text.as_str(), "]")
    }
}

/// A service that was resolved on the network.
pub struct ServiceRecord {
    pub fullname: String,
    pub role: Option<String>,
    pub id: Option<String>,
    pub name: Option<String>,
    pub addresses: Vec<Address>,
    pub port: u16,
}

/// The first IPv4 address from `from` on.
pub open spec fn first_v4(addresses: Seq<Address>, from: int) -> Option<int>
    decreases addresses.len() - from,
{
    if !(0 <= from < addresses.len()) {
        None
    } else if addresses[from].v4 {
        Some(from)
    } else {
        first_v4(addresses, from + 1)
    }
}

/// The host under which something with these addresses is reached: an IPv4 address if it has one,
/// else the first.
pub open spec fn best_host_of(addresses: Seq<Address>) -> Option<Seq<char>> {
    if addresses.len() == 0 {
        None
    } else {
        match first_v4(addresses, 0) {
            Some(i) => Some(host_of(addresses[i])),
            None => Some(host_of(addresses[0])),
        }
    }
}

/// The host under which something with these addresses is reached.
pub fn best_host(addresses: &Vec<Address>) -> (r: Option<String>)
    ensures
        match r {
            Some(host) => best_host_of(addresses@) == Some(host@),
            None => best_host_of(addresses@) is None,
        },
{
    if addresses.len() == 0 {
        return None;
    }
    let mut i: usize = 0;
    while i < addresses.len() && !addresses[i].v4
        invariant
            i <= addresses@.len(),
            first_v4(addresses@, i as int) == first_v4(addresses@, 0),
        decreases addresses@.len() - i,
    {
        i += 1;
    }
    if i < addresses.len() {
        Some(ip_host(&addresses[i]))
    } else {
        Some(ip_host(&addresses[0]))
    }
}

/// A phone at the addresses that its host was resolved to; where there are none it keeps its host.
pub fn located(phone: PhoneDevice, addresses: &Vec<Address>) -> (r: PhoneDevice)
    ensures
        r@ == (PhoneDeviceView {
            host: match best_host_of(addresses@) {
                Some(host) => host,
                None => phone@.host,
            },
            ..phone@
        }),
{
    match best_host(addresses) {
        Some(host) => PhoneDevice { id: phone.id, name: phone.name, host, port: phone.port },
        None => phone,
    }
}

/// The phone that a service is: it must be a source and have an address, IPv4 if it has one. A
/// phone without an id is known by the name of its service, one without a name as `Phone`.
pub open spec fn phone_of(record: ServiceRecord) -> Option<PhoneDeviceView> {
    if !(record.role matches Some(r) && r@ == "source"@) {
        None
    } else {
        match best_host_of(record.addresses@) {
            Some(host) => Some(
                PhoneDeviceView {
                    id: match record.id {
                        Some(id) => id@,
                        None => record.fullname@,
                    },
                    name: match record.name {
                        Some(name) => name@,
                        None => "Phone"@,
                    },
                    host,
                    port: record.port,
                },
            ),
            None => None,
        }
    }
}

/// The phone that a service is.
pub fn parse_phone(record: &ServiceRecord) -> (r: Option<PhoneDevice>)
    ensures
        match r {
            Some(d) => phone_of(*record) == Some(d@),
            None => phone_of(*record) is None,
        },
{
    let source = match &record.role {
        Some(role) => same_text(role.as_str(), "source"),
        None => false,
    };
    if !source {
        return None;
    }
    let host = match best_host(&record.addresses) {
        Some(host) => host,
        None => {
            return None;
        },
    };
    let id = match &record.id {
        Some(id) => id.clone(),
        None => record.fullname.clone(),
    };
    let name = match &record.name {
        Some(name) => name.clone(),
        None => "Phone".to_owned(),
    };
    Some(PhoneDevice { id, name, host, port: record.port })
}

/// The key by which phones are sorted.
pub open spec fn name_key(d: PhoneDeviceView) -> Seq<char> {
    crate::text::lowercase(d.name)
}

/// Sorted by name, whatever its case.
pub open spec fn sorted_by_name(s: Seq<PhoneDeviceView>) -> bool {
    forall|i: int, j: int|
        0 <= i < j < s.len() ==> !crate::text::text_less(
            name_key(#[trigger] s[j]),
            name_key(#[trigger] s[i]),
        )
}

/// `i` is the last sighting of its phone.
pub open spec fn last_sighting(all: Seq<PhoneDeviceView>, i: int) -> bool {
    0 <= i < all.len() && forall|j: int| i < j < all.len() ==> (#[trigger] all[j]).id != all[i].id
}

/// `d` is how its phone was last seen.
pub open spec fn last_seen(all: Seq<PhoneDeviceView>, d: PhoneDeviceView) -> bool {
    exists|i: int| #[trigger] last_sighting(all, i) && all[i] == d
}

/// One of the devices has the given id.
pub open spec fn has_id(s: Seq<PhoneDeviceView>, id: Seq<char>) -> bool {
    exists|k: int| 0 <= k < s.len() && (#[trigger] s[k]).id == id
}

/// No two devices have the same id.
pub open spec fn distinct_devices(s: Seq<PhoneDeviceView>) -> bool {
    forall|k: int, l: int| 0 <= k < l < s.len() ==> (#[trigger] s[k]).id != (#[trigger] s[l]).id
}

/// `d` is how its phone was last seen, at place `i` or later.
spec fn seen_from(all: Seq<PhoneDeviceView>, i: int, d: PhoneDeviceView) -> bool {
    exists|j: int| i <= j && #[trigger] last_sighting(all, j) && all[j] == d
}

/// `out` holds the phones of `all` from place `i` on.
spec fn collected(all: Seq<PhoneDeviceView>, i: int, out: Seq<PhoneDeviceView>) -> bool {
    &&& forall|k: int| 0 <= k < out.len() ==> seen_from(all, i, #[trigger] out[k])
    &&& forall|j: int| i <= j < all.len() ==> has_id(out, (#[trigger] all[j]).id)
    &&& distinct_devices(out)
    &&& sorted_by_name(out)
}

proof fn lemma_collect_skip(all: Seq<PhoneDeviceView>, i: int, out: Seq<PhoneDeviceView>)
    requires
        0 <= i < all.len(),
        collected(all, i + 1, out),
        has_id(out, all[i].id),
    ensures
        collected(all, i, out),
{
    assert forall|k: int| 0 <= k < out.len() implies seen_from(all, i, #[trigger] out[k]) by {
        assert(seen_from(all, i + 1, out[k]));
        let j = choose|j: int| i + 1 <= j && #[trigger] last_sighting(all, j) && all[j] == out[k];
        assert(last_sighting(all, j));
    }
    assert forall|j: int| i <= j < all.len() implies has_id(out, (#[trigger] all[j]).id) by {
        if j > i {
            assert(i + 1 <= j);
        }
    }
}

proof fn lemma_collect_insert(all: Seq<PhoneDeviceView>, i: int, out: Seq<PhoneDeviceView>, p: int)
    requires
        0 <= i < all.len(),
        collected(all, i + 1, out),
        !has_id(out, all[i].id),
        0 <= p <= out.len(),
        sorted_by_name(out.insert(p, all[i])),
    ensures
        collected(all, i, out.insert(p, all[i])),
{
    let d = all[i];
    let now = out.insert(p, d);
    assert(last_sighting(all, i)) by {
        assert forall|j: int| i < j < all.len() implies (#[trigger] all[j]).id != d.id by {
            assert(has_id(out, all[j].id));
        }
    }
    assert forall|k: int| 0 <= k < now.len() implies seen_from(all, i, #[trigger] now[k]) by {
        if k == p {
            assert(last_sighting(all, i) && all[i] == now[k]);
        } else {
            let m = if k < p {
                k
            } else {
                k - 1
            };
            assert(now[k] == out[m]);
            assert(seen_from(all, i + 1, out[m]));
            let j = choose|j: int|
                i + 1 <= j && #[trigger] last_sighting(all, j) && all[j] == out[m];
            assert(last_sighting(all, j) && all[j] == now[k]);
        }
    }
    assert forall|j: int| i <= j < all.len() implies has_id(now, (#[trigger] all[j]).id) by {
        if j == i {
            assert(now[p].id == all[j].id);
        } else {
            assert(has_id(out, all[j].id));
            let m = choose|m: int| 0 <= m < out.len() && (#[trigger] out[m]).id == all[j].id;
            let k = if m < p {
                m
            } else {
                m + 1
            };
            assert(now[k].id == all[j].id);
        }
    }
    assert forall|k: int, l: int| 0 <= k < l < now.len() implies (#[trigger] now[k]).id
        != (#[trigger] now[l]).id by {
        let a = if k < p {
            k
        } else {
            k - 1
        };
        let b = if l < p {
            l
        } else {
            l - 1
        };
        if k == p {
            assert(now[l] == out[b]);
        } else if l == p {
            assert(now[k] == out[a]);
        } else {
            assert(now[k] == out[a] && now[l] == out[b]);
        }
    }
}

/// The phones seen while browsing: each once, as it was last seen, sorted by name.
pub fn discovered(seen: &Vec<PhoneDevice>) -> (r: Vec<PhoneDevice>)
    ensures
        forall|k: int|
            0 <= k < r@.len() ==> last_seen(
                device_views(seen@),
                #[trigger] device_views(r@)[k],
            ),
        forall|i: int|
            0 <= i < seen@.len() ==> has_id(
                device_views(r@),
                (#[trigger] device_views(seen@)[i]).id,
            ),
        distinct_devices(device_views(r@)),
        sorted_by_name(device_views(r@)),
{
    let ghost all = device_views(seen@);
    let mut out: Vec<PhoneDevice> = Vec::new();
    let mut i: usize = seen.len();
    while i > 0
        invariant
            all == device_views(seen@),
            i <= seen@.len(),
            collected(all, i as int, device_views(out@)),
        decreases i,
    {
        i -= 1;
        let d = &seen[i];
        let known = holds_id(&out, d.id.as_str());
        if known {
            proof {
                lemma_collect_skip(all, i as int, device_views(out@));
            }
        } else {
            let p: usize = name_place(&out, d);
            let ghost before = out@;
            let copy = d.clone();
            out.insert(p, copy);
            proof {
                lemma_insert_sorted(device_views(before), d@, p as int);
                lemma_collect_insert(all, i as int, device_views(before), p as int);
                assert(device_views(out@) =~= device_views(before).insert(p as int, d@));
            }
        }
    }
    proof {
        assert forall|k: int| 0 <= k < out@.len() implies last_seen(
            all,
            #[trigger] device_views(out@)[k],
        ) by {
            assert(seen_from(all, 0, device_views(out@)[k]));
            let j = choose|j: int|
                0 <= j && #[trigger] last_sighting(all, j) && all[j] == device_views(out@)[k];
            assert(last_sighting(all, j) && all[j] == device_views(out@)[k]);
        }
    }
    out
}

fn holds_id(out: &Vec<PhoneDevice>, id: &str) -> (r: bool)
    ensures
        r == has_id(device_views(out@), id@),
{
    let mut k: usize = 0;
    while k < out.len()
        invariant
            k <= out@.len(),
            forall|m: int| 0 <= m < k ==> (#[trigger] device_views(out@)[m]).id != id@,
        decreases out@.len() - k,
    {
        if same_text(out[k].id.as_str(), id) {
            assert(device_views(out@)[k as int].id == id@);
            return true;
        }
        k += 1;
    }
    false
}

/// The place behind every device whose name does not come behind that of `d`.
fn name_place(out: &Vec<PhoneDevice>, d: &PhoneDevice) -> (p: usize)
    ensures
        p <= out@.len(),
        forall|m: int|
            0 <= m < p ==> !crate::text::text_less(
                name_key(d@),
                name_key(#[trigger] device_views(out@)[m]),
            ),
        p < out@.len() ==> crate::text::text_less(
            name_key(d@),
            name_key(device_views(out@)[p as int]),
        ),
{
    let key = d.name.as_str().to_lowercase();
    let mut p: usize = 0;
    while p < out.len() && !text_precedes(
        key.as_str(),
        out[p].name.as_str().to_lowercase().as_str(),
    )
        invariant
            p <= out@.len(),
            key@ == name_key(d@),
            forall|m: int|
                0 <= m < p ==> !crate::text::text_less(
                    key@,
                    name_key(#[trigger] device_views(out@)[m]),
                ),
        decreases out@.len() - p,
    {
        p += 1;
    }
    p
}

proof fn lemma_insert_sorted(s: Seq<PhoneDeviceView>, d: PhoneDeviceView, p: int)
    requires
        sorted_by_name(s),
        0 <= p <= s.len(),
        forall|m: int| 0 <= m < p ==> !crate::text::text_less(name_key(d), name_key(#[trigger] s[m])),
        p < s.len() ==> crate::text::text_less(name_key(d), name_key(s[p])),
    ensures
        sorted_by_name(s.insert(p, d)),
{
    let t = s.insert(p, d);
    assert forall|i: int, j: int| 0 <= i < j < t.len() implies !crate::text::text_less(
        name_key(#[trigger] t[j]),
        name_key(#[trigger] t[i]),
    ) by {
        if j == p {
            assert(t[i] == s[i]);
        } else if i == p {
            assert(t[j] == s[j - 1]);
            crate::text::lemma_text_less_total(name_key(d), name_key(s[p]));
            crate::text::lemma_text_less_trans(name_key(d), name_key(s[p]), name_key(s[j - 1]));
            if j - 1 > p {
                assert(!crate::text::text_less(name_key(s[j - 1]), name_key(s[p])));
            } else {
                crate::text::lemma_text_less_total(name_key(s[p]), name_key(s[p]));
            }
        } else {
            let a = if i < p {
                i
            } else {
                i - 1
            };
            let b = if j < p {
                j
            } else {
                j - 1
            };
            assert(t[i] == s[a] && t[j] == s[b]);
        }
    }
}

/// The name under which this desktop shows itself, from what the system calls it.
pub open spec fn desktop_name(hostname: Option<Seq<char>>) -> Seq<char> {
    match hostname {
        Some(h) => {
            let name = crate::text::without_suffix(crate::text::trimmed(h), ".local"@);
            if name.len() == 0 {
                "HypeMuzik Desktop"@
            } else {
                name
            }
        },
        None => "HypeMuzik Desktop"@,
    }
}

/// The name under which this desktop shows itself, from what the system calls it.
pub fn device_name(hostname: Option<&str>) -> (r: String)
    ensures
        r@ == desktop_name(
            match hostname {
                Some(h) => Some(h@),
                None => None,
            },
        ),
{
    match hostname {
        Some(h) => {
            let name = trim_suffix(trim(h).as_str(), ".local");
            if name.as_str().is_empty() {
                "HypeMuzik Desktop".to_owned()
            } else {
                name
            }
        },
        None => "HypeMuzik Desktop".to_owned(),
    }
}

/// The properties with which this desktop advertises itself as a player.
pub fn player_properties(name: &str, id: &str) -> (r: Vec<(String, String)>)
    ensures
        crate::bonjour::pair_texts(r@) == seq![
            ("role"@, "player"@),
            ("id"@, id@),
            ("name"@, name@),
            ("v"@, "1"@),
        ],
{
    let mut out: Vec<(String, String)> = Vec::new();
    out.push(("role".to_owned(), "player".to_owned()));
    out.push(("id".to_owned(), id.to_owned()));
    out.push(("name".to_owned(), name.to_owned()));
    out.push(("v".to_owned(), "1".to_owned()));
    assert(crate::bonjour::pair_texts(out@) =~= seq![
        ("role"@, "player"@),
        ("id"@, id@),
        ("name"@, name@),
        ("v"@, "1"@),
    ]);
    out
}

/// The host name under which this desktop advertises itself.
pub fn player_host(id: &str) -> (r: String)
    ensures
        r@ == "hypemuzik-"@ + id@ + ".local."@,
{
    join3("hypemuzik-", id, ".local.")
}

/// A reply counts where it comes, has a status in the two hundreds and a body that can be read; only
/// then a phone is paired with, asked who it is, or its library taken. A picture must not be empty
/// besides, and lyrics not blank.
pub proof fn law_replies_count_when_they_succeed(
    pairing: Reply<String>,
    ping: Reply<Ping>,
    host: Seq<char>,
    port: u16,
    art: Reply<Artwork>,
)
    ensures
        pairing_failure(pairing) is None <==> (pairing matches Reply::Answer {
            status,
            status_text,
            body,
        } && status / 100 == 2 && body is Ok),
        ping_failure(host, port, ping) is None <==> (ping matches Reply::Answer {
            status,
            status_text,
            body,
        } && status / 100 == 2 && body is Ok),
        artwork_of(art) is Some <==> (art matches Reply::Answer { status, status_text, body }
            && status / 100 == 2 && body is Ok && body->Ok_0.bytes@.len() > 0),
        lyrics_of(pairing) is Some <==> (pairing matches Reply::Answer {
            status,
            status_text,
            body,
        } && status / 100 == 2 && body is Ok && crate::text::trimmed(body->Ok_0@).len() > 0),
{
}

/// A library is taken of a phone that is paired and whose reply counts.
pub proof fn law_libraries_are_taken_of_paired_phones(
    state: LinkStateView,
    device_id: Seq<char>,
    reply: Reply<Vec<PhoneTrack>>,
)
    ensures
        library_failure(state, device_id, reply) is None <==> ((exists|i: int|
            0 <= i < state.devices.len() && (#[trigger] state.devices[i]).id == device_id) && (
        reply matches Reply::Answer { status, status_text, body } && status / 100 == 2
            && body is Ok)),
{
    lemma_paired(state.devices, device_id, 0);
}

proof fn lemma_paired(devices: Seq<PairedView>, id: Seq<char>, from: int)
    requires
        0 <= from,
    ensures
        place_of(devices, id, from) is Some <==> exists|i: int|
            from <= i < devices.len() && (#[trigger] devices[i]).id == id,
        place_of(devices, id, from) matches Some(i) ==> from <= i < devices.len() && devices[i].id
            == id,
    decreases devices.len() - from,
{
    if from < devices.len() && devices[from].id != id {
        lemma_paired(devices, id, from + 1);
        assert forall|i: int|
            from <= i < devices.len() && (#[trigger] devices[i]).id == id implies from + 1 <= i by {}
    } else if from < devices.len() {
        assert(devices[from].id == id);
    }
}

/// An extension is known whatever dots it starts with, and what is played of one that is not known
/// has no suffix: a suffix is a dot and one of the six that the decoder knows.
pub proof fn law_extensions_are_known_or_dropped(ext: Seq<char>)
    ensures
        ext_suffix(ext).len() == 0 || (ext_suffix(ext).len() > 1 && ext_suffix(ext)[0] == '.'
            && known_ext(ext_suffix(ext).skip(1))),
        ({
            let e = crate::text::trimmed(ext);
            undotted(seq!['.'] + e) == undotted(e)
        }),
{
    reveal_strlit(".");
    reveal_strlit("");
    let e = crate::text::ascii_lowercase(undotted(crate::text::trimmed(ext)));
    if known_ext(e) {
        reveal_strlit("mp3");
        reveal_strlit("aac");
        reveal_strlit("ogg");
        reveal_strlit("flac");
        reveal_strlit("m4a");
        reveal_strlit("wav");
        assert("."@ + e + ""@ =~= "."@ + e);
        assert(("."@ + e).skip(1) =~= e);
    }
    let t = crate::text::trimmed(ext);
    assert((seq!['.'] + t).subrange(1, (seq!['.'] + t).len() as int) =~= t);
}

} // verus!
