//! Phones that are reached from other networks: pairing by a code that is shown on the screen, and
//! the list of paired phones.

use vstd::prelude::*;
use crate::encoding::{json_field, random_bytes, JsonField, JsonFieldView};
use crate::text::{digit_of, join3, same_text};

verus! {

/// The protocol of the media tunnel.
pub const ALPN_LINK: &'static str = "hypemuzik/link/0";

/// The protocol of the pairing stream.
pub const ALPN_PAIR: &'static str = "hypemuzik/pair/0";

/// For how many seconds binding the network endpoint is waited for.
pub const BIND_TIMEOUT_SECS: u64 = 20;

/// What is said where binding the network endpoint takes too long.
pub fn bind_timeout_text() -> (r: String)
    ensures
        r@ == "network endpoint setup timed out after "@ + crate::text::decimal(
            BIND_TIMEOUT_SECS as nat,
        ) + "s — check firewall/VPN and try again"@,
{
    join3(
        "network endpoint setup timed out after ",
        crate::text::decimal_text(BIND_TIMEOUT_SECS).as_str(),
        "s — check firewall/VPN and try again",
    )
}

/// How often the address of an endpoint is waited for.
pub const MOST_WAITS: u32 = 60;

/// Whether to wait on for the address of an endpoint, behind so many waits.
pub fn waits_on(tries: u32, found: bool) -> (r: bool)
    ensures
        r == (!found && tries < MOST_WAITS),
{
    !found && tries < MOST_WAITS
}

/// The secret key that is stored, where what is stored has its length.
pub fn stored_secret(bytes: &Vec<u8>) -> (r: Option<[u8; 32]>)
    ensures
        match r {
            Some(key) => bytes@.len() == 32 && key@ == bytes@,
            None => bytes@.len() != 32,
        },
{
    if bytes.len() != 32 {
        return None;
    }
    let mut key: [u8; 32] = [0; 32];
    let mut i: usize = 0;
    while i < 32
        invariant
            i <= 32,
            bytes@.len() == 32,
            key@.len() == 32,
            forall|k: int| 0 <= k < i ==> key@[k] == bytes@[k],
        decreases 32 - i,
    {
        key[i] = bytes[i];
        i += 1;
    }
    assert(key@ =~= bytes@);
    Some(key)
}

/// A fresh secret key of random bytes, or why there is none.
pub fn fresh_secret() -> (r: Result<Vec<u8>, String>)
    ensures
        match r {
            Ok(key) => key@.len() == 32,
            Err(why) => crate::text::starts(why@, "rng failed: "@),
        },
{
    let (key, outcome) = random_bytes(32);
    match outcome {
        Ok(()) => Ok(key),
        Err(e) => {
            let why = join3("rng failed: ", e.as_str(), "");
            assert(why@.subrange(0, "rng failed: "@.len() as int) =~= "rng failed: "@);
            Err(why)
        },
    }
}

/// The number in three bytes, the first of which counts most.
pub open spec fn number_of(bytes: Seq<u8>) -> int {
    bytes[0] * 65536 + bytes[1] * 256 + bytes[2]
}

/// The decimal digit with the given weight.
pub open spec fn digit_at(n: int, weight: int) -> char {
    crate::text::digit_char(n / weight % 10)
}

/// A number below a million as six digits.
pub open spec fn six_digits(n: int) -> Seq<char> {
    seq![
        digit_at(n, 100000),
        digit_at(n, 10000),
        digit_at(n, 1000),
        digit_at(n, 100),
        digit_at(n, 10),
        digit_at(n, 1),
    ]
}

/// The pairing code of three random bytes: six decimal digits.
pub fn pin_of(bytes: &Vec<u8>) -> (r: String)
    requires
        bytes@.len() == 3,
    ensures
        r@ == six_digits(number_of(bytes@) % 1_000_000),
{
    let n: u32 = (bytes[0] as u32 * 65536 + bytes[1] as u32 * 256 + bytes[2] as u32) % 1_000_000;
    let mut out = String::new();
    out.push(digit_of((n / 100000 % 10) as u8));
    out.push(digit_of((n / 10000 % 10) as u8));
    out.push(digit_of((n / 1000 % 10) as u8));
    out.push(digit_of((n / 100 % 10) as u8));
    out.push(digit_of((n / 10 % 10) as u8));
    out.push(digit_of((n % 10) as u8));
    assert(out@ =~= six_digits(number_of(bytes@) % 1_000_000));
    out
}

/// A random pairing code: six decimal digits.
pub fn random_pin() -> (r: String)
    ensures
        r@.len() == 6,
        forall|i: int| 0 <= i < 6 ==> crate::text::digit(#[trigger] r@[i]),
{
    let (bytes, _) = random_bytes(3);
    let r = pin_of(&bytes);
    proof {
        law_pins_are_six_digits(number_of(bytes@) % 1_000_000);
    }
    r
}

/// A code has six decimal digits, and different numbers have different codes.
pub proof fn law_pins_are_six_digits(n: int)
    requires
        0 <= n < 1_000_000,
    ensures
        six_digits(n).len() == 6,
        forall|i: int| 0 <= i < 6 ==> crate::text::digit(#[trigger] six_digits(n)[i]),
        crate::text::digits_value(six_digits(n)) == n,
{
    let s = six_digits(n);
    assert(s.take(1).drop_last() =~= Seq::empty());
    assert(crate::text::digits_value(s.take(1).drop_last()) == 0);
    assert(crate::text::digits_value(s.take(1)) == n / 100000);
    assert(s.take(2).drop_last() =~= s.take(1));
    assert(crate::text::digits_value(s.take(2)) == n / 10000);
    assert(s.take(3).drop_last() =~= s.take(2));
    assert(crate::text::digits_value(s.take(3)) == n / 1000);
    assert(s.take(4).drop_last() =~= s.take(3));
    assert(crate::text::digits_value(s.take(4)) == n / 100);
    assert(s.take(5).drop_last() =~= s.take(4));
    assert(crate::text::digits_value(s.take(5)) == n / 10);
    assert(s.drop_last() =~= s.take(5));
}

/// A phone that has paired or connected, with the local port of its tunnel.
#[derive(Debug, Clone, PartialEq, Eq)]
pub struct PairedPhone {
    pub id: String,
    pub name: String,
    pub token: String,
    pub port: u16,
}

/// The content of a [`PairedPhone`].
pub struct PairedPhoneView {
    pub id: Seq<char>,
    pub name: Seq<char>,
    pub token: Seq<char>,
    pub port: u16,
}

impl View for PairedPhone {
    type V = PairedPhoneView;

    open spec fn view(&self) -> PairedPhoneView {
        PairedPhoneView { id: self.id@, name: self.name@, token: self.token@, port: self.port }
    }
}

/// How a paired phone stands.
#[derive(Debug, Clone, PartialEq, Eq)]
pub struct RemotePhoneStatus {
    pub id: String,
    pub name: String,
    pub online: bool,
    pub port: Option<u16>,
}

/// The content of a [`RemotePhoneStatus`].
pub struct RemotePhoneStatusView {
    pub id: Seq<char>,
    pub name: Seq<char>,
    pub online: bool,
    pub port: Option<u16>,
}

impl View for RemotePhoneStatus {
    type V = RemotePhoneStatusView;

    open spec fn view(&self) -> RemotePhoneStatusView {
        RemotePhoneStatusView {
            id: self.id@,
            name: self.name@,
            online: self.online,
            port: self.port,
        }
    }
}

/// What is shown for a pairing.
#[derive(Debug, Clone, PartialEq, Eq)]
pub struct PairingInfo {
    pub endpoint_id: String,
    pub pin: String,
    pub qr: String,
}

/// An open pairing: its code, and until when it can be used, in nanoseconds.
#[derive(Debug, PartialEq, Eq)]
pub struct PairingSession {
    pub pin: String,
    pub expires: u64,
}

/// An open pairing: its code, and until when it can be used.
pub struct PairingSessionView {
    pub pin: Seq<char>,
    pub expires: int,
}

/// The desk at which phones pair: at most one pairing is open.
#[derive(Debug)]
pub struct PairingDesk {
    session: Option<PairingSession>,
}

impl View for PairingDesk {
    type V = Option<PairingSessionView>;

    closed spec fn view(&self) -> Option<PairingSessionView> {
        match self.session {
            Some(s) => Some(PairingSessionView { pin: s.pin@, expires: s.expires as int }),
            None => None,
        }
    }
}

/// The code is that of the open pairing, in time.
pub open spec fn admits(desk: Option<PairingSessionView>, pin: Seq<char>, now: int) -> bool {
    desk matches Some(s) && s.pin == pin && now < s.expires
}

/// The desk after a code was tried: a pairing is used up by its code.
pub open spec fn after_try(desk: Option<PairingSessionView>, pin: Seq<char>, now: int) -> Option<
    PairingSessionView,
> {
    if admits(desk, pin, now) {
        None
    } else {
        desk
    }
}

impl PairingDesk {
    /// A desk without an open pairing.
    pub fn new() -> (r: PairingDesk)
        ensures
            r@ is None,
    {
        PairingDesk { session: None }
    }

    /// Opens a pairing in place of any other, at a time and for a time in nanoseconds. The result
    /// is what is shown: the code, and an address with it and the id of this endpoint.
    pub fn start_pairing(&mut self, endpoint_id: &str, pin: &str, now: u64, ttl: u64) -> (r:
        PairingInfo)
        requires
            now + ttl <= u64::MAX,
        ensures
            final(self)@ == Some(PairingSessionView { pin: pin@, expires: now + ttl }),
            r.endpoint_id@ == endpoint_id@,
            r.pin@ == pin@,
            r.qr@ == "hypemuzik://pair?ep="@ + endpoint_id@ + "&pin="@ + pin@,
    {
        self.session = Some(PairingSession { pin: pin.to_owned(), expires: now + ttl });
        let mut qr = join3("hypemuzik://pair?ep=", endpoint_id, "&pin=");
        qr.append(pin);
        PairingInfo { endpoint_id: endpoint_id.to_owned(), pin: pin.to_owned(), qr }
    }

    /// Closes the pairing.
    pub fn cancel_pairing(&mut self)
        ensures
            final(self)@ is None,
    {
        self.session = None;
    }

    /// Whether a phone that gives a code is accepted. The right code works once, and only in time.
    pub fn check_pin(&mut self, pin: &str, now: u64) -> (r: bool)
        ensures
            r == admits(old(self)@, pin@, now as int),
            final(self)@ == after_try(old(self)@, pin@, now as int),
    {
        let ok: bool = match &self.session {
            Some(s) => same_text(s.pin.as_str(), pin) && now < s.expires,
            None => false,
        };
        if ok {
            self.session = None;
        }
        ok
    }
}

/// A code is accepted at most once, whatever is tried afterwards.
pub proof fn law_a_pin_works_once(
    desk: Option<PairingSessionView>,
    pin: Seq<char>,
    now: int,
    other: Seq<char>,
    later: int,
)
    requires
        admits(desk, pin, now),
    ensures
        !admits(after_try(desk, pin, now), other, later),
{
}

/// A wrong or late code leaves the pairing open for the right one.
pub proof fn law_a_wrong_pin_changes_nothing(
    desk: Option<PairingSessionView>,
    pin: Seq<char>,
    now: int,
)
    requires
        !admits(desk, pin, now),
    ensures
        after_try(desk, pin, now) == desk,
{
}

/// What a phone that pairs tells the desktop besides its address, each under its key.
pub fn pair_fields(name: &str, pin: &str, token: &str) -> (r: Vec<(String, String)>)
    ensures
        r@.map_values(|f: (String, String)| (f.0@, f.1@)) == seq![
            ("name"@, name@),
            ("pin"@, pin@),
            ("token"@, token@),
        ],
{
    let mut out: Vec<(String, String)> = Vec::new();
    out.push(("name".to_owned(), name.to_owned()));
    out.push(("pin".to_owned(), pin.to_owned()));
    out.push(("token".to_owned(), token.to_owned()));
    assert(out@.map_values(|f: (String, String)| (f.0@, f.1@)) =~= seq![
        ("name"@, name@),
        ("pin"@, pin@),
        ("token"@, token@),
    ]);
    out
}

/// The meaning of the desktop's answer to a phone that paired: its name, where it accepted. What
/// is under the two keys is given; a desktop without a name is called `Desktop`.
pub open spec fn answer_of(
    accepted: Result<JsonFieldView, Seq<char>>,
    name: Result<JsonFieldView, Seq<char>>,
) -> Result<Seq<char>, Seq<char>> {
    match (accepted, name) {
        (Err(why), _) => Err(why),
        (_, Err(why)) => Err(why),
        (Ok(JsonFieldView::Truth(true)), Ok(JsonFieldView::Text(n))) => Ok(n),
        (Ok(JsonFieldView::Truth(true)), _) => Ok("Desktop"@),
        _ => Err("the desktop rejected the pairing code"@),
    }
}

/// A text, or why there is none.
pub open spec fn text_said(r: Result<String, String>) -> Result<Seq<char>, Seq<char>> {
    match r {
        Ok(s) => Ok(s@),
        Err(why) => Err(why@),
    }
}

/// The name of the desktop that answered, from what its answer holds.
pub fn pair_reply(accepted: Result<JsonField, String>, name: Result<JsonField, String>) -> (r: Result<
    String,
    String,
>)
    ensures
        text_said(r) == answer_of(
            crate::encoding::field_said(accepted),
            crate::encoding::field_said(name),
        ),
{
    match accepted {
        Err(why) => Err(why),
        Ok(a) => match name {
            Err(why) => Err(why),
            Ok(n) => match a {
                JsonField::Truth(true) => match n {
                    JsonField::Text(s) => Ok(s),
                    _ => Ok("Desktop".to_owned()),
                },
                _ => Err("the desktop rejected the pairing code".to_owned()),
            },
        },
    }
}

/// The name of the desktop that sent this answer.
pub fn read_pair_reply(bytes: &[u8]) -> (r: Result<String, String>)
    ensures
        text_said(r) == answer_of(
            crate::encoding::json_field_of(bytes@, "accepted"@),
            crate::encoding::json_field_of(bytes@, "name"@),
        ),
{
    pair_reply(json_field(bytes, "accepted"), json_field(bytes, "name"))
}

/// The key that an endpoint id writes down, or why it writes none.
pub uninterp spec fn key_of_id(id: Seq<char>) -> Result<Seq<u8>, Seq<char>>;

/// A key, or why there is none.
pub open spec fn key_said(r: Result<[u8; 32], String>) -> Result<Seq<u8>, Seq<char>> {
    match r {
        Ok(key) => Ok(key@),
        Err(why) => Err(why@),
    }
}

/// `EndpointId::from_str` (iroh), and the bytes of the id that it gives. The result is named after
/// the text; the text of an error is the one that the error shows. Which texts are ids, and of
/// which keys, is not stated.
#[verifier::external_body]
pub(crate) fn read_id(id: &str) -> (r: Result<[u8; 32], String>)
    ensures
        key_said(r) == key_of_id(id@),
{
    match id.parse::<iroh::EndpointId>() {
        Ok(id) => Ok(*id.as_bytes()),
        Err(e) => Err(e.to_string()),
    }
}

/// The key of the desktop to pair with, from what its id writes down.
pub open spec fn desktop_of(key: Result<Seq<u8>, Seq<char>>) -> Result<Seq<u8>, Seq<char>> {
    match key {
        Ok(k) => Ok(k),
        Err(why) => Err("bad desktop id: "@ + why + ""@),
    }
}

/// The key of the desktop to pair with, from what its id writes down.
pub fn known_desktop(key: Result<[u8; 32], String>) -> (r: Result<[u8; 32], String>)
    ensures
        key_said(r) == desktop_of(key_said(key)),
{
    match key {
        Ok(k) => Ok(k),
        Err(why) => Err(join3("bad desktop id: ", why.as_str(), "")),
    }
}

/// The key of the desktop to pair with.
pub fn desktop_key(id: &str) -> (r: Result<[u8; 32], String>)
    ensures
        key_said(r) == desktop_of(key_of_id(id@)),
{
    known_desktop(read_id(id))
}

/// A paired phone, as it is stored.
#[derive(Debug, PartialEq, Eq)]
pub struct RemotePeer {
    pub id: String,
    pub name: String,
    pub token: String,
}

impl Clone for RemotePeer {
    fn clone(&self) -> (r: RemotePeer)
        ensures
            r == *self,
    {
        RemotePeer { id: self.id.clone(), name: self.name.clone(), token: self.token.clone() }
    }
}

/// The content of a [`RemotePeer`].
pub struct RemotePeerView {
    pub id: Seq<char>,
    pub name: Seq<char>,
    pub token: Seq<char>,
}

impl View for RemotePeer {
    type V = RemotePeerView;

    open spec fn view(&self) -> RemotePeerView {
        RemotePeerView { id: self.id@, name: self.name@, token: self.token@ }
    }
}

/// The contents of paired phones.
pub open spec fn peer_views(peers: Seq<RemotePeer>) -> Seq<RemotePeerView> {
    peers.map_values(|p: RemotePeer| p@)
}

/// The phones but those with the given id.
pub open spec fn without(peers: Seq<RemotePeerView>, id: Seq<char>) -> Seq<RemotePeerView>
    decreases peers.len(),
{
    if peers.len() == 0 {
        peers
    } else {
        let rest = without(peers.drop_last(), id);
        if peers.last().id == id {
            rest
        } else {
            rest.push(peers.last())
        }
    }
}

/// The phones with one more, in place of any earlier pairing with it.
pub open spec fn with_peer(peers: Seq<RemotePeerView>, peer: RemotePeerView) -> Seq<RemotePeerView> {
    without(peers, peer.id).push(peer)
}

/// The paired phones.
#[derive(Debug)]
pub struct Peers {
    peers: Vec<RemotePeer>,
}

impl View for Peers {
    type V = Seq<RemotePeerView>;

    closed spec fn view(&self) -> Seq<RemotePeerView> {
        peer_views(self.peers@)
    }
}

/// How a phone stands, given the local port of its tunnel where it has one.
pub open spec fn status_of(p: RemotePeerView, port: Option<u16>) -> RemotePhoneStatusView {
    RemotePhoneStatusView { id: p.id, name: p.name, online: port is Some, port }
}

/// The phones that have a tunnel.
pub open spec fn connected_of(peers: Seq<RemotePeerView>, ports: Seq<Option<u16>>) -> Seq<
    PairedPhoneView,
>
    decreases peers.len(),
{
    if peers.len() == 0 {
        Seq::empty()
    } else {
        let before = connected_of(peers.drop_last(), ports);
        let p = peers.last();
        match ports[peers.len() - 1] {
            Some(port) => before.push(
                PairedPhoneView { id: p.id, name: p.name, token: p.token, port },
            ),
            None => before,
        }
    }
}

/// The keys that are dialled: those of the phones without a tunnel whose ids write one down.
pub open spec fn dialled(ports: Seq<Option<u16>>, keys: Seq<Result<Seq<u8>, Seq<char>>>) -> Seq<Seq<u8>>
    decreases keys.len(),
{
    if keys.len() == 0 {
        Seq::empty()
    } else {
        let before = dialled(ports, keys.drop_last());
        match (ports[keys.len() - 1], keys.last()) {
            (None, Ok(key)) => before.push(key),
            _ => before,
        }
    }
}

/// What ids write down.
pub open spec fn keys_said(s: Seq<Result<[u8; 32], String>>) -> Seq<Result<Seq<u8>, Seq<char>>> {
    s.map_values(|r: Result<[u8; 32], String>| key_said(r))
}

/// The keys that are dialled, given the port of each phone that has a tunnel and what the ids of
/// the phones write down.
pub fn keys_to_dial(ports: &Vec<Option<u16>>, keys: &Vec<Result<[u8; 32], String>>) -> (r: Vec<
    [u8; 32],
>)
    requires
        ports@.len() == keys@.len(),
    ensures
        r@.map_values(|k: [u8; 32]| k@) == dialled(ports@, keys_said(keys@)),
{
    let ghost all = keys_said(keys@);
    let mut out: Vec<[u8; 32]> = Vec::new();
    let mut i: usize = 0;
    proof {
        assert(all.take(0) =~= Seq::empty());
        assert(out@.map_values(|k: [u8; 32]| k@) =~= Seq::empty());
    }
    while i < keys.len()
        invariant
            i <= keys@.len(),
            ports@.len() == keys@.len(),
            all == keys_said(keys@),
            out@.map_values(|k: [u8; 32]| k@) == dialled(ports@, all.take(i as int)),
        decreases keys@.len() - i,
    {
        let ghost before = out@.map_values(|k: [u8; 32]| k@);
        proof {
            assert(all.take(i + 1).drop_last() =~= all.take(i as int));
            assert(all.take(i + 1).last() == key_said(keys@[i as int]));
        }
        if ports[i].is_none() {
            if let Ok(key) = &keys[i] {
                out.push(*key);
                assert(out@.map_values(|k: [u8; 32]| k@) =~= before.push(key@));
            }
        }
        i += 1;
    }
    assert(all.take(i as int) =~= all);
    out
}

impl Peers {
    /// The phones as they are stored; where nothing is stored there are none.
    pub fn load(stored: Option<Vec<RemotePeer>>) -> (r: Peers)
        ensures
            r@ == (match stored {
                Some(peers) => peer_views(peers@),
                None => Seq::empty(),
            }),
    {
        match stored {
            Some(peers) => Peers { peers },
            None => {
                let peers: Vec<RemotePeer> = Vec::new();
                assert(peer_views(peers@) =~= Seq::empty());
                Peers { peers }
            },
        }
    }

    /// The phones, in the order in which they paired.
    pub fn list(&self) -> (r: &Vec<RemotePeer>)
        ensures
            peer_views(r@) == self@,
    {
        &self.peers
    }

    /// Forgets a phone.
    pub fn forget(&mut self, id: &str)
        ensures
            final(self)@ == without(old(self)@, id@),
    {
        let ghost all = self@;
        let mut kept: Vec<RemotePeer> = Vec::new();
        let mut i: usize = 0;
        proof {
            assert(all.take(0) =~= Seq::empty());
            assert(peer_views(kept@) =~= Seq::empty());
        }
        while i < self.peers.len()
            invariant
                i <= self.peers@.len(),
                all == self@,
                all == old(self)@,
                peer_views(kept@) == without(all.take(i as int), id@),
            decreases self.peers@.len() - i,
        {
            proof {
                assert(all.take(i + 1).drop_last() =~= all.take(i as int));
                assert(all.take(i + 1).last() == self.peers@[i as int]@);
            }
            if !same_text(self.peers[i].id.as_str(), id) {
                let ghost before = peer_views(kept@);
                kept.push(self.peers[i].clone());
                assert(peer_views(kept@) =~= before.push(self.peers@[i as int]@));
            }
            i += 1;
        }
        assert(all.take(i as int) =~= all);
        self.peers = kept;
    }

    /// Stores a phone in place of any earlier pairing with it.
    pub fn upsert_peer(&mut self, peer: RemotePeer)
        ensures
            final(self)@ == with_peer(old(self)@, peer@),
    {
        self.forget(peer.id.as_str());
        let ghost before = self@;
        let ghost view = peer@;
        self.peers.push(peer);
        assert(self@ =~= before.push(view));
    }

    /// How the phones stand, given the local port of the tunnel of each that has one.
    pub fn remote_phones(&self, ports: &Vec<Option<u16>>) -> (r: Vec<RemotePhoneStatus>)
        requires
            ports@.len() == self@.len(),
        ensures
            r@.len() == self@.len(),
            forall|i: int|
                0 <= i < r@.len() ==> (#[trigger] r@[i])@ == status_of(self@[i], ports@[i]),
    {
        let mut out: Vec<RemotePhoneStatus> = Vec::new();
        let mut i: usize = 0;
        while i < self.peers.len()
            invariant
                i <= self.peers@.len(),
                ports@.len() == self.peers@.len(),
                out@.len() == i,
                forall|k: int|
                    0 <= k < i ==> (#[trigger] out@[k])@ == status_of(self@[k], ports@[k]),
            decreases self.peers@.len() - i,
        {
            let port: Option<u16> = ports[i];
            out.push(
                RemotePhoneStatus {
                    id: self.peers[i].id.clone(),
                    name: self.peers[i].name.clone(),
                    online: port.is_some(),
                    port,
                },
            );
            i += 1;
        }
        out
    }

    /// The keys of the phones to dial, given the local port of each that has a tunnel.
    pub fn to_dial(&self, ports: &Vec<Option<u16>>) -> (r: Vec<[u8; 32]>)
        requires
            ports@.len() == self@.len(),
        ensures
            r@.map_values(|k: [u8; 32]| k@) == dialled(
                ports@,
                self@.map_values(|p: RemotePeerView| key_of_id(p.id)),
            ),
    {
        let mut keys: Vec<Result<[u8; 32], String>> = Vec::new();
        while keys.len() < self.peers.len()
            invariant
                keys@.len() <= self.peers@.len(),
                forall|k: int|
                    0 <= k < keys@.len() ==> key_said(#[trigger] keys@[k]) == key_of_id(self@[k].id),
            decreases self.peers@.len() - keys@.len(),
        {
            keys.push(read_id(self.peers[keys.len()].id.as_str()));
        }
        assert(keys_said(keys@) =~= self@.map_values(|p: RemotePeerView| key_of_id(p.id)));
        keys_to_dial(ports, &keys)
    }

    /// The phones that have a tunnel, given its local port for each, in order.
    pub fn connected(&self, ports: &Vec<Option<u16>>) -> (r: Vec<PairedPhone>)
        requires
            ports@.len() == self@.len(),
        ensures
            r@.map_values(|p: PairedPhone| p@) == connected_of(self@, ports@),
    {
        let ghost all = self@;
        let mut out: Vec<PairedPhone> = Vec::new();
        let mut i: usize = 0;
        proof {
            assert(all.take(0) =~= Seq::empty());
            assert(out@.map_values(|p: PairedPhone| p@) =~= Seq::empty());
        }
        while i < self.peers.len()
            invariant
                i <= self.peers@.len(),
                all == self@,
                ports@.len() == self.peers@.len(),
                out@.map_values(|p: PairedPhone| p@) == connected_of(all.take(i as int), ports@),
            decreases self.peers@.len() - i,
        {
            let ghost before = out@.map_values(|p: PairedPhone| p@);
            proof {
                assert(all.take(i + 1).drop_last() =~= all.take(i as int));
                assert(all.take(i + 1).last() == self.peers@[i as int]@);
            }
            if let Some(port) = ports[i] {
                let phone = PairedPhone {
                    id: self.peers[i].id.clone(),
                    name: self.peers[i].name.clone(),
                    token: self.peers[i].token.clone(),
                    port,
                };
                let ghost view = phone@;
                out.push(phone);
                assert(out@.map_values(|p: PairedPhone| p@) =~= before.push(view));
            }
            i += 1;
        }
        assert(all.take(i as int) =~= all);
        out
    }
}

/// The code of an open pairing is accepted until its time is over, and no other code is.
pub proof fn law_a_pin_works_in_time(
    session: PairingSessionView,
    pin: Seq<char>,
    now: int,
)
    ensures
        admits(Some(session), pin, now) <==> pin == session.pin && now < session.expires,
        !admits(None, pin, now),
{
}

/// A phone is connected exactly where it has a tunnel, under its own id and token and at the port of
/// its tunnel, and it is shown as online then; a phone that has none is dialled, where its id writes
/// down a key.
pub proof fn law_phones_are_connected_or_dialled(
    peers: Seq<RemotePeerView>,
    ports: Seq<Option<u16>>,
    i: int,
)
    requires
        0 <= i < peers.len() == ports.len(),
    ensures
        status_of(peers[i], ports[i]).online == (ports[i] is Some),
        status_of(peers[i], ports[i]).id == peers[i].id,
        status_of(peers[i], ports[i]).port == ports[i],
        ports[i] matches Some(port) ==> connected_of(peers, ports).contains(
            PairedPhoneView { id: peers[i].id, name: peers[i].name, token: peers[i].token, port },
        ),
        (forall|k: int| 0 <= k < ports.len() ==> (#[trigger] ports[k]) is None) ==> connected_of(
            peers,
            ports,
        ).len() == 0,
{
    lemma_connected(peers, ports, i);
}

proof fn lemma_connected(peers: Seq<RemotePeerView>, ports: Seq<Option<u16>>, i: int)
    requires
        0 <= i < peers.len() <= ports.len(),
    ensures
        ports[i] matches Some(port) ==> connected_of(peers, ports).contains(
            PairedPhoneView { id: peers[i].id, name: peers[i].name, token: peers[i].token, port },
        ),
        (forall|k: int| 0 <= k < ports.len() ==> (#[trigger] ports[k]) is None) ==> connected_of(
            peers,
            ports,
        ).len() == 0,
    decreases peers.len(),
{
    reveal_with_fuel(connected_of, 2);
    let rest = peers.drop_last();
    let all = connected_of(peers, ports);
    if rest.len() > 0 {
        let k = if i < rest.len() {
            i
        } else {
            0
        };
        lemma_connected(rest, ports, k);
    }
    if let Some(port) = ports[i] {
        let p = PairedPhoneView {
            id: peers[i].id,
            name: peers[i].name,
            token: peers[i].token,
            port,
        };
        if i < rest.len() {
            let j = choose|j: int|
                0 <= j < connected_of(rest, ports).len() && connected_of(rest, ports)[j] == p;
            assert(all[j] == p);
        } else {
            assert(all[all.len() - 1] == p);
        }
    }
    if forall|k: int| 0 <= k < ports.len() ==> (#[trigger] ports[k]) is None {
        assert(ports[peers.len() - 1] is None);
    }
}

/// What is dialled are keys of phones that have no tunnel, and all of these.
pub proof fn law_phones_without_a_tunnel_are_dialled(
    ports: Seq<Option<u16>>,
    keys: Seq<Result<Seq<u8>, Seq<char>>>,
    i: int,
)
    requires
        0 <= i < keys.len() <= ports.len(),
    ensures
        ports[i] is None && keys[i] is Ok ==> dialled(ports, keys).contains(keys[i]->Ok_0),
        (forall|k: int| 0 <= k < ports.len() ==> (#[trigger] ports[k]) is Some) ==> dialled(
            ports,
            keys,
        ).len() == 0,
    decreases keys.len(),
{
    reveal_with_fuel(dialled, 2);
    let rest = keys.drop_last();
    let all = dialled(ports, keys);
    if rest.len() > 0 {
        let k = if i < rest.len() {
            i
        } else {
            0
        };
        law_phones_without_a_tunnel_are_dialled(ports, rest, k);
    }
    if ports[i] is None && keys[i] is Ok {
        if i < rest.len() {
            let j = choose|j: int|
                0 <= j < dialled(ports, rest).len() && dialled(ports, rest)[j] == keys[i]->Ok_0;
            assert(all[j] == keys[i]->Ok_0);
        } else {
            assert(all[all.len() - 1] == keys[i]->Ok_0);
        }
    }
    if forall|k: int| 0 <= k < ports.len() ==> (#[trigger] ports[k]) is Some {
        assert(ports[keys.len() - 1] is Some);
    }
}

/// A phone is in the list.
pub open spec fn known(peers: Seq<RemotePeerView>, id: Seq<char>) -> bool {
    exists|i: int| 0 <= i < peers.len() && (#[trigger] peers[i]).id == id
}

/// No phone occurs twice.
pub open spec fn one_each(peers: Seq<RemotePeerView>) -> bool {
    forall|i: int, j: int|
        0 <= i < j < peers.len() ==> (#[trigger] peers[i]).id != (#[trigger] peers[j]).id
}

proof fn lemma_without(peers: Seq<RemotePeerView>, id: Seq<char>)
    ensures
        !known(without(peers, id), id),
        forall|other: Seq<char>|
            other != id ==> (#[trigger] known(without(peers, id), other) <==> known(peers, other)),
        one_each(peers) ==> one_each(without(peers, id)),
    decreases peers.len(),
{
    if peers.len() > 0 {
        let head = peers.drop_last();
        let last = peers.last();
        let rest = without(head, id);
        let all = without(peers, id);
        lemma_without(head, id);
        assert forall|other: Seq<char>| #[trigger] known(all, other) <==> (known(rest, other) || (
        last.id != id && last.id == other)) by {
            if known(rest, other) {
                let k = choose|k: int| 0 <= k < rest.len() && (#[trigger] rest[k]).id == other;
                assert(all[k].id == other);
            }
            if last.id != id && last.id == other {
                assert(all[rest.len() as int].id == other);
            }
            if known(all, other) {
                let k = choose|k: int| 0 <= k < all.len() && (#[trigger] all[k]).id == other;
                if k < rest.len() {
                    assert(rest[k].id == other);
                }
            }
        }
        assert forall|other: Seq<char>| #[trigger] known(peers, other) <==> (known(head, other)
            || last.id == other) by {
            if known(head, other) {
                let k = choose|k: int| 0 <= k < head.len() && (#[trigger] head[k]).id == other;
                assert(peers[k].id == other);
            }
            if last.id == other {
                assert(peers[peers.len() - 1].id == other);
            }
            if known(peers, other) {
                let k = choose|k: int| 0 <= k < peers.len() && (#[trigger] peers[k]).id == other;
                if k < head.len() {
                    assert(head[k].id == other);
                }
            }
        }
        assert forall|other: Seq<char>| other != id implies (#[trigger] known(all, other) <==> known(
            peers,
            other,
        )) by {
            assert(known(rest, other) <==> known(head, other));
        }
        if one_each(peers) {
            assert forall|i: int, j: int| 0 <= i < j < head.len() implies (#[trigger] head[i]).id
                != (#[trigger] head[j]).id by {
                assert(peers[i].id != peers[j].id);
            }
            if last.id != id {
                assert(!known(head, last.id)) by {
                    if known(head, last.id) {
                        let k = choose|k: int|
                            0 <= k < head.len() && (#[trigger] head[k]).id == last.id;
                        assert(peers[k].id != peers[peers.len() - 1].id);
                    }
                }
                assert(!known(rest, last.id));
                assert forall|i: int, j: int| 0 <= i < j < all.len() implies (
                #[trigger] all[i]).id != (#[trigger] all[j]).id by {
                    if j == rest.len() {
                        assert(rest[i].id != last.id);
                    } else {
                        assert(rest[i].id != rest[j].id);
                    }
                }
            }
        }
    }
}

/// After a phone has paired it is in the list once, as it paired last, and every other phone is in
/// the list exactly if it was.
pub proof fn law_pairing_again_replaces(
    peers: Seq<RemotePeerView>,
    peer: RemotePeerView,
    other: Seq<char>,
)
    requires
        one_each(peers),
    ensures
        one_each(with_peer(peers, peer)),
        with_peer(peers, peer).last() == peer,
        other != peer.id ==> (known(with_peer(peers, peer), other) <==> known(peers, other)),
{
    lemma_without(peers, peer.id);
    let rest = without(peers, peer.id);
    let all = with_peer(peers, peer);
    assert forall|i: int, j: int| 0 <= i < j < all.len() implies (#[trigger] all[i]).id != (
    #[trigger] all[j]).id by {
        if j == rest.len() {
            assert(rest[i].id != peer.id);
        } else {
            assert(rest[i].id != rest[j].id);
        }
    }
    if other != peer.id {
        if known(all, other) {
            let k = choose|k: int| 0 <= k < all.len() && (#[trigger] all[k]).id == other;
            assert(rest[k].id == other);
        }
        if known(rest, other) {
            let k = choose|k: int| 0 <= k < rest.len() && (#[trigger] rest[k]).id == other;
            assert(all[k].id == other);
        }
    }
}

/// A forgotten phone is out of the list, and no other is.
pub proof fn law_forgetting_takes_out_one_phone(
    peers: Seq<RemotePeerView>,
    id: Seq<char>,
    other: Seq<char>,
)
    ensures
        !known(without(peers, id), id),
        other != id ==> (known(without(peers, id), other) <==> known(peers, other)),
{
    lemma_without(peers, id);
}

} // verus!
