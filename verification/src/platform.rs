//! The mixer of the volumes of single apps: how processes and audio sessions of the system become
//! the sessions that are shown, and what is remembered for them.

use vstd::prelude::*;
use crate::float_bits::less_than;
use crate::text::{chars_of, decimal_text, join3, same_text, string_of, text_precedes};
use crate::types::{AppSession, F32_1};

verus! {

/// Failures of the mixer.
#[derive(Debug, Clone, PartialEq, Eq)]
pub enum PlatformError {
    /// The system cannot do it; this is shown as information.
    Unsupported(String),
    /// The audio session is gone.
    SessionNotFound(String),
    /// A call of the system failed.
    Os(String),
}

/// What a failure is called.
pub open spec fn platform_error_text(e: PlatformError) -> Seq<char> {
    match e {
        PlatformError::Unsupported(why) => "not supported on this platform: "@ + why@ + ""@,
        PlatformError::SessionNotFound(id) => "audio session not found: "@ + id@ + ""@,
        PlatformError::Os(why) => "platform audio error: "@ + why@ + ""@,
    }
}

impl PlatformError {
    /// The failure in words.
    pub fn text(&self) -> (r: String)
        ensures
            r@ == platform_error_text(*self),
    {
        match self {
            PlatformError::Unsupported(why) => join3(
                "not supported on this platform: ",
                why.as_str(),
                "",
            ),
            PlatformError::SessionNotFound(id) => join3("audio session not found: ", id.as_str(), ""),
            PlatformError::Os(why) => join3("platform audio error: ", why.as_str(), ""),
        }
    }
}

/// A mixer that only says why there is none.
#[derive(Debug, Clone, PartialEq, Eq)]
pub struct UnsupportedSessionController {
    reason: String,
}

impl UnsupportedSessionController {
    /// The reason that is given.
    pub closed spec fn given(&self) -> Seq<char> {
        self.reason@
    }

    /// A mixer that gives a reason.
    pub fn new(reason: &str) -> (r: UnsupportedSessionController)
        ensures
            r.given() == reason@,
    {
        UnsupportedSessionController { reason: reason.to_owned() }
    }

    /// There is no mixer.
    pub fn supported(&self) -> (r: bool)
        ensures
            !r,
    {
        false
    }

    /// Why there is none.
    pub fn unavailable_reason(&self) -> (r: Option<String>)
        ensures
            r matches Some(why) && why@ == self.given(),
    {
        Some(self.reason.clone())
    }

    /// No sessions.
    pub fn list_sessions(&self) -> (r: Vec<AppSession>)
        ensures
            r@.len() == 0,
    {
        Vec::new()
    }

    /// Refused for the reason.
    pub fn set_volume(&self, _id: &str, _gain: u32) -> (r: Result<(), PlatformError>)
        ensures
            r matches Err(PlatformError::Unsupported(why)) && why@ == self.given(),
    {
        Err(PlatformError::Unsupported(self.reason.clone()))
    }

    /// Refused for the reason.
    pub fn set_muted(&self, _id: &str, _muted: bool) -> (r: Result<(), PlatformError>)
        ensures
            r matches Err(PlatformError::Unsupported(why)) && why@ == self.given(),
    {
        Err(PlatformError::Unsupported(self.reason.clone()))
    }
}

/// The mixer of a system that has none.
pub fn default_controller() -> (r: UnsupportedSessionController)
    ensures
        r.given() == "Per-application volume isn't supported on this platform yet."@,
{
    UnsupportedSessionController::new(
        "Per-application volume isn't supported on this platform yet.",
    )
}

/// What stands behind the last separator, or the whole text where there is none.
pub open spec fn last_part(s: Seq<char>, separators: Seq<char>) -> Seq<char>
    decreases s.len(),
{
    if s.len() == 0 || separators.contains(s.last()) {
        Seq::empty()
    } else {
        last_part(s.drop_last(), separators).push(s.last())
    }
}

fn part_behind(s: &str, a: char, b: char) -> (r: String)
    ensures
        r@ == last_part(s@, seq![a, b]),
{
    let v = chars_of(s);
    let n: usize = v.len();
    let mut i: usize = n;
    proof {
        assert(s@.take(n as int) =~= s@);
        assert(last_part(s@, seq![a, b]) =~= last_part(s@, seq![a, b]) + s@.subrange(
            n as int,
            n as int,
        ));
    }
    while i > 0
        invariant
            v@ == s@,
            n == v@.len(),
            i <= n,
            last_part(s@, seq![a, b]) == last_part(s@.take(i as int), seq![a, b]) + s@.subrange(
                i as int,
                n as int,
            ),
        decreases i,
    {
        let c: char = v[i - 1];
        proof {
            assert(s@.take(i as int).drop_last() =~= s@.take(i - 1));
            assert(s@.take(i as int).last() == c);
            assert(seq![a, b].contains(c) <==> c == a || c == b) by {
                assert(seq![a, b][0] == a);
                assert(seq![a, b][1] == b);
            }
        }
        if c == a || c == b {
            assert(last_part(s@, seq![a, b]) =~= s@.subrange(i as int, n as int));
            return string_of(v.as_slice(), i, n);
        }
        assert(last_part(s@, seq![a, b]) =~= last_part(s@.take(i - 1), seq![a, b]) + s@.subrange(
            i - 1,
            n as int,
        ));
        i -= 1;
    }
    assert(last_part(s@, seq![a, b]) =~= s@.subrange(0, n as int));
    string_of(v.as_slice(), 0, n)
}

/// The name that is shown for a bundle: the last part of its id, as in `com.apple.Music`, or the
/// whole id where that is empty.
pub open spec fn friendly(bundle: Seq<char>) -> Seq<char> {
    let last = last_part(bundle, seq!['.', '.']);
    if last.len() == 0 {
        bundle
    } else {
        last
    }
}

/// The name that is shown for a bundle.
pub fn friendly_name(bundle_id: &str) -> (r: String)
    ensures
        r@ == friendly(bundle_id@),
{
    let last = part_behind(bundle_id, '.', '.');
    if last.as_str().is_empty() {
        bundle_id.to_owned()
    } else {
        last
    }
}

/// The file name in a path of either kind.
pub open spec fn base(path: Seq<char>) -> Seq<char> {
    last_part(path, seq!['\\', '/'])
}

/// The file name in a path of either kind.
pub fn basename(path: &str) -> (r: String)
    ensures
        r@ == base(path@),
{
    part_behind(path, '\\', '/')
}

/// A text without an ending, where it has it.
pub open spec fn without_ending(s: Seq<char>, ending: Seq<char>) -> Option<Seq<char>> {
    if s.len() >= ending.len() && s.skip(s.len() - ending.len()) == ending {
        Some(s.take(s.len() - ending.len()))
    } else {
        None
    }
}

/// The name that is shown for an executable.
pub open spec fn shown_name(exe: Seq<char>) -> Seq<char> {
    match without_ending(base(exe), ".exe"@) {
        Some(s) => s,
        None => match without_ending(base(exe), ".EXE"@) {
            Some(s) => s,
            None => base(exe),
        },
    }
}

fn cut(s: &str, ending: &str) -> (r: Option<String>)
    ensures
        crate::types::text_of(r) == without_ending(s@, ending@),
{
    let v = chars_of(s);
    let e = chars_of(ending);
    let n: usize = v.len();
    let m: usize = e.len();
    if n < m {
        return None;
    }
    let tail = string_of(v.as_slice(), n - m, n);
    assert(tail@ =~= s@.skip(s@.len() - ending@.len()));
    if same_text(tail.as_str(), ending) {
        assert(s@.subrange(0, n - m) =~= s@.take(s@.len() - ending@.len()));
        Some(string_of(v.as_slice(), 0, n - m))
    } else {
        None
    }
}

/// The name that is shown for an executable: its file name without the ending.
pub fn display_name(exe: &str) -> (r: String)
    ensures
        r@ == shown_name(exe@),
{
    let file = basename(exe);
    match cut(file.as_str(), ".exe") {
        Some(s) => s,
        None => match cut(file.as_str(), ".EXE") {
            Some(s) => s,
            None => file,
        },
    }
}

/// A number that may be negative, written in decimal.
pub open spec fn signed(n: int) -> Seq<char> {
    if n < 0 {
        "-"@ + crate::text::decimal((-n) as nat) + ""@
    } else {
        crate::text::decimal(n as nat)
    }
}

fn signed_text(n: i32) -> (r: String)
    ensures
        r@ == signed(n as int),
{
    if n < 0 {
        join3("-", decimal_text((-(n as i64)) as u64).as_str(), "")
    } else {
        decimal_text(n as u64)
    }
}

/// What the system says of a process: whether it plays audio, its bundle and its number.
#[derive(Debug, Clone, PartialEq, Eq)]
pub struct ProcessInfo {
    pub running: Option<u32>,
    pub bundle: Option<String>,
    pub pid: Option<i32>,
}

/// The content of a [`ProcessInfo`].
pub struct ProcessInfoView {
    pub running: Option<u32>,
    pub bundle: Option<Seq<char>>,
    pub pid: Option<i32>,
}

impl View for ProcessInfo {
    type V = ProcessInfoView;

    open spec fn view(&self) -> ProcessInfoView {
        ProcessInfoView {
            running: self.running,
            bundle: crate::types::text_of(self.bundle),
            pid: self.pid,
        }
    }
}

/// An app that plays audio.
#[derive(Debug, Clone, PartialEq, Eq)]
pub struct AudioApp {
    pub id: String,
    pub name: String,
}

/// The content of an [`AudioApp`].
pub struct AudioAppView {
    pub id: Seq<char>,
    pub name: Seq<char>,
}

impl View for AudioApp {
    type V = AudioAppView;

    open spec fn view(&self) -> AudioAppView {
        AudioAppView { id: self.id@, name: self.name@ }
    }
}

/// The contents of apps.
pub open spec fn app_views(apps: Seq<AudioApp>) -> Seq<AudioAppView> {
    apps.map_values(|a: AudioApp| a@)
}

/// The app of a process: by its bundle, or by its number where it has none.
pub open spec fn app_of(p: ProcessInfoView) -> AudioAppView {
    match p.bundle {
        Some(b) if b.len() > 0 => AudioAppView { id: b, name: friendly(b) },
        _ => {
            let pid: int = match p.pid {
                Some(n) => n as int,
                None => 0,
            };
            AudioAppView { id: "pid:"@ + signed(pid) + ""@, name: "PID "@ + signed(pid) + ""@ }
        },
    }
}

/// The apps of the processes that play audio, in order.
pub open spec fn playing(processes: Seq<ProcessInfoView>) -> Seq<AudioAppView>
    decreases processes.len(),
{
    if processes.len() == 0 {
        Seq::empty()
    } else {
        let before = playing(processes.drop_last());
        if processes.last().running == Some(1u32) {
            before.push(app_of(processes.last()))
        } else {
            before
        }
    }
}

fn audio_app(p: &ProcessInfo) -> (r: AudioApp)
    ensures
        r@ == app_of(p@),
{
    if let Some(b) = &p.bundle {
        if !b.as_str().is_empty() {
            return AudioApp { id: b.clone(), name: friendly_name(b.as_str()) };
        }
    }
    let pid: i32 = match p.pid {
        Some(n) => n,
        None => 0,
    };
    let number = signed_text(pid);
    AudioApp { id: join3("pid:", number.as_str(), ""), name: join3("PID ", number.as_str(), "") }
}

/// The apps of the processes that play audio.
pub fn running_audio_apps(processes: &Vec<ProcessInfo>) -> (r: Vec<AudioApp>)
    ensures
        app_views(r@) == playing(processes@.map_values(|p: ProcessInfo| p@)),
{
    let ghost all = processes@.map_values(|p: ProcessInfo| p@);
    let mut out: Vec<AudioApp> = Vec::new();
    let mut i: usize = 0;
    proof {
        assert(all.take(0) =~= Seq::empty());
        assert(app_views(out@) =~= Seq::empty());
    }
    while i < processes.len()
        invariant
            i <= processes@.len(),
            all == processes@.map_values(|p: ProcessInfo| p@),
            app_views(out@) == playing(all.take(i as int)),
        decreases processes@.len() - i,
    {
        let ghost before = app_views(out@);
        proof {
            assert(all.take(i + 1).drop_last() =~= all.take(i as int));
            assert(all.take(i + 1).last() == processes@[i as int]@);
        }
        let plays: bool = match processes[i].running {
            Some(n) => n == 1,
            None => false,
        };
        if plays {
            let app = audio_app(&processes[i]);
            let ghost view = app@;
            out.push(app);
            assert(app_views(out@) =~= before.push(view));
        }
        i += 1;
    }
    assert(all.take(i as int) =~= all);
    out
}

/// What the user wants of an app.
#[derive(Debug, Clone, Copy, PartialEq, Eq, Structural)]
pub struct Desired {
    pub volume: u32,
    pub muted: bool,
}

impl Default for Desired {
    fn default() -> (r: Desired)
        ensures
            r == untouched(),
    {
        Desired { volume: F32_1, muted: false }
    }
}

/// An app for which nothing was set plays at full volume.
pub open spec fn untouched() -> Desired {
    Desired { volume: F32_1, muted: false }
}

/// A gain from 0 to 1: what lies outside is moved to the nearer end.
pub open spec fn unit_gain(gain: u32) -> u32 {
    if crate::float_bits::less(gain, 0) {
        0
    } else if crate::float_bits::less(F32_1, gain) {
        F32_1
    } else {
        gain
    }
}

/// A gain from 0 to 1.
pub fn clamp_gain(gain: u32) -> (r: u32)
    ensures
        r == unit_gain(gain),
{
    if less_than(gain, 0) {
        0
    } else if less_than(F32_1, gain) {
        F32_1
    } else {
        gain
    }
}

/// Every defined gain becomes one from 0 to 1.
pub proof fn law_gains_stay_in_range(gain: u32)
    requires
        !crate::float_bits::undefined(gain),
    ensures
        crate::float_bits::at_most(0, unit_gain(gain)),
        crate::float_bits::at_most(unit_gain(gain), F32_1),
{
}

/// What is remembered of an app, from place `from` on.
pub open spec fn recalled(entries: Seq<(Seq<char>, Desired)>, id: Seq<char>, from: int) -> Option<
    Desired,
>
    decreases entries.len() - from,
{
    if !(0 <= from < entries.len()) {
        None
    } else if entries[from].0 == id {
        Some(entries[from].1)
    } else {
        recalled(entries, id, from + 1)
    }
}

/// The contents of what is remembered.
pub open spec fn entry_views(entries: Seq<(String, Desired)>) -> Seq<(Seq<char>, Desired)> {
    entries.map_values(|e: (String, Desired)| (e.0@, e.1))
}

/// A mixer that lists the apps that play audio and remembers what the user wants of each.
#[derive(Debug)]
pub struct MacosSessionController {
    desired: Vec<(String, Desired)>,
}

/// For each app what was set for it.
impl View for MacosSessionController {
    type V = Map<Seq<char>, Desired>;

    closed spec fn view(&self) -> Map<Seq<char>, Desired> {
        Map::new(
            |id: Seq<char>| recalled(entry_views(self.desired@), id, 0) is Some,
            |id: Seq<char>| recalled(entry_views(self.desired@), id, 0)->0,
        )
    }
}

/// What the user wants of an app, of which nothing may have been set.
pub open spec fn wanted(set: Map<Seq<char>, Desired>, id: Seq<char>) -> Desired {
    if set.dom().contains(id) {
        set[id]
    } else {
        untouched()
    }
}

/// The content of an [`AppSession`].
pub struct AppSessionView {
    pub id: Seq<char>,
    pub name: Seq<char>,
    pub icon: Option<Seq<char>>,
    pub volume: u32,
    pub muted: bool,
}

impl View for AppSession {
    type V = AppSessionView;

    open spec fn view(&self) -> AppSessionView {
        AppSessionView {
            id: self.id@,
            name: self.name@,
            icon: crate::types::text_of(self.icon),
            volume: self.volume,
            muted: self.muted,
        }
    }
}

/// The contents of sessions.
pub open spec fn session_views(s: Seq<AppSession>) -> Seq<AppSessionView> {
    s.map_values(|a: AppSession| a@)
}

/// The session of an app with what the user wants of it.
pub open spec fn session_of(app: AudioAppView, set: Map<Seq<char>, Desired>) -> AppSessionView {
    AppSessionView {
        id: app.id,
        name: app.name,
        icon: None,
        volume: wanted(set, app.id).volume,
        muted: wanted(set, app.id).muted,
    }
}

proof fn lemma_recalled(
    before: Seq<(Seq<char>, Desired)>,
    after: Seq<(Seq<char>, Desired)>,
    at: int,
    id: Seq<char>,
    d: Desired,
    other: Seq<char>,
    from: int,
)
    requires
        0 <= from <= at <= before.len(),
        at < before.len() ==> before[at].0 == id && after == before.update(at, (id, d)),
        at == before.len() ==> after == before.push((id, d)),
        forall|k: int| 0 <= k < at ==> (#[trigger] before[k]).0 != id,
    ensures
        recalled(after, other, from) == (if other == id {
            Some(d)
        } else {
            recalled(before, other, from)
        }),
    decreases at - from,
{
    if from < at {
        assert(after[from] == before[from]);
        lemma_recalled(before, after, at, id, d, other, from + 1);
    } else {
        assert(after[at] == (id, d));
        if other != id {
            lemma_recalled_tail(before, after, at, other, at + 1);
        }
    }
}

proof fn lemma_recalled_tail(
    before: Seq<(Seq<char>, Desired)>,
    after: Seq<(Seq<char>, Desired)>,
    at: int,
    other: Seq<char>,
    from: int,
)
    requires
        0 <= at < from,
        at < before.len() ==> after.len() == before.len(),
        at >= before.len() ==> from >= after.len(),
        forall|k: int| from <= k < before.len() ==> #[trigger] after[k] == before[k],
    ensures
        recalled(after, other, from) == recalled(before, other, from),
    decreases before.len() - from,
{
    if from < before.len() {
        assert(after[from] == before[from]);
        lemma_recalled_tail(before, after, at, other, from + 1);
    }
}

proof fn lemma_recalled_place(entries: Seq<(Seq<char>, Desired)>, id: Seq<char>, at: int, from: int)
    requires
        0 <= from <= at <= entries.len(),
        at < entries.len() ==> entries[at].0 == id,
        forall|k: int| 0 <= k < at ==> (#[trigger] entries[k]).0 != id,
    ensures
        recalled(entries, id, from) == (if at < entries.len() {
            Some(entries[at].1)
        } else {
            None
        }),
    decreases at - from,
{
    if from < at {
        assert(entries[from].0 != id);
        lemma_recalled_place(entries, id, at, from + 1);
    }
}

/// What the user wants once the volume of an app was set.
pub open spec fn with_volume(
    set: Map<Seq<char>, Desired>,
    id: Seq<char>,
    gain: u32,
) -> Map<Seq<char>, Desired> {
    set.insert(id, (Desired { volume: unit_gain(gain), ..wanted(set, id) }))
}

/// What the user wants once an app was muted or is heard again.
pub open spec fn with_mute(
    set: Map<Seq<char>, Desired>,
    id: Seq<char>,
    muted: bool,
) -> Map<Seq<char>, Desired> {
    set.insert(id, (Desired { muted, ..wanted(set, id) }))
}

/// The mixer shows what was set: an app has the volume that was asked for, where it lies from zero to
/// one, and is muted where it was asked to be; setting one leaves the other and all other apps alone,
/// and an app of which nothing was set plays at full volume.
pub proof fn law_the_mixer_shows_what_was_set(
    set: Map<Seq<char>, Desired>,
    app: AudioAppView,
    id: Seq<char>,
    gain: u32,
    muted: bool,
)
    ensures
        ({
            let was = session_of(app, set);
            let loud = session_of(app, with_volume(set, id, gain));
            let mute = session_of(app, with_mute(set, id, muted));
            &&& was.id == app.id && was.name == app.name
            &&& loud.muted == was.muted
            &&& mute.volume == was.volume
            &&& app.id != id ==> loud == was && mute == was
            &&& app.id == id ==> mute.muted == muted
            &&& app.id == id && crate::float_bits::at_most(0, gain) && crate::float_bits::at_most(
                gain,
                0x3f80_0000,
            ) ==> loud.volume == gain
            &&& app.id == id && crate::float_bits::less(gain, 0) ==> loud.volume == 0
            &&& app.id == id && crate::float_bits::less(0x3f80_0000, gain) ==> loud.volume
                == 0x3f80_0000
            &&& !set.dom().contains(app.id) ==> was.volume == 0x3f80_0000 && !was.muted
        }),
{
}

/// A process is shown exactly while it plays, under the last part of its bundle, and in the order of
/// the processes.
pub proof fn law_apps_are_shown_while_they_play(processes: Seq<ProcessInfoView>, i: int)
    requires
        0 <= i < processes.len(),
    ensures
        processes[i].running == Some(1u32) ==> playing(processes).contains(app_of(processes[i])),
        playing(processes).len() <= processes.len(),
        (forall|k: int| 0 <= k < processes.len() ==> (#[trigger] processes[k]).running != Some(1u32))
            ==> playing(processes).len() == 0,
        processes[i].bundle is Some && processes[i].bundle->0.len() > 0 ==> app_of(processes[i]).id
            == processes[i].bundle->0,
    decreases processes.len(),
{
    reveal_with_fuel(playing, 2);
    let before = processes.drop_last();
    if before.len() > 0 {
        let k = if i < before.len() {
            i
        } else {
            0
        };
        law_apps_are_shown_while_they_play(before, k);
        assert(before[k] == processes[k]);
        assert(forall|j: int| 0 <= j < before.len() ==> before[j] == processes[j]);
    }
    let all = playing(processes);
    if processes[i].running == Some(1u32) {
        if i < before.len() {
            let j = choose|j: int|
                0 <= j < playing(before).len() && playing(before)[j] == app_of(processes[i]);
            assert(all[j] == app_of(processes[i]));
        } else {
            assert(all[all.len() - 1] == app_of(processes[i]));
        }
    }
    if forall|k: int| 0 <= k < processes.len() ==> (#[trigger] processes[k]).running != Some(1u32) {
        assert(processes[processes.len() - 1].running != Some(1u32));
    }
}

impl MacosSessionController {
    /// A mixer for which nothing was set.
    pub fn new() -> (r: MacosSessionController)
        ensures
            r@ == Map::<Seq<char>, Desired>::empty(),
    {
        let r = MacosSessionController { desired: Vec::new() };
        assert(r@ =~= Map::<Seq<char>, Desired>::empty());
        r
    }

    /// There is a mixer.
    pub fn supported(&self) -> (r: bool)
        ensures
            r,
    {
        true
    }

    fn place(&self, id: &str) -> (at: usize)
        ensures
            at <= self.desired@.len(),
            at < self.desired@.len() ==> entry_views(self.desired@)[at as int].0 == id@,
            forall|k: int|
                0 <= k < at ==> (#[trigger] entry_views(self.desired@)[k]).0 != id@,
    {
        let mut i: usize = 0;
        while i < self.desired.len()
            invariant
                i <= self.desired@.len(),
                forall|k: int| 0 <= k < i ==> (#[trigger] entry_views(self.desired@)[k]).0 != id@,
            decreases self.desired@.len() - i,
        {
            if same_text(self.desired[i].0.as_str(), id) {
                return i;
            }
            i += 1;
        }
        i
    }

    /// What the user wants of an app.
    pub fn desired(&self, id: &str) -> (r: Desired)
        ensures
            r == wanted(self@, id@),
    {
        let at: usize = self.place(id);
        proof {
            lemma_recalled_place(entry_views(self.desired@), id@, at as int, 0);
        }
        if at < self.desired.len() {
            self.desired[at].1
        } else {
            Desired::default()
        }
    }

    fn set(&mut self, id: &str, d: Desired)
        ensures
            final(self)@ == old(self)@.insert(id@, d),
    {
        let at: usize = self.place(id);
        let ghost before = entry_views(self.desired@);
        if at < self.desired.len() {
            let name = self.desired[at].0.clone();
            self.desired.set(at, (name, d));
            assert(entry_views(self.desired@) =~= before.update(at as int, (id@, d)));
        } else {
            self.desired.push((id.to_owned(), d));
            assert(entry_views(self.desired@) =~= before.push((id@, d)));
        }
        proof {
            let after = entry_views(self.desired@);
            assert forall|other: Seq<char>|
                #[trigger]
                recalled(after, other, 0) == (if other == id@ {
                    Some(d)
                } else {
                    recalled(before, other, 0)
                }) by {
                lemma_recalled(before, after, at as int, id@, d, other, 0);
            }
            assert(self@ =~= old(self)@.insert(id@, d));
        }
    }

    /// The sessions of the apps that play audio, in their order.
    pub fn list_sessions(&self, apps: &Vec<AudioApp>) -> (r: Vec<AppSession>)
        ensures
            session_views(r@) == app_views(apps@).map_values(
                |a: AudioAppView| session_of(a, self@),
            ),
    {
        let mut out: Vec<AppSession> = Vec::new();
        let mut i: usize = 0;
        while i < apps.len()
            invariant
                i <= apps@.len(),
                out@.len() == i,
                forall|k: int|
                    0 <= k < i ==> (#[trigger] session_views(out@)[k]) == session_of(
                        apps@[k]@,
                        self@,
                    ),
            decreases apps@.len() - i,
        {
            let d = self.desired(apps[i].id.as_str());
            let s = AppSession {
                id: apps[i].id.clone(),
                name: apps[i].name.clone(),
                icon: None,
                volume: d.volume,
                muted: d.muted,
            };
            let ghost before = session_views(out@);
            let ghost view = s@;
            out.push(s);
            assert(session_views(out@) =~= before.push(view));
            i += 1;
        }
        assert(session_views(out@) =~= app_views(apps@).map_values(
            |a: AudioAppView| session_of(a, self@),
        ));
        out
    }

    /// Remembers the volume of an app; whether it is muted stays as it is.
    pub fn set_volume(&mut self, id: &str, gain: u32)
        ensures
            final(self)@ == with_volume(old(self)@, id@, gain),
    {
        let d = self.desired(id);
        self.set(id, Desired { volume: clamp_gain(gain), muted: d.muted });
    }

    /// Remembers whether an app is muted; its volume stays as it is.
    pub fn set_muted(&mut self, id: &str, muted: bool)
        ensures
            final(self)@ == with_mute(old(self)@, id@, muted),
    {
        let d = self.desired(id);
        self.set(id, Desired { volume: d.volume, muted });
    }
}

/// The volume of an audio session, as far as the system tells it.
#[derive(Debug, Clone, Copy, PartialEq, Eq)]
pub struct SessionVolume {
    pub volume: Option<u32>,
    pub muted: Option<bool>,
}

/// An audio session of the system: the path of its executable, where it can be had, and its
/// volume, where it has one.
#[derive(Debug, Clone, PartialEq, Eq)]
pub struct RawSession {
    pub exe: Option<String>,
    pub level: Option<SessionVolume>,
}

/// The content of a [`RawSession`].
pub struct RawSessionView {
    pub exe: Option<Seq<char>>,
    pub level: Option<SessionVolume>,
}

impl View for RawSession {
    type V = RawSessionView;

    open spec fn view(&self) -> RawSessionView {
        RawSessionView { exe: crate::types::text_of(self.exe), level: self.level }
    }
}

/// The id of the sessions of an executable: its file name in lower case.
pub open spec fn exe_id(exe: Seq<char>) -> Seq<char> {
    crate::text::lowercase(base(exe))
}

/// A session has the id.
pub open spec fn listed(sessions: Seq<AppSessionView>, id: Seq<char>) -> bool {
    exists|k: int| 0 <= k < sessions.len() && (#[trigger] sessions[k]).id == id
}

/// The session of an executable with its level.
pub open spec fn session_for(exe: Seq<char>, level: SessionVolume) -> AppSessionView {
    AppSessionView {
        id: exe_id(exe),
        name: shown_name(exe),
        icon: None,
        volume: match level.volume {
            Some(v) => v,
            None => F32_1,
        },
        muted: match level.muted {
            Some(m) => m,
            None => false,
        },
    }
}

/// One session for each executable, with the level of the first of its sessions that has one.
pub open spec fn grouped(raw: Seq<RawSessionView>) -> Seq<AppSessionView>
    decreases raw.len(),
{
    if raw.len() == 0 {
        Seq::empty()
    } else {
        let before = grouped(raw.drop_last());
        match (raw.last().exe, raw.last().level) {
            (Some(exe), Some(level)) if !listed(before, exe_id(exe)) => before.push(
                session_for(exe, level),
            ),
            _ => before,
        }
    }
}

/// By what sessions are sorted.
pub open spec fn sort_key(s: AppSessionView) -> Seq<char> {
    crate::text::lowercase(s.name)
}

/// The first place from `from` on whose session comes behind `s`.
pub open spec fn place_for(sorted: Seq<AppSessionView>, s: AppSessionView, from: int) -> int
    decreases sorted.len() - from,
{
    if !(0 <= from < sorted.len()) || crate::text::text_less(sort_key(s), sort_key(sorted[from])) {
        from
    } else {
        place_for(sorted, s, from + 1)
    }
}

/// The sessions sorted by name without regard to case; those with the same name keep their order.
pub open spec fn by_name(sessions: Seq<AppSessionView>) -> Seq<AppSessionView>
    decreases sessions.len(),
{
    if sessions.len() == 0 {
        Seq::empty()
    } else {
        let before = by_name(sessions.drop_last());
        before.insert(place_for(before, sessions.last(), 0), sessions.last())
    }
}

proof fn lemma_place_for(sorted: Seq<AppSessionView>, s: AppSessionView, from: int)
    requires
        0 <= from <= sorted.len(),
    ensures
        from <= place_for(sorted, s, from) <= sorted.len(),
        forall|k: int|
            from <= k < place_for(sorted, s, from) ==> !crate::text::text_less(
                sort_key(s),
                sort_key(#[trigger] sorted[k]),
            ),
        place_for(sorted, s, from) < sorted.len() ==> crate::text::text_less(
            sort_key(s),
            sort_key(sorted[place_for(sorted, s, from)]),
        ),
    decreases sorted.len() - from,
{
    if from < sorted.len() && !crate::text::text_less(sort_key(s), sort_key(sorted[from])) {
        lemma_place_for(sorted, s, from + 1);
    }
}

/// No session stands before one whose name comes earlier.
pub open spec fn ascending(s: Seq<AppSessionView>) -> bool {
    forall|i: int, j: int|
        0 <= i < j < s.len() ==> !crate::text::text_less(
            sort_key(#[trigger] s[j]),
            sort_key(#[trigger] s[i]),
        )
}

/// Sorting gives the same sessions in the order of their names.
pub proof fn law_sessions_are_sorted(sessions: Seq<AppSessionView>)
    ensures
        ascending(by_name(sessions)),
        by_name(sessions).to_multiset() == sessions.to_multiset(),
        by_name(sessions).len() == sessions.len(),
    decreases sessions.len(),
{
    broadcast use vstd::seq_lib::group_to_multiset_ensures;

    if sessions.len() > 0 {
        let head = sessions.drop_last();
        let s = sessions.last();
        let before = by_name(head);
        let p = place_for(before, s, 0);
        law_sessions_are_sorted(head);
        lemma_place_for(before, s, 0);
        let t = before.insert(p, s);
        assert forall|i: int, j: int| 0 <= i < j < t.len() implies !crate::text::text_less(
            sort_key(#[trigger] t[j]),
            sort_key(#[trigger] t[i]),
        ) by {
            if j == p {
                if crate::text::text_less(sort_key(s), sort_key(before[i])) {
                    assert(false);
                }
            } else if i == p {
                let after = sort_key(before[j - 1]);
                if p < before.len() {
                    let first = sort_key(before[p]);
                    if crate::text::text_less(after, sort_key(s)) {
                        crate::text::lemma_text_less_trans(after, sort_key(s), first);
                        crate::text::lemma_text_less_total(first, first);
                        if p < j - 1 {
                            assert(!crate::text::text_less(
                                sort_key(before[j - 1]),
                                sort_key(before[p]),
                            ));
                        }
                        crate::text::lemma_text_less_total(after, first);
                        crate::text::lemma_text_less_total(sort_key(s), first);
                    }
                }
            } else {
                let x = if j < p {
                    j
                } else {
                    j - 1
                };
                let y = if i < p {
                    i
                } else {
                    i - 1
                };
                assert(t[j] == before[x]);
                assert(t[i] == before[y]);
            }
        }
        assert(head.push(s) =~= sessions);
        assert(t.to_multiset() =~= before.to_multiset().insert(s));
    } else {
        assert(by_name(sessions) =~= sessions);
    }
}

/// Of each executable there is one session.
pub proof fn law_one_session_for_each_app(raw: Seq<RawSessionView>, i: int, j: int)
    requires
        0 <= i < j < grouped(raw).len(),
    ensures
        grouped(raw)[i].id != grouped(raw)[j].id,
    decreases raw.len(),
{
    if raw.len() > 0 {
        let before = grouped(raw.drop_last());
        if j < before.len() {
            law_one_session_for_each_app(raw.drop_last(), i, j);
        }
    }
}

/// The contents of audio sessions of the system.
pub open spec fn raw_session_views(raw: Seq<RawSession>) -> Seq<RawSessionView> {
    raw.map_values(|s: RawSession| s@)
}

/// The mixer of a system that has volumes for single apps.
#[derive(Debug, Clone, Copy, PartialEq, Eq, Structural)]
pub struct WindowsSessionController;

impl WindowsSessionController {
    /// The mixer.
    pub fn new() -> (r: WindowsSessionController)
        ensures
            r == WindowsSessionController,
    {
        WindowsSessionController
    }

    /// There is a mixer.
    pub fn supported(&self) -> (r: bool)
        ensures
            r,
    {
        true
    }

    /// The sessions that are shown for the audio sessions of the system: one for each executable,
    /// by name.
    pub fn list_sessions(&self, raw: &Vec<RawSession>) -> (r: Vec<AppSession>)
        ensures
            session_views(r@) == by_name(grouped(raw_session_views(raw@))),
    {
        let ghost all = raw_session_views(raw@);
        let mut out: Vec<AppSession> = Vec::new();
        let mut i: usize = 0;
        proof {
            assert(all.take(0) =~= Seq::empty());
            assert(session_views(out@) =~= Seq::empty());
        }
        while i < raw.len()
            invariant
                i <= raw@.len(),
                all == raw_session_views(raw@),
                session_views(out@) == by_name(grouped(all.take(i as int))),
            decreases raw@.len() - i,
        {
            proof {
                assert(all.take(i + 1).drop_last() =~= all.take(i as int));
                assert(all.take(i + 1).last() == raw@[i as int]@);
            }
            if let (Some(exe), Some(level)) = (&raw[i].exe, raw[i].level) {
                let id = basename(exe.as_str()).as_str().to_lowercase();
                let ghost groups = grouped(all.take(i as int));
                if !has_session(&out, id.as_str()) {
                    let s = AppSession {
                        id,
                        name: display_name(exe.as_str()),
                        icon: None,
                        volume: match level.volume {
                            Some(v) => v,
                            None => F32_1,
                        },
                        muted: match level.muted {
                            Some(m) => m,
                            None => false,
                        },
                    };
                    proof {
                        lemma_listed(groups, s@.id);
                        assert(s@ == session_for(exe@, level));
                        assert(grouped(all.take(i + 1)) == groups.push(s@));
                        assert(groups.push(s@).drop_last() =~= groups);
                    }
                    insert_session(&mut out, s);
                } else {
                    proof {
                        lemma_listed(groups, exe_id(exe@));
                    }
                }
            }
            i += 1;
        }
        assert(all.take(i as int) =~= all);
        out
    }
}

proof fn lemma_listed(sessions: Seq<AppSessionView>, id: Seq<char>)
    ensures
        listed(by_name(sessions), id) == listed(sessions, id),
{
    broadcast use vstd::seq_lib::group_to_multiset_ensures;

    law_sessions_are_sorted(sessions);
    let sorted = by_name(sessions);
    if listed(sessions, id) {
        let k = choose|k: int| 0 <= k < sessions.len() && (#[trigger] sessions[k]).id == id;
        assert(sessions.to_multiset().count(sessions[k]) > 0);
        assert(sorted.contains(sessions[k]));
        let m = choose|m: int| 0 <= m < sorted.len() && sorted[m] == sessions[k];
        assert(sorted[m].id == id);
    }
    if listed(sorted, id) {
        let k = choose|k: int| 0 <= k < sorted.len() && (#[trigger] sorted[k]).id == id;
        assert(sorted.to_multiset().count(sorted[k]) > 0);
        assert(sessions.contains(sorted[k]));
        let m = choose|m: int| 0 <= m < sessions.len() && sessions[m] == sorted[k];
        assert(sessions[m].id == id);
    }
}

fn has_session(sessions: &Vec<AppSession>, id: &str) -> (r: bool)
    ensures
        r == listed(session_views(sessions@), id@),
{
    let mut i: usize = 0;
    while i < sessions.len()
        invariant
            i <= sessions@.len(),
            forall|k: int| 0 <= k < i ==> (#[trigger] session_views(sessions@)[k]).id != id@,
        decreases sessions@.len() - i,
    {
        if same_text(sessions[i].id.as_str(), id) {
            assert(session_views(sessions@)[i as int].id == id@);
            return true;
        }
        i += 1;
    }
    false
}

fn insert_session(sessions: &mut Vec<AppSession>, s: AppSession)
    ensures
        session_views(final(sessions)@) == session_views(old(sessions)@).insert(
            place_for(session_views(old(sessions)@), s@, 0),
            s@,
        ),
{
    let key = s.name.as_str().to_lowercase();
    let ghost before = session_views(sessions@);
    let mut i: usize = 0;
    while i < sessions.len()
        invariant_except_break
            place_for(before, s@, 0) == place_for(before, s@, i as int),
        invariant
            i <= sessions@.len(),
            before == session_views(sessions@),
            sessions@ == old(sessions)@,
            key@ == sort_key(s@),
        ensures
            place_for(before, s@, 0) == i,
        decreases sessions@.len() - i,
    {
        if text_precedes(key.as_str(), sessions[i].name.as_str().to_lowercase().as_str()) {
            break;
        }
        i += 1;
    }
    let ghost view = s@;
    sessions.insert(i, s);
    assert(session_views(sessions@) =~= before.insert(i as int, view));
}

/// The audio sessions that belong to an app, by their places: those whose executable has its id.
pub fn sessions_of_app(id: &str, exes: &Vec<Option<String>>) -> (r: Vec<usize>)
    ensures
        forall|k: int|
            0 <= k < r@.len() ==> (#[trigger] r@[k]) < exes@.len() && (exes@[r@[k] as int] matches Some(
                exe,
            ) && exe_id(exe@) == id@),
        forall|i: int|
            0 <= i < exes@.len() && ((#[trigger] exes@[i]) matches Some(exe) && exe_id(exe@)
                == id@) ==> r@.contains(i as usize),
        forall|j: int, k: int| 0 <= j < k < r@.len() ==> r@[j] < r@[k],
{
    let mut out: Vec<usize> = Vec::new();
    let mut i: usize = 0;
    while i < exes.len()
        invariant
            i <= exes@.len(),
            forall|k: int|
                0 <= k < out@.len() ==> (#[trigger] out@[k]) < i && (exes@[out@[k] as int] matches Some(
                    exe,
                ) && exe_id(exe@) == id@),
            forall|m: int|
                0 <= m < i && ((#[trigger] exes@[m]) matches Some(exe) && exe_id(exe@) == id@)
                    ==> out@.contains(m as usize),
            forall|j: int, k: int| 0 <= j < k < out@.len() ==> out@[j] < out@[k],
        decreases exes@.len() - i,
    {
        let ghost before = out@;
        if let Some(exe) = &exes[i] {
            if same_text(basename(exe.as_str()).as_str().to_lowercase().as_str(), id) {
                out.push(i);
                assert(out@[before.len() as int] == i);
            }
        }
        proof {
            assert forall|m: int|
                0 <= m < i + 1 && ((#[trigger] exes@[m]) matches Some(exe) && exe_id(exe@)
                    == id@) implies out@.contains(m as usize) by {
                if m < i {
                    let k = choose|k: int| 0 <= k < before.len() && before[k] == m as usize;
                    assert(out@[k] == m as usize);
                }
            }
        }
        i += 1;
    }
    out
}

/// What came of setting the volume of an app: a failure of the system is reported as unsupported.
pub fn volume_set(outcome: Result<(), String>) -> (r: Result<(), PlatformError>)
    ensures
        match (outcome, r) {
            (Ok(()), Ok(())) => true,
            (Err(e), Err(PlatformError::Unsupported(why))) => why@ == "WASAPI set volume failed: "@
                + e@ + ""@,
            _ => false,
        },
{
    match outcome {
        Ok(()) => Ok(()),
        Err(e) => Err(
            PlatformError::Unsupported(join3("WASAPI set volume failed: ", e.as_str(), "")),
        ),
    }
}

/// What came of muting an app: a failure of the system is reported as unsupported.
pub fn mute_set(outcome: Result<(), String>) -> (r: Result<(), PlatformError>)
    ensures
        match (outcome, r) {
            (Ok(()), Ok(())) => true,
            (Err(e), Err(PlatformError::Unsupported(why))) => why@ == "WASAPI set mute failed: "@
                + e@ + ""@,
            _ => false,
        },
{
    match outcome {
        Ok(()) => Ok(()),
        Err(e) => Err(PlatformError::Unsupported(join3("WASAPI set mute failed: ", e.as_str(), ""))),
    }
}

} // verus!
