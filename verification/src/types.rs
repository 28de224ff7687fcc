//! The records that the parts of the library share.

use vstd::prelude::*;

verus! {

/// A copy of an optional text.
pub fn copy_text(s: &Option<String>) -> (r: Option<String>)
    ensures
        text_of(r) == text_of(*s),
{
    match s {
        Some(t) => Some(t.clone()),
        None => None,
    }
}

/// The content of an optional text.
pub open spec fn text_of(s: Option<String>) -> Option<Seq<char>> {
    match s {
        Some(t) => Some(t@),
        None => None,
    }
}

/// A television channel.
#[derive(Debug, PartialEq, Eq)]
pub struct TvChannel {
    pub id: String,
    pub name: String,
    pub url: String,
    pub logo: Option<String>,
    pub group: Option<String>,
    pub country: Option<String>,
    pub user_agent: Option<String>,
    pub referrer: Option<String>,
    pub quality: Option<String>,
}

/// The content of a [`TvChannel`].
pub struct TvChannelView {
    pub id: Seq<char>,
    pub name: Seq<char>,
    pub url: Seq<char>,
    pub logo: Option<Seq<char>>,
    pub group: Option<Seq<char>>,
    pub country: Option<Seq<char>>,
    pub user_agent: Option<Seq<char>>,
    pub referrer: Option<Seq<char>>,
    pub quality: Option<Seq<char>>,
}

impl View for TvChannel {
    type V = TvChannelView;

    open spec fn view(&self) -> TvChannelView {
        TvChannelView {
            id: self.id@,
            name: self.name@,
            url: self.url@,
            logo: text_of(self.logo),
            group: text_of(self.group),
            country: text_of(self.country),
            user_agent: text_of(self.user_agent),
            referrer: text_of(self.referrer),
            quality: text_of(self.quality),
        }
    }
}

impl Clone for TvChannel {
    fn clone(&self) -> (r: TvChannel)
        ensures
            r@ == self@,
    {
        TvChannel {
            id: self.id.clone(),
            name: self.name.clone(),
            url: self.url.clone(),
            logo: copy_text(&self.logo),
            group: copy_text(&self.group),
            country: copy_text(&self.country),
            user_agent: copy_text(&self.user_agent),
            referrer: copy_text(&self.referrer),
            quality: copy_text(&self.quality),
        }
    }
}

/// The contents of channels.
pub open spec fn channel_views(s: Seq<TvChannel>) -> Seq<TvChannelView> {
    s.map_values(|c: TvChannel| c@)
}

/// A category of television channels; its id is the slug in the address of its playlist.
#[derive(Debug, Clone, PartialEq, Eq)]
pub struct TvCategory {
    pub id: String,
    pub name: String,
}

/// A country in the directory of television channels.
#[derive(Debug, Clone, PartialEq, Eq)]
pub struct TvCountry {
    pub code: String,
    pub name: String,
}

/// The number of bands of the graphic equalizer.
pub const BAND_COUNT: usize = 31;

/// -70.0 as single precision bits.
pub const F32_MINUS_70: u32 = 0xc28c_0000;

/// -18.0 as single precision bits.
pub const F32_MINUS_18: u32 = 0xc190_0000;

/// -0.3 as single precision bits.
pub const F32_MINUS_0_3: u32 = 0xbe99_999a;

/// 0.25 as single precision bits.
pub const F32_0_25: u32 = 0x3e80_0000;

/// 0.3 as single precision bits.
pub const F32_0_3: u32 = 0x3e99_999a;

/// 0.4 as single precision bits.
pub const F32_0_4: u32 = 0x3ecc_cccd;

/// 0.45 as single precision bits.
pub const F32_0_45: u32 = 0x3ee6_6666;

/// 0.5 as single precision bits.
pub const F32_0_5: u32 = 0x3f00_0000;

/// 0.55 as single precision bits.
pub const F32_0_55: u32 = 0x3f0c_cccd;

/// 1.0 as single precision bits.
pub const F32_1: u32 = 0x3f80_0000;

/// 2.0 as single precision bits.
pub const F32_2: u32 = 0x4000_0000;

/// 2.5 as single precision bits.
pub const F32_2_5: u32 = 0x4020_0000;

/// 8.0 as single precision bits.
pub const F32_8: u32 = 0x4100_0000;

/// 15.0 as single precision bits.
pub const F32_15: u32 = 0x4170_0000;

/// 45.0 as single precision bits.
pub const F32_45: u32 = 0x4234_0000;

/// The graphic equalizer. Gains are in dB, held like every other level here as the bits of a
/// single precision number.
#[derive(Debug, Clone, Copy, PartialEq, Eq)]
pub struct EqState {
    pub enabled: bool,
    pub pre_gain: u32,
    pub bands: [u32; 31],
}

impl Default for EqState {
    fn default() -> (r: EqState)
        ensures
            r.enabled,
            r.pre_gain == 0,
            forall|i: int| 0 <= i < 31 ==> #[trigger] r.bands@[i] == 0,
    {
        EqState { enabled: true, pre_gain: 0, bands: [0; 31] }
    }
}

/// The bass boost.
#[derive(Debug, Clone, Copy, PartialEq, Eq, Structural)]
pub struct BassBoostState {
    pub enabled: bool,
    /// Boost in dB.
    pub amount: u32,
    pub harmonics: bool,
    /// Boost less where there is much bass already.
    pub adaptive: bool,
}

/// A fresh bass boost.
pub open spec fn fresh_bass() -> BassBoostState {
    BassBoostState {
        enabled: false,
        amount: 0,
        harmonics: false,
        adaptive: false,
    }
}

impl Default for BassBoostState {
    fn default() -> (r: BassBoostState)
        ensures
            r == fresh_bass(),
    {
        BassBoostState {
            enabled: false,
            amount: 0,
            harmonics: false,
            adaptive: false,
        }
    }
}

/// How stereo is widened.
#[derive(Debug, Clone, Copy, PartialEq, Eq, Structural)]
pub enum SpatialMode {
    Crossfeed,
    Hrtf,
}

/// The widening stage.
#[derive(Debug, Clone, Copy, PartialEq, Eq, Structural)]
pub struct SpatializerState {
    pub enabled: bool,
    /// From none, 0, to most, 1.
    pub amount: u32,
    pub mode: SpatialMode,
}

/// A fresh spatializer.
pub open spec fn fresh_spatializer() -> SpatializerState {
    SpatializerState {
        enabled: false,
        amount: F32_0_5,
        mode: SpatialMode::Crossfeed,
    }
}

impl Default for SpatializerState {
    fn default() -> (r: SpatializerState)
        ensures
            r == fresh_spatializer(),
    {
        SpatializerState {
            enabled: false,
            amount: F32_0_5,
            mode: SpatialMode::Crossfeed,
        }
    }
}

/// Which virtual loudspeakers are on.
#[derive(Debug, Clone, Copy, PartialEq, Eq, Structural)]
pub struct SurroundSpeakers {
    pub front_l: bool,
    pub front_r: bool,
    pub side_l: bool,
    pub side_r: bool,
    pub surround_l: bool,
    pub surround_r: bool,
}

/// Every loudspeaker is on.
pub open spec fn all_speakers() -> SurroundSpeakers {
    SurroundSpeakers {
        front_l: true,
        front_r: true,
        side_l: true,
        side_r: true,
        surround_l: true,
        surround_r: true,
    }
}

impl Default for SurroundSpeakers {
    fn default() -> (r: SurroundSpeakers)
        ensures
            r == all_speakers(),
    {
        SurroundSpeakers {
            front_l: true,
            front_r: true,
            side_l: true,
            side_r: true,
            surround_l: true,
            surround_r: true,
        }
    }
}

/// The ring of virtual loudspeakers.
#[derive(Debug, Clone, Copy, PartialEq, Eq, Structural)]
pub struct Surround3DState {
    pub enabled: bool,
    pub intensity: u32,
    pub subwoofer: u32,
    pub speakers: SurroundSpeakers,
}

/// A fresh ring of loudspeakers.
pub open spec fn fresh_surround() -> Surround3DState {
    Surround3DState {
        enabled: false,
        intensity: F32_0_5,
        subwoofer: F32_0_25,
        speakers: all_speakers(),
    }
}

impl Default for Surround3DState {
    fn default() -> (r: Surround3DState)
        ensures
            r == fresh_surround(),
    {
        Surround3DState {
            enabled: false,
            intensity: F32_0_5,
            subwoofer: F32_0_25,
            speakers: SurroundSpeakers { front_l: true, front_r: true, side_l: true, side_r: true, surround_l: true, surround_r: true },
        }
    }
}

/// The room reverb.
#[derive(Debug, Clone, PartialEq, Eq)]
pub struct RoomState {
    pub enabled: bool,
    pub room_size: u32,
    pub decay: u32,
    pub damping: u32,
    /// In milliseconds.
    pub pre_delay: u32,
    pub diffusion: u32,
    pub wet_dry: u32,
    pub active_preset_id: Option<String>,
}

/// A fresh room.
pub open spec fn fresh_room() -> RoomState {
    RoomState {
        enabled: false,
        room_size: F32_0_4,
        decay: F32_0_4,
        damping: F32_0_45,
        pre_delay: F32_8,
        diffusion: F32_0_55,
        wet_dry: F32_0_3,
        active_preset_id: None,
    }
}

impl Default for RoomState {
    fn default() -> (r: RoomState)
        ensures
            r == fresh_room(),
    {
        RoomState {
            enabled: false,
            room_size: F32_0_4,
            decay: F32_0_4,
            damping: F32_0_45,
            pre_delay: F32_8,
            diffusion: F32_0_55,
            wet_dry: F32_0_3,
            active_preset_id: None,
        }
    }
}

/// The convolution stage; the impulse response itself is kept elsewhere.
#[derive(Debug, Clone, PartialEq, Eq)]
pub struct ConvolverState {
    pub enabled: bool,
    pub wet_dry: u32,
    pub ir_gain_db: u32,
    pub ir_id: Option<String>,
    pub ir_name: Option<String>,
    pub ir_seconds: u32,
    pub ir_truncated: bool,
}

/// A fresh convolver.
pub open spec fn fresh_convolver() -> ConvolverState {
    ConvolverState {
        enabled: false,
        wet_dry: F32_1,
        ir_gain_db: 0,
        ir_id: None,
        ir_name: None,
        ir_seconds: 0,
        ir_truncated: false,
    }
}

impl Default for ConvolverState {
    fn default() -> (r: ConvolverState)
        ensures
            r == fresh_convolver(),
    {
        ConvolverState {
            enabled: false,
            wet_dry: F32_1,
            ir_gain_db: 0,
            ir_id: None,
            ir_name: None,
            ir_seconds: 0,
            ir_truncated: false,
        }
    }
}

/// The multiband compander; all bands share these.
#[derive(Debug, Clone, Copy, PartialEq, Eq, Structural)]
pub struct CompanderState {
    pub enabled: bool,
    pub threshold_db: u32,
    pub ratio: u32,
    pub knee_db: u32,
    pub attack_ms: u32,
    pub release_ms: u32,
    pub makeup_db: u32,
    pub gate_db: u32,
    pub expander_ratio: u32,
}

/// The compander of a fresh engine.
pub open spec fn fresh_compander() -> CompanderState {
    CompanderState {
        enabled: false,
        threshold_db: F32_MINUS_18,
        ratio: F32_2_5,
        knee_db: F32_8,
        attack_ms: F32_15,
        release_ms: F32_45,
        makeup_db: 0,
        gate_db: F32_MINUS_70,
        expander_ratio: F32_2,
    }
}

impl Default for CompanderState {
    fn default() -> (r: CompanderState)
        ensures
            r == fresh_compander(),
    {
        CompanderState {
            enabled: false,
            threshold_db: F32_MINUS_18,
            ratio: F32_2_5,
            knee_db: F32_8,
            attack_ms: F32_15,
            release_ms: F32_45,
            makeup_db: 0,
            gate_db: F32_MINUS_70,
            expander_ratio: F32_2,
        }
    }
}

/// The saturation stage.
#[derive(Debug, Clone, Copy, PartialEq, Eq, Structural)]
pub struct SaturationState {
    pub enabled: bool,
    pub drive: u32,
    pub mix: u32,
}

/// A fresh saturation stage.
pub open spec fn fresh_saturation() -> SaturationState {
    SaturationState {
        enabled: false,
        drive: F32_0_3,
        mix: F32_1,
    }
}

impl Default for SaturationState {
    fn default() -> (r: SaturationState)
        ensures
            r == fresh_saturation(),
    {
        SaturationState {
            enabled: false,
            drive: F32_0_3,
            mix: F32_1,
        }
    }
}

/// Gain and limiter at the end of the chain.
#[derive(Debug, Clone, Copy, PartialEq, Eq, Structural)]
pub struct OutputState {
    pub gain_db: u32,
    pub limiter_enabled: bool,
    pub ceiling_db: u32,
}

/// A fresh end of the chain.
pub open spec fn fresh_output() -> OutputState {
    OutputState {
        gain_db: 0,
        limiter_enabled: true,
        ceiling_db: F32_MINUS_0_3,
    }
}

impl Default for OutputState {
    fn default() -> (r: OutputState)
        ensures
            r == fresh_output(),
    {
        OutputState {
            gain_db: 0,
            limiter_enabled: true,
            ceiling_db: F32_MINUS_0_3,
        }
    }
}

/// How a queue is played.
#[derive(Debug, Clone, Copy, PartialEq, Eq, Structural)]
pub struct PlaybackState {
    pub gapless: bool,
    /// Zero is off.
    pub crossfade_secs: u32,
    pub data_saver: bool,
    pub autoplay: bool,
}

/// How a queue is played at first.
pub open spec fn fresh_playback() -> PlaybackState {
    PlaybackState {
        gapless: true,
        crossfade_secs: 0,
        data_saver: false,
        autoplay: true,
    }
}

impl Default for PlaybackState {
    fn default() -> (r: PlaybackState)
        ensures
            r == fresh_playback(),
    {
        PlaybackState {
            gapless: true,
            crossfade_secs: 0,
            data_saver: false,
            autoplay: true,
        }
    }
}

/// A user-written effect.
#[derive(Debug, Clone, PartialEq, Eq)]
pub struct ScriptState {
    pub enabled: bool,
    pub source: String,
}

impl Default for ScriptState {
    fn default() -> (r: ScriptState)
        ensures
            !r.enabled,
            r.source@.len() == 0,
    {
        ScriptState { enabled: false, source: String::new() }
    }
}

/// One filter of a headphone correction.
#[derive(Debug, Clone, PartialEq, Eq)]
pub struct ParametricBand {
    /// `peaking`, `lowShelf` or `highShelf`.
    pub kind: String,
    pub freq: u32,
    pub gain: u32,
    pub q: u32,
}

/// The headphone correction.
#[derive(Debug, Clone, PartialEq, Eq)]
pub struct HeadphoneCorrectionState {
    pub enabled: bool,
    pub preamp: u32,
    pub bands: Vec<ParametricBand>,
}

impl Default for HeadphoneCorrectionState {
    fn default() -> (r: HeadphoneCorrectionState)
        ensures
            !r.enabled,
            r.preamp == 0,
            r.bands@.len() == 0,
    {
        HeadphoneCorrectionState { enabled: false, preamp: 0, bands: Vec::new() }
    }
}

/// Which apps the system-wide equalizer processes.
#[derive(Debug, Clone, Copy, PartialEq, Eq, Structural)]
pub enum SystemEqScopeMode {
    All,
    Only,
    Except,
}

impl Default for SystemEqScopeMode {
    fn default() -> (r: SystemEqScopeMode)
        ensures
            r == SystemEqScopeMode::All,
    {
        SystemEqScopeMode::All
    }
}

/// The apps that the system-wide equalizer processes, or leaves out.
#[derive(Debug, Clone, PartialEq, Eq)]
pub struct SystemEqScope {
    pub mode: SystemEqScopeMode,
    pub apps: Vec<String>,
}

impl Default for SystemEqScope {
    fn default() -> (r: SystemEqScope)
        ensures
            r.mode == SystemEqScopeMode::All,
            r.apps@.len() == 0,
    {
        SystemEqScope { mode: SystemEqScopeMode::All, apps: Vec::new() }
    }
}

/// Everything that is set on the engine.
#[derive(Debug, Clone, PartialEq, Eq)]
pub struct EngineState {
    /// Without power the chain passes audio through.
    pub power: bool,
    /// A linear gain.
    pub master_volume: u32,
    pub eq: EqState,
    pub bass: BassBoostState,
    pub spatializer: SpatializerState,
    pub surround3d: Surround3DState,
    pub room: RoomState,
    pub convolver: ConvolverState,
    pub compander: CompanderState,
    pub saturation: SaturationState,
    pub script: ScriptState,
    pub headphone: HeadphoneCorrectionState,
    pub output: OutputState,
    pub playback: PlaybackState,
    pub system_eq_scope: SystemEqScope,
    pub active_preset_id: Option<String>,
    pub active_profile_id: Option<String>,
}

/// The settings of a fresh engine: every effect is off but the flat equalizer and the limiter.
pub open spec fn fresh_engine(s: EngineState) -> bool {
    &&& s.power
    &&& s.master_volume == F32_1
    &&& s.eq.enabled && s.eq.pre_gain == 0 && forall|i: int|
        0 <= i < 31 ==> #[trigger] s.eq.bands@[i] == 0
    &&& s.bass == fresh_bass()
    &&& s.spatializer == fresh_spatializer()
    &&& s.surround3d == fresh_surround()
    &&& s.room == fresh_room()
    &&& s.convolver == fresh_convolver()
    &&& s.compander == fresh_compander()
    &&& s.saturation == fresh_saturation()
    &&& !s.script.enabled && s.script.source@.len() == 0
    &&& !s.headphone.enabled && s.headphone.preamp == 0 && s.headphone.bands@.len() == 0
    &&& s.output == fresh_output()
    &&& s.playback == fresh_playback()
    &&& s.system_eq_scope.mode == SystemEqScopeMode::All && s.system_eq_scope.apps@.len() == 0
    &&& s.active_preset_id is None
    &&& s.active_profile_id is None
}

impl Default for EngineState {
    fn default() -> (r: EngineState)
        ensures
            fresh_engine(r),
    {
        EngineState {
            power: true,
            master_volume: F32_1,
            eq: EqState::default(),
            bass: BassBoostState::default(),
            spatializer: SpatializerState::default(),
            surround3d: Surround3DState::default(),
            room: RoomState::default(),
            convolver: ConvolverState::default(),
            compander: CompanderState::default(),
            saturation: SaturationState::default(),
            script: ScriptState::default(),
            headphone: HeadphoneCorrectionState::default(),
            output: OutputState::default(),
            playback: PlaybackState::default(),
            system_eq_scope: SystemEqScope::default(),
            active_preset_id: None,
            active_profile_id: None,
        }
    }
}

/// An equalizer preset.
#[derive(Debug, Clone, PartialEq, Eq)]
pub struct EqPreset {
    pub id: String,
    pub name: String,
    pub builtin: bool,
    pub bands: [u32; 31],
    pub pre_gain: u32,
}

/// The correction of one model of headphones.
#[derive(Debug, Clone, PartialEq, Eq)]
pub struct HeadphoneProfile {
    pub id: String,
    pub brand: String,
    pub model: String,
    pub preamp: u32,
    pub bands: Vec<ParametricBand>,
}

/// A playlist; its tracks are stored separately.
#[derive(Debug, Clone, PartialEq, Eq)]
pub struct Playlist {
    pub id: String,
    pub name: String,
}

/// What the tags of a track say.
#[derive(Debug, Clone, PartialEq, Eq)]
pub struct TrackMeta {
    pub title: Option<String>,
    pub artist: Option<String>,
    pub album: Option<String>,
    /// The front cover as a `data:` URI.
    pub cover: Option<String>,
}

impl Default for TrackMeta {
    fn default() -> (r: TrackMeta)
        ensures
            r == (TrackMeta { title: None, artist: None, album: None, cover: None }),
    {
        TrackMeta { title: None, artist: None, album: None, cover: None }
    }
}

/// A track of the local library; its path is its identity.
#[derive(Debug, PartialEq, Eq)]
pub struct LibraryTrack {
    pub path: String,
    pub title: String,
    pub artist: Option<String>,
    pub album: Option<String>,
    pub genre: Option<String>,
    /// The bits of a double precision number.
    pub duration_secs: Option<u64>,
}

impl Clone for LibraryTrack {
    fn clone(&self) -> (r: LibraryTrack)
        ensures
            r == *self,
    {
        LibraryTrack {
            path: self.path.clone(),
            title: self.title.clone(),
            artist: self.artist.clone(),
            album: self.album.clone(),
            genre: self.genre.clone(),
            duration_secs: self.duration_secs,
        }
    }
}

/// A page of the library: the tracks that can be reached, and how many rows were read for them.
#[derive(Debug, Clone, PartialEq, Eq)]
pub struct LibraryPage {
    pub tracks: Vec<LibraryTrack>,
    pub scanned: i64,
}

/// An internet radio station.
#[derive(Debug, PartialEq, Eq)]
pub struct RadioStation {
    pub id: String,
    pub name: String,
    pub url: String,
    pub genre: Option<String>,
    pub country: Option<String>,
    pub favicon: Option<String>,
}

/// The content of a [`RadioStation`].
pub struct RadioStationView {
    pub id: Seq<char>,
    pub name: Seq<char>,
    pub url: Seq<char>,
    pub genre: Option<Seq<char>>,
    pub country: Option<Seq<char>>,
    pub favicon: Option<Seq<char>>,
}

impl View for RadioStation {
    type V = RadioStationView;

    open spec fn view(&self) -> RadioStationView {
        RadioStationView {
            id: self.id@,
            name: self.name@,
            url: self.url@,
            genre: text_of(self.genre),
            country: text_of(self.country),
            favicon: text_of(self.favicon),
        }
    }
}

impl Clone for RadioStation {
    fn clone(&self) -> (r: RadioStation)
        ensures
            r@ == self@,
    {
        RadioStation {
            id: self.id.clone(),
            name: self.name.clone(),
            url: self.url.clone(),
            genre: copy_text(&self.genre),
            country: copy_text(&self.country),
            favicon: copy_text(&self.favicon),
        }
    }
}

/// The contents of stations.
pub open spec fn station_views(s: Seq<RadioStation>) -> Seq<RadioStationView> {
    s.map_values(|c: RadioStation| c@)
}

/// An app that plays audio.
#[derive(Debug, Clone, PartialEq, Eq)]
pub struct AppSession {
    pub id: String,
    pub name: String,
    pub icon: Option<String>,
    /// A linear gain from 0 to 1.
    pub volume: u32,
    pub muted: bool,
}

/// The levels of a block, left and right.
#[derive(Debug, Clone, Copy, PartialEq, Eq)]
pub struct MeterFrame {
    pub peak: [u32; 2],
    pub rms: [u32; 2],
}

impl Default for MeterFrame {
    fn default() -> (r: MeterFrame)
        ensures
            r.peak@ == seq![0u32, 0u32],
            r.rms@ == seq![0u32, 0u32],
    {
        let r = MeterFrame { peak: [0; 2], rms: [0; 2] };
        assert(r.peak@ =~= seq![0u32, 0u32]);
        assert(r.rms@ =~= seq![0u32, 0u32]);
        r
    }
}

/// What is shown of the engine at one moment. The spectrum comes less often than the levels.
#[derive(Debug, Clone, PartialEq, Eq)]
pub struct EngineFrame {
    pub meters: MeterFrame,
    pub spectrum: Option<Vec<u32>>,
    pub compander_gr: Option<Vec<u32>>,
}

} // verus!
