//! The live parameters that cross into the audio driver's process: a flat snapshot of the engine
//! state, and the protocol by which one writer and any number of readers share it without a lock.

use vstd::prelude::*;
use crate::types::{BassBoostState, EngineState, EqState, OutputState, RoomState, SpatialMode, SpatializerState, Surround3DState, SurroundSpeakers};

verus! {

/// How often a reader tries to get a consistent snapshot.
pub const MAX_READ_RETRIES: u32 = 100;

/// A snapshot of what the driver's part of the chain reads. Every field is 32 bits wide: a switch
/// is 0 or 1, a level the bits of a single precision number.
#[derive(Debug, Clone, Copy, PartialEq, Eq)]
pub struct EngineParamsPod {
    /// Whether the driver is to apply the parameters at all.
    pub active: u32,
    pub power: u32,
    pub master_volume: u32,
    pub eq_enabled: u32,
    pub eq_pre_gain: u32,
    pub eq_bands: [u32; 31],
    pub bass_enabled: u32,
    pub bass_amount: u32,
    pub bass_harmonics: u32,
    pub bass_adaptive: u32,
    pub spatializer_enabled: u32,
    pub spatializer_amount: u32,
    pub spatializer_mode: u32,
    pub surround_enabled: u32,
    pub surround_intensity: u32,
    pub surround_subwoofer: u32,
    pub surround_front_l: u32,
    pub surround_front_r: u32,
    pub surround_side_l: u32,
    pub surround_side_r: u32,
    pub surround_rear_l: u32,
    pub surround_rear_r: u32,
    pub room_enabled: u32,
    pub room_size: u32,
    pub room_decay: u32,
    pub room_damping: u32,
    pub room_pre_delay: u32,
    pub room_diffusion: u32,
    pub room_wet_dry: u32,
    pub output_gain_db: u32,
    pub limiter_enabled: u32,
    pub limiter_ceiling_db: u32,
}

/// A switch as a number.
pub open spec fn flag(b: bool) -> u32 {
    if b {
        1
    } else {
        0
    }
}

/// The number of a mode.
pub open spec fn mode_number(m: SpatialMode) -> u32 {
    match m {
        SpatialMode::Crossfeed => 0,
        SpatialMode::Hrtf => 1,
    }
}

/// The mode of a number; an unknown one is crossfeed.
pub open spec fn mode_of(u: u32) -> SpatialMode {
    if u == 1 {
        SpatialMode::Hrtf
    } else {
        SpatialMode::Crossfeed
    }
}

fn b2u(b: bool) -> (r: u32)
    ensures
        r == flag(b),
{
    if b {
        1
    } else {
        0
    }
}

fn u2b(u: u32) -> (r: bool)
    ensures
        r == (u != 0),
{
    u != 0
}

fn mode_to_u32(m: SpatialMode) -> (r: u32)
    ensures
        r == mode_number(m),
{
    match m {
        SpatialMode::Crossfeed => 0,
        SpatialMode::Hrtf => 1,
    }
}

fn u32_to_mode(u: u32) -> (r: SpatialMode)
    ensures
        r == mode_of(u),
{
    match u {
        1 => SpatialMode::Hrtf,
        _ => SpatialMode::Crossfeed,
    }
}

/// The snapshot of an engine state.
pub open spec fn pod_of(state: EngineState, active: bool) -> EngineParamsPod {
    EngineParamsPod {
        active: flag(active),
        power: flag(state.power),
        master_volume: state.master_volume,
        eq_enabled: flag(state.eq.enabled),
        eq_pre_gain: state.eq.pre_gain,
        eq_bands: state.eq.bands,
        bass_enabled: flag(state.bass.enabled),
        bass_amount: state.bass.amount,
        bass_harmonics: flag(state.bass.harmonics),
        bass_adaptive: flag(state.bass.adaptive),
        spatializer_enabled: flag(state.spatializer.enabled),
        spatializer_amount: state.spatializer.amount,
        spatializer_mode: mode_number(state.spatializer.mode),
        surround_enabled: flag(state.surround3d.enabled),
        surround_intensity: state.surround3d.intensity,
        surround_subwoofer: state.surround3d.subwoofer,
        surround_front_l: flag(state.surround3d.speakers.front_l),
        surround_front_r: flag(state.surround3d.speakers.front_r),
        surround_side_l: flag(state.surround3d.speakers.side_l),
        surround_side_r: flag(state.surround3d.speakers.side_r),
        surround_rear_l: flag(state.surround3d.speakers.surround_l),
        surround_rear_r: flag(state.surround3d.speakers.surround_r),
        room_enabled: flag(state.room.enabled),
        room_size: state.room.room_size,
        room_decay: state.room.decay,
        room_damping: state.room.damping,
        room_pre_delay: state.room.pre_delay,
        room_diffusion: state.room.diffusion,
        room_wet_dry: state.room.wet_dry,
        output_gain_db: state.output.gain_db,
        limiter_enabled: flag(state.output.limiter_enabled),
        limiter_ceiling_db: state.output.ceiling_db,
    }
}

/// An engine state with everything that a snapshot carries taken from it, and everything else left
/// as it was.
pub open spec fn applied(pod: EngineParamsPod, out: EngineState) -> EngineState {
    EngineState {
        power: pod.power != 0,
        master_volume: pod.master_volume,
        eq: EqState {
            enabled: pod.eq_enabled != 0,
            pre_gain: pod.eq_pre_gain,
            bands: pod.eq_bands,
        },
        bass: BassBoostState {
            enabled: pod.bass_enabled != 0,
            amount: pod.bass_amount,
            harmonics: pod.bass_harmonics != 0,
            adaptive: pod.bass_adaptive != 0,
        },
        spatializer: SpatializerState {
            enabled: pod.spatializer_enabled != 0,
            amount: pod.spatializer_amount,
            mode: mode_of(pod.spatializer_mode),
        },
        surround3d: Surround3DState {
            enabled: pod.surround_enabled != 0,
            intensity: pod.surround_intensity,
            subwoofer: pod.surround_subwoofer,
            speakers: SurroundSpeakers {
                front_l: pod.surround_front_l != 0,
                front_r: pod.surround_front_r != 0,
                side_l: pod.surround_side_l != 0,
                side_r: pod.surround_side_r != 0,
                surround_l: pod.surround_rear_l != 0,
                surround_r: pod.surround_rear_r != 0,
            },
        },
        room: RoomState {
            enabled: pod.room_enabled != 0,
            room_size: pod.room_size,
            decay: pod.room_decay,
            damping: pod.room_damping,
            pre_delay: pod.room_pre_delay,
            diffusion: pod.room_diffusion,
            wet_dry: pod.room_wet_dry,
            active_preset_id: out.room.active_preset_id,
        },
        output: OutputState {
            gain_db: pod.output_gain_db,
            limiter_enabled: pod.limiter_enabled != 0,
            ceiling_db: pod.limiter_ceiling_db,
        },
        ..out
    }
}

impl EngineParamsPod {
    /// A snapshot of the engine state.
    pub fn from_state(state: &EngineState, active: bool) -> (r: EngineParamsPod)
        ensures
            r == pod_of(*state, active),
    {
        EngineParamsPod {
            active: b2u(active),
            power: b2u(state.power),
            master_volume: state.master_volume,
            eq_enabled: b2u(state.eq.enabled),
            eq_pre_gain: state.eq.pre_gain,
            eq_bands: state.eq.bands,
            bass_enabled: b2u(state.bass.enabled),
            bass_amount: state.bass.amount,
            bass_harmonics: b2u(state.bass.harmonics),
            bass_adaptive: b2u(state.bass.adaptive),
            spatializer_enabled: b2u(state.spatializer.enabled),
            spatializer_amount: state.spatializer.amount,
            spatializer_mode: mode_to_u32(state.spatializer.mode),
            surround_enabled: b2u(state.surround3d.enabled),
            surround_intensity: state.surround3d.intensity,
            surround_subwoofer: state.surround3d.subwoofer,
            surround_front_l: b2u(state.surround3d.speakers.front_l),
            surround_front_r: b2u(state.surround3d.speakers.front_r),
            surround_side_l: b2u(state.surround3d.speakers.side_l),
            surround_side_r: b2u(state.surround3d.speakers.side_r),
            surround_rear_l: b2u(state.surround3d.speakers.surround_l),
            surround_rear_r: b2u(state.surround3d.speakers.surround_r),
            room_enabled: b2u(state.room.enabled),
            room_size: state.room.room_size,
            room_decay: state.room.decay,
            room_damping: state.room.damping,
            room_pre_delay: state.room.pre_delay,
            room_diffusion: state.room.diffusion,
            room_wet_dry: state.room.wet_dry,
            output_gain_db: state.output.gain_db,
            limiter_enabled: b2u(state.output.limiter_enabled),
            limiter_ceiling_db: state.output.ceiling_db,
        }
    }

    /// The snapshot of a cell that was never written.
    pub fn zero() -> (r: EngineParamsPod)
        ensures
            r == zero_pod(r.eq_bands),
            forall|i: int| 0 <= i < 31 ==> #[trigger] r.eq_bands@[i] == 0,
    {
        EngineParamsPod {
            active: 0,
            power: 0,
            master_volume: 0,
            eq_enabled: 0,
            eq_pre_gain: 0,
            eq_bands: [0; 31],
            bass_enabled: 0,
            bass_amount: 0,
            bass_harmonics: 0,
            bass_adaptive: 0,
            spatializer_enabled: 0,
            spatializer_amount: 0,
            spatializer_mode: 0,
            surround_enabled: 0,
            surround_intensity: 0,
            surround_subwoofer: 0,
            surround_front_l: 0,
            surround_front_r: 0,
            surround_side_l: 0,
            surround_side_r: 0,
            surround_rear_l: 0,
            surround_rear_r: 0,
            room_enabled: 0,
            room_size: 0,
            room_decay: 0,
            room_damping: 0,
            room_pre_delay: 0,
            room_diffusion: 0,
            room_wet_dry: 0,
            output_gain_db: 0,
            limiter_enabled: 0,
            limiter_ceiling_db: 0,
        }
    }
}

/// All zero but for the bands.
pub open spec fn zero_pod(bands: [u32; 31]) -> EngineParamsPod {
    EngineParamsPod {
        active: 0,
        power: 0,
        master_volume: 0,
        eq_enabled: 0,
        eq_pre_gain: 0,
        eq_bands: bands,
        bass_enabled: 0,
        bass_amount: 0,
        bass_harmonics: 0,
        bass_adaptive: 0,
        spatializer_enabled: 0,
        spatializer_amount: 0,
        spatializer_mode: 0,
        surround_enabled: 0,
        surround_intensity: 0,
        surround_subwoofer: 0,
        surround_front_l: 0,
        surround_front_r: 0,
        surround_side_l: 0,
        surround_side_r: 0,
        surround_rear_l: 0,
        surround_rear_r: 0,
        room_enabled: 0,
        room_size: 0,
        room_decay: 0,
        room_damping: 0,
        room_pre_delay: 0,
        room_diffusion: 0,
        room_wet_dry: 0,
        output_gain_db: 0,
        limiter_enabled: 0,
        limiter_ceiling_db: 0,
    }
}

/// Takes over everything that a snapshot carries.
pub fn apply_pod(pod: &EngineParamsPod, out: &mut EngineState)
    ensures
        *final(out) == applied(*pod, *old(out)),
{
    out.power = u2b(pod.power);
    out.master_volume = pod.master_volume;

    out.eq.enabled = u2b(pod.eq_enabled);
    out.eq.pre_gain = pod.eq_pre_gain;
    out.eq.bands = pod.eq_bands;

    out.bass = BassBoostState {
        enabled: u2b(pod.bass_enabled),
        amount: pod.bass_amount,
        harmonics: u2b(pod.bass_harmonics),
        adaptive: u2b(pod.bass_adaptive),
    };

    out.spatializer.enabled = u2b(pod.spatializer_enabled);
    out.spatializer.amount = pod.spatializer_amount;
    out.spatializer.mode = u32_to_mode(pod.spatializer_mode);

    out.surround3d.enabled = u2b(pod.surround_enabled);
    out.surround3d.intensity = pod.surround_intensity;
    out.surround3d.subwoofer = pod.surround_subwoofer;
    out.surround3d.speakers = SurroundSpeakers {
        front_l: u2b(pod.surround_front_l),
        front_r: u2b(pod.surround_front_r),
        side_l: u2b(pod.surround_side_l),
        side_r: u2b(pod.surround_side_r),
        surround_l: u2b(pod.surround_rear_l),
        surround_r: u2b(pod.surround_rear_r),
    };

    out.room.enabled = u2b(pod.room_enabled);
    out.room.room_size = pod.room_size;
    out.room.decay = pod.room_decay;
    out.room.damping = pod.room_damping;
    out.room.pre_delay = pod.room_pre_delay;
    out.room.diffusion = pod.room_diffusion;
    out.room.wet_dry = pod.room_wet_dry;

    out.output.gain_db = pod.output_gain_db;
    out.output.limiter_enabled = u2b(pod.limiter_enabled);
    out.output.ceiling_db = pod.limiter_ceiling_db;
}

/// A snapshot carries every stage it claims to: applied to any state, it makes that state one with
/// the same snapshot, and with the stages of the state it was taken from.
pub proof fn law_snapshot_carries_every_stage(state: EngineState, active: bool, out: EngineState)
    ensures
        pod_of(applied(pod_of(state, active), out), active) == pod_of(state, active),
        applied(pod_of(state, active), out).power == state.power,
        applied(pod_of(state, active), out).master_volume == state.master_volume,
        applied(pod_of(state, active), out).eq == state.eq,
        applied(pod_of(state, active), out).bass == state.bass,
        applied(pod_of(state, active), out).spatializer == state.spatializer,
        applied(pod_of(state, active), out).surround3d == state.surround3d,
        applied(pod_of(state, active), out).room == (RoomState {
            active_preset_id: out.room.active_preset_id,
            ..state.room
        }),
        applied(pod_of(state, active), out).output == state.output,
{
}

/// What a snapshot does not carry is left alone.
pub proof fn law_snapshot_leaves_the_rest(pod: EngineParamsPod, out: EngineState)
    ensures
        applied(pod, out).convolver == out.convolver,
        applied(pod, out).compander == out.compander,
        applied(pod, out).saturation == out.saturation,
        applied(pod, out).script == out.script,
        applied(pod, out).headphone == out.headphone,
        applied(pod, out).playback == out.playback,
        applied(pod, out).system_eq_scope == out.system_eq_scope,
        applied(pod, out).active_preset_id == out.active_preset_id,
        applied(pod, out).active_profile_id == out.active_profile_id,
        applied(pod, out).room.active_preset_id == out.room.active_preset_id,
{
}

/// The version while a write is under way: the next odd one.
pub open spec fn writing_version(v: u32) -> u32 {
    if v % 2 == 0 {
        (v + 1) as u32
    } else {
        v
    }
}

/// The version behind a write that has been under way: the next even one. Behind the greatest comes
/// two, since zero marks a cell that was never written.
pub open spec fn written_version(w: u32) -> u32 {
    if w == u32::MAX {
        2
    } else {
        (w + 1) as u32
    }
}

/// The version that a writer announces its write with.
pub fn begin_write(v: u32) -> (r: u32)
    ensures
        r == writing_version(v),
{
    assert((v | 1) == (if v % 2 == 0 {
        (v + 1) as u32
    } else {
        v
    })) by (bit_vector);
    v | 1
}

/// The version that a writer closes its write with.
pub fn end_write(w: u32) -> (r: u32)
    ensures
        r == written_version(w),
{
    if w == u32::MAX {
        2
    } else {
        w + 1
    }
}

/// What a reader makes of the versions before and after its copy.
#[derive(Debug, Clone, Copy, PartialEq, Eq, Structural)]
pub enum ReadStep {
    /// The cell was never written.
    Never,
    /// A write was or is under way.
    Retry,
    /// The copy is a snapshot.
    Snapshot,
}

/// What a reader makes of the version before its copy; `None` lets it copy.
pub open spec fn before_copy(before: u32) -> Option<ReadStep> {
    if before == 0 {
        Some(ReadStep::Never)
    } else if before % 2 != 0 {
        Some(ReadStep::Retry)
    } else {
        None
    }
}

/// What a reader makes of the version before its copy.
pub fn check_before_copy(before: u32) -> (r: Option<ReadStep>)
    ensures
        r == before_copy(before),
{
    if before == 0 {
        Some(ReadStep::Never)
    } else if before % 2 != 0 {
        Some(ReadStep::Retry)
    } else {
        None
    }
}

/// What a reader makes of the version after its copy.
pub fn check_after_copy(before: u32, after: u32) -> (r: ReadStep)
    ensures
        r == (if before == after {
            ReadStep::Snapshot
        } else {
            ReadStep::Retry
        }),
{
    if before == after {
        ReadStep::Snapshot
    } else {
        ReadStep::Retry
    }
}

/// A snapshot and its version: 0 where there was none yet, odd while one is written, and otherwise
/// even.
#[derive(Debug, Clone, Copy)]
pub struct SeqlockCell {
    pub version: u32,
    pub payload: EngineParamsPod,
}

impl SeqlockCell {
    /// A cell that was never written.
    pub fn zeroed() -> (r: SeqlockCell)
        ensures
            r.version == 0,
            r.payload == zero_pod(r.payload.eq_bands),
            forall|i: int| 0 <= i < 31 ==> #[trigger] r.payload.eq_bands@[i] == 0,
    {
        SeqlockCell { version: 0, payload: EngineParamsPod::zero() }
    }
}

/// The cell behind a write.
pub open spec fn written(cell: SeqlockCell, pod: EngineParamsPod) -> SeqlockCell {
    SeqlockCell { version: written_version(writing_version(cell.version)), payload: pod }
}

/// What is read from a cell while no write is under way in between.
pub open spec fn snapshot_in(cell: SeqlockCell) -> Option<EngineParamsPod> {
    if cell.version != 0 && cell.version % 2 == 0 {
        Some(cell.payload)
    } else {
        None
    }
}

/// Writes a snapshot.
pub fn write_seqlock(cell: &mut SeqlockCell, pod: &EngineParamsPod)
    ensures
        *final(cell) == written(*old(cell), *pod),
{
    let writing: u32 = begin_write(cell.version);
    cell.version = writing;
    cell.payload = *pod;
    cell.version = end_write(writing);
}

/// Reads the snapshot, where there is one and no write is under way.
pub fn read_seqlock(cell: &SeqlockCell) -> (r: Option<EngineParamsPod>)
    ensures
        r == snapshot_in(*cell),
{
    let mut tries: u32 = 0;
    while tries < MAX_READ_RETRIES
        invariant
            tries > 0 ==> cell.version % 2 != 0,
        decreases MAX_READ_RETRIES - tries,
    {
        let before: u32 = cell.version;
        match check_before_copy(before) {
            Some(ReadStep::Never) => {
                return None;
            },
            Some(_) => {},
            None => {
                let pod = cell.payload;
                match check_after_copy(before, cell.version) {
                    ReadStep::Snapshot => {
                        return Some(pod);
                    },
                    _ => {},
                }
            },
        }
        tries += 1;
    }
    None
}

/// A completed write leaves an even version that is not zero, whatever the version was before, so
/// the next read gives back what was written. The version rises until it starts over.
pub proof fn law_read_gives_back_the_last_write(cell: SeqlockCell, pod: EngineParamsPod)
    ensures
        snapshot_in(written(cell, pod)) == Some(pod),
        written(cell, pod).version != 0,
        written(cell, pod).version % 2 == 0,
        before_copy(written(cell, pod).version) is None,
        cell.version < u32::MAX - 1 ==> written(cell, pod).version > cell.version,
{
}

/// The cell behind any number of writes.
pub open spec fn written_all(cell: SeqlockCell, pods: Seq<EngineParamsPod>) -> SeqlockCell
    decreases pods.len(),
{
    if pods.len() == 0 {
        cell
    } else {
        written(written_all(cell, pods.drop_last()), pods.last())
    }
}

/// Behind any number of writes a read gives nothing if there was none of them and the cell was never
/// written, and else the last one, with nothing of those before it.
pub proof fn law_only_the_last_write_counts(cell: SeqlockCell, pods: Seq<EngineParamsPod>)
    requires
        cell.version == 0 || pods.len() > 0,
    ensures
        snapshot_in(written_all(cell, pods)) == (if pods.len() == 0 {
            None
        } else {
            Some(pods.last())
        }),
        written_all(cell, pods).version % 2 == 0,
        pods.len() > 0 ==> written_all(cell, pods).version != 0,
{
    if pods.len() > 0 {
        law_read_gives_back_the_last_write(written_all(cell, pods.drop_last()), pods.last());
    }
}

/// A reader never takes a copy for a snapshot that a write has begun or finished behind its back:
/// both steps of a write change the version it saw.
pub proof fn law_a_write_is_noticed(before: u32)
    requires
        before_copy(before) is None,
    ensures
        writing_version(before) != before,
        written_version(writing_version(before)) != before,
        before_copy(writing_version(before)) == Some(ReadStep::Retry),
{
}

} // verus!
