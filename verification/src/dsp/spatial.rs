//! Which path of the widening and surround stages a block takes, and which loudspeaker plays what to
//! which ear.

use vstd::prelude::*;
use crate::float_bits::{less_than, not_above};
use crate::types::{SpatialMode, SurroundSpeakers};

verus! {

/// A place for measured responses of the head; none is loaded yet.
#[derive(Debug, Clone, Copy, PartialEq, Eq, Structural)]
pub struct HrtfConvolver {
    loaded: bool,
}

impl HrtfConvolver {
    /// Measured responses are loaded.
    pub closed spec fn loaded(&self) -> bool {
        self.loaded
    }

    /// Whether measured responses are loaded.
    pub fn is_loaded(&self) -> (r: bool)
        ensures
            r == self.loaded(),
    {
        self.loaded
    }
}

impl Default for HrtfConvolver {
    fn default() -> (r: HrtfConvolver)
        ensures
            !r.loaded(),
    {
        HrtfConvolver { loaded: false }
    }
}

/// What the widening stage does with a block.
#[derive(Debug, Clone, Copy, PartialEq, Eq, Structural)]
pub enum SpatialPath {
    Bypass,
    Crossfeed,
    Hrtf,
}

/// What the widening stage does with a block: nothing where it is off, without a pair of channels,
/// or for an amount of zero or less.
pub fn spatial_path(enabled: bool, channels: usize, amount: u32, mode: SpatialMode) -> (r:
    SpatialPath)
    ensures
        r == (if !enabled || channels < 2 || crate::float_bits::at_most(amount, 0) {
            SpatialPath::Bypass
        } else {
            match mode {
                SpatialMode::Crossfeed => SpatialPath::Crossfeed,
                SpatialMode::Hrtf => SpatialPath::Hrtf,
            }
        }),
{
    if !enabled || channels < 2 || not_above(amount, 0) {
        return SpatialPath::Bypass;
    }
    match mode {
        SpatialMode::Crossfeed => SpatialPath::Crossfeed,
        SpatialMode::Hrtf => SpatialPath::Hrtf,
    }
}

/// What a loudspeaker plays.
#[derive(Debug, Clone, Copy, PartialEq, Eq, Structural)]
pub enum Feed {
    Left,
    Right,
    /// The delayed difference of the channels.
    Rear,
    /// The same with the other sign.
    RearInverted,
}

/// A virtual loudspeaker: what it plays, and whether it stands on the left.
#[derive(Debug, Clone, Copy, PartialEq, Eq, Structural)]
pub struct Speaker {
    pub feed: Feed,
    pub left: bool,
    pub on: bool,
}

/// The loudspeakers in the order in which they are summed: front, side, rear, each left and right.
pub open spec fn speaker_table(s: SurroundSpeakers) -> Seq<Speaker> {
    seq![
        Speaker { feed: Feed::Left, left: true, on: s.front_l },
        Speaker { feed: Feed::Right, left: false, on: s.front_r },
        Speaker { feed: Feed::Left, left: true, on: s.side_l },
        Speaker { feed: Feed::Right, left: false, on: s.side_r },
        Speaker { feed: Feed::Rear, left: true, on: s.surround_l },
        Speaker { feed: Feed::RearInverted, left: false, on: s.surround_r },
    ]
}

/// The loudspeakers in the order in which they are summed.
pub fn speakers(s: SurroundSpeakers) -> (r: Vec<Speaker>)
    ensures
        r@ == speaker_table(s),
{
    let mut out: Vec<Speaker> = Vec::new();
    out.push(Speaker { feed: Feed::Left, left: true, on: s.front_l });
    out.push(Speaker { feed: Feed::Right, left: false, on: s.front_r });
    out.push(Speaker { feed: Feed::Left, left: true, on: s.side_l });
    out.push(Speaker { feed: Feed::Right, left: false, on: s.side_r });
    out.push(Speaker { feed: Feed::Rear, left: true, on: s.surround_l });
    out.push(Speaker { feed: Feed::RearInverted, left: false, on: s.surround_r });
    assert(out@ =~= speaker_table(s));
    out
}

/// What a loudspeaker gives to the left and the right ear: nothing where it is off; else the near
/// ear hears it directly, and the far one what comes round the head.
pub fn ears(speaker: Speaker, near: u32, far: u32) -> (r: (u32, u32))
    ensures
        r == (if !speaker.on {
            (0u32, 0u32)
        } else if speaker.left {
            (near, far)
        } else {
            (far, near)
        }),
{
    if !speaker.on {
        (0, 0)
    } else if speaker.left {
        (near, far)
    } else {
        (far, near)
    }
}

/// Whether the surround stage changes the signal: it is on, mixed in, and something is heard.
pub fn surround_active(enabled: bool, intensity: u32, wet_norm: u32, subwoofer: u32) -> (r: bool)
    ensures
        r == (enabled && crate::float_bits::less(0, intensity) && (crate::float_bits::less(
            0,
            wet_norm,
        ) || crate::float_bits::less(0, subwoofer))),
{
    enabled && less_than(0, intensity) && (less_than(0, wet_norm) || less_than(0, subwoofer))
}

/// Where the pairs of loudspeakers are on alike, the ring is the same from both sides: behind each on
/// the left stands one on the right that is on exactly if it is.
pub proof fn law_the_ring_is_symmetric(s: SurroundSpeakers, k: int)
    requires
        0 <= k < 3,
        s.front_l == s.front_r,
        s.side_l == s.side_r,
        s.surround_l == s.surround_r,
    ensures
        speaker_table(s)[2 * k].left,
        !speaker_table(s)[2 * k + 1].left,
        speaker_table(s)[2 * k].on == speaker_table(s)[2 * k + 1].on,
{
    assert(k == 0 || k == 1 || k == 2);
}

} // verus!
