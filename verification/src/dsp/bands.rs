//! Filters of bands: which kind a name means, how many are used, and to which channel a sample of an
//! interleaved block belongs.

use vstd::prelude::*;
use crate::float_bits::not_above;
use crate::text::same_text;

verus! {

/// How many bands a correction profile can have.
pub const MAX_BANDS: usize = 24;

/// What a filter does.
#[derive(Debug, Clone, Copy, PartialEq, Eq, Structural)]
pub enum FilterKind {
    Peaking,
    LowShelf,
    HighShelf,
    /// The signal passes unchanged.
    Identity,
}

/// The kind that a name means; a name that is not known means that nothing is filtered.
pub open spec fn kind_of(name: Seq<char>) -> FilterKind {
    if name == "lowShelf"@ || name == "low_shelf"@ || name == "LSC"@ {
        FilterKind::LowShelf
    } else if name == "highShelf"@ || name == "high_shelf"@ || name == "HSC"@ {
        FilterKind::HighShelf
    } else if name == "peaking"@ {
        FilterKind::Peaking
    } else {
        FilterKind::Identity
    }
}

/// The kind that a name means.
pub fn filter_kind(name: &str) -> (r: FilterKind)
    ensures
        r == kind_of(name@),
{
    if same_text(name, "lowShelf") || same_text(name, "low_shelf") || same_text(name, "LSC") {
        FilterKind::LowShelf
    } else if same_text(name, "highShelf") || same_text(name, "high_shelf") || same_text(
        name,
        "HSC",
    ) {
        FilterKind::HighShelf
    } else if same_text(name, "peaking") {
        FilterKind::Peaking
    } else {
        FilterKind::Identity
    }
}

/// How many bands of a profile are used.
pub fn active_bands(count: usize) -> (r: usize)
    ensures
        r == (if count < MAX_BANDS {
            count
        } else {
            MAX_BANDS
        }),
{
    if count < MAX_BANDS {
        count
    } else {
        MAX_BANDS
    }
}

/// The channel of a sample in an interleaved block, where it is one of the channels that the stage
/// was prepared for; else the sample is left as it is.
pub fn channel_of(place: usize, channels: usize, prepared: usize) -> (r: Option<usize>)
    requires
        channels > 0,
    ensures
        match r {
            Some(c) => c == place % channels && c < prepared,
            None => place % channels >= prepared,
        },
{
    let c: usize = place % channels;
    if c < prepared {
        Some(c)
    } else {
        None
    }
}

/// 0.05, in bits: below this the bass is quiet.
pub const QUIET: u32 = 0x3d4c_cccd;

/// 0.4, in bits: above this the bass is loud.
pub const LOUD: u32 = 0x3ecc_cccd;

/// How much of the bass boost is applied.
#[derive(Debug, Clone, Copy, PartialEq, Eq, Structural)]
pub enum BoostShare {
    /// All of it.
    Full,
    /// As little as there is.
    Least,
    /// Something between.
    Partial,
}

/// How much of the bass boost is applied, for the level of the bass.
pub fn boost_share(level: u32) -> (r: BoostShare)
    ensures
        r == share_of(level),
{
    if not_above(level, QUIET) {
        BoostShare::Full
    } else if not_above(LOUD, level) {
        BoostShare::Least
    } else {
        BoostShare::Partial
    }
}

/// How strong a share is.
pub open spec fn strength(s: BoostShare) -> int {
    match s {
        BoostShare::Least => 0,
        BoostShare::Partial => 1,
        BoostShare::Full => 2,
    }
}

/// The share of a level.
pub open spec fn share_of(level: u32) -> BoostShare {
    if crate::float_bits::at_most(level, QUIET) {
        BoostShare::Full
    } else if crate::float_bits::at_most(LOUD, level) {
        BoostShare::Least
    } else {
        BoostShare::Partial
    }
}

/// Louder bass is never boosted more.
pub proof fn law_loud_bass_is_boosted_less(quiet: u32, loud: u32)
    requires
        crate::float_bits::at_most(quiet, loud),
    ensures
        strength(share_of(loud)) <= strength(share_of(quiet)),
{
}

} // verus!
