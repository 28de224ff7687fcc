//! The identity of the audio processing object in the system's registry.

use vstd::prelude::*;

verus! {

/// The class id as the registry writes it. It must never change: a new one orphans what is
/// installed.
pub const CLSID_STR: &'static str = "{7B1C4A20-9D3E-4E8A-9F2C-11AA22BB33CC}";

/// The same class id as a number.
pub const CLSID_GUID: u128 = 0x7B1C4A20_9D3E_4E8A_9F2C_11AA22BB33CC;

/// A class id.
#[derive(Clone, Copy, PartialEq, Eq, Debug, Structural)]
pub struct Guid(pub u128);

impl Guid {
    /// The class id as a number.
    pub fn to_u128(self) -> (r: u128)
        ensures
            r == self.0,
    {
        self.0
    }
}

/// The name of the shared memory with the live parameters.
pub const MAPPING_NAME: &'static str = "Local\\HypeMuzikApoParams";

/// Where the class is registered.
pub const CLSID_REGKEY: &'static str =
    "SOFTWARE\\Classes\\CLSID\\{7B1C4A20-9D3E-4E8A-9F2C-11AA22BB33CC}";

/// Where the object is listed for the audio engine.
pub const APO_REGKEY: &'static str =
    "SOFTWARE\\Classes\\AudioEngine\\AudioProcessingObjects\\{7B1C4A20-9D3E-4E8A-9F2C-11AA22BB33CC}";

/// Where the switch is that lets the audio engine load unsigned objects.
pub const DISABLE_PROTECTED_AUDIO_DG_KEY: &'static str =
    "SOFTWARE\\Microsoft\\Windows\\CurrentVersion\\Audio";

/// The name of that switch.
pub const DISABLE_PROTECTED_AUDIO_DG_VALUE: &'static str = "DisableProtectedAudioDG";

/// The properties of an endpoint that name its objects.
pub const FX_PROPERTIES_PKEY: &'static str = "{d04e05a6-594b-4fb6-a80d-01af5eed7d1d}";

} // verus!
