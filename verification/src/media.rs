//! The vocabulary of local playback and streaming.

use vstd::prelude::*;
use crate::text::join3;

verus! {

/// Failures of playback and of streaming.
#[derive(Debug, Clone, PartialEq, Eq)]
pub enum MediaError {
    /// The file or stream could not be opened.
    Open(String),
    /// The container or codec is not supported.
    UnsupportedFormat(String),
    /// Decoding failed in the middle of a stream.
    Decode(String),
    /// The stream or the station directory could not be fetched.
    Network(String),
}

/// What a failure is called.
pub open spec fn media_error_text(e: MediaError) -> Seq<char> {
    match e {
        MediaError::Open(why) => "could not open media: "@ + why@ + ""@,
        MediaError::UnsupportedFormat(why) => "unsupported media format: "@ + why@ + ""@,
        MediaError::Decode(why) => "decode error: "@ + why@ + ""@,
        MediaError::Network(why) => "network error: "@ + why@ + ""@,
    }
}

impl MediaError {
    /// The failure in words.
    pub fn text(&self) -> (r: String)
        ensures
            r@ == media_error_text(*self),
    {
        match self {
            MediaError::Open(why) => join3("could not open media: ", why.as_str(), ""),
            MediaError::UnsupportedFormat(why) => join3(
                "unsupported media format: ",
                why.as_str(),
                "",
            ),
            MediaError::Decode(why) => join3("decode error: ", why.as_str(), ""),
            MediaError::Network(why) => join3("network error: ", why.as_str(), ""),
        }
    }
}

/// What the player is doing.
#[derive(Debug, Clone, Copy, PartialEq, Eq, Structural)]
pub enum TransportState {
    Stopped,
    Playing,
    Paused,
    Buffering,
}

impl Default for TransportState {
    fn default() -> (r: TransportState)
        ensures
            r == TransportState::Stopped,
    {
        TransportState::Stopped
    }
}

/// How far playback has come, in seconds, as bits of double precision numbers. An open-ended
/// stream has no duration.
#[derive(Debug, Clone, Copy, PartialEq, Eq)]
pub struct TransportProgress {
    pub position_secs: u64,
    pub duration_secs: Option<u64>,
}

} // verus!
