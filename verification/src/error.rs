//! Errors, and the flat form in which they reach the user interface.

use vstd::prelude::*;
use crate::text::join3;

verus! {

/// What can go wrong with stored things.
#[derive(Debug, PartialEq, Eq)]
pub enum HmError {
    /// Something asked for does not exist.
    NotFound(String),
    /// The input makes no sense.
    Invalid(String),
    /// Storing or reading failed.
    Storage(String),
    /// A stored or transferred value could not be read or written.
    Serde(String),
}

/// The text of an error.
pub open spec fn error_text(e: HmError) -> Seq<char> {
    match e {
        HmError::NotFound(s) => "not found: "@ + s@ + ""@,
        HmError::Invalid(s) => "invalid input: "@ + s@ + ""@,
        HmError::Storage(s) => "storage error: "@ + s@ + ""@,
        HmError::Serde(s) => "serialization error: "@ + s@ + ""@,
    }
}

/// The code of an error.
pub open spec fn error_code(e: HmError) -> Seq<char> {
    match e {
        HmError::NotFound(_) => "not_found"@,
        HmError::Invalid(_) => "invalid"@,
        HmError::Storage(_) => "storage"@,
        HmError::Serde(_) => "serde"@,
    }
}

impl HmError {
    /// The text of the error.
    pub fn text(&self) -> (r: String)
        ensures
            r@ == error_text(*self),
    {
        match self {
            HmError::NotFound(s) => join3("not found: ", s.as_str(), ""),
            HmError::Invalid(s) => join3("invalid input: ", s.as_str(), ""),
            HmError::Storage(s) => join3("storage error: ", s.as_str(), ""),
            HmError::Serde(s) => join3("serialization error: ", s.as_str(), ""),
        }
    }
}

/// An error as the user interface gets it.
#[derive(Debug, Clone, PartialEq, Eq)]
pub struct IpcError {
    /// A stable code.
    pub code: String,
    /// A text to show.
    pub message: String,
}

impl IpcError {
    /// An error with a code and a text.
    pub fn new(code: &str, message: &str) -> (r: IpcError)
        ensures
            r.code@ == code@,
            r.message@ == message@,
    {
        IpcError { code: code.to_owned(), message: message.to_owned() }
    }

    /// An error in flat form.
    pub fn of(e: &HmError) -> (r: IpcError)
        ensures
            r.code@ == error_code(*e),
            r.message@ == error_text(*e),
    {
        let code = match e {
            HmError::NotFound(_) => "not_found",
            HmError::Invalid(_) => "invalid",
            HmError::Storage(_) => "storage",
            HmError::Serde(_) => "serde",
        };
        IpcError::new(code, e.text().as_str())
    }
}

/// The revision of the engine's settings.
pub const ENGINE_SCHEMA: u32 = 1;

/// What the app is called.
#[derive(Debug, Clone, PartialEq, Eq)]
pub struct AppInfo {
    pub name: String,
    pub version: String,
    /// The revision of the engine's settings.
    pub engine_schema: u32,
}

impl AppInfo {
    /// The app under a name and a version, with the present revision.
    pub fn current(name: &str, version: &str) -> (r: AppInfo)
        ensures
            r.name@ == name@,
            r.version@ == version@,
            r.engine_schema == ENGINE_SCHEMA,
    {
        AppInfo {
            name: name.to_owned(),
            version: version.to_owned(),
            engine_schema: ENGINE_SCHEMA,
        }
    }
}

} // verus!
