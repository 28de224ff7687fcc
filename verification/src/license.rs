//! The seam between the app and whatever decides whether it is licensed.

use vstd::prelude::*;
use crate::text::join3;

verus! {

/// What the user is entitled to.
#[derive(Debug, Clone, PartialEq, Eq)]
pub enum LicenseStatus {
    /// The trial runs for so many more days.
    Trial { days_left: u32 },
    /// A key has been activated.
    Licensed,
    /// The trial is over and no key has been activated.
    Expired,
}

/// Why activation or deactivation failed.
#[derive(Debug, PartialEq, Eq)]
pub enum LicenseError {
    InvalidKey,
    Storage(String),
}

impl LicenseError {
    /// The text of the error.
    pub fn text(&self) -> (r: String)
        ensures
            r@ == match self {
                LicenseError::InvalidKey => "invalid license key"@,
                LicenseError::Storage(s) => "license storage error: "@ + s@ + ""@,
            },
    {
        match self {
            LicenseError::InvalidKey => "invalid license key".to_owned(),
            LicenseError::Storage(s) => join3("license storage error: ", s.as_str(), ""),
        }
    }
}

/// Whatever decides whether the app is licensed.
pub trait LicenseService: Send + Sync {
    /// The present entitlement.
    fn status(&self) -> LicenseStatus;

    /// Activates a key.
    fn activate(&self, key: &str) -> Result<LicenseStatus, LicenseError>;

    /// Takes back the activation.
    fn deactivate(&self) -> Result<(), LicenseError>;
}

} // verus!
