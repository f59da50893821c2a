//! Error kinds of the synchronisation engine.
use vstd::prelude::*;

verus! {

/// Failures surfaced to callers.
#[derive(Debug)]
pub enum SyncError {
    /// No issuer matched the ticker query, which is echoed back.
    NotFound { query: String },
    /// The market-data provider could not be reached or answered nonsense.
    ProviderUnavailable,
    /// The local store could not be reached.
    StoreUnavailable,
    /// A requested range or period is malformed.
    ValidationError,
}

impl SyncError {
    /// A one-line description of the error.
    pub fn describe(&self) -> (r: String) {
        match self {
            SyncError::NotFound { query } => {
                let mut s = "no issuer found for ticker: ".to_owned();
                s.append(query.as_str());
                s
            },
            SyncError::ProviderUnavailable => "market-data provider unavailable".to_owned(),
            SyncError::StoreUnavailable => "local store unavailable".to_owned(),
            SyncError::ValidationError => "malformed range or period".to_owned(),
        }
    }
}

} // verus!
