//! The failures that the registry and the documents report.

use vstd::prelude::*;
use vstd::string::StringExecFns;

verus! {

/// A failure of the overlay's core. A failure that came from outside (the
/// window layer, the file system, the JSON codec) carries its text.
#[derive(Debug)]
pub enum OmniverlayError {
    TauriError(String),
    BackendInitialization(String),
    ExtensionNotFound(String),
    ExtensionLoadFailed(String),
    SerdeJson(String),
    LockError(String),
    SerializationError(String),
    ConfigNotFound(String),
    IoError(String),
    AppDirectory,
    ProfileNotFound(String),
    DataNotFound(String),
    Other(String),
}

pub enum OmniverlayErrorView {
    TauriError(Seq<char>),
    BackendInitialization(Seq<char>),
    ExtensionNotFound(Seq<char>),
    ExtensionLoadFailed(Seq<char>),
    SerdeJson(Seq<char>),
    LockError(Seq<char>),
    SerializationError(Seq<char>),
    ConfigNotFound(Seq<char>),
    IoError(Seq<char>),
    AppDirectory,
    ProfileNotFound(Seq<char>),
    DataNotFound(Seq<char>),
    Other(Seq<char>),
}

pub type OmniverlayResult<T> = Result<T, OmniverlayError>;

impl View for OmniverlayError {
    type V = OmniverlayErrorView;

    open spec fn view(&self) -> OmniverlayErrorView {
        match self {
            OmniverlayError::TauriError(s) => OmniverlayErrorView::TauriError(s@),
            OmniverlayError::BackendInitialization(s) => OmniverlayErrorView::BackendInitialization(
                s@,
            ),
            OmniverlayError::ExtensionNotFound(s) => OmniverlayErrorView::ExtensionNotFound(s@),
            OmniverlayError::ExtensionLoadFailed(s) => OmniverlayErrorView::ExtensionLoadFailed(s@),
            OmniverlayError::SerdeJson(s) => OmniverlayErrorView::SerdeJson(s@),
            OmniverlayError::LockError(s) => OmniverlayErrorView::LockError(s@),
            OmniverlayError::SerializationError(s) => OmniverlayErrorView::SerializationError(s@),
            OmniverlayError::ConfigNotFound(s) => OmniverlayErrorView::ConfigNotFound(s@),
            OmniverlayError::IoError(s) => OmniverlayErrorView::IoError(s@),
            OmniverlayError::AppDirectory => OmniverlayErrorView::AppDirectory,
            OmniverlayError::ProfileNotFound(s) => OmniverlayErrorView::ProfileNotFound(s@),
            OmniverlayError::DataNotFound(s) => OmniverlayErrorView::DataNotFound(s@),
            OmniverlayError::Other(s) => OmniverlayErrorView::Other(s@),
        }
    }
}

/// The text that names a failure: a heading for its kind, then what it carries.
pub open spec fn message_of(e: OmniverlayErrorView) -> Seq<char> {
    match e {
        OmniverlayErrorView::TauriError(s) => "Tauri error: "@ + s,
        OmniverlayErrorView::BackendInitialization(s) => "Backend initialization error: "@ + s,
        OmniverlayErrorView::ExtensionNotFound(s) => "Extension not found: "@ + s,
        OmniverlayErrorView::ExtensionLoadFailed(s) => "Extension load failed: "@ + s,
        OmniverlayErrorView::SerdeJson(s) => "Serialization error: "@ + s,
        OmniverlayErrorView::LockError(s) => "Lock error: "@ + s,
        OmniverlayErrorView::SerializationError(s) => "Serialization error: "@ + s,
        OmniverlayErrorView::ConfigNotFound(s) => "Config not found: "@ + s,
        OmniverlayErrorView::IoError(s) => "IO error: "@ + s,
        OmniverlayErrorView::AppDirectory => "Cannot find the app directory"@,
        OmniverlayErrorView::ProfileNotFound(s) => "Profile not found: "@ + s,
        OmniverlayErrorView::DataNotFound(s) => "No data found for: "@ + s,
        OmniverlayErrorView::Other(s) => s,
    }
}

/// `heading` followed by `detail`.
fn headed(heading: &str, detail: &String) -> (r: String)
    ensures
        r@ == heading@ + detail@,
{
    String::from_str(heading).concat(detail.as_str())
}

impl OmniverlayError {
    /// The text shown to a user for this failure.
    pub fn to_string(&self) -> (r: String)
        ensures
            r@ == message_of(self@),
    {
        match self {
            OmniverlayError::TauriError(s) => headed("Tauri error: ", s),
            OmniverlayError::BackendInitialization(s) => headed("Backend initialization error: ", s),
            OmniverlayError::ExtensionNotFound(s) => headed("Extension not found: ", s),
            OmniverlayError::ExtensionLoadFailed(s) => headed("Extension load failed: ", s),
            OmniverlayError::SerdeJson(s) => headed("Serialization error: ", s),
            OmniverlayError::LockError(s) => headed("Lock error: ", s),
            OmniverlayError::SerializationError(s) => headed("Serialization error: ", s),
            OmniverlayError::ConfigNotFound(s) => headed("Config not found: ", s),
            OmniverlayError::IoError(s) => headed("IO error: ", s),
            OmniverlayError::AppDirectory => String::from_str("Cannot find the app directory"),
            OmniverlayError::ProfileNotFound(s) => headed("Profile not found: ", s),
            OmniverlayError::DataNotFound(s) => headed("No data found for: ", s),
            OmniverlayError::Other(s) => s.clone(),
        }
    }
}

impl Clone for OmniverlayError {
    fn clone(&self) -> (r: Self)
        ensures
            r@ == self@,
    {
        match self {
            OmniverlayError::TauriError(s) => OmniverlayError::TauriError(s.clone()),
            OmniverlayError::BackendInitialization(s) => OmniverlayError::BackendInitialization(
                s.clone(),
            ),
            OmniverlayError::ExtensionNotFound(s) => OmniverlayError::ExtensionNotFound(s.clone()),
            OmniverlayError::ExtensionLoadFailed(s) => OmniverlayError::ExtensionLoadFailed(
                s.clone(),
            ),
            OmniverlayError::SerdeJson(s) => OmniverlayError::SerdeJson(s.clone()),
            OmniverlayError::LockError(s) => OmniverlayError::LockError(s.clone()),
            OmniverlayError::SerializationError(s) => OmniverlayError::SerializationError(s.clone()),
            OmniverlayError::ConfigNotFound(s) => OmniverlayError::ConfigNotFound(s.clone()),
            OmniverlayError::IoError(s) => OmniverlayError::IoError(s.clone()),
            OmniverlayError::AppDirectory => OmniverlayError::AppDirectory,
            OmniverlayError::ProfileNotFound(s) => OmniverlayError::ProfileNotFound(s.clone()),
            OmniverlayError::DataNotFound(s) => OmniverlayError::DataNotFound(s.clone()),
            OmniverlayError::Other(s) => OmniverlayError::Other(s.clone()),
        }
    }
}

} // verus!
