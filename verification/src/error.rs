//! What can go wrong in a sync.

use vstd::prelude::*;

verus! {

/// The error of a ZIP archive that cannot be read or written.
#[verifier::external_type_specification]
#[verifier::external_body]
pub struct ExZipError(zip::result::ZipError);

/// The error of JSON text that cannot be read or written.
#[verifier::external_type_specification]
#[verifier::external_body]
pub struct ExJsonError(serde_json::Error);

/// The error of bytes that cannot be read or written.
#[verifier::external_type_specification]
#[verifier::external_body]
pub struct ExIoError(std::io::Error);

/// Why a sync stopped.
#[derive(Debug)]
pub enum AnkiError {
    /// The server refused the client's key.
    AnkiWebAuthenticationFailed,
    /// The server, or the client's own files, gave a reason in words.
    AnkiWebMiscError { info: String },
    /// A ZIP archive could not be read or written.
    Zip(zip::result::ZipError),
    /// JSON text could not be read.
    Json(serde_json::Error),
    /// The bytes of a file inside an archive could not be read or written.
    Io(std::io::Error),
}

/// What contracts say of an [`AnkiError`]: its kind, and the words where it has any.
pub enum ErrorView {
    AuthenticationFailed,
    Misc { info: Seq<char> },
    Zip,
    Json,
    Io,
}

impl View for AnkiError {
    type V = ErrorView;

    open spec fn view(&self) -> ErrorView {
        match self {
            AnkiError::AnkiWebAuthenticationFailed => ErrorView::AuthenticationFailed,
            AnkiError::AnkiWebMiscError { info } => ErrorView::Misc { info: info@ },
            AnkiError::Zip(_) => ErrorView::Zip,
            AnkiError::Json(_) => ErrorView::Json,
            AnkiError::Io(_) => ErrorView::Io,
        }
    }
}

/// An error says of which sort it is, and its words where it has any.
pub proof fn lemma_error_says(err: AnkiError)
    ensures
        match err {
            AnkiError::AnkiWebAuthenticationFailed => err@ is AuthenticationFailed,
            AnkiError::AnkiWebMiscError { info } => err@ == (ErrorView::Misc { info: info@ }),
            AnkiError::Zip(_) => err@ is Zip,
            AnkiError::Json(_) => err@ is Json,
            AnkiError::Io(_) => err@ is Io,
        },
{
}

} // verus!
