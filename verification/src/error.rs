//! Error taxonomy of the service. Every failure a request can produce is one
//! of these variants, and each variant maps to exactly one HTTP status code.

use vstd::prelude::*;

verus! {

/// Why a request's input was rejected before any storage work was attempted.
#[derive(Debug, Clone, Copy, PartialEq, Eq, Structural)]
pub enum InputFault {
    /// The upload field carried no declared content type.
    MissingContentType,
    /// The multipart body carried no file field at all.
    NoFileField,
}

/// A terminal failure of one request. No error is retried; each is surfaced
/// once to the caller together with its status code and a short message.
#[derive(Debug)]
pub enum ServiceError {
    /// Malformed or missing request data.
    InvalidInput(InputFault),
    /// A declared media type outside the allow-list; carries the rejected type.
    UnsupportedMedia(String),
    /// The key named by a read or delete is not in the store.
    NotFound,
    /// The backing store could not be created, written, read or listed.
    StorageFailure,
    /// The re-encoding step failed or faulted internally.
    CompressionFailure,
}

impl ServiceError {
    /// The HTTP status code the error maps to.
    pub open spec fn spec_status(&self) -> u16 {
        match self {
            ServiceError::InvalidInput(_) => 400,
            ServiceError::UnsupportedMedia(_) => 415,
            ServiceError::NotFound => 404,
            ServiceError::StorageFailure => 500,
            ServiceError::CompressionFailure => 500,
        }
    }

    pub fn status_code(&self) -> (code: u16)
        ensures
            code == self.spec_status(),
    {
        match self {
            ServiceError::InvalidInput(_) => 400,
            ServiceError::UnsupportedMedia(_) => 415,
            ServiceError::NotFound => 404,
            ServiceError::StorageFailure => 500,
            ServiceError::CompressionFailure => 500,
        }
    }

    /// A short human-readable description; the message for a rejected media
    /// type echoes the type that was declared.
    pub fn message(&self) -> (msg: String)
        ensures
            self matches ServiceError::UnsupportedMedia(t) ==> msg@ == "Only JPEG images are supported, you sent me: "@
                + t@,
            self matches ServiceError::InvalidInput(InputFault::MissingContentType) ==> msg@
                == "Missing content type"@,
            self matches ServiceError::InvalidInput(InputFault::NoFileField) ==> msg@
                == "No file field found in multipart body"@,
            self is NotFound ==> msg@ == "No such image"@,
            self is StorageFailure ==> msg@ == "Failed to access image storage"@,
            self is CompressionFailure ==> msg@ == "Image compression failed"@,
    {
        match self {
            ServiceError::InvalidInput(InputFault::MissingContentType) => String::from_str(
                "Missing content type",
            ),
            ServiceError::InvalidInput(InputFault::NoFileField) => String::from_str(
                "No file field found in multipart body",
            ),
            ServiceError::UnsupportedMedia(t) => String::from_str(
                "Only JPEG images are supported, you sent me: ",
            ).concat(t.as_str()),
            ServiceError::NotFound => String::from_str("No such image"),
            ServiceError::StorageFailure => String::from_str("Failed to access image storage"),
            ServiceError::CompressionFailure => String::from_str("Image compression failed"),
        }
    }
}

} // verus!
