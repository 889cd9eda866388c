//! The ingest service: consume one uploaded form field, validate its
//! declared media type, allocate a traversal-safe key and persist the bytes.
//!
//! Exactly one file field is processed per request: the host hands in the
//! first field of the multipart body, or nothing when the body holds none.

use vstd::prelude::*;
use crate::error::{InputFault, ServiceError};
use crate::keys::{allocate_key, clean_name, safe_key, sanitized_of, uuid_like, UUID_LEN};
use crate::store::Store;

verus! {

/// One uploaded form field as the host hands it over: an optional declared
/// filename, an optional declared content type, and the payload bytes.
pub struct UploadField {
    pub filename: Option<String>,
    pub content_type: Option<String>,
    pub data: Vec<u8>,
}

/// The filename the allocator works from: the declared one, or a default.
pub open spec fn spec_name_or_default(n: Option<String>) -> Seq<char> {
    match n {
        Some(n) => n@,
        None => "upload.jpg"@,
    }
}

/// The filename the allocator works from: the declared one, or a default.
pub open spec fn spec_upload_name(f: UploadField) -> Seq<char> {
    spec_name_or_default(f.filename)
}

/// Whether the field passes the media-type policy: a declared content type
/// that is exactly `image/jpeg`.
pub open spec fn accepted(f: UploadField) -> bool {
    f.content_type matches Some(ct) && ct@ == "image/jpeg"@
}

/// The key an upload of the given filename may come back with: a UUID, an
/// underscore, then the cleaned filename.
pub open spec fn key_for_name(k: Seq<char>, name: Seq<char>) -> bool {
    &&& safe_key(k)
    &&& k.len() == UUID_LEN + 1 + clean_name(sanitized_of(name)).len()
    &&& uuid_like(k.subrange(0, UUID_LEN as int))
    &&& k[UUID_LEN as int] == '_'
    &&& k.subrange(UUID_LEN + 1, k.len() as int) == clean_name(sanitized_of(name))
}

/// The key an accepted upload of this field may come back with.
pub open spec fn key_for_field(k: Seq<char>, f: UploadField) -> bool {
    key_for_name(k, spec_upload_name(f))
}

/// Validate a request's first file field against the upload policy, without
/// touching the store. Accepts exactly the fields that declare `image/jpeg`.
pub fn validate_field(field: &Option<UploadField>) -> (r: Result<(), ServiceError>)
    ensures
        r is Ok <==> (field matches Some(f) && accepted(*f)),
        field is None ==> r == Result::<(), ServiceError>::Err(
            ServiceError::InvalidInput(InputFault::NoFileField),
        ),
        field matches Some(f) && f.content_type is None ==> r == Result::<
            (),
            ServiceError,
        >::Err(ServiceError::InvalidInput(InputFault::MissingContentType)),
        field matches Some(f) ==> (f.content_type matches Some(ct) ==> (ct@ != "image/jpeg"@ ==> (
        r matches Err(e) && e matches ServiceError::UnsupportedMedia(t) && t@ == ct@))),
    {
    match field {
        None => Err(ServiceError::InvalidInput(InputFault::NoFileField)),
        Some(f) => match &f.content_type {
            None => Err(ServiceError::InvalidInput(InputFault::MissingContentType)),
            Some(ct) => {
                if crate::store::str_eq(ct.as_str(), "image/jpeg") {
                    Ok(())
                } else {
                    Err(ServiceError::UnsupportedMedia(ct.clone()))
                }
            },
        },
    }
}

/// Ingest one upload: validate the declared media type, allocate a key,
/// ensure the storage root and persist the payload under the key.
///
/// A rejected upload leaves the store untouched; an accepted one always
/// succeeds and makes exactly one new object visible under the returned
/// key. At most one file field is processed per request: this one.
pub fn ingest(store: &mut Store, field: Option<UploadField>) -> (r: Result<String, ServiceError>)
    requires
        old(store).inv(),
    ensures
        final (store).inv(),
        field is None ==> (r matches Err(e) && e == ServiceError::InvalidInput(
            InputFault::NoFileField,
        ) && *final (store) == *old(store)),
        field matches Some(f) && f.content_type is None ==> (r matches Err(e) && e
            == ServiceError::InvalidInput(InputFault::MissingContentType) && *final (store)
            == *old(store)),
        field matches Some(f) ==> (f.content_type matches Some(ct) ==> (ct@ != "image/jpeg"@ ==> (
        r matches Err(e) && e matches ServiceError::UnsupportedMedia(t) && t@ == ct@ && *final (
        store) == *old(store)))),
        field matches Some(f) ==> (accepted(f) ==> (r matches Ok(k) && key_for_field(k@, f)
            && final (store).contents() == old(store).contents().insert(k@, f.data@) && final (
        store).root_ensured())),
{
    match validate_field(&field) {
        Err(e) => Err(e),
        Ok(()) => {
            let f = field.unwrap();
            let key = match &f.filename {
                Some(n) => allocate_key(n.as_str()),
                None => allocate_key("upload.jpg"),
            };
            store.ensure_root();
            match store.write(key.clone(), f.data) {
                Ok(()) => Ok(key),
                Err(_) => {
                    proof {
                        assert(false);
                    }
                    Err(ServiceError::StorageFailure)
                },
            }
        },
    }
}

} // verus!
