use imagestore::compress::{rgb_buffer_len, scale_rgb, store_reencoded, REENCODE_DIM};
use imagestore::error::{InputFault, ServiceError};
use imagestore::ingest::{ingest, validate_field, UploadField};
use imagestore::media::{content_type_for, retrieve};
use imagestore::store::{check_key, str_eq, Store};

fn jpeg_field(name: Option<&str>, bytes: &[u8]) -> UploadField {
    UploadField {
        filename: name.map(|s| s.to_string()),
        content_type: Some("image/jpeg".to_string()),
        data: bytes.to_vec(),
    }
}

fn assert_uuid_prefix(key: &str) {
    let chars: Vec<char> = key.chars().collect();
    assert!(chars.len() > 37);
    for (i, c) in chars.iter().take(36).enumerate() {
        if i == 8 || i == 13 || i == 18 || i == 23 {
            assert_eq!(*c, '-');
        } else {
            assert!(c.is_ascii_hexdigit() && !c.is_ascii_uppercase(), "bad uuid char {c}");
        }
    }
    assert_eq!(chars[36], '_');
}

#[test]
fn accepted_upload_round_trips() {
    let mut store = Store::new();
    let payload = b"\xFF\xD8\xFF\xE0fake jpeg body";
    let r = ingest(&mut store, Some(jpeg_field(Some("cat.jpg"), payload)));
    let key = r.expect("accepted upload must succeed");
    assert_uuid_prefix(&key);
    assert!(key.ends_with("_cat.jpg"));
    let got = retrieve(&store, &key).expect("fresh key must resolve");
    assert_eq!(got.data.as_slice(), payload);
    assert_eq!(got.content_type, "image/jpeg");
}

#[test]
fn wrong_media_type_is_rejected_and_stores_nothing() {
    let mut store = Store::new();
    let field = UploadField {
        filename: Some("cat.png".to_string()),
        content_type: Some("image/png".to_string()),
        data: vec![1, 2, 3],
    };
    match ingest(&mut store, Some(field)) {
        Err(ServiceError::UnsupportedMedia(t)) => {
            assert_eq!(t, "image/png");
            assert_eq!(ServiceError::UnsupportedMedia(t.clone()).status_code(), 415);
            assert_eq!(
                ServiceError::UnsupportedMedia(t).message(),
                "Only JPEG images are supported, you sent me: image/png"
            );
        }
        other => panic!("expected UnsupportedMedia, got {other:?}"),
    }
    assert!(store.list().is_empty());
}

#[test]
fn missing_content_type_is_rejected_and_stores_nothing() {
    let mut store = Store::new();
    let field = UploadField {
        filename: Some("cat.jpg".to_string()),
        content_type: None,
        data: vec![1, 2, 3],
    };
    match ingest(&mut store, Some(field)) {
        Err(ServiceError::InvalidInput(InputFault::MissingContentType)) => {}
        other => panic!("expected InvalidInput, got {other:?}"),
    }
    assert_eq!(
        ServiceError::InvalidInput(InputFault::MissingContentType).status_code(),
        400
    );
    assert_eq!(
        ServiceError::InvalidInput(InputFault::MissingContentType).message(),
        "Missing content type"
    );
    assert!(store.list().is_empty());
}

#[test]
fn missing_file_field_is_rejected() {
    let mut store = Store::new();
    match ingest(&mut store, None) {
        Err(ServiceError::InvalidInput(InputFault::NoFileField)) => {}
        other => panic!("expected InvalidInput, got {other:?}"),
    }
    assert_eq!(
        ServiceError::InvalidInput(InputFault::NoFileField).message(),
        "No file field found in multipart body"
    );
    assert!(store.list().is_empty());
}

#[test]
fn validate_field_accepts_only_declared_jpeg() {
    assert!(matches!(
        validate_field(&None),
        Err(ServiceError::InvalidInput(InputFault::NoFileField))
    ));
    assert!(validate_field(&Some(jpeg_field(None, b"x"))).is_ok());
    let odd = UploadField {
        filename: None,
        content_type: Some("IMAGE/JPEG".to_string()),
        data: vec![],
    };
    assert!(matches!(
        validate_field(&Some(odd)),
        Err(ServiceError::UnsupportedMedia(t)) if t == "IMAGE/JPEG"
    ));
}

#[test]
fn traversal_filename_is_confined_to_the_root() {
    let mut store = Store::new();
    let key = ingest(
        &mut store,
        Some(jpeg_field(Some("../../etc/passwd"), b"boo")),
    )
    .expect("accepted upload must succeed");
    assert!(!key.contains('/'));
    assert!(!key.contains('\\'));
    assert!(!key.starts_with('.'));
    assert!(check_key(&key));
    let got = retrieve(&store, &key).expect("confined key must resolve");
    assert_eq!(got.data.as_slice(), b"boo");
    assert!(store.remove(&key).is_ok());
}

#[test]
fn traversal_keys_are_rejected_on_read_and_delete() {
    let mut store = Store::new();
    ingest(&mut store, Some(jpeg_field(Some("a.jpg"), b"x"))).unwrap();
    for bad in ["../a.jpg", "..", ".hidden", "a/b.jpg", "a\\b.jpg", ""] {
        assert!(!check_key(bad), "{bad:?} must fail the traversal rules");
        assert!(matches!(retrieve(&store, bad), Err(ServiceError::NotFound)));
        assert!(matches!(store.remove(bad), Err(ServiceError::NotFound)));
    }
}

#[test]
fn sanitizer_output_reaches_the_key() {
    let mut store = Store::new();
    // The off-the-shelf sanitizer removes '?', which the verified cleaning
    // pass alone would keep.
    let key = ingest(&mut store, Some(jpeg_field(Some("a?b.jpg"), b"x"))).unwrap();
    assert!(key.ends_with("_ab.jpg"), "got {key}");
}

#[test]
fn missing_filename_falls_back_to_default() {
    let mut store = Store::new();
    let key = ingest(&mut store, Some(jpeg_field(None, b"x"))).unwrap();
    assert!(key.ends_with("_upload.jpg"));
}

#[test]
fn long_filenames_are_truncated() {
    let mut store = Store::new();
    let long = "x".repeat(500);
    let key = ingest(&mut store, Some(jpeg_field(Some(&long), b"x"))).unwrap();
    assert_eq!(key.chars().count(), 36 + 1 + 120);
}

#[test]
fn distinct_uploads_get_distinct_keys_and_do_not_mix() {
    let mut store = Store::new();
    let payloads: Vec<Vec<u8>> = (0u8..8).map(|i| vec![i; 4]).collect();
    let mut keys = Vec::new();
    for p in &payloads {
        keys.push(ingest(&mut store, Some(jpeg_field(Some("img.jpg"), p))).unwrap());
    }
    for i in 0..keys.len() {
        for j in 0..keys.len() {
            if i != j {
                assert_ne!(keys[i], keys[j], "keys must be distinct");
            }
        }
    }
    for (k, p) in keys.iter().zip(payloads.iter()) {
        assert_eq!(retrieve(&store, k).unwrap().data, p);
    }
    assert_eq!(store.list().len(), keys.len());
}

#[test]
fn absent_key_reads_and_deletes_as_not_found() {
    let mut store = Store::new();
    let e = retrieve(&store, "0123_never-written.jpg").unwrap_err();
    assert!(matches!(e, ServiceError::NotFound));
    assert_eq!(e.status_code(), 404);
    assert_eq!(e.message(), "No such image");
    assert!(matches!(
        store.remove("0123_never-written.jpg"),
        Err(ServiceError::NotFound)
    ));
}

#[test]
fn deletion_removes_the_key_everywhere() {
    let mut store = Store::new();
    let key = ingest(&mut store, Some(jpeg_field(Some("gone.jpg"), b"x"))).unwrap();
    let other = ingest(&mut store, Some(jpeg_field(Some("kept.jpg"), b"y"))).unwrap();
    assert!(store.remove(&key).is_ok());
    assert!(matches!(retrieve(&store, &key), Err(ServiceError::NotFound)));
    let listing = store.list();
    assert!(!listing.contains(&key));
    assert!(listing.contains(&other));
}

#[test]
fn deleting_twice_succeeds_once_then_reports_not_found() {
    let mut store = Store::new();
    let key = ingest(&mut store, Some(jpeg_field(Some("twice.jpg"), b"x"))).unwrap();
    assert!(store.remove(&key).is_ok());
    assert!(matches!(store.remove(&key), Err(ServiceError::NotFound)));
    assert!(matches!(store.remove(&key), Err(ServiceError::NotFound)));
}

#[test]
fn content_type_follows_the_extension_table() {
    assert_eq!(content_type_for("a.jpg"), "image/jpeg");
    assert_eq!(content_type_for("a.b.jpeg"), "image/jpeg");
    assert_eq!(content_type_for("a.png"), "image/png");
    assert_eq!(content_type_for("a.gif"), "image/gif");
    assert_eq!(content_type_for("a.txt"), "application/octet-stream");
    assert_eq!(content_type_for("noext"), "application/octet-stream");
    assert_eq!(content_type_for("trailing."), "application/octet-stream");
    assert_eq!(content_type_for("a.JPG"), "application/octet-stream");
}

#[test]
fn write_fails_cleanly_before_the_root_is_ensured() {
    let mut store = Store::new();
    let r = store.write("0123_a.jpg".to_string(), vec![1]);
    assert!(matches!(r, Err(ServiceError::StorageFailure)));
    assert_eq!(ServiceError::StorageFailure.status_code(), 500);
    assert!(store.list().is_empty());
}

#[test]
fn write_rejects_traversal_keys() {
    let mut store = Store::new();
    store.ensure_root();
    let r = store.write("../escape".to_string(), vec![1]);
    assert!(matches!(r, Err(ServiceError::StorageFailure)));
    assert!(store.list().is_empty());
}

#[test]
fn overwrite_replaces_the_bytes() {
    let mut store = Store::new();
    store.ensure_root();
    store.write("0123_a.jpg".to_string(), vec![1, 2]).unwrap();
    store.write("0123_a.jpg".to_string(), vec![3]).unwrap();
    assert_eq!(store.open("0123_a.jpg").unwrap(), &vec![3]);
    assert_eq!(store.list().len(), 1);
}

#[test]
fn str_eq_compares_by_characters() {
    assert!(str_eq("image/jpeg", "image/jpeg"));
    assert!(!str_eq("image/jpeg", "image/jpg"));
    assert!(!str_eq("", "a"));
    assert!(str_eq("", ""));
}

#[test]
fn rgb_buffer_len_matches_the_fixed_dimension() {
    assert_eq!(rgb_buffer_len(REENCODE_DIM), Some(40 * 40 * 3));
    assert_eq!(rgb_buffer_len(1), Some(3));
    assert_eq!(rgb_buffer_len(usize::MAX), None);
}

#[test]
fn scaling_down_picks_nearest_source_pixels() {
    // A 2x2 image with four distinct pixels, scaled to 1x1: nearest
    // neighbour keeps the top-left pixel.
    let pixels: Vec<u8> = vec![
        10, 11, 12, 20, 21, 22, //
        30, 31, 32, 40, 41, 42,
    ];
    let out = scale_rgb(&pixels, 2, 2, 1);
    assert_eq!(out, vec![10, 11, 12]);
}

#[test]
fn scaling_up_replicates_source_pixels() {
    let pixels: Vec<u8> = vec![7, 8, 9];
    let out = scale_rgb(&pixels, 1, 1, 2);
    assert_eq!(out, vec![7, 8, 9, 7, 8, 9, 7, 8, 9, 7, 8, 9]);
}

#[test]
fn scaling_to_the_fixed_dimension_has_the_expected_size() {
    let pixels: Vec<u8> = vec![5; 3 * 2 * 3];
    let out = scale_rgb(&pixels, 3, 2, REENCODE_DIM);
    assert_eq!(out.len(), 40 * 40 * 3);
    assert!(out.iter().all(|b| *b == 5));
}

#[test]
fn reencode_fault_is_isolated_as_compression_failure() {
    let mut store = Store::new();
    let r = store_reencoded(&mut store, &Some("cat.jpg".to_string()), None);
    match r {
        Err(e @ ServiceError::CompressionFailure) => {
            assert_eq!(e.status_code(), 500);
            assert_eq!(e.message(), "Image compression failed");
        }
        other => panic!("expected CompressionFailure, got {other:?}"),
    }
    assert!(store.list().is_empty());
}

#[test]
fn reencoded_bytes_are_persisted_like_an_upload() {
    let mut store = Store::new();
    let key = store_reencoded(&mut store, &Some("cat.jpg".to_string()), Some(vec![9, 9]))
        .expect("re-encoded bytes must persist");
    assert_uuid_prefix(&key);
    assert!(key.ends_with("_cat.jpg"));
    assert_eq!(retrieve(&store, &key).unwrap().data, &vec![9, 9]);
}

#[test]
fn leading_dots_are_stripped_from_the_name() {
    let mut store = Store::new();
    let key = ingest(&mut store, Some(jpeg_field(Some(".hidden.jpg"), b"x"))).unwrap();
    assert!(key.ends_with("_hidden.jpg"), "got {key}");
    assert!(check_key(&key));
}

#[test]
fn empty_filename_still_yields_a_safe_key() {
    let mut store = Store::new();
    let key = ingest(&mut store, Some(jpeg_field(Some(""), b"x"))).unwrap();
    assert_eq!(key.chars().count(), 37);
    assert!(key.ends_with('_'));
    assert!(check_key(&key));
    assert_eq!(retrieve(&store, &key).unwrap().content_type, "application/octet-stream");
}

#[test]
fn dots_only_filename_yields_a_safe_key() {
    let mut store = Store::new();
    let key = ingest(&mut store, Some(jpeg_field(Some("..."), b"x"))).unwrap();
    assert!(check_key(&key));
    assert!(!key[37..].contains('.'), "got {key}");
    assert!(retrieve(&store, &key).is_ok());
}
