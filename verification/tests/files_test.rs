use stream_backend::files::{
    blob_path, content_disposition, extract_extension, inspect_upload, plan_fresh_upload, plan_upload,
    require_credentials, sanitize_mime, uploader_label, MAX_FILE_SIZE,
};

#[test]
fn extract_extension_normal_cases() {
    assert_eq!(extract_extension("photo.jpg"), ".jpg");
    assert_eq!(extract_extension("doc.pdf"), ".pdf");
    assert_eq!(extract_extension("archive.tar.gz"), ".gz");
    assert_eq!(extract_extension("noext"), "");
    assert_eq!(extract_extension(""), "");
    // Dotfile: the whole basename after the dot is treated as the ext.
    assert_eq!(extract_extension(".hidden"), ".hidden");
}

#[test]
fn extract_extension_rejects_path_traversal() {
    assert_eq!(extract_extension("evil.../../../../tmp/p"), "");
    assert_eq!(extract_extension("x.tar/../etc/passwd"), "");
    assert_eq!(extract_extension("y.a/b"), "");
    assert_eq!(extract_extension("z.a\\b"), "");
    assert_eq!(extract_extension("w..ext"), ".ext");
}

#[test]
fn extract_extension_caps_length_and_charset() {
    assert_eq!(extract_extension("a.abcdefghij"), ".abcdefghij");
    assert_eq!(extract_extension("a.abcdefghijk"), "");
    assert_eq!(extract_extension("a.exé"), "");
    assert_eq!(extract_extension("a.ex!"), "");
}

#[test]
fn sanitize_mime_drops_svg() {
    assert_eq!(sanitize_mime("image/svg+xml"), "application/octet-stream");
    assert_eq!(sanitize_mime("image/png"), "image/png");
    assert_eq!(sanitize_mime("text/html"), "application/octet-stream");
}

#[test]
fn sanitize_mime_keeps_every_allowlisted_type() {
    for m in [
        "image/jpeg",
        "image/gif",
        "image/webp",
        "image/avif",
        "video/mp4",
        "video/quicktime",
        "video/x-quicktime",
        "video/webm",
        "audio/mpeg",
        "audio/wav",
        "audio/ogg",
        "audio/flac",
        "application/pdf",
        "text/plain",
        "application/zip",
        "application/x-zip-compressed",
        "application/vnd.openxmlformats-officedocument.wordprocessingml.document",
        "application/vnd.openxmlformats-officedocument.spreadsheetml.sheet",
    ] {
        assert_eq!(sanitize_mime(m), m);
    }
    // Case and parameters matter: only the exact type is kept.
    assert_eq!(sanitize_mime("IMAGE/PNG"), "application/octet-stream");
    assert_eq!(sanitize_mime("text/plain; charset=utf-8"), "application/octet-stream");
}

#[test]
fn sanitize_mime_is_idempotent_on_examples() {
    for m in ["image/svg+xml", "image/png", "", "application/octet-stream"] {
        let once = sanitize_mime(m);
        assert_eq!(sanitize_mime(&once), once);
    }
}

#[test]
fn missing_credentials_are_unauthorized() {
    let e = require_credentials(None, Some("t".to_string())).unwrap_err();
    assert_eq!(e.status(), 401);
    assert_eq!(e.message, "Unauthorized");
    let e = require_credentials(Some("p".to_string()), None).unwrap_err();
    assert_eq!(e.status(), 401);
    let (p, t) = require_credentials(Some("p".to_string()), Some("t".to_string())).unwrap();
    assert_eq!((p.as_str(), t.as_str()), ("p", "t"));
}

#[test]
fn oversize_upload_is_rejected() {
    let data = vec![0u8; MAX_FILE_SIZE + 1];
    let e = inspect_upload(&data, Some("big.bin"), None).unwrap_err();
    assert_eq!(e.status(), 400);
    assert_eq!(e.message, "File too large (max 100MB)");
}

#[test]
fn upload_meta_defaults_and_hash() {
    let m = inspect_upload(b"abc", None, None).unwrap();
    assert_eq!(m.original_name, "upload");
    assert_eq!(m.mime, "application/octet-stream");
    assert_eq!(m.size, 3);
    assert_eq!(
        m.content_hash,
        "ba7816bf8f01cfea414140de5dae2223b00361a396177a9cb410ff61f20015ad"
    );
    let m = inspect_upload(b"", Some("pic.png"), Some("image/svg+xml")).unwrap();
    assert_eq!(m.original_name, "pic.png");
    assert_eq!(m.mime, "application/octet-stream");
    assert_eq!(
        m.content_hash,
        "e3b0c44298fc1c149afbf4c8996fb92427ae41e4649b934ca495991b7852b855"
    );
}

#[test]
fn plan_for_new_shared_upload() {
    let m = inspect_upload(b"abc", Some("clip.mov"), Some("video/quicktime")).unwrap();
    let p = plan_upload(&m, false, None, "id-1".to_string());
    assert_eq!(p.file_id, "id-1");
    assert_eq!(p.new_blob.as_deref(), Some("id-1.mov"));
    assert_eq!(p.stored_hash.as_deref(), Some(m.content_hash.as_str()));
    assert_eq!(p.is_shared, 1);
    assert!(p.announce);
}

#[test]
fn plan_for_dedup_hit_reuses_existing() {
    let m = inspect_upload(b"abc", Some("a.txt"), None).unwrap();
    let p = plan_upload(&m, false, Some("old".to_string()), "id-2".to_string());
    assert_eq!(p.file_id, "old");
    assert!(p.new_blob.is_none());
    assert!(p.announce);
}

#[test]
fn plan_for_draft_ignores_existing_and_hash() {
    let m = inspect_upload(b"abc", Some("noext"), None).unwrap();
    let p = plan_upload(&m, true, Some("old".to_string()), "id-3".to_string());
    assert_eq!(p.file_id, "id-3");
    assert_eq!(p.new_blob.as_deref(), Some("id-3"));
    assert!(p.stored_hash.is_none());
    assert_eq!(p.is_shared, 0);
    assert!(!p.announce);
}

#[test]
fn disposition_escapes_quotes() {
    assert_eq!(
        content_disposition("my \"best\" take.mp4"),
        "attachment; filename=\"my \\\"best\\\" take.mp4\""
    );
    assert_eq!(content_disposition("a.pdf"), "attachment; filename=\"a.pdf\"");
}

#[test]
fn paths_and_labels() {
    assert_eq!(blob_path("/data", "x.bin"), "/data/files/x.bin");
    let (n, r) = uploader_label(None, None);
    assert_eq!((n.as_str(), r.as_str()), ("Admin", "admin"));
    let (n, r) = uploader_label(Some("Ana".into()), Some("viewer".into()));
    assert_eq!((n.as_str(), r.as_str()), ("Ana", "viewer"));
}

fn is_uuid(s: &str) -> bool {
    s.len() == 36
        && s.char_indices().all(|(i, c)| {
            if [8, 13, 18, 23].contains(&i) {
                c == '-'
            } else {
                c.is_ascii_digit() || ('a'..='f').contains(&c)
            }
        })
}

#[test]
fn fresh_upload_gets_a_uuid_blob() {
    let m = inspect_upload(b"abc", Some("clip.mov"), None).unwrap();
    let p = plan_fresh_upload(&m, false, None);
    assert!(is_uuid(&p.file_id));
    assert_eq!(p.new_blob, Some(format!("{}.mov", p.file_id)));
    let q = plan_fresh_upload(&m, false, None);
    assert_ne!(p.file_id, q.file_id);
    let d = plan_fresh_upload(&m, false, Some("old".to_string()));
    assert_eq!(d.file_id, "old");
}
