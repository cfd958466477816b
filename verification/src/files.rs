//! Participant file sharing: what an upload is stored and announced as, the
//! MIME allowlist, the path-safe blob extension and the download headers.
use sha2::{Digest, Sha256};
use vstd::prelude::*;

use crate::error::{fails_with, is_error, owned, AppError, ErrorKind};
use crate::ids::{is_uuid_text, new_uuid};
use crate::text::{
    append_chars, append_str, chars_of, is_ascii_alnum, is_ascii_alnum_char, last_index_of,
    lemma_last_index_of, push_char, rfind_char, str_eq,
};

verus! {

/// The largest upload accepted, in bytes (100 MB).
pub const MAX_FILE_SIZE: usize = 104857600;

// ---------------------------------------------------------------------------
// MIME allowlist
// ---------------------------------------------------------------------------

/// The MIME types an upload keeps. `image/svg+xml` is deliberately absent:
/// an SVG served inline runs its embedded scripts.
pub open spec fn safe_mime(m: Seq<char>) -> bool {
    ||| m == "image/jpeg"@
    ||| m == "image/png"@
    ||| m == "image/gif"@
    ||| m == "image/webp"@
    ||| m == "image/avif"@
    ||| m == "video/mp4"@
    ||| m == "video/quicktime"@
    ||| m == "video/x-quicktime"@
    ||| m == "video/webm"@
    ||| m == "audio/mpeg"@
    ||| m == "audio/wav"@
    ||| m == "audio/ogg"@
    ||| m == "audio/flac"@
    ||| m == "application/pdf"@
    ||| m == "text/plain"@
    ||| m == "application/zip"@
    ||| m == "application/x-zip-compressed"@
    ||| m == "application/vnd.openxmlformats-officedocument.wordprocessingml.document"@
    ||| m == "application/vnd.openxmlformats-officedocument.spreadsheetml.sheet"@
}

/// What `sanitize_mime` turns a declared MIME type into.
pub open spec fn sanitized_mime(m: Seq<char>) -> Seq<char> {
    if safe_mime(m) {
        m
    } else {
        "application/octet-stream"@
    }
}

pub fn is_safe_mime(m: &str) -> (res: bool)
    ensures
        res == safe_mime(m@),
{
    str_eq(m, "image/jpeg") || str_eq(m, "image/png") || str_eq(m, "image/gif") || str_eq(
        m,
        "image/webp",
    ) || str_eq(m, "image/avif") || str_eq(m, "video/mp4") || str_eq(m, "video/quicktime")
        || str_eq(m, "video/x-quicktime") || str_eq(m, "video/webm") || str_eq(m, "audio/mpeg")
        || str_eq(m, "audio/wav") || str_eq(m, "audio/ogg") || str_eq(m, "audio/flac") || str_eq(
        m,
        "application/pdf",
    ) || str_eq(m, "text/plain") || str_eq(m, "application/zip") || str_eq(
        m,
        "application/x-zip-compressed",
    ) || str_eq(m, "application/vnd.openxmlformats-officedocument.wordprocessingml.document")
        || str_eq(m, "application/vnd.openxmlformats-officedocument.spreadsheetml.sheet")
}

/// Keeps an allowlisted MIME type and turns every other one into
/// `application/octet-stream`.
pub fn sanitize_mime(mime: &str) -> (res: String)
    ensures
        res@ == sanitized_mime(mime@),
{
    if is_safe_mime(mime) {
        owned(mime)
    } else {
        owned("application/octet-stream")
    }
}

/// Whatever comes in, the stored type is on the allowlist or is
/// `application/octet-stream`, and sanitising it again changes nothing.
pub proof fn sanitize_mime_is_closed(m: Seq<char>)
    ensures
        safe_mime(sanitized_mime(m)) || sanitized_mime(m) == "application/octet-stream"@,
        sanitized_mime(sanitized_mime(m)) == sanitized_mime(m),
        sanitized_mime(m) != "image/svg+xml"@,
{
    reveal_strlit("application/octet-stream");
    reveal_strlit("image/svg+xml");
    reveal_strlit("image/jpeg");
    reveal_strlit("image/png");
    reveal_strlit("image/gif");
    reveal_strlit("image/webp");
    reveal_strlit("image/avif");
    reveal_strlit("video/mp4");
    reveal_strlit("video/quicktime");
    reveal_strlit("video/x-quicktime");
    reveal_strlit("video/webm");
    reveal_strlit("audio/mpeg");
    reveal_strlit("audio/wav");
    reveal_strlit("audio/ogg");
    reveal_strlit("audio/flac");
    reveal_strlit("application/pdf");
    reveal_strlit("text/plain");
    reveal_strlit("application/zip");
    reveal_strlit("application/x-zip-compressed");
    reveal_strlit("application/vnd.openxmlformats-officedocument.wordprocessingml.document");
    reveal_strlit("application/vnd.openxmlformats-officedocument.spreadsheetml.sheet");
}

// ---------------------------------------------------------------------------
// Blob extension
// ---------------------------------------------------------------------------

/// The `.ext` suffix kept for a stored blob: the text after the last `'.'`
/// of the name, when it is 1 to 10 ASCII letters or digits; empty otherwise.
pub open spec fn extension_of(name: Seq<char>) -> Seq<char> {
    match last_index_of(name, '.') {
        None => Seq::<char>::empty(),
        Some(i) => {
            let e = name.subrange(i + 1, name.len() as int);
            if 0 < e.len() <= 10 && forall|k: int| 0 <= k < e.len() ==> is_ascii_alnum(#[trigger] e[k]) {
                seq!['.'] + e
            } else {
                Seq::<char>::empty()
            }
        },
    }
}

/// Derives a `.ext` suffix (leading dot included) from a filename, or `""`
/// when the filename has no usable extension. The result goes straight into
/// an on-disk path, so it is empty or a dot followed by 1 to 10 ASCII
/// letters and digits: never a separator or another dot.
pub fn extract_extension(name: &str) -> (res: String)
    ensures
        res@ == extension_of(name@),
        res@.len() == 0 || (2 <= res@.len() <= 11 && res@[0] == '.' && forall|k: int|
            1 <= k < res@.len() ==> is_ascii_alnum(#[trigger] res@[k])),
        res@.len() > 0 ==> name@.len() >= res@.len() && name@.subrange(
            name@.len() - res@.len(),
            name@.len() as int,
        ) == res@,
{
    let cs = chars_of(name);
    proof {
        lemma_last_index_of(cs@, '.');
    }
    let dot = match rfind_char(&cs, '.') {
        None => return String::new(),
        Some(i) => i,
    };
    let len = cs.len();
    let n = len - dot - 1;
    if n == 0 || n > 10 {
        return String::new();
    }
    let ghost e = cs@.subrange(dot + 1, len as int);
    let mut i = dot + 1;
    while i < len
        invariant
            dot + 1 <= i <= len == cs@.len(),
            cs@ == name@,
            last_index_of(name@, '.') == Some(dot as int),
            0 < len - dot - 1 <= 10,
            e == cs@.subrange(dot + 1, len as int),
            forall|k: int| 0 <= k < i - dot - 1 ==> is_ascii_alnum(#[trigger] e[k]),
        decreases len - i,
    {
        if !is_ascii_alnum_char(cs[i]) {
            assert(!is_ascii_alnum(e[i - dot - 1]));
            return String::new();
        }
        i += 1;
    }
    let mut res = String::new();
    push_char(&mut res, '.');
    let mut j = dot + 1;
    while j < len
        invariant
            dot + 1 <= j <= len == cs@.len(),
            res@ == seq!['.'] + cs@.subrange(dot + 1, j as int),
        decreases len - j,
    {
        push_char(&mut res, cs[j]);
        assert(seq!['.'] + cs@.subrange(dot + 1, j + 1) =~= (seq!['.'] + cs@.subrange(
            dot + 1,
            j as int,
        )).push(cs@[j as int]));
        j += 1;
    }
    assert(res@ =~= seq!['.'] + e);
    assert(name@.subrange(name@.len() - res@.len(), name@.len() as int) =~= res@);
    res
}

// ---------------------------------------------------------------------------
// Participant credentials
// ---------------------------------------------------------------------------

/// Both halves of a participant's credentials must be present; either one
/// missing answers 401 `Unauthorized`.
pub fn require_credentials(participant_id: Option<String>, token: Option<String>) -> (res: Result<
    (String, String),
    AppError,
>)
    ensures
        participant_id is Some && token is Some ==> res == Ok::<(String, String), AppError>(
            (participant_id->0, token->0),
        ),
        participant_id is None || token is None ==> fails_with(
            res,
            ErrorKind::Unauthorized,
            "Unauthorized"@,
        ),
{
    match (participant_id, token) {
        (Some(p), Some(t)) => Ok((p, t)),
        _ => Err(AppError::new(ErrorKind::Unauthorized, "Unauthorized")),
    }
}

/// A participant whose credentials checked out: admitted, not kicked, in
/// the room of the request.
#[derive(Clone, Debug)]
pub struct ParticipantInfo {
    pub id: String,
    pub name: String,
    pub role: String,
    pub room_id: String,
    pub slug: String,
}

/// A file request's participant: 401 `Unauthorized` when the credentials
/// match no admitted, unkicked participant of the room.
pub fn validate_participant(row: Option<ParticipantInfo>) -> (res: Result<ParticipantInfo, AppError>)
    ensures
        row is None ==> fails_with(res, ErrorKind::Unauthorized, "Unauthorized"@),
        row matches Some(p) ==> res == Ok::<ParticipantInfo, AppError>(p),
{
    match row {
        Some(p) => Ok(p),
        None => Err(AppError::new(ErrorKind::Unauthorized, "Unauthorized")),
    }
}

/// A stored file the request may read: 404 `File not found` when it is
/// neither in the participant's room nor assigned to it.
pub fn require_file<F>(row: Option<F>) -> (res: Result<F, AppError>)
    ensures
        row is None ==> fails_with(res, ErrorKind::NotFound, "File not found"@),
        row matches Some(f) ==> res == Ok::<F, AppError>(f),
{
    match row {
        Some(f) => Ok(f),
        None => Err(AppError::new(ErrorKind::NotFound, "File not found")),
    }
}

// ---------------------------------------------------------------------------
// Uploads
// ---------------------------------------------------------------------------

/// Names the lowercase hexadecimal SHA-256 digest of `data`.
pub uninterp spec fn sha256_hex(data: Seq<u8>) -> Seq<char>;

/// `sha2::Sha256::digest` of `data`, rendered as lowercase hex. The contract
/// claims only that the text is the named digest of exactly these bytes.
#[verifier::external_body]
fn sha256_hex_of(data: &[u8]) -> (res: String)
    ensures
        res@ == sha256_hex(data@),
{
    format!("{:x}", Sha256::digest(data))
}

/// What the first part of a multipart upload is stored as, before any
/// database lookup.
#[derive(Clone, Debug)]
pub struct UploadMeta {
    pub original_name: String,
    pub mime: String,
    pub size: u64,
    pub content_hash: String,
}

/// The name an upload is stored under: its own, or `"upload"`.
pub open spec fn upload_name(file_name: Option<Seq<char>>) -> Seq<char> {
    match file_name {
        Some(n) => n,
        None => "upload"@,
    }
}

/// The declared content type, `application/octet-stream` when absent.
pub open spec fn declared_mime(content_type: Option<Seq<char>>) -> Seq<char> {
    match content_type {
        Some(m) => m,
        None => "application/octet-stream"@,
    }
}

pub open spec fn opt_view(o: Option<&str>) -> Option<Seq<char>> {
    match o {
        Some(s) => Some(s@),
        None => None,
    }
}

/// Checks an uploaded file's bytes and header fields: larger than
/// `MAX_FILE_SIZE` answers 400 `File too large (max 100MB)`; otherwise the
/// name, sanitised MIME type, size and content hash it is stored with.
pub fn inspect_upload(data: &[u8], file_name: Option<&str>, content_type: Option<&str>) -> (res:
    Result<UploadMeta, AppError>)
    ensures
        data@.len() > MAX_FILE_SIZE ==> fails_with(
            res,
            ErrorKind::BadRequest,
            "File too large (max 100MB)"@,
        ),
        data@.len() <= MAX_FILE_SIZE ==> (res matches Ok(m) && m.original_name@ == upload_name(
            opt_view(file_name),
        ) && m.mime@ == sanitized_mime(declared_mime(opt_view(content_type))) && m.size
            == data@.len() && m.content_hash@ == sha256_hex(data@)),
{
    if data.len() > MAX_FILE_SIZE {
        return Err(AppError::new(ErrorKind::BadRequest, "File too large (max 100MB)"));
    }
    let original_name = match file_name {
        Some(n) => owned(n),
        None => owned("upload"),
    };
    let mime = match content_type {
        Some(m) => sanitize_mime(m),
        None => sanitize_mime("application/octet-stream"),
    };
    let content_hash = sha256_hex_of(data);
    Ok(UploadMeta { original_name, mime, size: data.len() as u64, content_hash })
}

/// How an inspected upload is recorded.
#[derive(Clone, Debug)]
pub struct UploadPlan {
    /// The id the client gets back: an existing file's on a content match,
    /// else the fresh one.
    pub file_id: String,
    /// The blob to write and the row to insert, when the content is new:
    /// `<file_id><ext>`.
    pub new_blob: Option<String>,
    /// The content hash recorded on the new row; drafts record none, so
    /// they never clash with shared rows of the same content.
    pub stored_hash: Option<String>,
    /// `1` for a shared upload, `0` for a draft.
    pub is_shared: i64,
    /// Whether the upload is mirrored into the room's library and announced
    /// to the room (`file:shared`): shared uploads only.
    pub announce: bool,
}

/// Decides how an upload is recorded. `existing` is the id of a stored file
/// with the same content, looked up for shared uploads only; `new_id` is the
/// fresh id for a new row.
pub fn plan_upload(meta: &UploadMeta, defer: bool, existing: Option<String>, new_id: String) -> (res:
    UploadPlan)
    ensures
        res.is_shared == (if defer {
            0i64
        } else {
            1i64
        }),
        res.announce == !defer,
        res.stored_hash == (if defer {
            None::<String>
        } else {
            Some(meta.content_hash)
        }),
        (!defer && existing is Some) ==> res.file_id == existing->0 && res.new_blob is None,
        (defer || existing is None) ==> res.file_id == new_id,
        (defer || existing is None) ==> (res.new_blob matches Some(b) && b@ == new_id@
            + extension_of(meta.original_name@)),
{
    let stored_hash = if defer {
        None
    } else {
        Some(meta.content_hash.clone())
    };
    let is_shared: i64 = if defer {
        0
    } else {
        1
    };
    let hit = if defer {
        None
    } else {
        existing
    };
    match hit {
        Some(id) => UploadPlan { file_id: id, new_blob: None, stored_hash, is_shared, announce: !defer },
        None => {
            let ext = extract_extension(meta.original_name.as_str());
            let mut blob = new_id.clone();
            let ec = chars_of(ext.as_str());
            append_chars(&mut blob, &ec);
            UploadPlan { file_id: new_id, new_blob: Some(blob), stored_hash, is_shared, announce: !defer }
        },
    }
}

/// `plan_upload` with a fresh UUID for a file that gets a record of its own.
pub fn plan_fresh_upload(meta: &UploadMeta, defer: bool, existing: Option<String>) -> (res: UploadPlan)
    ensures
        res.is_shared == (if defer {
            0i64
        } else {
            1i64
        }),
        res.announce == !defer,
        res.stored_hash == (if defer {
            None::<String>
        } else {
            Some(meta.content_hash)
        }),
        (!defer && existing is Some) ==> res.file_id == existing->0 && res.new_blob is None,
        (defer || existing is None) ==> is_uuid_text(res.file_id@) && (res.new_blob matches Some(b)
            && b@ == res.file_id@ + extension_of(meta.original_name@)),
{
    plan_upload(meta, defer, existing, new_uuid())
}

/// `<data_path>/files/<stored_name>`: where a blob lives on disk.
pub fn blob_path(data_path: &str, stored_name: &str) -> (res: String)
    ensures
        res@ == data_path@ + "/files/"@ + stored_name@,
{
    let mut res = owned(data_path);
    append_str(&mut res, "/files/");
    append_str(&mut res, stored_name);
    res
}

// ---------------------------------------------------------------------------
// Listing and download
// ---------------------------------------------------------------------------

/// The uploader shown for a listed file: the participant's name and role,
/// or `Admin` / `admin` for library files that no participant uploaded.
pub fn uploader_label(name: Option<String>, role: Option<String>) -> (res: (String, String))
    ensures
        res.0@ == (match name {
            Some(n) => n@,
            None => "Admin"@,
        }),
        res.1@ == (match role {
            Some(r) => r@,
            None => "admin"@,
        }),
{
    let n = match name {
        Some(n) => n,
        None => owned("Admin"),
    };
    let r = match role {
        Some(r) => r,
        None => owned("admin"),
    };
    (n, r)
}

/// `s` with every `"` preceded by a backslash.
pub open spec fn escape_quotes(s: Seq<char>) -> Seq<char>
    decreases s.len(),
{
    if s.len() == 0 {
        Seq::<char>::empty()
    } else if s.last() == '"' {
        escape_quotes(s.drop_last()) + seq!['\\', '"']
    } else {
        escape_quotes(s.drop_last()).push(s.last())
    }
}

/// The `Content-Disposition` a download is served with: always an
/// attachment, so the browser never renders an upload inline.
pub fn content_disposition(original_name: &str) -> (res: String)
    ensures
        res@ == "attachment; filename=\""@ + escape_quotes(original_name@) + "\""@,
{
    let cs = chars_of(original_name);
    let mut res = owned("attachment; filename=\"");
    let ghost base = res@;
    for i in 0..cs.len()
        invariant
            res@ == base + escape_quotes(cs@.take(i as int)),
    {
        assert(cs@.take(i + 1).drop_last() == cs@.take(i as int));
        if cs[i] == '"' {
            push_char(&mut res, '\\');
            push_char(&mut res, '"');
            assert(base + escape_quotes(cs@.take(i as int)) + seq!['\\', '"'] =~= base
                + escape_quotes(cs@.take(i as int)).push('\\').push('"'));
        } else {
            push_char(&mut res, cs[i]);
        }
    }
    assert(cs@.take(cs@.len() as int) == cs@);
    append_str(&mut res, "\"");
    res
}

} // verus!
