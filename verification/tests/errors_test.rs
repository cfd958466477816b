use stream_backend::error::{AppError, ErrorKind};
use stream_backend::files::{
    blob_path, require_file, validate_participant, ParticipantInfo,
};

#[test]
fn each_kind_has_its_status() {
    let cases = [
        (ErrorKind::BadRequest, 400),
        (ErrorKind::Unauthorized, 401),
        (ErrorKind::Forbidden, 403),
        (ErrorKind::NotFound, 404),
        (ErrorKind::Gone, 410),
        (ErrorKind::Internal, 500),
        (ErrorKind::BadGateway, 502),
    ];
    for (kind, code) in cases {
        assert_eq!(AppError::new(kind, "m").status(), code);
    }
}

#[test]
fn internal_details_stay_private() {
    assert_eq!(AppError::new(ErrorKind::Internal, "db broke").public_message(), "Internal server error");
    assert_eq!(
        AppError::new(ErrorKind::BadGateway, "OME down").public_message(),
        "Upstream service unavailable"
    );
    assert_eq!(AppError::new(ErrorKind::Forbidden, "Wrong password").public_message(), "Wrong password");
}

#[test]
fn files_list_returns_401_for_kicked_participant() {
    // A kicked or unadmitted participant matches no row.
    let e = validate_participant(None).unwrap_err();
    assert_eq!((e.status(), e.message.as_str()), (401, "Unauthorized"));
    let p = ParticipantInfo {
        id: "p".into(),
        name: "n".into(),
        role: "viewer".into(),
        room_id: "r".into(),
        slug: "s".into(),
    };
    assert_eq!(validate_participant(Some(p)).unwrap().room_id, "r");
}

#[test]
fn files_download_returns_404_nonexistent_file() {
    let e = require_file::<(String, String)>(None).unwrap_err();
    assert_eq!((e.status(), e.message.as_str()), (404, "File not found"));
    assert_eq!(require_file(Some(3)).unwrap(), 3);
}

#[test]
fn cleanup_paths() {
    // The cleanup removes a file's blob where the upload stored it.
    assert_eq!(blob_path("/data", "fid.bin"), "/data/files/fid.bin");
}
