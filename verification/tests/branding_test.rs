use stream_backend::branding::{
    accepted_upload_mime, asset_mime_key, asset_path, asset_to_change, asset_to_serve, color_keys,
    color_write, parse_asset, served_mime, Asset, SettingWrite,
};
use stream_backend::rooms::JsonField;

#[test]
fn branding_get_invalid_asset_404() {
    let e = asset_to_serve("invalid").unwrap_err();
    assert_eq!((e.status(), e.message.as_str()), (404, "Asset not found"));
    assert_eq!(asset_to_serve("logo").unwrap(), Asset::Logo);
    assert_eq!(asset_to_serve("bg").unwrap(), Asset::Bg);
}

#[test]
fn branding_delete_invalid_asset_with_auth() {
    let e = asset_to_change("invalid").unwrap_err();
    assert_eq!((e.status(), e.message.as_str()), (400, "Invalid asset type"));
    assert_eq!(asset_to_change("bg").unwrap(), Asset::Bg);
    assert_eq!(parse_asset("LOGO"), None);
}

#[test]
fn asset_locations_and_keys() {
    assert_eq!(asset_path("/data", Asset::Logo), "/data/branding/logo");
    assert_eq!(asset_path("/data", Asset::Bg), "/data/branding/bg");
    assert_eq!(asset_mime_key(Asset::Logo), "logo_mime");
    assert_eq!(asset_mime_key(Asset::Bg), "bg_mime");
}

#[test]
fn uploads_must_be_png_logo_or_jpeg_background() {
    assert_eq!(accepted_upload_mime(Asset::Logo, Some("image/png")).unwrap(), "image/png");
    let e = accepted_upload_mime(Asset::Logo, Some("image/svg+xml")).unwrap_err();
    assert_eq!((e.status(), e.message.as_str()), (400, "Logo must be a PNG"));
    let e = accepted_upload_mime(Asset::Logo, None).unwrap_err();
    assert_eq!(e.message, "Logo must be a PNG");
    assert_eq!(accepted_upload_mime(Asset::Bg, Some("image/jpeg")).unwrap(), "image/jpeg");
    assert_eq!(accepted_upload_mime(Asset::Bg, Some("image/jpg")).unwrap(), "image/jpg");
    let e = accepted_upload_mime(Asset::Bg, Some("text/html")).unwrap_err();
    assert_eq!(e.message, "Background must be a JPEG");
}

#[test]
fn served_type_defaults_to_octet_stream() {
    assert_eq!(served_mime(Some("image/png".to_string())), "image/png");
    assert_eq!(served_mime(None), "application/octet-stream");
}

#[test]
fn palette_writes() {
    assert_eq!(
        color_keys(),
        vec!["color_accent", "color_bg", "color_surface", "color_text", "color_danger", "color_green"]
    );
    assert!(matches!(color_write(&JsonField::Text("#fff".to_string())), Some(SettingWrite::Put(v)) if v == "#fff"));
    assert!(matches!(color_write(&JsonField::Text(String::new())), Some(SettingWrite::Delete)));
    assert!(color_write(&JsonField::Null).is_none());
    assert!(color_write(&JsonField::Absent).is_none());
    assert!(color_write(&JsonField::Other).is_none());
}
