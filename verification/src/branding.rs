//! Branding: the logo and background images a deployment serves, and its
//! colour palette, both kept in the settings table.
use vstd::prelude::*;

use crate::error::{fails_with, owned, AppError, ErrorKind};
use crate::rooms::JsonField;
use crate::text::{append_str, str_eq};

verus! {

/// The two branding images.
#[derive(Clone, Copy, Debug, PartialEq, Eq, Structural)]
pub enum Asset {
    Logo,
    Bg,
}

pub open spec fn asset_name(a: Asset) -> Seq<char> {
    match a {
        Asset::Logo => "logo"@,
        Asset::Bg => "bg"@,
    }
}

impl Asset {
    pub fn as_str(&self) -> (s: &'static str)
        ensures
            s@ == asset_name(*self),
    {
        match self {
            Asset::Logo => "logo",
            Asset::Bg => "bg",
        }
    }
}

/// The asset a path segment names, if any.
pub fn parse_asset(name: &str) -> (res: Option<Asset>)
    ensures
        res == (if name@ == "logo"@ {
            Some(Asset::Logo)
        } else if name@ == "bg"@ {
            Some(Asset::Bg)
        } else {
            None
        }),
{
    if str_eq(name, "logo") {
        Some(Asset::Logo)
    } else if str_eq(name, "bg") {
        Some(Asset::Bg)
    } else {
        None
    }
}

/// The asset a public read asks for: 404 `Asset not found` for any other
/// name.
pub fn asset_to_serve(name: &str) -> (res: Result<Asset, AppError>)
    ensures
        match parse_asset_spec(name@) {
            Some(a) => res == Ok::<Asset, AppError>(a),
            None => fails_with(res, ErrorKind::NotFound, "Asset not found"@),
        },
{
    match parse_asset(name) {
        Some(a) => Ok(a),
        None => Err(AppError::new(ErrorKind::NotFound, "Asset not found")),
    }
}

/// The asset an admin upload or delete names: 400 `Invalid asset type` for
/// any other name.
pub fn asset_to_change(name: &str) -> (res: Result<Asset, AppError>)
    ensures
        match parse_asset_spec(name@) {
            Some(a) => res == Ok::<Asset, AppError>(a),
            None => fails_with(res, ErrorKind::BadRequest, "Invalid asset type"@),
        },
{
    match parse_asset(name) {
        Some(a) => Ok(a),
        None => Err(AppError::new(ErrorKind::BadRequest, "Invalid asset type")),
    }
}

pub open spec fn parse_asset_spec(name: Seq<char>) -> Option<Asset> {
    if name == "logo"@ {
        Some(Asset::Logo)
    } else if name == "bg"@ {
        Some(Asset::Bg)
    } else {
        None
    }
}

/// `<data_path>/branding/<asset>`: where an asset is stored.
pub fn asset_path(data_path: &str, asset: Asset) -> (res: String)
    ensures
        res@ == data_path@ + "/branding/"@ + asset_name(asset),
{
    let mut res = owned(data_path);
    append_str(&mut res, "/branding/");
    append_str(&mut res, asset.as_str());
    res
}

/// `<asset>_mime`: the settings key an asset's content type is kept under.
pub fn asset_mime_key(asset: Asset) -> (res: String)
    ensures
        res@ == asset_name(asset) + "_mime"@,
{
    let mut res = owned(asset.as_str());
    append_str(&mut res, "_mime");
    res
}

/// Whether an upload's content type is allowed for the asset: the logo
/// must be a PNG, the background a JPEG. SVG and HTML are never served back
/// as branding, since they could run script in the site's origin.
pub open spec fn mime_allowed(asset: Asset, mime: Seq<char>) -> bool {
    match asset {
        Asset::Logo => mime == "image/png"@,
        Asset::Bg => mime == "image/jpeg"@ || mime == "image/jpg"@,
    }
}

/// The content type an asset upload is stored with (its declared type,
/// `application/octet-stream` when none is declared), or 400 `Logo must be
/// a PNG` / `Background must be a JPEG` when that type is not allowed.
pub fn accepted_upload_mime(asset: Asset, content_type: Option<&str>) -> (res: Result<
    String,
    AppError,
>)
    ensures
        ({
            let m = match content_type {
                Some(c) => c@,
                None => "application/octet-stream"@,
            };
            &&& mime_allowed(asset, m) ==> (res matches Ok(s) && s@ == m)
            &&& !mime_allowed(asset, m) ==> fails_with(
                res,
                ErrorKind::BadRequest,
                match asset {
                    Asset::Logo => "Logo must be a PNG"@,
                    Asset::Bg => "Background must be a JPEG"@,
                },
            )
        }),
{
    let mime = match content_type {
        Some(c) => owned(c),
        None => owned("application/octet-stream"),
    };
    let allowed = match asset {
        Asset::Logo => str_eq(mime.as_str(), "image/png"),
        Asset::Bg => str_eq(mime.as_str(), "image/jpeg") || str_eq(mime.as_str(), "image/jpg"),
    };
    if !allowed {
        return Err(
            match asset {
                Asset::Logo => AppError::new(ErrorKind::BadRequest, "Logo must be a PNG"),
                Asset::Bg => AppError::new(ErrorKind::BadRequest, "Background must be a JPEG"),
            },
        );
    }
    Ok(mime)
}

/// The content type an asset is served with: the stored one, else
/// `application/octet-stream`.
pub fn served_mime(stored: Option<String>) -> (res: String)
    ensures
        res@ == match stored {
            Some(s) => s@,
            None => "application/octet-stream"@,
        },
{
    match stored {
        Some(s) => s,
        None => owned("application/octet-stream"),
    }
}

/// The palette's settings keys, in the order they are read and written.
pub fn color_keys() -> (res: Vec<&'static str>)
    ensures
        res@.len() == 6,
        res@[0]@ == "color_accent"@,
        res@[1]@ == "color_bg"@,
        res@[2]@ == "color_surface"@,
        res@[3]@ == "color_text"@,
        res@[4]@ == "color_danger"@,
        res@[5]@ == "color_green"@,
{
    let mut v: Vec<&'static str> = Vec::new();
    v.push("color_accent");
    v.push("color_bg");
    v.push("color_surface");
    v.push("color_text");
    v.push("color_danger");
    v.push("color_green");
    v
}

/// A change to one setting.
#[derive(Clone, Debug)]
pub enum SettingWrite {
    Delete,
    Put(String),
}

/// What saving the palette does with one colour of the request body: a
/// string sets it, an empty string deletes it, anything else leaves it.
pub fn color_write(field: &JsonField) -> (res: Option<SettingWrite>)
    ensures
        match field {
            JsonField::Text(v) => if v@.len() == 0 {
                res matches Some(SettingWrite::Delete)
            } else {
                res matches Some(SettingWrite::Put(w)) && w@ == v@
            },
            _ => res is None,
        },
{
    match field {
        JsonField::Text(v) => if v.as_str().is_empty() {
            Some(SettingWrite::Delete)
        } else {
            Some(SettingWrite::Put(v.clone()))
        },
        _ => None,
    }
}

} // verus!
