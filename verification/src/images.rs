//! Trophy-image rules: the attachment metadata check made before anything
//! is downloaded, and the stored filename.

use vstd::prelude::*;

use crate::text::{
    ascii_lower, chars_eq, chars_to_string, push_signed_decimal, push_str,
    signed_decimal, split_once, split_once_spec, str_chars, to_ascii_lowercase, trim, trim_spec,
};
use crate::uuid_text::{hyphenated, uuid_to_string};

verus! {

/// Largest accepted image: 1,000,000 bytes (decimal megabyte).
pub const MAX_IMAGE_BYTES: u32 = 1_000_000;

/// Why an attachment was rejected before download.
#[derive(Debug, Clone, Copy, PartialEq, Eq, Structural)]
pub enum ImageError {
    /// Content type is not png/jpg/jpeg/gif.
    UnsupportedType,
    /// Declared size exceeds [`MAX_IMAGE_BYTES`].
    TooLarge,
}

/// The media type of a `Content-Type` value: the part before any `;`,
/// trimmed, ASCII-lowercased.
pub open spec fn media_type(content_type: Seq<char>) -> Seq<char> {
    let essence = match split_once_spec(content_type, ';') {
        Some((head, _)) => head,
        None => content_type,
    };
    trim_spec(essence).map_values(|c: char| ascii_lower(c))
}

/// The stored extension for an accepted media type.
pub open spec fn extension_for(media: Seq<char>) -> Option<Seq<char>> {
    if media == "image/png"@ {
        Some("png"@)
    } else if media == "image/jpeg"@ || media == "image/jpg"@ {
        Some("jpg"@)
    } else if media == "image/gif"@ {
        Some("gif"@)
    } else {
        None
    }
}

/// The outcome of the metadata check: the type first, then the size.
pub open spec fn validate_spec(content_type: Option<Seq<char>>, size: u32) -> Result<Seq<char>, ImageError> {
    match content_type {
        None => Err(ImageError::UnsupportedType),
        Some(ct) => match extension_for(media_type(ct)) {
            None => Err(ImageError::UnsupportedType),
            Some(ext) => if size > MAX_IMAGE_BYTES {
                Err(ImageError::TooLarge)
            } else {
                Ok(ext)
            },
        },
    }
}

/// Validates attachment metadata and returns the canonical file extension.
/// The check uses the reported content type (not the filename) and the
/// declared byte size. Accepted: `image/png`, `image/jpeg` (and the
/// non-standard `image/jpg`), `image/gif`; parameters after `;` are ignored.
pub fn validate(content_type: Option<&str>, size: u32) -> (r: Result<&'static str, ImageError>)
    ensures
        match validate_spec(
            match content_type {
                Some(ct) => Some(ct@),
                None => None,
            },
            size,
        ) {
            Ok(ext) => r matches Ok(e) && e@ == ext,
            Err(err) => r == Err::<&'static str, ImageError>(err),
        },
{
    let ct = match content_type {
        Some(ct) => ct,
        None => return Err(ImageError::UnsupportedType),
    };
    let chars = str_chars(ct);
    let essence = match split_once(&chars, ';') {
        Some((head, _)) => head,
        None => chars,
    };
    let media = to_ascii_lowercase(&trim(&essence));
    let png = str_chars("image/png");
    let jpeg = str_chars("image/jpeg");
    let jpg = str_chars("image/jpg");
    let gif = str_chars("image/gif");
    let ext: &'static str = if chars_eq(&media, &png) {
        "png"
    } else if chars_eq(&media, &jpeg) || chars_eq(&media, &jpg) {
        "jpg"
    } else if chars_eq(&media, &gif) {
        "gif"
    } else {
        return Err(ImageError::UnsupportedType);
    };
    if size > MAX_IMAGE_BYTES {
        return Err(ImageError::TooLarge);
    }
    Ok(ext)
}

/// `{guild_id}_{trophy}.{ext}`.
pub open spec fn filename_spec(guild_id: i64, trophy_id: u128, ext: Seq<char>) -> Seq<char> {
    signed_decimal(guild_id as int) + seq!['_'] + hyphenated(trophy_id) + seq!['.'] + ext
}

/// Stored filename for a trophy image: `{guild_id}_{trophy_uuid}.{ext}`.
pub fn filename(guild_id: i64, trophy_id: u128, ext: &str) -> (f: String)
    ensures
        f@ == filename_spec(guild_id, trophy_id, ext@),
{
    let mut v: Vec<char> = Vec::new();
    push_signed_decimal(guild_id, &mut v);
    v.push('_');
    let id = uuid_to_string(trophy_id);
    push_str(&mut v, id.as_str());
    v.push('.');
    push_str(&mut v, ext);
    assert(v@ =~= filename_spec(guild_id, trophy_id, ext@));
    chars_to_string(&v)
}

} // verus!
