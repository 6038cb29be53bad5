use trophy_bot::images::{filename, validate, ImageError, MAX_IMAGE_BYTES};
use uuid::Uuid;

#[test]
fn validate_accepts_supported_content_types() {
    assert_eq!(validate(Some("image/png"), 1), Ok("png"));
    assert_eq!(validate(Some("image/jpeg"), 1), Ok("jpg"));
    assert_eq!(validate(Some("image/jpg"), 1), Ok("jpg"));
    assert_eq!(validate(Some("image/gif"), 1), Ok("gif"));
}

#[test]
fn validate_is_case_insensitive_and_ignores_parameters() {
    assert_eq!(validate(Some("IMAGE/PNG"), 1), Ok("png"));
    assert_eq!(validate(Some("image/gif; charset=binary"), 1), Ok("gif"));
    assert_eq!(validate(Some(" image/jpeg "), 1), Ok("jpg"));
}

#[test]
fn validate_rejects_unsupported_or_missing_content_types() {
    assert_eq!(validate(Some("image/webp"), 1), Err(ImageError::UnsupportedType));
    assert_eq!(validate(Some("text/html"), 1), Err(ImageError::UnsupportedType));
    assert_eq!(validate(Some("application/octet-stream"), 1), Err(ImageError::UnsupportedType));
    assert_eq!(validate(None, 1), Err(ImageError::UnsupportedType));
}

#[test]
fn validate_enforces_the_size_limit() {
    assert_eq!(validate(Some("image/png"), MAX_IMAGE_BYTES), Ok("png"));
    assert_eq!(validate(Some("image/png"), MAX_IMAGE_BYTES + 1), Err(ImageError::TooLarge));
}

#[test]
fn filename_embeds_guild_and_trophy_uuid() {
    let id = Uuid::now_v7();
    assert_eq!(filename(42, id.as_u128(), "png"), format!("42_{id}.png"));
}

#[test]
fn type_is_checked_before_size() {
    assert_eq!(validate(Some("image/webp"), u32::MAX), Err(ImageError::UnsupportedType));
    assert_eq!(validate(Some("Image/JPG;q=1"), u32::MAX), Err(ImageError::TooLarge));
}

#[test]
fn filename_of_a_known_id() {
    assert_eq!(
        filename(-1, 0x0123456789abcdef0123456789abcdefu128, "gif"),
        "-1_01234567-89ab-cdef-0123-456789abcdef.gif"
    );
}
