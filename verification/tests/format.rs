use bitmap_search::error::BitmapError;
use bitmap_search::format::{image_format_from_extension, save_format, ImageFormat};

#[test]
fn every_known_extension() {
    assert_eq!(image_format_from_extension("bmp"), Some(ImageFormat::Bmp));
    assert_eq!(image_format_from_extension("gif"), Some(ImageFormat::Gif));
    assert_eq!(image_format_from_extension("hdr"), Some(ImageFormat::Hdr));
    assert_eq!(image_format_from_extension("jpeg"), Some(ImageFormat::Jpeg));
    assert_eq!(image_format_from_extension("png"), Some(ImageFormat::Png));
    assert_eq!(image_format_from_extension("tga"), Some(ImageFormat::Tga));
    assert_eq!(image_format_from_extension("tiff"), Some(ImageFormat::Tiff));
    assert_eq!(image_format_from_extension("webp"), Some(ImageFormat::Webp));
}

#[test]
fn extension_case_is_ignored() {
    assert_eq!(image_format_from_extension("PNG"), Some(ImageFormat::Png));
    assert_eq!(image_format_from_extension("JpEg"), Some(ImageFormat::Jpeg));
    assert_eq!(image_format_from_extension("WebP"), Some(ImageFormat::Webp));
}

#[test]
fn unknown_extension() {
    assert_eq!(image_format_from_extension(""), None);
    assert_eq!(image_format_from_extension("jpg"), None);
    assert_eq!(image_format_from_extension("pn"), None);
    assert_eq!(image_format_from_extension("pngs"), None);
    assert_eq!(image_format_from_extension(".png"), None);
    assert_eq!(image_format_from_extension("p\u{f1}g"), None);
    assert_eq!(image_format_from_extension("PN\u{47}\u{301}"), None);
}

#[test]
fn save_format_prefers_the_format_asked_for() {
    assert_eq!(save_format(Some("gif"), Some("png")), Ok(ImageFormat::Gif));
    assert_eq!(save_format(None, Some("PNG")), Ok(ImageFormat::Png));
    assert_eq!(save_format(Some("bmp"), None), Ok(ImageFormat::Bmp));
}

#[test]
fn save_format_refuses_unknown_names() {
    assert_eq!(save_format(None, None), Err(BitmapError::InvalidFormat));
    assert_eq!(save_format(Some("exe"), Some("png")), Err(BitmapError::InvalidFormat));
    assert_eq!(save_format(None, Some("txt")), Err(BitmapError::InvalidFormat));
}
