use pdf_conversion_lib::assemble::{get_image_dimensions, plan_pdf_page, plan_pdf_pages, placement_dpi, Dpi};
use pdf_conversion_lib::codec::{convert_image, encode_image, encode_page_image, rgba_to_rgb, Bitmap};
use pdf_conversion_lib::error::ConversionError;
use pdf_conversion_lib::messages::{contains, has_parent_reference, user_friendly_error};
use pdf_conversion_lib::naming::ImageFormat;
use pdf_conversion_lib::settings::{conversion_settings, validate_quality};

fn bitmap(w: u32, h: u32) -> Bitmap {
    let mut rgba = Vec::new();
    for i in 0..(w * h) {
        rgba.extend_from_slice(&[i as u8, 100, 200, 255]);
    }
    Bitmap { width: w, height: h, rgba }
}

#[test]
fn alpha_is_dropped() {
    assert_eq!(rgba_to_rgb(&vec![1, 2, 3, 4, 5, 6, 7, 8]), vec![1, 2, 3, 5, 6, 7]);
    assert_eq!(rgba_to_rgb(&vec![]), Vec::<u8>::new());
}

#[test]
fn png_encoding_is_lossless() {
    let b = bitmap(3, 2);
    let png = encode_image(&b, &ImageFormat::Png, 90).unwrap();
    assert_eq!(&png[0..4], b"\x89PNG");
    let back = image::load_from_memory(&png).unwrap().to_rgba8();
    assert_eq!(back.into_raw(), b.rgba);
}

#[test]
fn jpeg_encoding_keeps_the_size() {
    let jpeg = encode_image(&bitmap(16, 8), &ImageFormat::Jpeg, 85).unwrap();
    let size = imagesize::blob_size(&jpeg).unwrap();
    assert_eq!((size.width, size.height), (16, 8));
}

#[test]
fn placement_fills_the_constraining_axis() {
    // A4 at 300 DPI: the height constrains by a hair
    assert_eq!(placement_dpi(2480, 3508), Dpi { numerator: 254 * 3508, denominator: 2970 });
    // a wide image: the width constrains
    assert_eq!(placement_dpi(2100, 100), Dpi { numerator: 254 * 2100, denominator: 2100 });
    assert_eq!(placement_dpi(0, 0), Dpi { numerator: 0, denominator: 2100 });
}

#[test]
fn jpeg_pages_are_inserted_as_is() {
    let jpeg = encode_image(&bitmap(20, 10), &ImageFormat::Jpeg, 80).unwrap();
    let plan = plan_pdf_page(&jpeg).unwrap();
    assert_eq!((plan.width, plan.height), (20, 10));
    assert!(plan.raw_rgb.is_none());
    assert_eq!(plan.dpi, placement_dpi(20, 10));
}

#[test]
fn png_pages_are_decoded() {
    let png = encode_image(&bitmap(4, 5), &ImageFormat::Png, 80).unwrap();
    let plan = plan_pdf_page(&png).unwrap();
    assert_eq!((plan.width, plan.height), (4, 5));
    assert_eq!(plan.raw_rgb.unwrap().len(), 4 * 5 * 3);
}

#[test]
fn undecodable_pages_fail() {
    assert_eq!(plan_pdf_page(b"nothing").unwrap_err(), ConversionError::DecodeFailed);
}

#[test]
fn no_images_no_pdf() {
    assert_eq!(plan_pdf_pages(&vec![]).unwrap_err(), ConversionError::NoImagesFound);
}

#[test]
fn quality_bounds() {
    assert_eq!(validate_quality(0), Err(ConversionError::InvalidQuality));
    assert_eq!(validate_quality(101), Err(ConversionError::InvalidQuality));
    assert_eq!(validate_quality(1), Ok(1));
    assert_eq!(validate_quality(100), Ok(100));
}

#[test]
fn settings_defaults() {
    let s = conversion_settings(0, 85, false, false).unwrap();
    assert_eq!((s.dpi, s.quality, s.format), (300, 85, ImageFormat::Jpeg));
    let g = conversion_settings(0, 85, true, true).unwrap();
    assert_eq!((g.dpi, g.format), (200, ImageFormat::Png));
    assert_eq!(conversion_settings(150, 90, false, true).unwrap().dpi, 150);
    assert_eq!(conversion_settings(150, 0, false, false).unwrap_err(), ConversionError::InvalidQuality);
    assert_eq!(conversion_settings(150, 101, false, false).unwrap_err(), ConversionError::InvalidQuality);
}

#[test]
fn friendly_messages() {
    assert_eq!(user_friendly_error("open: Permission denied (os error 13)"), "Access denied. Please check file permissions.");
    assert_eq!(user_friendly_error("No such file or directory"), "File not found. Please select a valid file.");
    assert_eq!(user_friendly_error("Failed to load PDFium library"), "PDF processing error. The file may be corrupted or password-protected.");
    assert_eq!(user_friendly_error("document is encrypted"), "This PDF is password-protected. Please provide an unprotected file.");
    assert_eq!(user_friendly_error("No space left on device"), "Not enough disk space. Please free up some space and try again.");
    assert_eq!(user_friendly_error("weird"), "Conversion failed. Please try again with a different file.");
}

#[test]
fn substring_search() {
    assert!(contains("abcabd", "abd"));
    assert!(!contains("abcab", "abd"));
    assert!(contains("x", ""));
    assert!(!contains("", "x"));
    assert!(has_parent_reference("/tmp/../etc"));
    assert!(!has_parent_reference("/tmp/a.pdf"));
}

#[test]
fn dimensions_from_header() {
    let png = encode_image(&bitmap(7, 3), &ImageFormat::Png, 80).unwrap();
    assert_eq!(get_image_dimensions(&png), Ok((7, 3)));
    assert_eq!(get_image_dimensions(b"???"), Err(ConversionError::DecodeFailed));
}

#[test]
fn png_converts_to_jpeg() {
    let png = encode_image(&bitmap(5, 4), &ImageFormat::Png, 80).unwrap();
    let jpeg = convert_image(&png, &ImageFormat::Jpeg, 90).unwrap();
    assert_eq!(&jpeg[0..3], &[0xff, 0xd8, 0xff]);
    assert_eq!(get_image_dimensions(&jpeg), Ok((5, 4)));
    assert_eq!(convert_image(b"junk", &ImageFormat::Png, 90), Err(ConversionError::DecodeFailed));
}

#[test]
fn raw_pixels_of_decoded_pages() {
    let b = bitmap(2, 1);
    let png = encode_image(&b, &ImageFormat::Png, 80).unwrap();
    let plan = plan_pdf_page(&png).unwrap();
    assert_eq!(plan.raw_rgb.unwrap(), vec![0, 100, 200, 1, 100, 200]);
}

#[test]
fn lossless_page_images_are_rgb() {
    let b = bitmap(3, 2);
    let png = encode_page_image(&b, &ImageFormat::Png, 90).unwrap();
    let back = image::load_from_memory(&png).unwrap();
    assert_eq!(back.color(), image::ColorType::Rgb8);
    assert_eq!(back.to_rgb8().into_raw(), rgba_to_rgb(&b.rgba));
}

#[test]
fn empty_images_do_not_encode() {
    let empty = Bitmap { width: 0, height: 0, rgba: vec![] };
    assert_eq!(encode_image(&empty, &ImageFormat::Png, 90), Err(ConversionError::EncodeFailed));
    assert_eq!(encode_image(&empty, &ImageFormat::Jpeg, 90), Err(ConversionError::EncodeFailed));
}
