use std::io::{Cursor, Read};

use pdf_conversion_lib::archive::{
    create_cbz, extract_images, extract_zip_images, is_rar_archive, order_image_entries, Unpacked,
};
use pdf_conversion_lib::error::ConversionError;
use pdf_conversion_lib::naming::{detect_image_format, is_image_file, ImageFormat};
use pdf_conversion_lib::ordering::name_le_exec;

fn entry(name: &str, data: &[u8]) -> (String, Vec<u8>) {
    (name.to_string(), data.to_vec())
}

fn unpack(data: &[u8]) -> Vec<(String, Vec<u8>)> {
    match extract_images(data).unwrap() {
        Unpacked::Images(v) => v,
        Unpacked::NeedsRarTool => panic!("not a RAR archive"),
    }
}

#[test]
fn image_names_by_extension() {
    assert!(is_image_file("page_0001.jpg"));
    assert!(is_image_file("SCAN.JPEG"));
    assert!(is_image_file("a.Png"));
    assert!(is_image_file("b.webp"));
    assert!(is_image_file("c.GIF"));
    assert!(!is_image_file("notes.txt"));
    assert!(!is_image_file("jpg"));
    assert!(!is_image_file("folder/"));
}

#[test]
fn format_names() {
    assert_eq!(detect_image_format("x.JPG"), "jpeg");
    assert_eq!(detect_image_format("x.jpeg"), "jpeg");
    assert_eq!(detect_image_format("x.png"), "png");
    assert_eq!(detect_image_format("x.WebP"), "webp");
    assert_eq!(detect_image_format("x.gif"), "gif");
    assert_eq!(detect_image_format("x.bmp"), "unknown");
}

#[test]
fn extensions() {
    assert_eq!(ImageFormat::Jpeg.extension(), "jpg");
    assert_eq!(ImageFormat::Png.extension(), "png");
}

#[test]
fn name_order() {
    assert!(name_le_exec("a.jpg", "b.jpg"));
    assert!(!name_le_exec("b.jpg", "a.jpg"));
    assert!(name_le_exec("page", "page_0001"));
    assert!(!name_le_exec("page_0001", "page"));
    assert!(name_le_exec("same", "same"));
    assert!(name_le_exec("Z.jpg", "a.jpg"));
}

#[test]
fn rar_signatures() {
    assert!(is_rar_archive(b"Rar!\x1a\x07\x00"));
    assert!(is_rar_archive(b"Rar!\x1a\x07\x00rest"));
    assert!(is_rar_archive(b"Rar!\x1a\x07\x01\x00rest"));
    assert!(!is_rar_archive(b"Rar!\x1a\x07\x01"));
    assert!(!is_rar_archive(b"Rar!\x1a\x07"));
    assert!(!is_rar_archive(b"PK\x03\x04"));
    assert!(!is_rar_archive(b""));
}

#[test]
fn out_of_order_names_are_sorted() {
    let entries = vec![entry("b.jpg", b"B"), entry("a.jpg", b"A"), entry("c.jpg", b"C")];
    let ordered = order_image_entries(entries);
    let names: Vec<&str> = ordered.iter().map(|(n, _)| n.as_str()).collect();
    assert_eq!(names, vec!["a.jpg", "b.jpg", "c.jpg"]);
    assert_eq!(ordered[0].1, b"A".to_vec());
}

#[test]
fn non_images_are_dropped() {
    let entries = vec![entry("info.txt", b"x"), entry("02.PNG", b"2"), entry("01.png", b"1")];
    let ordered = order_image_entries(entries);
    assert_eq!(ordered, vec![entry("01.png", b"1"), entry("02.PNG", b"2")]);
}

#[test]
fn archive_entries_are_stored_in_order() {
    let images = vec![entry("page_0001.jpg", b"first"), entry("page_0002.jpg", b"second")];
    let bytes = create_cbz(images).unwrap();
    let mut zip = zip::ZipArchive::new(Cursor::new(bytes)).unwrap();
    assert_eq!(zip.len(), 2);
    let mut f = zip.by_index(0).unwrap();
    assert_eq!(f.name(), "page_0001.jpg");
    assert_eq!(f.compression(), zip::CompressionMethod::Stored);
    let mut s = String::new();
    f.read_to_string(&mut s).unwrap();
    assert_eq!(s, "first");
}

#[test]
fn pack_then_unpack_round_trips() {
    let images = vec![
        entry("page_0001.jpg", &[1, 2, 3]),
        entry("page_0002.png", &[4, 5]),
        entry("page_0003.jpg", &[]),
    ];
    let bytes = create_cbz(images.clone()).unwrap();
    assert_eq!(unpack(&bytes), images);
}

#[test]
fn unpacking_recovers_order_from_names() {
    let bytes = create_cbz(vec![entry("b.jpg", b"B"), entry("a.jpg", b"A"), entry("c.jpg", b"C")]).unwrap();
    let names: Vec<String> = unpack(&bytes).into_iter().map(|(n, _)| n).collect();
    assert_eq!(names, vec!["a.jpg", "b.jpg", "c.jpg"]);
}

#[test]
fn empty_archive_has_no_images() {
    let bytes = create_cbz(vec![]).unwrap();
    assert!(unpack(&bytes).is_empty());
    let only_text = create_cbz(vec![entry("readme.txt", b"hi")]).unwrap();
    assert!(unpack(&only_text).is_empty());
}

#[test]
fn duplicate_names_cannot_be_packed() {
    let r = create_cbz(vec![entry("a.jpg", b"1"), entry("a.jpg", b"2")]);
    assert_eq!(r.unwrap_err(), ConversionError::SerializationFailed);
}

#[test]
fn rar_archives_go_to_the_external_tool() {
    assert!(matches!(extract_images(b"Rar!\x1a\x07\x00....").unwrap(), Unpacked::NeedsRarTool));
}

#[test]
fn garbage_is_not_an_archive() {
    assert_eq!(extract_zip_images(b"not a zip at all").unwrap_err(), ConversionError::ArchiveOpenFailed);
}

#[test]
fn overlong_names_are_refused() {
    let name = format!("{}.jpg", "x".repeat(70000));
    assert_eq!(create_cbz(vec![entry(&name, b"1")]).unwrap_err(), ConversionError::SerializationFailed);
    // four UTF-8 bytes each: 16,400 characters are 65,600 bytes
    let wide = "\u{1F600}".repeat(16400);
    assert_eq!(create_cbz(vec![entry(&wide, b"1")]).unwrap_err(), ConversionError::SerializationFailed);
}

#[test]
fn long_names_within_the_field_are_kept() {
    let name = format!("{}.jpg", "x".repeat(60000));
    let bytes = create_cbz(vec![entry(&name, b"1")]).unwrap();
    assert_eq!(unpack(&bytes), vec![entry(&name, b"1")]);
}
