use pdf_conversion_lib::candidate::{
    find_best_image_candidate, PageLayout, PageObject, PageObjectKind, Rect,
};
use pdf_conversion_lib::error::ConversionError;

fn rect(left: i32, bottom: i32, right: i32, top: i32) -> Rect {
    Rect { left, bottom, right, top }
}

fn image(bounds: Rect) -> PageObject {
    PageObject { kind: PageObjectKind::Image, bounds: Some(bounds), raw_bitmap_available: true }
}

fn page(objects: Vec<PageObject>) -> PageLayout {
    PageLayout { crop_box: Some(rect(0, 0, 1000, 1000)), media_box: None, objects }
}

#[test]
fn coverage_at_threshold_is_accepted() {
    // 50 x 100 on 1000 x 1000: exactly 0.5%
    let p = page(vec![image(rect(0, 0, 50, 100))]);
    let (best, crop) = find_best_image_candidate(&p).unwrap();
    assert_eq!(crop, rect(0, 0, 1000, 1000));
    let c = best.expect("a candidate at 0.5% coverage");
    assert_eq!(c.object_index, 0);
    assert_eq!(c.area, 5000);
    assert_eq!(c.page_area, 1_000_000);
}

#[test]
fn coverage_below_threshold_falls_back_to_render() {
    // 49 x 100 on 1000 x 1000: 0.49%
    let p = page(vec![image(rect(0, 0, 49, 100))]);
    let (best, _) = find_best_image_candidate(&p).unwrap();
    assert!(best.is_none());
}

#[test]
fn largest_image_is_chosen_and_text_is_ignored() {
    let text = PageObject { kind: PageObjectKind::Text, bounds: Some(rect(0, 0, 1000, 1000)), raw_bitmap_available: false };
    let unresolved = PageObject { kind: PageObjectKind::Image, bounds: None, raw_bitmap_available: true };
    let small = image(rect(0, 0, 100, 100));
    let mut large = image(rect(10, 10, 810, 910));
    large.raw_bitmap_available = false;
    let p = page(vec![text, small, unresolved, large, image(rect(0, 0, 200, 200))]);
    let (best, _) = find_best_image_candidate(&p).unwrap();
    let c = best.unwrap();
    assert_eq!(c.object_index, 3);
    assert_eq!(c.bounds, rect(10, 10, 810, 910));
    assert_eq!(c.area, 800 * 900);
    assert!(!c.can_extract_raw);
}

#[test]
fn equal_coverage_picks_the_last() {
    let p = page(vec![image(rect(0, 0, 500, 500)), image(rect(500, 500, 1000, 1000))]);
    let (best, _) = find_best_image_candidate(&p).unwrap();
    assert_eq!(best.unwrap().object_index, 1);
}

#[test]
fn media_box_is_used_without_crop_box() {
    let p = PageLayout {
        crop_box: None,
        media_box: Some(rect(0, 0, 100, 100)),
        objects: vec![image(rect(0, 0, 10, 10))],
    };
    let (best, crop) = find_best_image_candidate(&p).unwrap();
    assert_eq!(crop, rect(0, 0, 100, 100));
    assert_eq!(best.unwrap().page_area, 10_000);
}

#[test]
fn page_without_boxes_is_an_error() {
    let p = PageLayout { crop_box: None, media_box: None, objects: vec![] };
    assert_eq!(find_best_image_candidate(&p).unwrap_err(), ConversionError::PageAccessFailed);
}

#[test]
fn page_without_images_has_no_candidate() {
    let (best, _) = find_best_image_candidate(&page(vec![])).unwrap();
    assert!(best.is_none());
}
