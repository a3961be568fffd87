use pdf_conversion_lib::codec::{finish_rendered_page, Bitmap};
use pdf_conversion_lib::error::ConversionError;
use pdf_conversion_lib::naming::{page_filename, ImageFormat};
use pdf_conversion_lib::pipeline::{
    effective_dpi, pages_to_process, render_plan, scaled_pixels, PageJob, PendingPage,
};

#[test]
fn filenames_are_zero_padded() {
    assert_eq!(page_filename(7, ImageFormat::Jpeg), "page_0007.jpg");
    assert_eq!(page_filename(1234, ImageFormat::Png), "page_1234.png");
    assert_eq!(page_filename(12345, ImageFormat::Jpeg), "page_12345.jpg");
    assert_eq!(page_filename(0, ImageFormat::Png), "page_0000.png");
}

#[test]
fn dpi_zero_means_default() {
    assert_eq!(effective_dpi(0), 300);
    assert_eq!(effective_dpi(150), 150);
}

#[test]
fn max_pages_bounds_the_page_count() {
    assert_eq!(pages_to_process(0, 10), 10);
    assert_eq!(pages_to_process(3, 10), 3);
    assert_eq!(pages_to_process(20, 10), 10);
    assert_eq!(pages_to_process(10, 10), 10);
}

#[test]
fn scaling_rounds_to_nearest() {
    // 612 pt at 150 DPI: 1275 px
    assert_eq!(scaled_pixels(612_000, 150), 1275);
    // 1 pt at 108 DPI: 1.5 px, rounded up
    assert_eq!(scaled_pixels(1_000, 108), 2);
    // 1 pt at 100 DPI: 1.39 px
    assert_eq!(scaled_pixels(1_000, 100), 1);
    assert_eq!(scaled_pixels(595_300, 72), 595);
}

#[test]
fn render_plans() {
    let p = PendingPage { page_number: 1, width_millipoints: 612_000, height_millipoints: 792_000 };
    let lossy = render_plan(p, 150, false);
    assert_eq!((lossy.render_width, lossy.render_height), (612, 792));
    assert!(lossy.resize);
    assert_eq!((lossy.output_width, lossy.output_height), (1275, 1650));
    let native = render_plan(p, 72, false);
    assert!(!native.resize);
    let lossless = render_plan(p, 0, true);
    assert_eq!((lossless.render_width, lossless.render_height), (2550, 3300));
    assert!(!lossless.resize);
    let tiny = PendingPage { page_number: 1, width_millipoints: 1, height_millipoints: 1 };
    let t = render_plan(tiny, 72, true);
    assert_eq!((t.render_width, t.render_height), (1, 1));
}

#[test]
fn document_without_pages_is_refused() {
    assert_eq!(PageJob::new(0, 0, ImageFormat::Jpeg).unwrap_err(), ConversionError::NoPages);
}

#[test]
fn pages_are_recombined_in_page_order() {
    // pages 1 and 3 extracted, page 2 failed extraction, page 4 had no candidate
    let mut job = PageJob::new(4, 0, ImageFormat::Jpeg).unwrap();
    assert_eq!(job.next_page_number(), Some(1));
    job.record_page(100_000, 100_000, Some(vec![1]));
    job.record_page(100_000, 100_000, None);
    job.record_page(100_000, 100_000, Some(vec![3]));
    job.record_page(200_000, 300_000, None);
    assert_eq!(job.next_page_number(), None);
    assert_eq!(job.pending.len(), 2);
    assert_eq!(job.pending[0].page_number, 2);
    assert_eq!(job.pending[1].page_number, 4);
    assert_eq!(job.pending[1].width_millipoints, 200_000);
    let out = job.finish(vec![Ok(vec![2]), Ok(vec![4])]).unwrap();
    let names: Vec<&str> = out.iter().map(|(n, _)| n.as_str()).collect();
    assert_eq!(names, vec!["page_0001.jpg", "page_0002.jpg", "page_0003.jpg", "page_0004.jpg"]);
    let bytes: Vec<u8> = out.iter().map(|(_, b)| b[0]).collect();
    assert_eq!(bytes, vec![1, 2, 3, 4]);
}

#[test]
fn failed_extraction_still_yields_the_page() {
    let mut job = PageJob::new(1, 0, ImageFormat::Png).unwrap();
    job.record_page(100_000, 100_000, None);
    let out = job.finish(vec![Ok(vec![9, 9])]).unwrap();
    assert_eq!(out, vec![("page_0001.png".to_string(), vec![9, 9])]);
}

#[test]
fn first_encoding_error_fails_the_document() {
    let mut job = PageJob::new(3, 0, ImageFormat::Jpeg).unwrap();
    job.record_page(1, 1, None);
    job.record_page(1, 1, None);
    job.record_page(1, 1, None);
    let r = job.finish(vec![Ok(vec![1]), Err(ConversionError::RenderFailed), Err(ConversionError::EncodeFailed)]);
    assert_eq!(r.unwrap_err(), ConversionError::RenderFailed);
}

#[test]
fn max_pages_limits_the_job() {
    let mut job = PageJob::new(10, 2, ImageFormat::Jpeg).unwrap();
    job.record_page(1, 1, Some(vec![1]));
    job.record_page(1, 1, Some(vec![2]));
    assert_eq!(job.next_page_number(), None);
    let out = job.finish(vec![]).unwrap();
    assert_eq!(out.len(), 2);
}

#[test]
fn text_only_document_at_150_dpi() {
    // three US Letter pages without embedded images, all rendered
    let mut job = PageJob::new(3, 0, ImageFormat::Jpeg).unwrap();
    for _ in 0..3 {
        job.record_page(612_000, 792_000, None);
    }
    let mut encoded = Vec::new();
    for p in job.pending.iter() {
        let plan = render_plan(*p, 150, false);
        let w = plan.render_width as u32;
        let h = plan.render_height as u32;
        let bitmap = Bitmap { width: w, height: h, rgba: vec![255u8; (4 * w * h) as usize] };
        encoded.push(finish_rendered_page(bitmap, plan, ImageFormat::Jpeg, 85));
    }
    let out = job.finish(encoded).unwrap();
    let names: Vec<&str> = out.iter().map(|(n, _)| n.as_str()).collect();
    assert_eq!(names, vec!["page_0001.jpg", "page_0002.jpg", "page_0003.jpg"]);
    for (_, bytes) in out.iter() {
        let size = imagesize::blob_size(bytes).unwrap();
        assert_eq!(size.width, 1275);
        assert_eq!(size.height, 1650);
        assert_eq!(&bytes[0..3], &[0xff, 0xd8, 0xff]);
    }
}
