//! Placement of archive images on the pages of an output PDF: one image per
//! A4 page, JPEG data inserted as is, other formats decoded to RGB.
use vstd::prelude::*;

use crate::archive::starts_with_bytes;
use crate::codec::{decode_rgba8, decoded_rgba8, rgb_of_rgba, rgba_to_rgb};
use crate::error::ConversionError;

verus! {

/// Width of the output page, in millimetres (A4).
pub const PAGE_WIDTH_MM: u64 = 210;

/// Height of the output page, in millimetres (A4).
pub const PAGE_HEIGHT_MM: u64 = 297;

/// A resolution in dots per inch, as the fraction `numerator / denominator`.
#[derive(Debug, Clone, Copy, PartialEq, Eq, Structural)]
pub struct Dpi {
    pub numerator: u64,
    pub denominator: u64,
}

/// `pixels / (page_mm / 25.4)`, as a fraction.
pub open spec fn fit_dpi(pixels: int, page_mm: int) -> Dpi {
    Dpi { numerator: (254 * pixels) as u64, denominator: (10 * page_mm) as u64 }
}

/// The width is the more constraining axis: `w / 210 >= h / 297`.
pub open spec fn width_constrains(width: int, height: int) -> bool {
    width * PAGE_HEIGHT_MM >= height * PAGE_WIDTH_MM
}

pub open spec fn placement_dpi_spec(width: u32, height: u32) -> Dpi {
    if width_constrains(width as int, height as int) {
        fit_dpi(width as int, PAGE_WIDTH_MM as int)
    } else {
        fit_dpi(height as int, PAGE_HEIGHT_MM as int)
    }
}

/// The resolution at which an image of `width * height` pixels fills the
/// page along its more constraining axis: the larger of the two fits, so
/// the image is never cropped.
pub fn placement_dpi(width: u32, height: u32) -> (r: Dpi)
    ensures
        r == placement_dpi_spec(width, height),
        r.denominator > 0,
        r.numerator * (10 * PAGE_WIDTH_MM) >= 254 * width * r.denominator,
        r.numerator * (10 * PAGE_HEIGHT_MM) >= 254 * height * r.denominator,
{
    let w = width as u64;
    let h = height as u64;
    if w * PAGE_HEIGHT_MM >= h * PAGE_WIDTH_MM {
        let r = Dpi { numerator: 254 * w, denominator: 10 * PAGE_WIDTH_MM };
        assert(r.numerator * (10 * PAGE_HEIGHT_MM) >= 254 * height * r.denominator) by (nonlinear_arith)
            requires
                w * 297 >= h * 210,
                r.numerator == 254 * w,
                r.denominator == 2100,
                h == height,
        ;
        r
    } else {
        let r = Dpi { numerator: 254 * h, denominator: 10 * PAGE_HEIGHT_MM };
        assert(r.numerator * (10 * PAGE_WIDTH_MM) >= 254 * width * r.denominator) by (nonlinear_arith)
            requires
                w * 297 < h * 210,
                r.numerator == 254 * h,
                r.denominator == 2970,
                w == width,
        ;
        r
    }
}

/// The size that the header parser reads from an image's first bytes, if
/// it recognises them.
pub uninterp spec fn header_size(data: Seq<u8>) -> Option<(usize, usize)>;

/// Relies on `imagesize::blob_size`: the size from the header alone, or
/// `None` where the header is not recognised.
#[verifier::external_body]
fn header_dimensions(data: &[u8]) -> (r: Option<(usize, usize)>)
    ensures
        r == header_size(data@),
{
    imagesize::blob_size(data).ok().map(|s| (s.width, s.height))
}

/// `FF D8 FF`: the start of a JPEG stream.
pub open spec fn jpeg_signature() -> Seq<u8> {
    seq![0xffu8, 0xd8u8, 0xffu8]
}

/// Relies on `image::guess_format`: its signature table answers JPEG
/// exactly for data starting with `FF D8 FF`.
#[verifier::external_body]
fn guess_is_jpeg(data: &[u8]) -> (r: bool)
    ensures
        r == starts_with_bytes(data@, jpeg_signature()),
{
    matches!(image::guess_format(data), Ok(image::ImageFormat::Jpeg))
}

/// The size of an image: from its header when the header is recognised,
/// else from a full decode.
pub open spec fn image_size(data: Seq<u8>) -> Option<(u32, u32)> {
    if probed(data) {
        Some((header_size(data)->Some_0.0 as u32, header_size(data)->Some_0.1 as u32))
    } else if decoded_rgba8(data) is Some {
        Some((decoded_rgba8(data)->Some_0.0, decoded_rgba8(data)->Some_0.1))
    } else {
        None
    }
}

/// The pixel size of an image, read from its header without decoding when
/// possible.
pub fn get_image_dimensions(data: &[u8]) -> (r: Result<(u32, u32), ConversionError>)
    ensures
        r matches Ok(d) ==> image_size(data@) == Some(d),
        r is Err <==> image_size(data@) is None,
        r matches Err(e) ==> e == ConversionError::DecodeFailed,
{
    match header_dimensions(data) {
        Some((w, h)) => {
            if w <= u32::MAX as usize && h <= u32::MAX as usize {
                return Ok((w as u32, h as u32));
            }
        },
        None => {},
    }
    match decode_rgba8(data) {
        Some(img) => Ok((img.width, img.height)),
        None => Err(ConversionError::DecodeFailed),
    }
}

/// An image that can be placed: JPEG data with a readable header, or data
/// that decodes.
pub open spec fn plannable(data: Seq<u8>) -> bool {
    (probed(data) && starts_with_bytes(data, jpeg_signature())) || decoded_rgba8(data) is Some
}

/// How one image goes on its page.
#[derive(Debug, Clone)]
pub struct PdfPagePlan {
    pub width: u32,
    pub height: u32,
    pub dpi: Dpi,
    /// `None`: the JPEG data is inserted as is (DCT stream). `Some`: the
    /// decoded RGB pixels, inserted uncompressed.
    pub raw_rgb: Option<Vec<u8>>,
}

/// The header gives a size that fits `u32` each way.
pub open spec fn probed(data: Seq<u8>) -> bool {
    header_size(data) matches Some(d) && d.0 <= u32::MAX && d.1 <= u32::MAX
}

/// Plans the page of one image. The size comes from the header when it can
/// be read there, else from a full decode. JPEG data with a readable header
/// is inserted without decoding; anything else is decoded to RGB.
pub fn plan_pdf_page(data: &[u8]) -> (r: Result<PdfPagePlan, ConversionError>)
    ensures
        r is Ok <==> plannable(data@),
        ({
            let direct = probed(data@) && starts_with_bytes(data@, jpeg_signature());
            match r {
                Ok(plan) => {
                    &&& probed(data@) ==> plan.width == header_size(data@)->Some_0.0
                        && plan.height == header_size(data@)->Some_0.1
                    &&& !probed(data@) ==> (decoded_rgba8(data@) matches Some(d) && plan.width
                        == d.0 && plan.height == d.1)
                    &&& image_size(data@) == Some((plan.width, plan.height))
                    &&& plan.dpi == placement_dpi_spec(plan.width, plan.height)
                    &&& direct ==> plan.raw_rgb is None
                    &&& !direct ==> (decoded_rgba8(data@) matches Some(d) && plan.raw_rgb matches Some(
                        px,
                    ) && px@ == rgb_of_rgba(d.2))
                },
                Err(e) => e == ConversionError::DecodeFailed && !direct && decoded_rgba8(
                    data@,
                ) is None,
            }
        }),
{
    let probe = match header_dimensions(data) {
        Some((w, h)) => {
            if w <= u32::MAX as usize && h <= u32::MAX as usize {
                Some((w as u32, h as u32))
            } else {
                None
            }
        },
        None => None,
    };
    match probe {
        Some((w, h)) => {
            if guess_is_jpeg(data) {
                return Ok(PdfPagePlan { width: w, height: h, dpi: placement_dpi(w, h), raw_rgb: None });
            }
            match decode_rgba8(data) {
                Some(img) => {
                    proof {
                        img.lemma_whole_pixels();
                    }
                    let px = rgba_to_rgb(&img.rgba);
                    Ok(
                        PdfPagePlan {
                            width: w,
                            height: h,
                            dpi: placement_dpi(w, h),
                            raw_rgb: Some(px),
                        },
                    )
                },
                None => Err(ConversionError::DecodeFailed),
            }
        },
        None => match decode_rgba8(data) {
            Some(img) => {
                proof {
                    img.lemma_whole_pixels();
                }
                let px = rgba_to_rgb(&img.rgba);
                Ok(
                    PdfPagePlan {
                        width: img.width,
                        height: img.height,
                        dpi: placement_dpi(img.width, img.height),
                        raw_rgb: Some(px),
                    },
                )
            },
            None => Err(ConversionError::DecodeFailed),
        },
    }
}

/// Plans the pages of a PDF made of the images, one page each, in order.
/// Without images there is nothing to make.
pub fn plan_pdf_pages(images: &Vec<(String, Vec<u8>)>) -> (r: Result<
    Vec<PdfPagePlan>,
    ConversionError,
>)
    ensures
        images@.len() == 0 ==> r == Err::<Vec<PdfPagePlan>, ConversionError>(
            ConversionError::NoImagesFound,
        ),
        r matches Ok(plans) ==> plans@.len() == images@.len() && forall|i: int|
            0 <= i < plans@.len() ==> {
                let data = images@[i].1@;
                &&& image_size(data) == Some(((#[trigger] plans@[i]).width, plans@[i].height))
                &&& plans@[i].dpi == placement_dpi_spec(plans@[i].width, plans@[i].height)
                &&& (probed(data) && starts_with_bytes(data, jpeg_signature())) <==> plans@[i].raw_rgb is None
            },
        images@.len() > 0 && (forall|i: int|
            0 <= i < images@.len() ==> plannable(#[trigger] images@[i].1@)) ==> r is Ok,
        r matches Err(e) ==> (e == ConversionError::NoImagesFound && images@.len() == 0) || (e
            == ConversionError::DecodeFailed && exists|i: int|
            0 <= i < images@.len() && !plannable(#[trigger] images@[i].1@)),
{
    if images.len() == 0 {
        return Err(ConversionError::NoImagesFound);
    }
    let mut plans: Vec<PdfPagePlan> = Vec::new();
    let n = images.len();
    let mut i: usize = 0;
    while i < n
        invariant
            n == images@.len(),
            0 <= i <= n,
            plans@.len() == i,
            forall|k: int|
                0 <= k < i ==> {
                    let data = images@[k].1@;
                    &&& image_size(data) == Some(((#[trigger] plans@[k]).width, plans@[k].height))
                    &&& plans@[k].dpi == placement_dpi_spec(plans@[k].width, plans@[k].height)
                    &&& (probed(data) && starts_with_bytes(data, jpeg_signature())) <==> plans@[k].raw_rgb is None
                },
        decreases n - i,
    {
        let plan = plan_pdf_page(images[i].1.as_slice())?;
        plans.push(plan);
        i = i + 1;
    }
    Ok(plans)
}

} // verus!
