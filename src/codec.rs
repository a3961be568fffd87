//! Image encoding through the `image` crate, on plain pixel buffers.
use vstd::prelude::*;

use image::codecs::jpeg::JpegEncoder;
use image::codecs::png::PngEncoder;
use image::imageops::FilterType;
use image::{ExtendedColorType, ImageBuffer, ImageEncoder, Rgba};
use image::GenericImageView;

use crate::error::ConversionError;
use crate::naming::ImageFormat;
use crate::pipeline::RenderPlan;

verus! {

#[verifier::external_type_specification]
#[verifier::external_body]
pub struct ExImageError(image::ImageError);

/// A decoded image: `width * height` pixels, row by row, four bytes
/// (red, green, blue, alpha) each.
#[derive(Debug, Clone)]
pub struct Bitmap {
    pub width: u32,
    pub height: u32,
    pub rgba: Vec<u8>,
}

impl Bitmap {
    pub open spec fn wf(&self) -> bool {
        self.rgba@.len() == 4 * (self.width as int) * (self.height as int)
    }

    pub proof fn lemma_whole_pixels(&self)
        requires
            self.wf(),
        ensures
            self.rgba@.len() % 4 == 0,
    {
        let wh = (self.width as int) * (self.height as int);
        assert(4 * (self.width as int) * (self.height as int) == wh * 4) by (nonlinear_arith)
            requires
                wh == (self.width as int) * (self.height as int),
        ;
        vstd::arithmetic::div_mod::lemma_mod_multiples_basic(wh, 4);
    }
}

/// The JPEG stream that the baseline encoder makes of 8-bit RGB pixels.
pub uninterp spec fn jpeg_encoding(rgb: Seq<u8>, width: u32, height: u32, quality: u8) -> Seq<u8>;

/// The PNG stream that the encoder makes of 8-bit pixels: RGBA when
/// `alpha` holds, RGB otherwise.
pub uninterp spec fn png_encoding(pixels: Seq<u8>, width: u32, height: u32, alpha: bool) -> Seq<u8>;

/// The sizes each encoder takes: JPEG needs 1 to 65535 pixels each way,
/// PNG at least one.
pub open spec fn encodable(width: u32, height: u32, format: ImageFormat) -> bool {
    match format {
        ImageFormat::Jpeg => 1 <= width <= 65535 && 1 <= height <= 65535,
        ImageFormat::Png => 1 <= width && 1 <= height,
    }
}

/// A resampling filter.
#[derive(Debug, Clone, Copy, PartialEq, Eq, Structural)]
pub enum ResizeFilter {
    Nearest,
    Triangle,
    CatmullRom,
    Gaussian,
    Lanczos3,
}

/// The filter for rescaling rendered pages: Catmull-Rom, two to three
/// times faster than Lanczos3 at nearly the same quality.
pub const PAGE_RESIZE_FILTER: ResizeFilter = ResizeFilter::CatmullRom;

/// The RGBA pixels of a resampling to `new_width * new_height` with the
/// filter.
pub uninterp spec fn resized(
    rgba: Seq<u8>,
    width: u32,
    height: u32,
    new_width: u32,
    new_height: u32,
    filter: ResizeFilter,
) -> Seq<u8>;

/// Relies on `JpegEncoder::encode` (quality as given, RGB8 input): the
/// stream depends on the pixels, size and quality alone; writing to a `Vec`
/// fails only on a size outside 1 to 65535 each way. The encoder panics on a
/// buffer of another length.
#[verifier::external_body]
fn encode_jpeg_rgb(rgb: &[u8], width: u32, height: u32, quality: u8) -> (r: Result<
    Vec<u8>,
    image::ImageError,
>)
    requires
        rgb@.len() == 3 * (width as int) * (height as int),
        1 <= quality <= 100,
    ensures
        1 <= width <= 65535 && 1 <= height <= 65535 ==> r is Ok,
        r matches Ok(bytes) ==> bytes@ == jpeg_encoding(rgb@, width, height, quality),
{
    let mut out = Vec::new();
    JpegEncoder::new_with_quality(&mut out, quality).encode(
        rgb,
        width,
        height,
        ExtendedColorType::Rgb8,
    )?;
    Ok(out)
}

/// Relies on `PngEncoder::write_image` (RGBA8 or RGB8 input): the stream
/// depends on the pixels and size alone; writing to a `Vec` fails only on a
/// zero width or height. The encoder panics on a buffer of another length.
#[verifier::external_body]
fn encode_png(pixels: &[u8], width: u32, height: u32, alpha: bool) -> (r: Result<
    Vec<u8>,
    image::ImageError,
>)
    requires
        pixels@.len() == (if alpha {
            4int
        } else {
            3int
        }) * (width as int) * (height as int),
    ensures
        1 <= width && 1 <= height ==> r is Ok,
        r matches Ok(bytes) ==> bytes@ == png_encoding(pixels@, width, height, alpha),
{
    let color = if alpha {
        ExtendedColorType::Rgba8
    } else {
        ExtendedColorType::Rgb8
    };
    let mut out = Vec::new();
    PngEncoder::new(&mut out).write_image(pixels, width, height, color)?;
    Ok(out)
}

/// Relies on `imageops::resize` with the given filter: the result has the
/// requested size.
#[verifier::external_body]
fn resize_rgba(
    rgba: &Vec<u8>,
    width: u32,
    height: u32,
    new_width: u32,
    new_height: u32,
    filter: ResizeFilter,
) -> (r: Vec<u8>)
    requires
        rgba@.len() == 4 * (width as int) * (height as int),
    ensures
        r@ == resized(rgba@, width, height, new_width, new_height, filter),
        r@.len() == 4 * (new_width as int) * (new_height as int),
{
    let filter = match filter {
        ResizeFilter::Nearest => FilterType::Nearest,
        ResizeFilter::Triangle => FilterType::Triangle,
        ResizeFilter::CatmullRom => FilterType::CatmullRom,
        ResizeFilter::Gaussian => FilterType::Gaussian,
        ResizeFilter::Lanczos3 => FilterType::Lanczos3,
    };
    let source: ImageBuffer<Rgba<u8>, Vec<u8>> = ImageBuffer::from_raw(
        width,
        height,
        rgba.clone(),
    ).unwrap();
    image::imageops::resize(&source, new_width, new_height, filter).into_raw()
}

/// Width, height and RGBA8 pixels of a full decode, if the data decodes.
pub uninterp spec fn decoded_rgba8(data: Seq<u8>) -> Option<(u32, u32, Seq<u8>)>;

/// Relies on `image::load_from_memory` (format guessed from the data) and
/// `to_rgba8`: the decoded image at four bytes per pixel, or `None` where it
/// cannot be decoded.
#[verifier::external_body]
pub(crate) fn decode_rgba8(data: &[u8]) -> (r: Option<Bitmap>)
    ensures
        r is None <==> decoded_rgba8(data@) is None,
        r matches Some(b) ==> decoded_rgba8(data@) == Some((b.width, b.height, b.rgba@)) && b.wf(),
{
    image::load_from_memory(data).ok().map(
        |img| Bitmap { width: img.width(), height: img.height(), rgba: img.to_rgba8().into_raw() },
    )
}

/// The RGB pixels of RGBA pixels: the alpha byte of each pixel dropped.
pub open spec fn rgb_of_rgba(rgba: Seq<u8>) -> Seq<u8> {
    Seq::new((rgba.len() / 4 * 3) as nat, |i: int| rgba[(i / 3) * 4 + i % 3])
}

/// Drops the alpha channel of RGBA pixels.
pub fn rgba_to_rgb(rgba: &Vec<u8>) -> (r: Vec<u8>)
    requires
        rgba@.len() % 4 == 0,
    ensures
        r@ == rgb_of_rgba(rgba@),
{
    let len = rgba.len();
    let n = len / 4;
    let mut out: Vec<u8> = Vec::new();
    let mut p: usize = 0;
    while p < n
        invariant
            len == rgba@.len(),
            n == len / 4,
            rgba@.len() % 4 == 0,
            0 <= p <= n,
            out@.len() == 3 * p,
            forall|i: int| 0 <= i < 3 * p ==> out@[i] == rgba@[(i / 3) * 4 + i % 3],
        decreases n - p,
    {
        assert(4 * p + 3 < len) by (nonlinear_arith)
            requires
                p < n,
                n == len / 4,
        ;
        out.push(rgba[4 * p]);
        out.push(rgba[4 * p + 1]);
        out.push(rgba[4 * p + 2]);
        proof {
            assert forall|i: int| 0 <= i < 3 * (p + 1) implies out@[i] == rgba@[(i / 3) * 4 + i
                % 3] by {
                if i >= 3 * p {
                    assert(i / 3 == p);
                }
            }
        }
        p = p + 1;
    }
    assert(out@ =~= rgb_of_rgba(rgba@));
    out
}

/// The encoding of RGBA pixels in a format: JPEG without the alpha
/// channel, PNG with it.
pub open spec fn encoding_of(
    rgba: Seq<u8>,
    width: u32,
    height: u32,
    format: ImageFormat,
    quality: u8,
) -> Seq<u8> {
    match format {
        ImageFormat::Jpeg => jpeg_encoding(rgb_of_rgba(rgba), width, height, quality),
        ImageFormat::Png => png_encoding(rgba, width, height, true),
    }
}

/// The encoding of RGBA pixels as a page image: 8-bit RGB, as JPEG or as
/// lossless PNG.
pub open spec fn page_encoding_of(
    rgba: Seq<u8>,
    width: u32,
    height: u32,
    format: ImageFormat,
    quality: u8,
) -> Seq<u8> {
    match format {
        ImageFormat::Jpeg => jpeg_encoding(rgb_of_rgba(rgba), width, height, quality),
        ImageFormat::Png => png_encoding(rgb_of_rgba(rgba), width, height, false),
    }
}

proof fn lemma_rgb_len(img: &Bitmap, rgb: Seq<u8>)
    requires
        img.wf(),
        rgb.len() == img.rgba@.len() / 4 * 3,
    ensures
        rgb.len() == 3 * (img.width as int) * (img.height as int),
{
    assert(rgb.len() == 3 * (img.width as int) * (img.height as int)) by (nonlinear_arith)
        requires
            rgb.len() == img.rgba@.len() / 4 * 3,
            img.rgba@.len() == 4 * (img.width as int) * (img.height as int),
    ;
}

/// Encodes a bitmap: JPEG at `quality` (alpha dropped), or lossless PNG
/// (alpha kept).
pub fn encode_image(img: &Bitmap, format: &ImageFormat, quality: u8) -> (r: Result<
    Vec<u8>,
    ConversionError,
>)
    requires
        img.wf(),
        1 <= quality <= 100,
    ensures
        encodable(img.width, img.height, *format) ==> r is Ok,
        r matches Ok(bytes) ==> bytes@ == encoding_of(
            img.rgba@,
            img.width,
            img.height,
            *format,
            quality,
        ),
        r matches Err(e) ==> e == ConversionError::EncodeFailed,
{
    match format {
        ImageFormat::Jpeg => {
            proof {
                img.lemma_whole_pixels();
            }
            let rgb = rgba_to_rgb(&img.rgba);
            proof {
                lemma_rgb_len(img, rgb@);
            }
            match encode_jpeg_rgb(rgb.as_slice(), img.width, img.height, quality) {
                Ok(bytes) => Ok(bytes),
                Err(_) => Err(ConversionError::EncodeFailed),
            }
        },
        ImageFormat::Png => {
            match encode_png(img.rgba.as_slice(), img.width, img.height, true) {
                Ok(bytes) => Ok(bytes),
                Err(_) => Err(ConversionError::EncodeFailed),
            }
        },
    }
}

/// Encodes a page image as 8-bit RGB (alpha dropped): JPEG at `quality`,
/// or lossless PNG.
pub fn encode_page_image(img: &Bitmap, format: &ImageFormat, quality: u8) -> (r: Result<
    Vec<u8>,
    ConversionError,
>)
    requires
        img.wf(),
        1 <= quality <= 100,
    ensures
        encodable(img.width, img.height, *format) ==> r is Ok,
        r matches Ok(bytes) ==> bytes@ == page_encoding_of(
            img.rgba@,
            img.width,
            img.height,
            *format,
            quality,
        ),
        r matches Err(e) ==> e == ConversionError::EncodeFailed,
{
    proof {
        img.lemma_whole_pixels();
    }
    let rgb = rgba_to_rgb(&img.rgba);
    proof {
        lemma_rgb_len(img, rgb@);
    }
    let encoded = match format {
        ImageFormat::Jpeg => encode_jpeg_rgb(rgb.as_slice(), img.width, img.height, quality),
        ImageFormat::Png => encode_png(rgb.as_slice(), img.width, img.height, false),
    };
    match encoded {
        Ok(bytes) => Ok(bytes),
        Err(_) => Err(ConversionError::EncodeFailed),
    }
}

/// The size of a rendered page once its plan is applied.
pub open spec fn output_size(bitmap: Bitmap, plan: RenderPlan) -> (u32, u32) {
    if plan.resize {
        (plan.output_width as u32, plan.output_height as u32)
    } else {
        (bitmap.width, bitmap.height)
    }
}

/// The output of a rendered page: its pixels rescaled to the plan's output
/// size with the page filter when the plan asks for it, then encoded as a
/// page image.
pub open spec fn rendered_output(
    bitmap: Bitmap,
    plan: RenderPlan,
    format: ImageFormat,
    quality: u8,
) -> Seq<u8> {
    if plan.resize {
        page_encoding_of(
            resized(
                bitmap.rgba@,
                bitmap.width,
                bitmap.height,
                plan.output_width as u32,
                plan.output_height as u32,
                PAGE_RESIZE_FILTER,
            ),
            plan.output_width as u32,
            plan.output_height as u32,
            format,
            quality,
        )
    } else {
        page_encoding_of(bitmap.rgba@, bitmap.width, bitmap.height, format, quality)
    }
}

/// The parallel unit of work of the pipeline: scales one rendered page to
/// its target size and encodes it. It touches no shared state.
pub fn finish_rendered_page(bitmap: Bitmap, plan: RenderPlan, format: ImageFormat, quality: u8) -> (r:
    Result<Vec<u8>, ConversionError>)
    requires
        bitmap.wf(),
        1 <= quality <= 100,
        plan.output_width <= u32::MAX,
        plan.output_height <= u32::MAX,
    ensures
        encodable(output_size(bitmap, plan).0, output_size(bitmap, plan).1, format) ==> r is Ok,
        r matches Ok(bytes) ==> bytes@ == rendered_output(bitmap, plan, format, quality),
        r matches Err(e) ==> e == ConversionError::EncodeFailed,
{
    if plan.resize {
        let w = plan.output_width as u32;
        let h = plan.output_height as u32;
        let pixels = resize_rgba(&bitmap.rgba, bitmap.width, bitmap.height, w, h, PAGE_RESIZE_FILTER);
        let scaled = Bitmap { width: w, height: h, rgba: pixels };
        encode_page_image(&scaled, &format, quality)
    } else {
        encode_page_image(&bitmap, &format, quality)
    }
}

/// Decodes image bytes of any supported format and encodes them anew.
pub fn convert_image(input: &[u8], format: &ImageFormat, quality: u8) -> (r: Result<
    Vec<u8>,
    ConversionError,
>)
    requires
        1 <= quality <= 100,
    ensures
        decoded_rgba8(input@) is None ==> r == Err::<Vec<u8>, ConversionError>(
            ConversionError::DecodeFailed,
        ),
        decoded_rgba8(input@) matches Some(d) && encodable(d.0, d.1, *format) ==> r is Ok,
        r matches Ok(bytes) ==> decoded_rgba8(input@) matches Some(d) && bytes@ == encoding_of(
            d.2,
            d.0,
            d.1,
            *format,
            quality,
        ),
        r matches Err(e) ==> e == ConversionError::DecodeFailed || e == ConversionError::EncodeFailed,
{
    match decode_rgba8(input) {
        Some(img) => encode_image(&img, format, quality),
        None => Err(ConversionError::DecodeFailed),
    }
}

} // verus!
