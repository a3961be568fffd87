//! Validation of the parameters of a conversion, before any engine work.
use vstd::prelude::*;

use crate::error::ConversionError;
use crate::naming::ImageFormat;
use crate::pipeline::DEFAULT_DPI;

verus! {

/// DPI used for a 0 DPI in interactive contexts.
pub const DEFAULT_INTERACTIVE_DPI: u32 = 200;

/// The validated parameters of a PDF-to-images conversion.
#[derive(Debug, Clone, Copy, PartialEq, Eq, Structural)]
pub struct ConversionSettings {
    pub dpi: u32,
    pub quality: u8,
    pub format: ImageFormat,
}

/// A JPEG quality must lie in `1..=100`.
pub fn validate_quality(quality: u32) -> (r: Result<u8, ConversionError>)
    ensures
        (1 <= quality <= 100) <==> r is Ok,
        r matches Ok(q) ==> q == quality,
        r matches Err(e) ==> e == ConversionError::InvalidQuality,
{
    if 1 <= quality && quality <= 100 {
        Ok(quality as u8)
    } else {
        Err(ConversionError::InvalidQuality)
    }
}

/// Validates and normalises the parameters of a conversion: the quality is
/// checked, a 0 DPI becomes the default of the context (300, or 200 in
/// interactive use), and lossless mode selects PNG over JPEG.
pub fn conversion_settings(dpi: u32, quality: u32, lossless: bool, interactive: bool) -> (r: Result<
    ConversionSettings,
    ConversionError,
>)
    ensures
        (1 <= quality <= 100) <==> r is Ok,
        r matches Err(e) ==> e == ConversionError::InvalidQuality,
        r matches Ok(s) ==> {
            &&& s.quality == quality
            &&& s.dpi == (if dpi != 0 {
                dpi
            } else if interactive {
                DEFAULT_INTERACTIVE_DPI
            } else {
                DEFAULT_DPI
            })
            &&& s.format == (if lossless {
                ImageFormat::Png
            } else {
                ImageFormat::Jpeg
            })
        },
{
    let q = validate_quality(quality)?;
    let d = if dpi != 0 {
        dpi
    } else if interactive {
        DEFAULT_INTERACTIVE_DPI
    } else {
        DEFAULT_DPI
    };
    let format = if lossless {
        ImageFormat::Png
    } else {
        ImageFormat::Jpeg
    };
    Ok(ConversionSettings { dpi: d, quality: q, format })
}

} // verus!
