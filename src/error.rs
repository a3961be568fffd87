use vstd::prelude::*;

verus! {

/// The kinds of failure of a conversion.
#[derive(Debug, Clone, Copy, PartialEq, Eq, Structural)]
pub enum ConversionError {
    InputNotFound,
    InputNotReadable,
    DocumentLoadFailed,
    NoPages,
    PageAccessFailed,
    ExtractionFailed,
    RenderFailed,
    EncodeFailed,
    DecodeFailed,
    ArchiveOpenFailed,
    ArchiveEntryReadFailed,
    ExternalToolFailed,
    NoImagesFound,
    SerializationFailed,
    InvalidQuality,
}

} // verus!
