//! Conversion between PDF documents and paginated image archives (CBZ/CBR).
//!
//! The library holds the decisions of the conversion: which embedded image of a
//! page is worth extracting, how the two page populations (extracted and
//! rendered) are recombined in page order, how archives are packed and
//! unpacked, and how each image is placed on an output page.
pub mod error;
pub mod candidate;
pub mod naming;
pub mod pipeline;
pub mod ordering;
pub mod archive;
pub mod container;
pub mod codec;
pub mod assemble;
pub mod messages;
pub mod settings;
