//! From the bytes of an image file to a square of grey intensities.
//!
//! Decoding, the conversion to grey and the resampling are the `image`
//! crate's work, and nothing in this module is proved. What comes out of
//! that work is given a name, `decoded`, and the rest of the crate is
//! verified for whatever that name stands for.

use crate::grid::valid_side;
use image::imageops::FilterType;
use image::{GenericImageView, ImageError, ImageFormat};
use vstd::prelude::*;

verus! {

/// The kinds of failure that the `image` crate tells apart.
#[derive(Clone, Copy, Debug, PartialEq, Eq, Structural)]
pub enum FailureKind {
    /// The content does not conform to the format it claims.
    Decoding,
    /// An image cannot be written in the chosen format.
    Encoding,
    /// An argument of an operation on images was out of range.
    Parameter,
    /// The image needs more memory than decoding is allowed to take.
    Limits,
    /// The format is unknown, or this build cannot read it.
    Unsupported,
    /// Reading the content failed.
    Io,
}

/// A failure to decode: its kind, and the decoder's own account of it.
#[derive(Debug)]
pub struct LoadFailure {
    pub kind: FailureKind,
    pub detail: String,
}

/// What decoding the bytes of a file gives: the grey intensities, row by
/// row, of the image resampled to a square with side `side`, or the kind of
/// the failure. The format is the one that the extension of `path` names.
pub uninterp spec fn decoded(path: Seq<char>, bytes: Seq<u8>, side: u32) -> Result<
    Seq<u8>,
    FailureKind,
>;

/// Decodes `bytes` in the format that the extension of `path` names
/// (`ImageFormat::from_path`, `image::load_from_memory_with_format`), turns
/// the image grey (`DynamicImage::grayscale`), then resamples it to `side`
/// by `side` pixels with the triangle filter (`DynamicImage::resize_exact`),
/// and hands out the first channel of each pixel, row by row
/// (`GenericImageView::pixels`). A failure comes back with the variant of
/// `image::ImageError` that it is, and with its `Debug` text.
///
/// Believed of these calls: the outcome, but for the text, depends on the
/// three arguments only, and a resampled image has `side * side` pixels.
#[verifier::external_body]
pub(crate) fn load_luma(path: &str, bytes: &[u8], side: u32) -> (loaded: Result<
    Vec<u8>,
    LoadFailure,
>)
    requires
        valid_side(side),
    ensures
        match loaded {
            Ok(pixels) => decoded(path@, bytes@, side) == Ok::<Seq<u8>, FailureKind>(pixels@)
                && pixels@.len() == side * side,
            Err(failure) => decoded(path@, bytes@, side) == Err::<Seq<u8>, FailureKind>(
                failure.kind,
            ),
        },
{
    let image = ImageFormat::from_path(path)
        .and_then(|format| image::load_from_memory_with_format(bytes, format))
        .map_err(|error| LoadFailure {
            detail: format!("{:?}", error),
            kind: match error {
                ImageError::Decoding(_) => FailureKind::Decoding,
                ImageError::Encoding(_) => FailureKind::Encoding,
                ImageError::Parameter(_) => FailureKind::Parameter,
                ImageError::Limits(_) => FailureKind::Limits,
                ImageError::Unsupported(_) => FailureKind::Unsupported,
                ImageError::IoError(_) => FailureKind::Io,
            },
        })?;
    let small = image.grayscale().resize_exact(side, side, FilterType::Triangle);
    Ok(small.pixels().map(|(_, _, pixel)| pixel[0]).collect())
}

} // verus!
