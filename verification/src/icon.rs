//! The application's own icon: an ICO file decoded to RGBA pixels.

use vstd::prelude::*;

verus! {

/// The error of the `image` crate, carried through without looking inside.
#[verifier::external_type_specification]
#[verifier::external_body]
pub struct ExImageError(image::ImageError);

/// The pixels of the ICO file `bytes` in 8-bit RGBA, with its width and
/// height, or `None` when `bytes` are not an ICO file that the decoder reads.
pub uninterp spec fn ico_rgba(bytes: Seq<u8>) -> Option<(Seq<u8>, u32, u32)>;

/// Decodes with `image::load_from_memory_with_format` and the crate's own ICO
/// decoder (no format guessing, so no hook registered elsewhere in the process
/// takes part), and converts the result with `into_rgba8`. The contract names
/// the outcome and says no more: it depends on the bytes alone.
#[verifier::external_body]
fn decode_ico_rgba8(bytes: &[u8]) -> (r: Result<(Vec<u8>, u32, u32), image::ImageError>)
    ensures
        match r {
            Ok((rgba, width, height)) => ico_rgba(bytes@) == Some((rgba@, width, height)),
            Err(_) => ico_rgba(bytes@) is None,
        },
{
    match image::load_from_memory_with_format(bytes, image::ImageFormat::Ico) {
        Ok(decoded) => {
            let rgba = decoded.into_rgba8();
            let (width, height) = rgba.dimensions();
            Ok((rgba.into_raw(), width, height))
        },
        Err(e) => Err(e),
    }
}

/// An image as RGBA pixels, row by row.
#[derive(Debug, Clone)]
pub struct IconImage {
    pub rgba: Vec<u8>,
    pub width: u32,
    pub height: u32,
}

/// Why the icon could not be loaded.
#[derive(Debug, Clone, Copy, PartialEq, Eq)]
pub enum IconError {
    /// The bytes are not an ICO file that the decoder reads.
    Undecodable,
}

/// The icon held in the ICO file `bytes`.
pub fn load_icon(bytes: &[u8]) -> (r: Result<IconImage, IconError>)
    ensures
        match r {
            Ok(icon) => ico_rgba(bytes@) == Some((icon.rgba@, icon.width, icon.height)),
            Err(IconError::Undecodable) => ico_rgba(bytes@) is None,
        },
{
    match decode_ico_rgba8(bytes) {
        Ok((rgba, width, height)) => Ok(IconImage { rgba, width, height }),
        Err(_) => Err(IconError::Undecodable),
    }
}

} // verus!
