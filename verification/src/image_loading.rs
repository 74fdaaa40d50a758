//! Which decoder an image file calls for.

use crate::path::{extension, extension_of};
use vstd::prelude::*;

verus! {

/// The image file formats that can be decoded.
#[derive(Clone, Copy, Debug, PartialEq, Eq, Structural)]
pub enum ImageFormat {
    /// OpenEXR, by the extension `exr`.
    Exr,
    /// Radiance HDR, by the extension `hdr`.
    Hdr,
}

/// The format that an extension stands for.
pub open spec fn format_of_extension(ext: Option<Seq<char>>) -> Option<ImageFormat> {
    if ext == Some("exr"@) {
        Some(ImageFormat::Exr)
    } else if ext == Some("hdr"@) {
        Some(ImageFormat::Hdr)
    } else {
        None
    }
}

/// The format of the image file at `path`, by its extension. The
/// extension is compared as it is written: `EXR` is not `exr`.
pub fn image_format(path: &str) -> (format: Option<ImageFormat>)
    ensures
        format == format_of_extension(extension(path@)),
{
    match extension_of(path) {
        Some(ext) => {
            let exr = "exr".to_owned();
            let hdr = "hdr".to_owned();
            if ext == exr {
                Some(ImageFormat::Exr)
            } else if ext == hdr {
                Some(ImageFormat::Hdr)
            } else {
                None
            }
        },
        None => None,
    }
}

/// The position of the first channel of the pixel at (`x`, `y`) in the
/// buffer of an image `width` pixels wide, three channels to the pixel.
pub fn pixel_offset(width: usize, x: usize, y: usize) -> (offset: usize)
    requires
        (y * width + x) * 3 <= usize::MAX,
    ensures
        offset == (y * width + x) * 3,
{
    proof {
        assert(y * width <= (y * width + x) * 3) by (nonlinear_arith)
            requires
                y >= 0,
                width >= 0,
                x >= 0,
        ;
        assert(y * width + x <= (y * width + x) * 3) by (nonlinear_arith)
            requires
                y * width >= 0,
                x >= 0,
        ;
    }
    (y * width + x) * 3
}

} // verus!
