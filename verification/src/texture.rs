//! The description of a texture that lives on the GPU.

use vstd::prelude::*;

verus! {

/// A texture object: its target, its size in texels, its name and the
/// format of its storage.
#[derive(Clone, Copy, Debug)]
pub struct Texture {
    pub ty: u32,
    pub size: [usize; 2],
    pub id: u32,
    pub internal_format: u32,
}

/// The target of one-dimensional textures.
pub const TEXTURE_1D: u32 = 0x0DE0;

/// The target of two-dimensional textures.
pub const TEXTURE_2D: u32 = 0x0DE1;

/// The format of three 32-bit floating point channels.
pub const RGB32F: u32 = 0x8815;

impl Texture {
    /// Describes the two-dimensional texture `id`, which holds an image of
    /// `size` texels as three floating point channels.
    pub fn new_2d(id: u32, size: [usize; 2]) -> (texture: Texture)
        ensures
            texture == (Texture { ty: TEXTURE_2D, size, id, internal_format: RGB32F }),
    {
        Texture { ty: TEXTURE_2D, size, id, internal_format: RGB32F }
    }

    /// Describes the one-dimensional texture `id`, `width` texels wide.
    pub fn new_1d(id: u32, width: u32, internal_format: u32) -> (texture: Texture)
        ensures
            texture.ty == TEXTURE_1D,
            texture.id == id,
            texture.internal_format == internal_format,
            texture.size[0] == width,
            texture.size[1] == 1,
    {
        let size: [usize; 2] = [width as usize, 1];
        Texture { ty: TEXTURE_1D, size, id, internal_format }
    }
}

} // verus!
