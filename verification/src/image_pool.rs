//! The images on offer, and how far each has come on its way to the GPU.
//!
//! Decoding and uploading are the caller's business. The pool says what is
//! to be done next for an image, and is told how it went. An image that
//! failed to load is not tried again.

use crate::image_loading::{format_of_extension, image_format};
use crate::path::extension;
use crate::text::string_views;
use crate::texture::Texture;
use vstd::prelude::*;

verus! {

/// How far the loading of an image has come.
#[derive(Clone, Copy, Debug, PartialEq, Eq, Structural)]
pub enum PooledImageLoadStatus {
    NotLoaded,
    FailedToLoad,
    Loaded,
}

struct PooledImage {
    path: String,
    image: PooledImageLoadStatus,
    texture: Option<Texture>,
}

/// The abstract state of one image of the pool.
pub struct ImageState {
    pub path: Seq<char>,
    pub image: PooledImageLoadStatus,
    pub texture: Option<Texture>,
}

impl PooledImage {
    spec fn state(self) -> ImageState {
        ImageState { path: self.path@, image: self.image, texture: self.texture }
    }
}

/// What is to be done next to get the texture of an image.
#[derive(Clone, Copy, Debug)]
pub enum TextureStep {
    /// Decode the file, then call `image_loaded`.
    Load,
    /// Upload the decoded image, then call `texture_created`.
    Upload,
    /// The texture is there.
    Ready(Texture),
    /// There is no such image, or it failed to load.
    Unavailable,
}

/// The step that an image in the state `image` calls for.
pub open spec fn step_for(image: ImageState) -> TextureStep {
    match image.image {
        PooledImageLoadStatus::NotLoaded => TextureStep::Load,
        PooledImageLoadStatus::FailedToLoad => TextureStep::Unavailable,
        PooledImageLoadStatus::Loaded => match image.texture {
            Some(texture) => TextureStep::Ready(texture),
            None => TextureStep::Upload,
        },
    }
}

/// Whether the file at `path` has the extension of an image format that
/// can be decoded.
pub fn is_supported_image_file_extension(path: &str) -> (supported: bool)
    ensures
        supported == format_of_extension(extension(path@)) is Some,
{
    image_format(path).is_some()
}

/// The files among `files` that can be shown, in order.
pub open spec fn supported_files(files: Seq<Seq<char>>) -> Seq<Seq<char>> {
    files.filter(|path: Seq<char>| format_of_extension(extension(path)) is Some)
}

/// The images that the viewer can show.
pub struct ImagePool {
    images: Vec<PooledImage>,
}

impl View for ImagePool {
    type V = Seq<ImageState>;

    closed spec fn view(&self) -> Seq<ImageState> {
        Seq::new(self.images@.len(), |i: int| self.images@[i].state())
    }
}

/// The images after the news of how decoding the image at `idx` went. Only
/// an image that is not loaded yet takes the news.
pub open spec fn after_load(images: Seq<ImageState>, idx: int, ok: bool) -> Seq<ImageState> {
    if 0 <= idx < images.len() && images[idx].image == PooledImageLoadStatus::NotLoaded {
        images.update(
            idx,
            ImageState {
                image: if ok {
                    PooledImageLoadStatus::Loaded
                } else {
                    PooledImageLoadStatus::FailedToLoad
                },
                ..images[idx]
            },
        )
    } else {
        images
    }
}

/// The images after a texture was made for the image at `idx`. Only a
/// loaded image without a texture takes it.
pub open spec fn after_upload(images: Seq<ImageState>, idx: int, texture: Texture) -> Seq<
    ImageState,
> {
    if 0 <= idx < images.len() && images[idx].image == PooledImageLoadStatus::Loaded
        && images[idx].texture is None {
        images.update(idx, ImageState { texture: Some(texture), ..images[idx] })
    } else {
        images
    }
}

/// A fresh image: not loaded, without texture.
pub open spec fn fresh_image(path: Seq<char>) -> ImageState {
    ImageState { path, image: PooledImageLoadStatus::NotLoaded, texture: None }
}

impl ImagePool {
    /// The pool of a single image file, whatever its extension.
    pub fn from_file(path: String) -> (pool: ImagePool)
        ensures
            pool@ == seq![fresh_image(path@)],
    {
        let mut images: Vec<PooledImage> = Vec::new();
        images.push(PooledImage { path, image: PooledImageLoadStatus::NotLoaded, texture: None });
        let pool = ImagePool { images };
        assert(pool@ =~= seq![fresh_image(path@)]);
        pool
    }

    /// The pool of the files of a directory: those with the extension of
    /// an image format that can be decoded, in the order given.
    pub fn new(files: Vec<String>) -> (pool: ImagePool)
        ensures
            pool@ == supported_files(string_views(files@)).map_values(
                |path: Seq<char>| fresh_image(path),
            ),
    {
        let ghost views = string_views(files@);
        let ghost keep = |path: Seq<char>| format_of_extension(extension(path)) is Some;
        let mut images: Vec<PooledImage> = Vec::new();
        let mut i: usize = 0;
        assert(views.take(0) =~= Seq::empty());
        while i < files.len()
            invariant
                i <= files.len(),
                views == string_views(files@),
                keep == |path: Seq<char>| format_of_extension(extension(path)) is Some,
                images@.len() == views.take(i as int).filter(keep).len(),
                forall|k: int|
                    0 <= k < images@.len() ==> (#[trigger] images@[k]).state() == fresh_image(
                        views.take(i as int).filter(keep)[k],
                    ),
            decreases files.len() - i,
        {
            let ghost done = views.take(i as int);
            let ghost next = views.take(i + 1);
            proof {
                assert(next.drop_last() =~= done);
                assert(next.last() == files@[i as int]@);
                reveal(Seq::filter);
            }
            if is_supported_image_file_extension(files[i].as_str()) {
                images.push(
                    PooledImage {
                        path: files[i].clone(),
                        image: PooledImageLoadStatus::NotLoaded,
                        texture: None,
                    },
                );
                proof {
                    assert(next.filter(keep) =~= done.filter(keep).push(next.last()));
                }
            } else {
                proof {
                    assert(next.filter(keep) =~= done.filter(keep));
                }
            }
            i += 1;
        }
        let pool = ImagePool { images };
        proof {
            assert(views.take(files.len() as int) =~= views);
            assert(pool@ =~= supported_files(views).map_values(|path: Seq<char>| fresh_image(path)));
        }
        pool
    }

    /// The number of images.
    pub fn image_count(&self) -> (n: usize)
        ensures
            n == self@.len(),
    {
        self.images.len()
    }

    /// The path of the image at `idx`.
    pub fn get_image_path(&self, idx: usize) -> (path: Option<&String>)
        ensures
            match path {
                Some(p) => idx < self@.len() && p@ == self@[idx as int].path,
                None => idx >= self@.len(),
            },
    {
        if idx < self.images.len() {
            Some(&self.images[idx].path)
        } else {
            None
        }
    }

    /// What is to be done next to get the texture of the image at `idx`.
    pub fn get_texture(&self, idx: usize) -> (step: TextureStep)
        ensures
            step == if idx < self@.len() {
                step_for(self@[idx as int])
            } else {
                TextureStep::Unavailable
            },
    {
        if idx >= self.images.len() {
            return TextureStep::Unavailable;
        }
        let img = &self.images[idx];
        match img.image {
            PooledImageLoadStatus::NotLoaded => TextureStep::Load,
            PooledImageLoadStatus::FailedToLoad => TextureStep::Unavailable,
            PooledImageLoadStatus::Loaded => match img.texture {
                Some(texture) => TextureStep::Ready(texture),
                None => TextureStep::Upload,
            },
        }
    }

    /// Records how decoding the image at `idx` went. Only an image that is
    /// not loaded yet takes the news; for any other nothing changes.
    pub fn image_loaded(&mut self, idx: usize, ok: bool)
        ensures
            final(self)@ == after_load(old(self)@, idx as int, ok),
    {
        if idx < self.images.len() {
            let not_loaded = match self.images[idx].image {
                PooledImageLoadStatus::NotLoaded => true,
                _ => false,
            };
            if not_loaded {
                self.images[idx].image = if ok {
                    PooledImageLoadStatus::Loaded
                } else {
                    PooledImageLoadStatus::FailedToLoad
                };
                assert(self@ =~= old(self)@.update(idx as int, self@[idx as int]));
                return ;
            }
        }
        assert(self@ =~= old(self)@);
    }

    /// Records the texture that was made for the loaded image at `idx`.
    /// Only a loaded image without a texture takes it; for any other
    /// nothing changes.
    pub fn texture_created(&mut self, idx: usize, texture: Texture)
        ensures
            final(self)@ == after_upload(old(self)@, idx as int, texture),
    {
        if idx < self.images.len() {
            let loaded = match self.images[idx].image {
                PooledImageLoadStatus::Loaded => true,
                _ => false,
            };
            if loaded && self.images[idx].texture.is_none() {
                self.images[idx].texture = Some(texture);
                assert(self@ =~= old(self)@.update(idx as int, self@[idx as int]));
                return ;
            }
        }
        assert(self@ =~= old(self)@);
    }
}

} // verus!
