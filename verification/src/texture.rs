//! Pixel storage behind the texture the embedding shows: a plain RGBA
//! buffer sized to the map, replaced wholesale on each rendered frame.  The
//! texture system itself (handles, frame signalling) lives in the embedding;
//! the handle type here mirrors its interface.

use crate::session::MapSize;
use vstd::prelude::*;

verus! {

/// Bytes one pixel occupies: red, green, blue, alpha.
pub const BYTES_PER_PIXEL: u64 = 4;

/// The pixel count of a size, in bytes, for an RGBA buffer.
pub open spec fn spec_pixel_bytes(size: MapSize) -> int {
    size.width * size.height * BYTES_PER_PIXEL
}

/// The pixel buffer behind one displayed texture.
pub struct TexturePixelProvider {
    /// The RGBA bytes, row-major.
    pub pixel_data: Vec<u8>,
    /// The size the buffer is laid out for.
    pub size: MapSize,
}

impl TexturePixelProvider {
    /// The buffer length matches the size it is laid out for.
    pub open spec fn wf(self) -> bool {
        self.pixel_data@.len() == spec_pixel_bytes(self.size)
    }

    /// Allocates a zeroed buffer for the size.
    pub fn new(size: MapSize) -> (r: TexturePixelProvider)
        requires
            size.width * size.height * BYTES_PER_PIXEL <= usize::MAX,
        ensures
            r.wf(),
            r.size == size,
            forall|i: int| 0 <= i < r.pixel_data@.len() ==> r.pixel_data@[i] == 0,
    {
        proof {
            assert(size.width * size.height * (BYTES_PER_PIXEL as int) == (size.width
                * size.height) * (BYTES_PER_PIXEL as int)) by (nonlinear_arith);
        }
        let per_row = size.width as u64;
        let count = per_row * size.height as u64 * BYTES_PER_PIXEL;
        let mut pixel_data: Vec<u8> = Vec::new();
        let mut i: u64 = 0;
        while i < count
            invariant
                0 <= i <= count,
                pixel_data@.len() == i,
                forall|j: int| 0 <= j < i ==> pixel_data@[j] == 0,
            decreases count - i,
        {
            pixel_data.push(0);
            i += 1;
        }
        TexturePixelProvider { pixel_data, size }
    }

    /// Replaces the whole buffer with a freshly rendered frame.
    pub fn update_pixels(&mut self, new_pixels: Vec<u8>)
        ensures
            final(self).pixel_data@ == new_pixels@,
            final(self).size == old(self).size,
    {
        self.pixel_data = new_pixels;
    }

    /// Reallocates the buffer, zeroed, for a new size.
    pub fn resize(&mut self, new_size: MapSize)
        requires
            new_size.width * new_size.height * BYTES_PER_PIXEL <= usize::MAX,
        ensures
            final(self).wf(),
            final(self).size == new_size,
            forall|i: int|
                0 <= i < final(self).pixel_data@.len() ==> final(self).pixel_data@[i] == 0,
    {
        let fresh = TexturePixelProvider::new(new_size);
        self.pixel_data = fresh.pixel_data;
        self.size = new_size;
    }
}

/// Handle the embedding's texture bridge hands out.  The real texture
/// management lives in the embedding; this handle only mirrors its
/// interface, as a placeholder.
pub struct TextureHandle {
}

impl TextureHandle {
    /// A fresh placeholder handle; the dimensions are managed elsewhere.
    pub fn new(_width: u32, _height: u32) -> (r: TextureHandle)
        ensures
            r == (TextureHandle {  }),
    {
        TextureHandle {  }
    }

    /// The placeholder texture id.
    pub fn get_texture_id(&self) -> (r: i64)
        ensures
            r == 0,
    {
        0
    }

    /// Placeholder; pixel updates are handled by the embedding.
    pub fn update_pixels(&self, _pixels: Vec<u8>) {
    }

    /// Placeholder; resizing is handled by the embedding.
    pub fn resize(&self, _width: u32, _height: u32) {
    }

    /// Placeholder; cleanup is handled by the embedding.
    pub fn dispose(&self) {
    }
}

} // verus!
