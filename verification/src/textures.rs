use vstd::prelude::*;
use std::collections::HashMap;
use crate::color::Color;
use crate::menu::MapOption;

verus! {

broadcast use vstd::std_specs::hash::group_hash_axioms;

/// An image as 8-bit RGBA pixels, row by row, four bytes per pixel.
pub struct ImageData {
    pub width: u32,
    pub height: u32,
    pub data: Vec<u8>,
}

impl ImageData {
    /// The pixel bytes are exactly `width * height * 4`.
    pub open spec fn wf(&self) -> bool {
        self.data@.len() == self.width * self.height * 4
    }
}

/// The colour at pixel `(x, y)` of `image`: the four bytes of that pixel, or
/// white off the image.
pub open spec fn pixel_color(image: ImageData, x: int, y: int) -> Color {
    if x < 0 || y < 0 || x >= image.width || y >= image.height {
        Color { r: 255, g: 255, b: 255, a: 255 }
    } else {
        let idx = (y * image.width + x) * 4;
        Color { r: image.data@[idx], g: image.data@[idx + 1], b: image.data@[idx + 2], a: image.data@[idx + 3] }
    }
}

proof fn lemma_pixel_index(w: int, h: int, x: int, y: int)
    by (nonlinear_arith)
    requires
        0 <= x < w,
        0 <= y < h,
    ensures
        0 <= (y * w + x) * 4,
        (y * w + x) * 4 + 3 < w * h * 4,
{
}

/// The colour at pixel `(x, y)` of `image`, white off the image.
pub fn get_pixel_color(image: &ImageData, x: i32, y: i32) -> (c: Color)
    requires
        image.wf(),
    ensures
        c == pixel_color(*image, x as int, y as int),
{
    let width = image.width as usize;
    let height = image.height as usize;
    if x < 0 || y < 0 || x as usize >= width || y as usize >= height {
        return Color::white();
    }
    let x = x as usize;
    let y = y as usize;
    let data_len: usize = image.data.len();
    proof {
        lemma_pixel_index(width as int, height as int, x as int, y as int);
    }
    let idx = (y * width + x) * 4;
    if idx + 3 >= data_len {
        return Color::white();
    }
    Color::new(image.data[idx], image.data[idx + 1], image.data[idx + 2], image.data[idx + 3])
}

/// The images and sizes of the textures, by texture key.
pub struct TextureManager {
    images: HashMap<u32, ImageData>,
    dimensions: HashMap<u32, (u32, u32)>,
}

impl TextureManager {
    /// The image held for texture key `ch`.
    pub closed spec fn image_for(&self, ch: char) -> Option<ImageData> {
        if self.images@.contains_key(ch as u32) {
            Some(self.images@[ch as u32])
        } else {
            None
        }
    }

    /// The size recorded for texture key `ch`.
    pub closed spec fn dims_for(&self, ch: char) -> Option<(u32, u32)> {
        if self.dimensions@.contains_key(ch as u32) {
            Some(self.dimensions@[ch as u32])
        } else {
            None
        }
    }

    /// The colour of texel `(tx, ty)` of texture `ch`: the coordinates are
    /// clamped to the last column and row of the image; white without an image.
    pub open spec fn texel(&self, ch: char, tx: u32, ty: u32) -> Color {
        match self.image_for(ch) {
            Some(img) => pixel_color(
                img,
                (if tx < img.width - 1 { tx } else { (img.width - 1) as u32 }) as i32 as int,
                (if ty < img.height - 1 { ty } else { (img.height - 1) as u32 }) as i32 as int,
            ),
            None => Color { r: 255, g: 255, b: 255, a: 255 },
        }
    }

    /// Every image held has its full pixel data.
    pub closed spec fn wf(&self) -> bool {
        forall|k: u32| #[trigger] self.images@.contains_key(k) ==> self.images@[k].wf()
    }

    /// No textures.
    pub fn new() -> (tm: TextureManager)
        ensures
            tm.wf(),
            forall|ch: char| #[trigger] tm.image_for(ch) is None && tm.dims_for(ch) is None,
    {
        TextureManager { images: HashMap::new(), dimensions: HashMap::new() }
    }

    /// Records the size of texture `ch`.
    pub fn insert_dimensions(&mut self, ch: char, width: u32, height: u32)
        requires
            old(self).wf(),
        ensures
            final(self).wf(),
            final(self).dims_for(ch) == Some((width, height)),
            forall|other: char| other as u32 != ch as u32 ==> #[trigger] final(self).dims_for(other) == old(self).dims_for(other),
            forall|any: char| #[trigger] final(self).image_for(any) == old(self).image_for(any),
    {
        self.dimensions.insert(ch as u32, (width, height));
    }

    /// Holds `image` as the pixels of texture `ch`.
    pub fn insert_image(&mut self, ch: char, image: ImageData)
        requires
            old(self).wf(),
            image.wf(),
        ensures
            final(self).wf(),
            final(self).image_for(ch) == Some(image),
            forall|other: char| other as u32 != ch as u32 ==> #[trigger] final(self).image_for(other) == old(self).image_for(other),
            forall|any: char| #[trigger] final(self).dims_for(any) == old(self).dims_for(any),
    {
        self.images.insert(ch as u32, image);
    }

    /// An image is held for texture `ch`.
    pub fn has_image(&self, ch: char) -> (r: bool)
        ensures
            r == self.image_for(ch) is Some,
    {
        self.images.contains_key(&(ch as u32))
    }

    /// The colour of texel `(tx, ty)` of texture `ch`, the coordinates clamped
    /// to the image; white when there is no image for `ch`.
    pub fn get_pixel_color(&self, ch: char, tx: u32, ty: u32) -> (c: Color)
        requires
            self.wf(),
            self.image_for(ch) matches Some(img) ==> img.width > 0 && img.height > 0,
        ensures
            c == self.texel(ch, tx, ty),
    {
        match self.images.get(&(ch as u32)) {
            Some(image) => {
                let x = if tx < image.width - 1 { tx } else { image.width - 1 } as i32;
                let y = if ty < image.height - 1 { ty } else { image.height - 1 } as i32;
                get_pixel_color(image, x, y)
            },
            None => Color::white(),
        }
    }

    /// The size of texture `ch`, or 128 x 128 when none is recorded.
    pub fn get_dimensions(&self, ch: char) -> (d: (u32, u32))
        ensures
            d == (match self.dims_for(ch) {
                Some(d) => d,
                None => (128u32, 128u32),
            }),
    {
        match self.dimensions.get(&(ch as u32)) {
            Some(d) => *d,
            None => (128, 128),
        }
    }

    /// The width of texture `ch`, or 128.
    pub fn get_width(&self, ch: char) -> (w: u32)
        ensures
            w == self.get_dimensions_spec(ch).0,
    {
        self.get_dimensions(ch).0
    }

    /// The height of texture `ch`, or 128.
    pub fn get_height(&self, ch: char) -> (h: u32)
        ensures
            h == self.get_dimensions_spec(ch).1,
    {
        self.get_dimensions(ch).1
    }

    /// The size of texture `ch`, or 128 x 128 when none is recorded.
    pub open spec fn get_dimensions_spec(&self, ch: char) -> (u32, u32) {
        match self.dims_for(ch) {
            Some(d) => d,
            None => (128u32, 128u32),
        }
    }

    /// A packed ARGB pixel (alpha in the top byte) is treated as transparent
    /// when its alpha is below 10.
    pub fn is_pixel_transparent(&self, _texture_key: u32, color: u32) -> (r: bool)
        ensures
            r == (color / 0x100_0000 < 10),
    {
        let alpha = (color >> 24) & 0xFF;
        assert(alpha == color / 0x100_0000) by (bit_vector)
            requires
                alpha == (color >> 24) & 0xFF,
        ;
        alpha < 10
    }
}

/// The textures loaded at start: the key of each wall kind and its image file.
pub fn base_texture_files() -> (files: Vec<(char, &'static str)>)
    ensures
        files@.len() == 3,
        files@[0].0 == '+' && files@[0].1@ == "assets/fondoV.png"@,
        files@[1].0 == '|' && files@[1].1@ == "assets/fondo1.png"@,
        files@[2].0 == '-' && files@[2].1@ == "assets/fondo1.png"@,
{
    let mut files: Vec<(char, &'static str)> = Vec::new();
    files.push(('+', "assets/fondoV.png"));
    files.push(('|', "assets/fondo1.png"));
    files.push(('-', "assets/fondo1.png"));
    files
}

/// The special-wall textures of a map: the broken map under key `'*'`, then
/// the restored map under key `'$'`.
pub fn map_texture_files(option: &MapOption) -> (files: Vec<(char, String)>)
    ensures
        files@.len() == 2,
        files@[0].0 == '*' && files@[0].1@ == option.broken_map_texture@,
        files@[1].0 == '$' && files@[1].1@ == option.fixed_map_texture@,
{
    let mut files: Vec<(char, String)> = Vec::new();
    files.push(('*', option.broken_map_texture.clone()));
    files.push(('$', option.fixed_map_texture.clone()));
    files
}

} // verus!
