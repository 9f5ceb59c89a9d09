//! The pixel buffer that a render fills.
//!
//! An [`Image`] is a grid of `width` by `height` pixels, stored row by row from
//! the top, four bytes to the pixel in the order red, green, blue, alpha. Its
//! view is that sequence of bytes; [`Image::pixel`] reads one pixel out of it.

use vstd::prelude::*;

verus! {

/// One pixel: red, green, blue and alpha, a byte each.
#[derive(Clone, Copy, Debug, PartialEq, Eq, Structural)]
pub struct Rgba {
    pub r: u8,
    pub g: u8,
    pub b: u8,
    pub a: u8,
}

impl Rgba {
    pub fn new(r: u8, g: u8, b: u8, a: u8) -> (rgba: Self)
        ensures
            rgba == (Rgba { r, g, b, a }),
    {
        Self { r, g, b, a }
    }
}

/// The place of the first byte of pixel `(x, y)` in a buffer of rows `width` pixels long.
pub open spec fn pixel_offset(width: int, x: int, y: int) -> int {
    (y * width + x) * 4
}

/// The bytes `bytes` with the four from `offset` on replaced by those of `rgba`.
pub open spec fn with_pixel(bytes: Seq<u8>, offset: int, rgba: Rgba) -> Seq<u8> {
    bytes.update(offset, rgba.r).update(offset + 1, rgba.g).update(offset + 2, rgba.b).update(
        offset + 3,
        rgba.a,
    )
}

/// The pixel that starts at `offset` in `bytes`.
pub open spec fn pixel_in(bytes: Seq<u8>, offset: int) -> Rgba {
    Rgba { r: bytes[offset], g: bytes[offset + 1], b: bytes[offset + 2], a: bytes[offset + 3] }
}

/// A grid of RGBA pixels.
pub struct Image {
    width: u32,
    height: u32,
    pixel_data: Vec<u8>,
    channels: u32,
}

impl View for Image {
    type V = Seq<u8>;

    /// The bytes of all pixels, row by row.
    closed spec fn view(&self) -> Seq<u8> {
        self.pixel_data@
    }
}

impl Image {
    /// Every image holds four bytes for each of its `width * height` pixels.
    #[verifier::type_invariant]
    pub closed spec fn wf(self) -> bool {
        &&& self.channels == 4
        &&& self.pixel_data@.len() == self.width * self.height * 4
    }

    pub closed spec fn spec_width(&self) -> u32 {
        self.width
    }

    pub closed spec fn spec_height(&self) -> u32 {
        self.height
    }

    /// Whether `(x, y)` names a pixel of this image.
    pub open spec fn in_bounds(&self, x: int, y: int) -> bool {
        0 <= x < self.width() && 0 <= y < self.height()
    }

    /// The pixel in column `x` of row `y`.
    pub open spec fn pixel(&self, x: int, y: int) -> Rgba
        recommends
            self.in_bounds(x, y),
    {
        pixel_in(self@, pixel_offset(self.width() as int, x, y))
    }

    /// An image of the given size with every byte zero: transparent black.
    pub fn new(width: u32, height: u32) -> (image: Self)
        requires
            width * height * 4 <= usize::MAX,
        ensures
            image.width() == width,
            image.height() == height,
            image@ == Seq::new((width * height * 4) as nat, |i: int| 0u8),
    {
        let channels: u32 = 4;
        assert(width * height <= width * height * 4) by (nonlinear_arith);
        let pixels: usize = Self::assert_usize(width) * Self::assert_usize(height);
        let pixel_data_length: usize = pixels * Self::assert_usize(channels);
        let pixel_data: Vec<u8> = vec![0u8; pixel_data_length];
        assert(pixel_data@ =~= Seq::new((width * height * 4) as nat, |i: int| 0u8));
        Self { width, height, pixel_data, channels }
    }

    /// Writes `rgba` to the pixel in column `x` of row `y`. A position outside
    /// the image leaves it as it was.
    pub fn set_pixel(&mut self, x: u32, y: u32, rgba: Rgba)
        ensures
            final(self).width() == old(self).width(),
            final(self).height() == old(self).height(),
            old(self).in_bounds(x as int, y as int) ==> final(self)@ == with_pixel(
                old(self)@,
                pixel_offset(old(self).width() as int, x as int, y as int),
                rgba,
            ),
            !old(self).in_bounds(x as int, y as int) ==> final(self)@ == old(self)@,
            final(self)@.len() == old(self)@.len(),
            old(self).in_bounds(x as int, y as int) ==> final(self).pixel(x as int, y as int)
                == rgba,
            forall|i: int, j: int|
                old(self).in_bounds(i, j) && (i != x || j != y) ==> #[trigger] final(self).pixel(
                    i,
                    j,
                ) == old(self).pixel(i, j),
    {
        proof {
            use_type_invariant(&*self);
            let width = self.width as int;
            let height = self.height as int;
            if self.in_bounds(x as int, y as int) {
                lemma_pixel_fits(width, height, x as int, y as int);
                assert forall|i: int, j: int|
                    self.in_bounds(i, j) && (i != x || j != y) implies pixel_in(
                    with_pixel(self@, pixel_offset(width, x as int, y as int), rgba),
                    pixel_offset(width, i, j),
                ) == pixel_in(self@, pixel_offset(width, i, j)) by {
                    lemma_pixels_apart(width, height, x as int, y as int, i, j);
                    lemma_pixel_fits(width, height, i, j);
                }
            }
        }
        if x >= self.width || y >= self.height {
            return ;
        }
        assert(self.pixel_data.len() == self.width * self.height * 4);
        assert(y * self.width + x < self.width * self.height * 4);
        let row: usize = Self::assert_usize(y) * Self::assert_usize(self.width);
        let index: usize = (row + Self::assert_usize(x)) * Self::assert_usize(self.channels);
        self.pixel_data[index] = rgba.r;
        self.pixel_data[index + 1] = rgba.g;
        self.pixel_data[index + 2] = rgba.b;
        self.pixel_data[index + 3] = rgba.a;
    }

    /// A copy of the bytes of all pixels, row by row.
    pub fn data(&self) -> (bytes: Vec<u8>)
        ensures
            bytes@ == self@,
            bytes@.len() == self.width() * self.height() * 4,
    {
        proof {
            use_type_invariant(self);
        }
        let bytes = self.pixel_data.clone();
        assert(bytes@ =~= self.pixel_data@);
        bytes
    }

    #[verifier::when_used_as_spec(spec_width)]
    pub fn width(&self) -> (width: u32)
        ensures
            width == self.width(),
    {
        self.width
    }

    #[verifier::when_used_as_spec(spec_height)]
    pub fn height(&self) -> (height: u32)
        ensures
            height == self.height(),
    {
        self.height
    }

    /// The same number as a `usize`, which is at least as wide.
    fn assert_usize(value: u32) -> (result: usize)
        ensures
            result == value,
    {
        value as usize
    }
}

/// The four bytes of a pixel inside a `width` by `height` grid lie inside its buffer.
pub proof fn lemma_pixel_fits(width: int, height: int, x: int, y: int)
    requires
        0 <= x < width,
        0 <= y < height,
    ensures
        0 <= y * width <= y * width + x,
        0 <= pixel_offset(width, x, y),
        pixel_offset(width, x, y) + 4 <= width * height * 4,
{
    assert(y * width >= 0) by (nonlinear_arith)
        requires
            0 <= y,
            0 <= width,
    ;
    assert((y + 1) * width <= height * width) by (nonlinear_arith)
        requires
            y + 1 <= height,
            0 <= width,
    ;
    assert((y + 1) * width == y * width + width) by (nonlinear_arith);
    assert(height * width == width * height) by (nonlinear_arith);
}

/// Two different pixels of one grid share no byte.
pub proof fn lemma_pixels_apart(width: int, height: int, x: int, y: int, i: int, j: int)
    requires
        0 <= x < width,
        0 <= y < height,
        0 <= i < width,
        0 <= j < height,
        i != x || j != y,
    ensures
        pixel_offset(width, x, y) + 4 <= pixel_offset(width, i, j) || pixel_offset(width, i, j)
            + 4 <= pixel_offset(width, x, y),
{
    if y < j {
        assert((y + 1) * width <= j * width) by (nonlinear_arith)
            requires
                y + 1 <= j,
                0 <= width,
        ;
        assert((y + 1) * width == y * width + width) by (nonlinear_arith);
    } else if j < y {
        assert((j + 1) * width <= y * width) by (nonlinear_arith)
            requires
                j + 1 <= y,
                0 <= width,
        ;
        assert((j + 1) * width == j * width + width) by (nonlinear_arith);
    }
}

} // verus!
